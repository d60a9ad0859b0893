//! Error taxonomy: protocol-level errors raised by the codecs and
//! catalog-level errors raised by catalog and session operations.

use vstd::prelude::*;

verus! {

/// A protocol error: the payload of one frame could not be decoded.
/// These are non-fatal for a connection; the next frame is read as usual.
#[derive(Clone, Copy, Debug, PartialEq, Eq, Structural)]
pub enum ProtocolError {
    /// The leading discriminant byte does not identify any command.
    UnknownCommand,
    /// Bytes remained after the fields of the decoded variant.
    TrailingData,
    /// The payload ended before a field was complete.
    Truncated,
    /// A string field did not hold valid UTF-8.
    InvalidUtf8,
}

/// A catalog or session error: the command was well-formed but could not
/// be carried out against the current catalog or session state.
#[derive(Clone, Copy, Debug, PartialEq, Eq, Structural)]
pub enum CatalogError {
    /// A database or table of that name already exists.
    DuplicateName,
    /// A database handle does not resolve to any catalog entry.
    InvalidHandle,
    /// No database of the requested name exists.
    NotFound,
    /// The session has no open database.
    NoOpenDatabase,
}

impl ProtocolError {
    /// A short description, in place of a `Display` impl.
    pub fn message(&self) -> (r: &'static str)
        ensures
            r@.len() > 0,
    {
        let r = match self {
            ProtocolError::UnknownCommand => "unknown command discriminant",
            ProtocolError::TrailingData => "remaining data after command",
            ProtocolError::Truncated => "data too short for field",
            ProtocolError::InvalidUtf8 => "invalid utf-8 string",
        };
        proof {
            reveal_strlit("unknown command discriminant");
            reveal_strlit("remaining data after command");
            reveal_strlit("data too short for field");
            reveal_strlit("invalid utf-8 string");
        }
        r
    }
}

impl CatalogError {
    /// A short description, in place of a `Display` impl.
    pub fn message(&self) -> (r: &'static str)
        ensures
            r@.len() > 0,
    {
        let r = match self {
            CatalogError::DuplicateName => "name already in use",
            CatalogError::InvalidHandle => "invalid database handle",
            CatalogError::NotFound => "no database with that name",
            CatalogError::NoOpenDatabase => "no open database",
        };
        proof {
            reveal_strlit("name already in use");
            reveal_strlit("invalid database handle");
            reveal_strlit("no database with that name");
            reveal_strlit("no open database");
        }
        r
    }
}

} // verus!
