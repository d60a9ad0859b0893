//! The request codec: one message payload to one [`Command`] and back.
//!
//! A payload is a discriminant byte followed by exactly the fields that
//! discriminant requires. Decoding is strict: unread bytes after the fields
//! are a [`ProtocolError::TrailingData`] error, and an unrecognised
//! discriminant is [`ProtocolError::UnknownCommand`], never an abort.
//!
//! The laws at the bottom relate the two directions: decoding an encoded
//! command returns that command, re-encoding a decoded payload returns the
//! payload, and a payload with trailing bytes never decodes.

use vstd::prelude::*;
use vstd::slice::*;

use crate::command::{Command, CommandDiscriminant, CommandView};
use crate::errors::ProtocolError;
use crate::utils::{
    parse_string, serialise_string, spec_parse_string, spec_string_field, string_fits,
};

verus! {

/// The encoded form of a command: its discriminant byte, then its fields.
pub open spec fn spec_serialise_request(c: CommandView) -> Seq<u8> {
    match c {
        CommandView::CreateDatabase { name } => seq![0x00u8] + spec_string_field(name),
        CommandView::OpenDatabase { name } => seq![0x01u8] + spec_string_field(name),
        CommandView::CreateTable { name } => seq![0x02u8] + spec_string_field(name),
        CommandView::ListDatabases => seq![0x03u8],
        CommandView::ListTables => seq![0x04u8],
    }
}

/// What decoding a payload yields: the command, or the first error met.
pub open spec fn spec_parse_request(b: Seq<u8>) -> Result<CommandView, ProtocolError> {
    if b.len() == 0 {
        Err(ProtocolError::Truncated)
    } else {
        let rest = b.subrange(1, b.len() as int);
        if b[0] == 0x00 {
            match spec_parse_string(rest) {
                Ok(p) => if p.0.len() == 0 {
                    Ok(CommandView::CreateDatabase { name: p.1 })
                } else {
                    Err(ProtocolError::TrailingData)
                },
                Err(e) => Err(e),
            }
        } else if b[0] == 0x01 {
            match spec_parse_string(rest) {
                Ok(p) => if p.0.len() == 0 {
                    Ok(CommandView::OpenDatabase { name: p.1 })
                } else {
                    Err(ProtocolError::TrailingData)
                },
                Err(e) => Err(e),
            }
        } else if b[0] == 0x02 {
            match spec_parse_string(rest) {
                Ok(p) => if p.0.len() == 0 {
                    Ok(CommandView::CreateTable { name: p.1 })
                } else {
                    Err(ProtocolError::TrailingData)
                },
                Err(e) => Err(e),
            }
        } else if b[0] == 0x03 {
            if rest.len() == 0 {
                Ok(CommandView::ListDatabases)
            } else {
                Err(ProtocolError::TrailingData)
            }
        } else if b[0] == 0x04 {
            if rest.len() == 0 {
                Ok(CommandView::ListTables)
            } else {
                Err(ProtocolError::TrailingData)
            }
        } else {
            Err(ProtocolError::UnknownCommand)
        }
    }
}

/// A decoded string field is always well formed: its encoding is the field's
/// own bytes, whose length the `u32` prefix bounded.
pub proof fn lemma_parsed_string_fits(b: Seq<u8>)
    requires
        spec_parse_string(b) is Ok,
    ensures
        string_fits(spec_parse_string(b)->Ok_0.1),
{
    let n = vstd::bytes::spec_u32_from_le_bytes(b.subrange(0, 4)) as int;
    vstd::utf8::decode_utf8_encode_utf8(b.subrange(4, 4 + n));
}

/// Decodes one payload into a command.
pub fn parse(bytes: &[u8]) -> (r: Result<Command, ProtocolError>)
    ensures
        match r {
            Ok(c) => {
                &&& spec_parse_request(bytes@) is Ok
                &&& c@ == spec_parse_request(bytes@)->Ok_0
                &&& c@.wf()
            },
            Err(e) => {
                &&& spec_parse_request(bytes@) is Err
                &&& spec_parse_request(bytes@)->Err_0 == e
            },
        },
{
    if bytes.len() == 0 {
        return Err(ProtocolError::Truncated);
    }
    let d = *slice_index_get(bytes, 0);
    let rest = slice_subrange(bytes, 1, bytes.len());
    match CommandDiscriminant::from_byte(d) {
        Some(CommandDiscriminant::CreateDatabase) => parse_create_db(rest),
        Some(CommandDiscriminant::OpenDatabase) => parse_open_db(rest),
        Some(CommandDiscriminant::CreateTable) => parse_create_table(rest),
        Some(CommandDiscriminant::ListDatabases) => {
            if rest.len() > 0 {
                Err(ProtocolError::TrailingData)
            } else {
                Ok(Command::ListDatabases)
            }
        },
        Some(CommandDiscriminant::ListTables) => {
            if rest.len() > 0 {
                Err(ProtocolError::TrailingData)
            } else {
                Ok(Command::ListTables)
            }
        },
        None => Err(ProtocolError::UnknownCommand),
    }
}

/// Encodes a command into one payload.
pub fn serialise(cmd: Command) -> (r: Vec<u8>)
    requires
        cmd@.wf(),
    ensures
        r@ == spec_serialise_request(cmd@),
{
    let mut bytes: Vec<u8> = Vec::new();
    match cmd {
        Command::CreateDatabase { name } => serialise_create_db(name, &mut bytes),
        Command::OpenDatabase { name } => serialise_open_db(name, &mut bytes),
        Command::CreateTable { name, cols: _ } => serialise_create_table(name, &mut bytes),
        Command::ListDatabases => serialise_list_databases(&mut bytes),
        Command::ListTables => serialise_list_tables(&mut bytes),
    }
    bytes
}

fn parse_create_db(bytes: &[u8]) -> (r: Result<Command, ProtocolError>)
    ensures
        match r {
            Ok(c) => {
                &&& spec_parse_string(bytes@) is Ok
                &&& spec_parse_string(bytes@)->Ok_0.0.len() == 0
                &&& c@ == CommandView::CreateDatabase { name: spec_parse_string(bytes@)->Ok_0.1 }
                &&& c@.wf()
            },
            Err(e) => {
                ||| spec_parse_string(bytes@) matches Err(e2) && e2 == e
                ||| (spec_parse_string(bytes@) matches Ok(p) && p.0.len() > 0 && e
                    == ProtocolError::TrailingData)
            },
        },
{
    match parse_string(bytes) {
        Ok((rest, name)) => {
            if rest.len() > 0 {
                return Err(ProtocolError::TrailingData);
            }
            proof {
                lemma_parsed_string_fits(bytes@);
            }
            Ok(Command::CreateDatabase { name })
        },
        Err(e) => Err(e),
    }
}

fn parse_open_db(bytes: &[u8]) -> (r: Result<Command, ProtocolError>)
    ensures
        match r {
            Ok(c) => {
                &&& spec_parse_string(bytes@) is Ok
                &&& spec_parse_string(bytes@)->Ok_0.0.len() == 0
                &&& c@ == CommandView::OpenDatabase { name: spec_parse_string(bytes@)->Ok_0.1 }
                &&& c@.wf()
            },
            Err(e) => {
                ||| spec_parse_string(bytes@) matches Err(e2) && e2 == e
                ||| (spec_parse_string(bytes@) matches Ok(p) && p.0.len() > 0 && e
                    == ProtocolError::TrailingData)
            },
        },
{
    match parse_string(bytes) {
        Ok((rest, name)) => {
            if rest.len() > 0 {
                return Err(ProtocolError::TrailingData);
            }
            proof {
                lemma_parsed_string_fits(bytes@);
            }
            Ok(Command::OpenDatabase { name })
        },
        Err(e) => Err(e),
    }
}

fn parse_create_table(bytes: &[u8]) -> (r: Result<Command, ProtocolError>)
    ensures
        match r {
            Ok(c) => {
                &&& spec_parse_string(bytes@) is Ok
                &&& spec_parse_string(bytes@)->Ok_0.0.len() == 0
                &&& c@ == CommandView::CreateTable { name: spec_parse_string(bytes@)->Ok_0.1 }
                &&& c@.wf()
            },
            Err(e) => {
                ||| spec_parse_string(bytes@) matches Err(e2) && e2 == e
                ||| (spec_parse_string(bytes@) matches Ok(p) && p.0.len() > 0 && e
                    == ProtocolError::TrailingData)
            },
        },
{
    match parse_string(bytes) {
        Ok((rest, name)) => {
            if rest.len() > 0 {
                return Err(ProtocolError::TrailingData);
            }
            proof {
                lemma_parsed_string_fits(bytes@);
            }
            Ok(Command::CreateTable { name, cols: Vec::new() })
        },
        Err(e) => Err(e),
    }
}

fn serialise_create_db(name: String, bytes: &mut Vec<u8>)
    requires
        string_fits(name@),
    ensures
        final(bytes)@ == old(bytes)@ + seq![0x00u8] + spec_string_field(name@),
{
    bytes.push(CommandDiscriminant::CreateDatabase.to_byte());
    serialise_string(&name, bytes);
    proof {
        assert(final(bytes)@ =~= old(bytes)@ + seq![0x00u8] + spec_string_field(name@));
    }
}

fn serialise_open_db(name: String, bytes: &mut Vec<u8>)
    requires
        string_fits(name@),
    ensures
        final(bytes)@ == old(bytes)@ + seq![0x01u8] + spec_string_field(name@),
{
    bytes.push(CommandDiscriminant::OpenDatabase.to_byte());
    serialise_string(&name, bytes);
    proof {
        assert(final(bytes)@ =~= old(bytes)@ + seq![0x01u8] + spec_string_field(name@));
    }
}

fn serialise_create_table(name: String, bytes: &mut Vec<u8>)
    requires
        string_fits(name@),
    ensures
        final(bytes)@ == old(bytes)@ + seq![0x02u8] + spec_string_field(name@),
{
    bytes.push(CommandDiscriminant::CreateTable.to_byte());
    serialise_string(&name, bytes);
    proof {
        assert(final(bytes)@ =~= old(bytes)@ + seq![0x02u8] + spec_string_field(name@));
    }
}

fn serialise_list_databases(bytes: &mut Vec<u8>)
    ensures
        final(bytes)@ == old(bytes)@ + seq![0x03u8],
{
    bytes.push(CommandDiscriminant::ListDatabases.to_byte());
    proof {
        assert(final(bytes)@ =~= old(bytes)@ + seq![0x03u8]);
    }
}

fn serialise_list_tables(bytes: &mut Vec<u8>)
    ensures
        final(bytes)@ == old(bytes)@ + seq![0x04u8],
{
    bytes.push(CommandDiscriminant::ListTables.to_byte());
    proof {
        assert(final(bytes)@ =~= old(bytes)@ + seq![0x04u8]);
    }
}

/// Parsing a string field from its encoded form followed by any trailer
/// consumes exactly the field and yields the original characters.
pub proof fn lemma_string_field_parse(s: Seq<char>, rest: Seq<u8>)
    requires
        string_fits(s),
    ensures
        spec_parse_string(spec_string_field(s) + rest) is Ok,
        spec_parse_string(spec_string_field(s) + rest)->Ok_0.0 == rest,
        spec_parse_string(spec_string_field(s) + rest)->Ok_0.1 == s,
{
    let enc = vstd::utf8::encode_utf8(s);
    let n = enc.len() as int;
    let b = spec_string_field(s) + rest;
    vstd::bytes::lemma_auto_spec_u32_to_from_le_bytes();
    assert(b.subrange(0, 4) =~= vstd::bytes::spec_u32_to_le_bytes(enc.len() as u32));
    assert(vstd::bytes::spec_u32_from_le_bytes(b.subrange(0, 4)) as int == n);
    assert(b.len() == 4 + n + rest.len());
    assert(b.subrange(4, 4 + n) =~= enc);
    vstd::utf8::encode_utf8_valid_utf8(s);
    vstd::utf8::encode_utf8_decode_utf8(s);
    assert(b.subrange(4 + n, b.len() as int) =~= rest);
}

/// Round trip, one direction: decoding an encoded command returns exactly
/// that command, for every well-formed command.
pub proof fn lemma_request_round_trip(c: CommandView)
    requires
        c.wf(),
    ensures
        spec_parse_request(spec_serialise_request(c)) == Ok::<CommandView, ProtocolError>(c),
{
    let b = spec_serialise_request(c);
    match c {
        CommandView::CreateDatabase { name } => {
            lemma_string_field_parse(name, Seq::<u8>::empty());
            assert(b.subrange(1, b.len() as int) =~= spec_string_field(name) + Seq::<u8>::empty());
        },
        CommandView::OpenDatabase { name } => {
            lemma_string_field_parse(name, Seq::<u8>::empty());
            assert(b.subrange(1, b.len() as int) =~= spec_string_field(name) + Seq::<u8>::empty());
        },
        CommandView::CreateTable { name } => {
            lemma_string_field_parse(name, Seq::<u8>::empty());
            assert(b.subrange(1, b.len() as int) =~= spec_string_field(name) + Seq::<u8>::empty());
        },
        CommandView::ListDatabases => {
            assert(b.subrange(1, b.len() as int) =~= Seq::<u8>::empty());
        },
        CommandView::ListTables => {
            assert(b.subrange(1, b.len() as int) =~= Seq::<u8>::empty());
        },
    }
}

/// Round trip, the other direction: a payload that decodes is exactly the
/// encoding of the decoded command, and that command is well formed.
pub proof fn lemma_request_reserialise(b: Seq<u8>)
    requires
        spec_parse_request(b) is Ok,
    ensures
        spec_parse_request(b)->Ok_0.wf(),
        spec_serialise_request(spec_parse_request(b)->Ok_0) == b,
{
    let rest = b.subrange(1, b.len() as int);
    if b[0] == 0x00 || b[0] == 0x01 || b[0] == 0x02 {
        lemma_parsed_string_fits(rest);
        let n = vstd::bytes::spec_u32_from_le_bytes(rest.subrange(0, 4)) as int;
        let name = vstd::utf8::decode_utf8(rest.subrange(4, 4 + n));
        vstd::utf8::decode_utf8_encode_utf8(rest.subrange(4, 4 + n));
        vstd::bytes::lemma_auto_spec_u32_to_from_le_bytes();
        assert(rest.subrange(4 + n, rest.len() as int).len() == 0);
        assert(rest.len() == 4 + n);
        assert(spec_string_field(name) =~= rest);
        assert(spec_serialise_request(spec_parse_request(b)->Ok_0) =~= b);
    } else {
        assert(rest.len() == 0);
        assert(spec_serialise_request(spec_parse_request(b)->Ok_0) =~= b);
    }
}

/// A payload holding an encoded command followed by any trailing bytes
/// never decodes: it always fails with a trailing-data error.
pub proof fn lemma_request_trailing_data(c: CommandView, extra: Seq<u8>)
    requires
        c.wf(),
        extra.len() > 0,
    ensures
        spec_parse_request(spec_serialise_request(c) + extra) == Err::<CommandView, ProtocolError>(
            ProtocolError::TrailingData,
        ),
{
    let b = spec_serialise_request(c) + extra;
    match c {
        CommandView::CreateDatabase { name } => {
            lemma_string_field_parse(name, extra);
            assert(b.subrange(1, b.len() as int) =~= spec_string_field(name) + extra);
        },
        CommandView::OpenDatabase { name } => {
            lemma_string_field_parse(name, extra);
            assert(b.subrange(1, b.len() as int) =~= spec_string_field(name) + extra);
        },
        CommandView::CreateTable { name } => {
            lemma_string_field_parse(name, extra);
            assert(b.subrange(1, b.len() as int) =~= spec_string_field(name) + extra);
        },
        CommandView::ListDatabases => {
            assert(b.subrange(1, b.len() as int) =~= extra);
        },
        CommandView::ListTables => {
            assert(b.subrange(1, b.len() as int) =~= extra);
        },
    }
}

} // verus!
