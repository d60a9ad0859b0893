//! Primitive wire fields: length-prefixed UTF-8 strings, booleans and
//! little-endian `u32` values, each with a parse and a serialise function.
//!
//! Every field codec is specified against a pure model: `spec_parse_*`
//! describes exactly what a parse returns for every byte sequence, and
//! `spec_string_field` / `spec_bool_byte` describe the encoded forms.

use vstd::prelude::*;
use vstd::bytes::*;
use vstd::slice::*;
use vstd::string::StringSliceAdditionalSpecFns;
use vstd::utf8::*;

use crate::errors::ProtocolError;

verus! {

/// Whether a string's UTF-8 encoding fits the wire format's `u32` length
/// prefix.
pub open spec fn string_fits(s: Seq<char>) -> bool {
    encode_utf8(s).len() <= u32::MAX
}

/// The encoded form of a string field: a little-endian `u32` byte length
/// followed by the UTF-8 bytes.
pub open spec fn spec_string_field(s: Seq<char>) -> Seq<u8> {
    spec_u32_to_le_bytes(encode_utf8(s).len() as u32) + encode_utf8(s)
}

/// The encoded form of a boolean field: one byte, 0 or 1.
pub open spec fn spec_bool_byte(b: bool) -> u8 {
    if b {
        1
    } else {
        0
    }
}

/// What parsing a string field from the front of `b` yields: the unread
/// remainder and the decoded characters, or the first error met.
pub open spec fn spec_parse_string(b: Seq<u8>) -> Result<(Seq<u8>, Seq<char>), ProtocolError> {
    if b.len() < 4 {
        Err(ProtocolError::Truncated)
    } else {
        let n = spec_u32_from_le_bytes(b.subrange(0, 4)) as int;
        if b.len() < 4 + n {
            Err(ProtocolError::Truncated)
        } else if !valid_utf8(b.subrange(4, 4 + n)) {
            Err(ProtocolError::InvalidUtf8)
        } else {
            Ok((b.subrange(4 + n, b.len() as int), decode_utf8(b.subrange(4, 4 + n))))
        }
    }
}

/// What parsing a boolean field from the front of `b` yields: any nonzero
/// byte reads as true.
pub open spec fn spec_parse_bool(b: Seq<u8>) -> Result<(Seq<u8>, bool), ProtocolError> {
    if b.len() < 1 {
        Err(ProtocolError::Truncated)
    } else {
        Ok((b.subrange(1, b.len() as int), b[0] != 0))
    }
}

/// What parsing a little-endian `u32` field from the front of `b` yields.
pub open spec fn spec_parse_u32(b: Seq<u8>) -> Result<(Seq<u8>, u32), ProtocolError> {
    if b.len() < 4 {
        Err(ProtocolError::Truncated)
    } else {
        Ok((b.subrange(4, b.len() as int), spec_u32_from_le_bytes(b.subrange(0, 4))))
    }
}

/// Relies on `core::str::from_utf8`: it returns `Ok` exactly when the bytes
/// are valid UTF-8, and the returned `&str` views those same bytes.
#[verifier::external_body]
fn utf8_to_str(bytes: &[u8]) -> (r: Option<&str>)
    ensures
        r is Some <==> valid_utf8(bytes@),
        r matches Some(s) ==> s.spec_bytes() == bytes@,
{
    core::str::from_utf8(bytes).ok()
}

/// Parses a length-prefixed UTF-8 string field from the front of `bytes`,
/// returning the unread remainder and the string.
pub fn parse_string(bytes: &[u8]) -> (r: Result<(&[u8], String), ProtocolError>)
    ensures
        match r {
            Ok(p) => {
                &&& spec_parse_string(bytes@) is Ok
                &&& p.0@ == spec_parse_string(bytes@)->Ok_0.0
                &&& p.1@ == spec_parse_string(bytes@)->Ok_0.1
            },
            Err(e) => {
                &&& spec_parse_string(bytes@) is Err
                &&& spec_parse_string(bytes@)->Err_0 == e
            },
        },
{
    if bytes.len() < 4 {
        return Err(ProtocolError::Truncated);
    }
    let len_bytes = slice_subrange(bytes, 0, 4);
    let n = u32_from_le_bytes(len_bytes) as usize;
    if bytes.len() - 4 < n {
        return Err(ProtocolError::Truncated);
    }
    let str_bytes = slice_subrange(bytes, 4, 4 + n);
    let rest = slice_subrange(bytes, 4 + n, bytes.len());
    match utf8_to_str(str_bytes) {
        Some(s) => {
            let owned = s.to_owned();
            proof {
                encode_utf8_decode_utf8(owned@);
            }
            Ok((rest, owned))
        },
        None => Err(ProtocolError::InvalidUtf8),
    }
}

/// Appends the encoded form of `string` (length prefix plus UTF-8 bytes)
/// to `bytes`.
pub fn serialise_string(string: &String, bytes: &mut Vec<u8>)
    requires
        string_fits(string@),
    ensures
        final(bytes)@ == old(bytes)@ + spec_string_field(string@),
{
    let len = string.as_str().len() as u32;
    let len_bytes = u32_to_le_bytes(len);
    bytes.extend_from_slice(len_bytes.as_slice());
    bytes.extend_from_slice(string.as_str().as_bytes());
    proof {
        assert(final(bytes)@ =~= old(bytes)@ + spec_string_field(string@));
    }
}

/// Parses a boolean field from the front of `bytes`.
pub fn parse_bool(bytes: &[u8]) -> (r: Result<(&[u8], bool), ProtocolError>)
    ensures
        match r {
            Ok(p) => {
                &&& spec_parse_bool(bytes@) is Ok
                &&& p.0@ == spec_parse_bool(bytes@)->Ok_0.0
                &&& p.1 == spec_parse_bool(bytes@)->Ok_0.1
            },
            Err(e) => {
                &&& spec_parse_bool(bytes@) is Err
                &&& spec_parse_bool(bytes@)->Err_0 == e
            },
        },
{
    if bytes.len() < 1 {
        return Err(ProtocolError::Truncated);
    }
    let bool_byte = *slice_index_get(bytes, 0);
    let rest = slice_subrange(bytes, 1, bytes.len());
    Ok((rest, bool_byte != 0))
}

/// Appends the one-byte encoded form of `value` to `bytes`.
pub fn serialise_bool(value: bool, bytes: &mut Vec<u8>)
    ensures
        final(bytes)@ == old(bytes)@ + seq![spec_bool_byte(value)],
{
    bytes.push(if value {
        1
    } else {
        0
    });
    proof {
        assert(final(bytes)@ =~= old(bytes)@ + seq![spec_bool_byte(value)]);
    }
}

/// Parses a little-endian `u32` field from the front of `bytes`.
pub fn parse_u32(bytes: &[u8]) -> (r: Result<(&[u8], u32), ProtocolError>)
    ensures
        match r {
            Ok(p) => {
                &&& spec_parse_u32(bytes@) is Ok
                &&& p.0@ == spec_parse_u32(bytes@)->Ok_0.0
                &&& p.1 == spec_parse_u32(bytes@)->Ok_0.1
            },
            Err(e) => {
                &&& spec_parse_u32(bytes@) is Err
                &&& spec_parse_u32(bytes@)->Err_0 == e
            },
        },
{
    if bytes.len() < 4 {
        return Err(ProtocolError::Truncated);
    }
    let len_bytes = slice_subrange(bytes, 0, 4);
    let value = u32_from_le_bytes(len_bytes);
    let rest = slice_subrange(bytes, 4, bytes.len());
    Ok((rest, value))
}

/// Appends the four-byte little-endian encoded form of `value` to `bytes`.
pub fn serialise_u32(value: u32, bytes: &mut Vec<u8>)
    ensures
        final(bytes)@ == old(bytes)@ + spec_u32_to_le_bytes(value),
{
    let value_bytes = u32_to_le_bytes(value);
    bytes.extend_from_slice(value_bytes.as_slice());
    proof {
        assert(final(bytes)@ =~= old(bytes)@ + spec_u32_to_le_bytes(value));
    }
}

} // verus!
