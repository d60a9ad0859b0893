//! The response codec: one message payload to one [`Response`] and back.
//!
//! Responses share the command discriminant space where a response is
//! defined: a one-byte success flag answers `CreateDatabase` and
//! `CreateTable`, and a `u32` count followed by that many length-prefixed
//! strings answers `ListDatabases` and `ListTables`. No response is defined
//! for `OpenDatabase`, so its discriminant does not decode. Decoding is
//! strict, exactly as for commands.

use vstd::prelude::*;
use vstd::bytes::{spec_u32_to_le_bytes, lemma_auto_spec_u32_to_from_le_bytes};
use vstd::slice::*;

use crate::command::CommandDiscriminant;
use crate::errors::ProtocolError;
use crate::utils::{
    parse_bool, parse_string, parse_u32, serialise_bool, serialise_string, serialise_u32,
    spec_bool_byte, spec_parse_bool, spec_parse_string, spec_parse_u32, spec_string_field,
    string_fits,
};

verus! {

/// A server response.
#[derive(Debug, PartialEq)]
pub enum Response {
    CreateDatabase { success: bool },
    CreateTable { success: bool },
    ListDatabases { names: Vec<String> },
    ListTables { names: Vec<String> },
}

/// The model of a response: the same variants over character sequences.
pub ghost enum ResponseView {
    CreateDatabase { success: bool },
    CreateTable { success: bool },
    ListDatabases { names: Seq<Seq<char>> },
    ListTables { names: Seq<Seq<char>> },
}

impl View for Response {
    type V = ResponseView;

    open spec fn view(&self) -> ResponseView {
        match self {
            Response::CreateDatabase { success } => ResponseView::CreateDatabase {
                success: *success,
            },
            Response::CreateTable { success } => ResponseView::CreateTable { success: *success },
            Response::ListDatabases { names } => ResponseView::ListDatabases {
                names: names.deep_view(),
            },
            Response::ListTables { names } => ResponseView::ListTables {
                names: names.deep_view(),
            },
        }
    }
}

/// Whether a list of names fits the wire format: the count in a `u32`, each
/// name's length in a `u32`.
pub open spec fn names_fit(names: Seq<Seq<char>>) -> bool {
    &&& names.len() <= u32::MAX
    &&& forall|i: int| 0 <= i < names.len() ==> string_fits(#[trigger] names[i])
}

impl ResponseView {
    /// A response is well formed when its payload fits the wire format.
    pub open spec fn wf(self) -> bool {
        match self {
            ResponseView::CreateDatabase { success } => true,
            ResponseView::CreateTable { success } => true,
            ResponseView::ListDatabases { names } => names_fit(names),
            ResponseView::ListTables { names } => names_fit(names),
        }
    }
}

impl Response {
    /// Whether this response fits the wire format; decides [`ResponseView::wf`].
    pub fn check_wf(&self) -> (r: bool)
        ensures
            r == self@.wf(),
    {
        match self {
            Response::CreateDatabase { success } => true,
            Response::CreateTable { success } => true,
            Response::ListDatabases { names } => names_within_limits(names),
            Response::ListTables { names } => names_within_limits(names),
        }
    }
}

/// Decides [`names_fit`]: the count and each name's byte length against the
/// wire format's `u32` fields.
fn names_within_limits(names: &Vec<String>) -> (r: bool)
    ensures
        r == names_fit(names.deep_view()),
{
    if names.len() > u32::MAX as usize {
        return false;
    }
    let mut i: usize = 0;
    while i < names.len()
        invariant
            i <= names@.len(),
            names@.len() <= u32::MAX,
            forall|k: int| 0 <= k < i ==> string_fits(#[trigger] names.deep_view()[k]),
        decreases names@.len() - i,
    {
        if names[i].as_str().as_bytes().len() > u32::MAX as usize {
            proof {
                assert(names.deep_view()[i as int] == names@[i as int]@);
                assert(!string_fits(names.deep_view()[i as int]));
            }
            return false;
        }
        proof {
            assert(names.deep_view()[i as int] == names@[i as int]@);
            assert(string_fits(names.deep_view()[i as int]));
        }
        i = i + 1;
    }
    true
}

/// The concatenated encoded forms of a list of string fields.
pub open spec fn spec_string_fields(names: Seq<Seq<char>>) -> Seq<u8>
    decreases names.len(),
{
    if names.len() == 0 {
        Seq::empty()
    } else {
        spec_string_field(names[0]) + spec_string_fields(names.drop_first())
    }
}

/// The encoded form of a response: its discriminant byte, then its payload.
pub open spec fn spec_serialise_response(r: ResponseView) -> Seq<u8> {
    match r {
        ResponseView::CreateDatabase { success } => seq![0x00u8, spec_bool_byte(success)],
        ResponseView::CreateTable { success } => seq![0x02u8, spec_bool_byte(success)],
        ResponseView::ListDatabases { names } => seq![0x03u8] + spec_u32_to_le_bytes(
            names.len() as u32,
        ) + spec_string_fields(names),
        ResponseView::ListTables { names } => seq![0x04u8] + spec_u32_to_le_bytes(
            names.len() as u32,
        ) + spec_string_fields(names),
    }
}

/// What parsing `count` consecutive string fields from the front of `b`
/// yields: the unread remainder and the names, or the first error met.
pub open spec fn spec_parse_strings(b: Seq<u8>, count: int) -> Result<
    (Seq<u8>, Seq<Seq<char>>),
    ProtocolError,
>
    decreases count,
{
    if count <= 0 {
        Ok((b, Seq::empty()))
    } else {
        match spec_parse_string(b) {
            Ok(p) => match spec_parse_strings(p.0, count - 1) {
                Ok(q) => Ok((q.0, seq![p.1] + q.1)),
                Err(e) => Err(e),
            },
            Err(e) => Err(e),
        }
    }
}

/// What decoding a response payload yields.
pub open spec fn spec_parse_response(b: Seq<u8>) -> Result<ResponseView, ProtocolError> {
    if b.len() == 0 {
        Err(ProtocolError::Truncated)
    } else {
        let rest = b.subrange(1, b.len() as int);
        if b[0] == 0x00 {
            match spec_parse_bool(rest) {
                Ok(p) => if p.0.len() == 0 {
                    Ok(ResponseView::CreateDatabase { success: p.1 })
                } else {
                    Err(ProtocolError::TrailingData)
                },
                Err(e) => Err(e),
            }
        } else if b[0] == 0x02 {
            match spec_parse_bool(rest) {
                Ok(p) => if p.0.len() == 0 {
                    Ok(ResponseView::CreateTable { success: p.1 })
                } else {
                    Err(ProtocolError::TrailingData)
                },
                Err(e) => Err(e),
            }
        } else if b[0] == 0x03 {
            match spec_parse_u32(rest) {
                Ok(p) => match spec_parse_strings(p.0, p.1 as int) {
                    Ok(q) => if q.0.len() == 0 {
                        Ok(ResponseView::ListDatabases { names: q.1 })
                    } else {
                        Err(ProtocolError::TrailingData)
                    },
                    Err(e) => Err(e),
                },
                Err(e) => Err(e),
            }
        } else if b[0] == 0x04 {
            match spec_parse_u32(rest) {
                Ok(p) => match spec_parse_strings(p.0, p.1 as int) {
                    Ok(q) => if q.0.len() == 0 {
                        Ok(ResponseView::ListTables { names: q.1 })
                    } else {
                        Err(ProtocolError::TrailingData)
                    },
                    Err(e) => Err(e),
                },
                Err(e) => Err(e),
            }
        } else {
            Err(ProtocolError::UnknownCommand)
        }
    }
}

/// Prefixing already-read names onto the outcome of parsing the remaining
/// fields; used to state the parsing loop's invariant.
pub open spec fn prepend_names(
    pre: Seq<Seq<char>>,
    r: Result<(Seq<u8>, Seq<Seq<char>>), ProtocolError>,
) -> Result<(Seq<u8>, Seq<Seq<char>>), ProtocolError> {
    match r {
        Ok(p) => Ok((p.0, pre + p.1)),
        Err(e) => Err(e),
    }
}

/// Parses `count` consecutive string fields from the front of `bytes`.
fn parse_strings(bytes: &[u8], count: u32) -> (r: Result<(&[u8], Vec<String>), ProtocolError>)
    ensures
        match r {
            Ok(p) => {
                &&& spec_parse_strings(bytes@, count as int) is Ok
                &&& p.0@ == spec_parse_strings(bytes@, count as int)->Ok_0.0
                &&& p.1.deep_view() == spec_parse_strings(bytes@, count as int)->Ok_0.1
            },
            Err(e) => {
                &&& spec_parse_strings(bytes@, count as int) is Err
                &&& spec_parse_strings(bytes@, count as int)->Err_0 == e
            },
        },
{
    let mut rest: &[u8] = bytes;
    let mut names: Vec<String> = Vec::new();
    let mut i: u32 = 0;
    proof {
        if spec_parse_strings(rest@, count as int) is Ok {
            assert(Seq::<Seq<char>>::empty() + spec_parse_strings(rest@, count as int)->Ok_0.1
                =~= spec_parse_strings(rest@, count as int)->Ok_0.1);
        }
        assert(names.deep_view() =~= Seq::<Seq<char>>::empty());
    }
    while i < count
        invariant
            i <= count,
            spec_parse_strings(bytes@, count as int) == prepend_names(
                names.deep_view(),
                spec_parse_strings(rest@, count - i),
            ),
        decreases count - i,
    {
        let ghost names0 = names.deep_view();
        let ghost rest0 = rest@;
        match parse_string(rest) {
            Ok((new_rest, name)) => {
                rest = new_rest;
                names.push(name);
                i = i + 1;
                proof {
                    assert(names.deep_view() =~= names0.push(name@));
                    let tail = spec_parse_strings(rest@, count - i);
                    assert(spec_parse_strings(rest0, count - (i - 1)) == prepend_names(
                        seq![name@],
                        tail,
                    ));
                    if tail is Ok {
                        assert(names0 + (seq![name@] + tail->Ok_0.1) =~= names0.push(name@)
                            + tail->Ok_0.1);
                    }
                }
            },
            Err(e) => {
                proof {
                    assert(spec_parse_strings(rest0, count - i) is Err);
                }
                return Err(e);
            },
        }
    }
    proof {
        assert(spec_parse_strings(rest@, 0) == Ok::<_, ProtocolError>((
            rest@,
            Seq::<Seq<char>>::empty(),
        )));
        assert(names.deep_view() + Seq::<Seq<char>>::empty() =~= names.deep_view());
    }
    Ok((rest, names))
}

/// Decodes one payload into a response.
pub fn parse(bytes: &[u8]) -> (r: Result<Response, ProtocolError>)
    ensures
        match r {
            Ok(resp) => {
                &&& spec_parse_response(bytes@) is Ok
                &&& resp@ == spec_parse_response(bytes@)->Ok_0
            },
            Err(e) => {
                &&& spec_parse_response(bytes@) is Err
                &&& spec_parse_response(bytes@)->Err_0 == e
            },
        },
{
    if bytes.len() == 0 {
        return Err(ProtocolError::Truncated);
    }
    let d = *slice_index_get(bytes, 0);
    let rest = slice_subrange(bytes, 1, bytes.len());
    match CommandDiscriminant::from_byte(d) {
        Some(CommandDiscriminant::CreateDatabase) => parse_create_db(rest),
        Some(CommandDiscriminant::CreateTable) => parse_create_table(rest),
        Some(CommandDiscriminant::ListDatabases) => parse_list_databases(rest),
        Some(CommandDiscriminant::ListTables) => parse_list_tables(rest),
        _ => Err(ProtocolError::UnknownCommand),
    }
}

/// Encodes a response into one payload.
pub fn serialise(resp: &Response) -> (r: Vec<u8>)
    requires
        resp@.wf(),
    ensures
        r@ == spec_serialise_response(resp@),
{
    let mut bytes: Vec<u8> = Vec::new();
    match resp {
        Response::CreateDatabase { success } => {
            bytes.push(CommandDiscriminant::CreateDatabase.to_byte());
            serialise_bool(*success, &mut bytes);
            proof {
                assert(bytes@ =~= spec_serialise_response(resp@));
            }
        },
        Response::CreateTable { success } => {
            bytes.push(CommandDiscriminant::CreateTable.to_byte());
            serialise_bool(*success, &mut bytes);
            proof {
                assert(bytes@ =~= spec_serialise_response(resp@));
            }
        },
        Response::ListDatabases { names } => {
            bytes.push(CommandDiscriminant::ListDatabases.to_byte());
            serialise_names(names, &mut bytes);
            proof {
                assert(bytes@ =~= spec_serialise_response(resp@));
            }
        },
        Response::ListTables { names } => {
            bytes.push(CommandDiscriminant::ListTables.to_byte());
            serialise_names(names, &mut bytes);
            proof {
                assert(bytes@ =~= spec_serialise_response(resp@));
            }
        },
    }
    bytes
}

fn parse_create_db(bytes: &[u8]) -> (r: Result<Response, ProtocolError>)
    ensures
        match r {
            Ok(resp) => {
                &&& spec_parse_bool(bytes@) is Ok
                &&& spec_parse_bool(bytes@)->Ok_0.0.len() == 0
                &&& resp@ == ResponseView::CreateDatabase {
                    success: spec_parse_bool(bytes@)->Ok_0.1,
                }
            },
            Err(e) => {
                ||| spec_parse_bool(bytes@) matches Err(e2) && e2 == e
                ||| (spec_parse_bool(bytes@) matches Ok(p) && p.0.len() > 0 && e
                    == ProtocolError::TrailingData)
            },
        },
{
    match parse_bool(bytes) {
        Ok((rest, success)) => {
            if rest.len() > 0 {
                return Err(ProtocolError::TrailingData);
            }
            Ok(Response::CreateDatabase { success })
        },
        Err(e) => Err(e),
    }
}

fn parse_create_table(bytes: &[u8]) -> (r: Result<Response, ProtocolError>)
    ensures
        match r {
            Ok(resp) => {
                &&& spec_parse_bool(bytes@) is Ok
                &&& spec_parse_bool(bytes@)->Ok_0.0.len() == 0
                &&& resp@ == ResponseView::CreateTable { success: spec_parse_bool(bytes@)->Ok_0.1 }
            },
            Err(e) => {
                ||| spec_parse_bool(bytes@) matches Err(e2) && e2 == e
                ||| (spec_parse_bool(bytes@) matches Ok(p) && p.0.len() > 0 && e
                    == ProtocolError::TrailingData)
            },
        },
{
    match parse_bool(bytes) {
        Ok((rest, success)) => {
            if rest.len() > 0 {
                return Err(ProtocolError::TrailingData);
            }
            Ok(Response::CreateTable { success })
        },
        Err(e) => Err(e),
    }
}

fn parse_list_databases(bytes: &[u8]) -> (r: Result<Response, ProtocolError>)
    ensures
        match r {
            Ok(resp) => {
                &&& spec_list_payload(bytes@) is Ok
                &&& resp@ == ResponseView::ListDatabases { names: spec_list_payload(bytes@)->Ok_0 }
            },
            Err(e) => {
                &&& spec_list_payload(bytes@) is Err
                &&& spec_list_payload(bytes@)->Err_0 == e
            },
        },
{
    match parse_names(bytes) {
        Ok(names) => Ok(Response::ListDatabases { names }),
        Err(e) => Err(e),
    }
}

fn parse_list_tables(bytes: &[u8]) -> (r: Result<Response, ProtocolError>)
    ensures
        match r {
            Ok(resp) => {
                &&& spec_list_payload(bytes@) is Ok
                &&& resp@ == ResponseView::ListTables { names: spec_list_payload(bytes@)->Ok_0 }
            },
            Err(e) => {
                &&& spec_list_payload(bytes@) is Err
                &&& spec_list_payload(bytes@)->Err_0 == e
            },
        },
{
    match parse_names(bytes) {
        Ok(names) => Ok(Response::ListTables { names }),
        Err(e) => Err(e),
    }
}

/// What a count-prefixed list payload (everything after the discriminant)
/// yields: the names, strictly consuming the whole payload.
pub open spec fn spec_list_payload(b: Seq<u8>) -> Result<Seq<Seq<char>>, ProtocolError> {
    match spec_parse_u32(b) {
        Ok(p) => match spec_parse_strings(p.0, p.1 as int) {
            Ok(q) => if q.0.len() == 0 {
                Ok(q.1)
            } else {
                Err(ProtocolError::TrailingData)
            },
            Err(e) => Err(e),
        },
        Err(e) => Err(e),
    }
}

fn parse_names(bytes: &[u8]) -> (r: Result<Vec<String>, ProtocolError>)
    ensures
        match r {
            Ok(names) => {
                &&& spec_list_payload(bytes@) is Ok
                &&& names.deep_view() == spec_list_payload(bytes@)->Ok_0
            },
            Err(e) => {
                &&& spec_list_payload(bytes@) is Err
                &&& spec_list_payload(bytes@)->Err_0 == e
            },
        },
{
    match parse_u32(bytes) {
        Ok((rest, count)) => {
            match parse_strings(rest, count) {
                Ok((rest2, names)) => {
                    if rest2.len() > 0 {
                        return Err(ProtocolError::TrailingData);
                    }
                    Ok(names)
                },
                Err(e) => Err(e),
            }
        },
        Err(e) => Err(e),
    }
}

fn serialise_names(names: &Vec<String>, bytes: &mut Vec<u8>)
    requires
        names_fit(names.deep_view()),
    ensures
        final(bytes)@ == old(bytes)@ + spec_u32_to_le_bytes(names.deep_view().len() as u32)
            + spec_string_fields(names.deep_view()),
{
    let ghost all = names.deep_view();
    serialise_u32(names.len() as u32, bytes);
    let ghost mid = bytes@;
    let mut i: usize = 0;
    while i < names.len()
        invariant
            i <= names.len(),
            all == names.deep_view(),
            names_fit(all),
            bytes@ == mid + spec_string_fields(all.take(i as int)),
        decreases names.len() - i,
    {
        let ghost before = bytes@;
        proof {
            assert(names@[i as int]@ == all[i as int]);
        }
        serialise_string(&names[i], bytes);
        proof {
            lemma_string_fields_snoc(all, i as int);
            assert(bytes@ =~= mid + spec_string_fields(all.take(i as int + 1)));
        }
        i = i + 1;
    }
    proof {
        assert(all.take(names.deep_view().len() as int) =~= all);
        assert(final(bytes)@ =~= old(bytes)@ + spec_u32_to_le_bytes(all.len() as u32)
            + spec_string_fields(all));
    }
}

/// Extending the encoded prefix by one more name appends that name's field.
proof fn lemma_string_fields_snoc(names: Seq<Seq<char>>, i: int)
    requires
        0 <= i < names.len(),
    ensures
        spec_string_fields(names.take(i + 1)) == spec_string_fields(names.take(i))
            + spec_string_field(names[i]),
    decreases i,
{
    if i == 0 {
        assert(names.take(1) =~= seq![names[0]]);
        assert(names.take(1).drop_first() =~= Seq::<Seq<char>>::empty());
        assert(names.take(0) =~= Seq::<Seq<char>>::empty());
        assert(names.take(1).len() == 1 && names.take(1)[0] == names[0]);
        assert(spec_string_fields(Seq::<Seq<char>>::empty()) == Seq::<u8>::empty());
        assert(spec_string_fields(names.take(1)) == spec_string_field(names.take(1)[0])
            + spec_string_fields(names.take(1).drop_first()));
        assert(spec_string_fields(names.take(1)) =~= spec_string_field(names[0]));
        assert(spec_string_fields(names.take(0)) + spec_string_field(names[0]) =~= spec_string_field(
            names[0],
        ));
    } else {
        lemma_string_fields_snoc(names.drop_first(), i - 1);
        assert(names.take(i + 1).drop_first() =~= names.drop_first().take(i));
        assert(names.take(i).drop_first() =~= names.drop_first().take(i - 1));
        assert(names.take(i + 1)[0] == names[0]);
        assert(names.take(i)[0] == names[0]);
        assert(names.drop_first()[i - 1] == names[i]);
        assert(spec_string_fields(names.take(i + 1)) == spec_string_field(names[0])
            + spec_string_fields(names.drop_first().take(i)));
        assert(spec_string_field(names[0]) + (spec_string_fields(names.drop_first().take(i - 1))
            + spec_string_field(names[i])) =~= (spec_string_field(names[0])
            + spec_string_fields(names.drop_first().take(i - 1))) + spec_string_field(names[i]));
        assert(spec_string_fields(names.take(i)) == spec_string_field(names[0])
            + spec_string_fields(names.drop_first().take(i - 1)));
    }
}

/// Parsing `names.len()` string fields from their concatenated encoding
/// followed by any trailer consumes exactly the fields and yields the names.
pub proof fn lemma_string_fields_parse(names: Seq<Seq<char>>, rest: Seq<u8>)
    requires
        forall|i: int| 0 <= i < names.len() ==> string_fits(#[trigger] names[i]),
    ensures
        spec_parse_strings(spec_string_fields(names) + rest, names.len() as int) == Ok::<
            _,
            ProtocolError,
        >((rest, names)),
    decreases names.len(),
{
    if names.len() == 0 {
        assert(spec_string_fields(names) + rest =~= rest);
        assert(Seq::<Seq<char>>::empty() =~= names);
    } else {
        let b = spec_string_fields(names) + rest;
        let tail_bytes = spec_string_fields(names.drop_first()) + rest;
        assert(b =~= spec_string_field(names[0]) + tail_bytes);
        crate::request::lemma_string_field_parse(names[0], tail_bytes);
        lemma_string_fields_parse(names.drop_first(), rest);
        assert(seq![names[0]] + names.drop_first() =~= names);
    }
}

/// Every name parsed from consecutive string fields is well formed, and the
/// fields re-encode to exactly the bytes consumed.
pub proof fn lemma_parse_strings_reserialise(b: Seq<u8>, count: int)
    requires
        spec_parse_strings(b, count) is Ok,
    ensures
        ({
            let p = spec_parse_strings(b, count)->Ok_0;
            &&& p.1.len() == if count >= 0 {
                count
            } else {
                0
            }
            &&& forall|i: int| 0 <= i < p.1.len() ==> string_fits(#[trigger] p.1[i])
            &&& spec_string_fields(p.1) + p.0 == b
        }),
    decreases count,
{
    if count <= 0 {
        let p = spec_parse_strings(b, count)->Ok_0;
        assert(spec_string_fields(p.1) + p.0 =~= b);
    } else {
        let hd = spec_parse_string(b)->Ok_0;
        crate::request::lemma_parsed_string_fits(b);
        lemma_parse_strings_reserialise(hd.0, count - 1);
        let q = spec_parse_strings(hd.0, count - 1)->Ok_0;
        let p = spec_parse_strings(b, count)->Ok_0;
        assert(p.1 == seq![hd.1] + q.1);
        assert(p.1.drop_first() =~= q.1);
        assert(p.1[0] == hd.1);
        // The parsed head field re-encodes to the bytes it consumed.
        let n = vstd::bytes::spec_u32_from_le_bytes(b.subrange(0, 4)) as int;
        assert(b.len() >= 4 && 0 <= n && 4 + n <= b.len());
        vstd::utf8::decode_utf8_encode_utf8(b.subrange(4, 4 + n));
        assert(vstd::utf8::encode_utf8(hd.1) == b.subrange(4, 4 + n));
        lemma_auto_spec_u32_to_from_le_bytes();
        assert(b.subrange(0, 4).len() == 4);
        assert(spec_u32_to_le_bytes(vstd::bytes::spec_u32_from_le_bytes(b.subrange(0, 4)))
            == b.subrange(0, 4));
        assert(vstd::utf8::encode_utf8(hd.1).len() as u32 == n as u32);
        assert(spec_string_field(hd.1) =~= b.subrange(0, 4 + n));
        assert(hd.0 =~= b.subrange(4 + n, b.len() as int));
        assert(spec_string_fields(p.1) == spec_string_field(hd.1) + spec_string_fields(q.1));
        assert(p.0 == q.0);
        assert((spec_string_field(hd.1) + spec_string_fields(q.1)) + q.0 =~= spec_string_field(
            hd.1,
        ) + (spec_string_fields(q.1) + q.0));
        assert(spec_string_fields(q.1) + q.0 == hd.0);
        assert(spec_string_field(hd.1) + hd.0 =~= b);
        assert(spec_string_fields(p.1) + p.0 == b);
    }
}

/// Round trip, one direction: decoding an encoded response returns exactly
/// that response, for every well-formed response.
pub proof fn lemma_response_round_trip(r: ResponseView)
    requires
        r.wf(),
    ensures
        spec_parse_response(spec_serialise_response(r)) == Ok::<ResponseView, ProtocolError>(r),
{
    let b = spec_serialise_response(r);
    lemma_auto_spec_u32_to_from_le_bytes();
    match r {
        ResponseView::CreateDatabase { success } => {
            assert(b.subrange(1, b.len() as int) =~= seq![spec_bool_byte(success)]);
            assert(seq![spec_bool_byte(success)].subrange(1, 1) =~= Seq::<u8>::empty());
            assert(spec_bool_byte(success) != 0 <==> success);
        },
        ResponseView::CreateTable { success } => {
            assert(b.subrange(1, b.len() as int) =~= seq![spec_bool_byte(success)]);
            assert(seq![spec_bool_byte(success)].subrange(1, 1) =~= Seq::<u8>::empty());
            assert(spec_bool_byte(success) != 0 <==> success);
        },
        ResponseView::ListDatabases { names } => {
            lemma_list_payload_round_trip(names);
            assert(b.subrange(1, b.len() as int) =~= spec_u32_to_le_bytes(names.len() as u32)
                + spec_string_fields(names));
        },
        ResponseView::ListTables { names } => {
            lemma_list_payload_round_trip(names);
            assert(b.subrange(1, b.len() as int) =~= spec_u32_to_le_bytes(names.len() as u32)
                + spec_string_fields(names));
        },
    }
}

/// A count-prefixed list payload decodes back to its names.
proof fn lemma_list_payload_round_trip(names: Seq<Seq<char>>)
    requires
        names_fit(names),
    ensures
        ({
            let payload = spec_u32_to_le_bytes(names.len() as u32) + spec_string_fields(names);
            spec_list_payload(payload) == Ok::<Seq<Seq<char>>, ProtocolError>(names)
        }),
{
    let payload = spec_u32_to_le_bytes(names.len() as u32) + spec_string_fields(names);
    lemma_auto_spec_u32_to_from_le_bytes();
    assert(payload.subrange(0, 4) =~= spec_u32_to_le_bytes(names.len() as u32));
    assert(payload.subrange(4, payload.len() as int) =~= spec_string_fields(names)
        + Seq::<u8>::empty());
    lemma_string_fields_parse(names, Seq::<u8>::empty());
}

/// Round trip, the other direction: a payload that decodes is exactly the
/// encoding of the decoded response, and that response is well formed.
///
/// The success byte of a flag response must be canonical (0 or 1) here:
/// decoding reads any nonzero byte as true, so a payload such as
/// `[0x00, 0x07]` decodes but re-encodes to `[0x00, 0x01]`.
pub proof fn lemma_response_reserialise(b: Seq<u8>)
    requires
        spec_parse_response(b) is Ok,
        (b[0] == 0x00 || b[0] == 0x02) ==> (b[1] == 0 || b[1] == 1),
    ensures
        spec_parse_response(b)->Ok_0.wf(),
        spec_serialise_response(spec_parse_response(b)->Ok_0) == b,
{
    let rest = b.subrange(1, b.len() as int);
    lemma_auto_spec_u32_to_from_le_bytes();
    if b[0] == 0x00 || b[0] == 0x02 {
        assert(rest.len() == 1);
        assert(rest[0] == b[1]);
        assert(spec_serialise_response(spec_parse_response(b)->Ok_0) =~= b);
    } else {
        let count = spec_parse_u32(rest)->Ok_0.1;
        let after_count = rest.subrange(4, rest.len() as int);
        lemma_parse_strings_reserialise(after_count, count as int);
        let p = spec_parse_strings(after_count, count as int)->Ok_0;
        assert(p.0.len() == 0);
        assert(spec_string_fields(p.1) =~= after_count) by {
            assert(spec_string_fields(p.1) + p.0 == after_count);
        }
        assert(p.1.len() as u32 == count);
        assert(rest.subrange(0, 4).len() == 4);
        assert(spec_u32_to_le_bytes(count) == rest.subrange(0, 4)) by {
            assert(count == vstd::bytes::spec_u32_from_le_bytes(rest.subrange(0, 4)));
        }
        assert(rest =~= rest.subrange(0, 4) + after_count);
        assert(b =~= seq![b[0]] + rest);
        assert((seq![b[0]] + spec_u32_to_le_bytes(p.1.len() as u32)) + spec_string_fields(p.1)
            =~= seq![b[0]] + (spec_u32_to_le_bytes(p.1.len() as u32) + spec_string_fields(p.1)));
        if b[0] == 0x03 {
            assert(spec_parse_response(b)->Ok_0 == ResponseView::ListDatabases { names: p.1 });
            assert(spec_serialise_response(spec_parse_response(b)->Ok_0) == (seq![0x03u8]
                + spec_u32_to_le_bytes(p.1.len() as u32)) + spec_string_fields(p.1));
        } else {
            assert(spec_parse_response(b)->Ok_0 == ResponseView::ListTables { names: p.1 });
            assert(spec_serialise_response(spec_parse_response(b)->Ok_0) == (seq![0x04u8]
                + spec_u32_to_le_bytes(p.1.len() as u32)) + spec_string_fields(p.1));
        }
        assert(spec_serialise_response(spec_parse_response(b)->Ok_0) =~= b);
    }
}

} // verus!
