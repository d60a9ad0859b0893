//! Tests of the field, command, response and frame codecs.

use squeef::command::Command;
use squeef::errors::ProtocolError;
use squeef::frame::{decode_frame, encode_frame, FrameError};
use squeef::request;
use squeef::response;
use squeef::response::Response;
use squeef::utils::{
    parse_bool, parse_string, parse_u32, serialise_bool, serialise_string, serialise_u32,
};

fn encoded(name: &str, discriminant: u8) -> Vec<u8> {
    let mut bytes = vec![discriminant];
    bytes.extend_from_slice(&(name.len() as u32).to_le_bytes());
    bytes.extend_from_slice(name.as_bytes());
    bytes
}

#[test]
fn string_field_round_trip() {
    let mut bytes: Vec<u8> = Vec::new();
    serialise_string(&String::from("abc"), &mut bytes);
    assert_eq!(bytes, vec![3, 0, 0, 0, b'a', b'b', b'c']);
    let (rest, s) = parse_string(&bytes).unwrap();
    assert_eq!(rest.len(), 0);
    assert_eq!(s, "abc");
}

#[test]
fn string_field_empty() {
    let mut bytes: Vec<u8> = Vec::new();
    serialise_string(&String::new(), &mut bytes);
    assert_eq!(bytes, vec![0, 0, 0, 0]);
    let (rest, s) = parse_string(&bytes).unwrap();
    assert_eq!(rest.len(), 0);
    assert_eq!(s, "");
}

#[test]
fn string_field_multibyte() {
    let name = "caf\u{e9}\u{540d}";
    let mut bytes: Vec<u8> = Vec::new();
    serialise_string(&String::from(name), &mut bytes);
    let (rest, s) = parse_string(&bytes).unwrap();
    assert_eq!(rest.len(), 0);
    assert_eq!(s, name);
}

#[test]
fn string_field_truncated_header() {
    assert_eq!(parse_string(&[1, 0]), Err(ProtocolError::Truncated));
}

#[test]
fn string_field_truncated_payload() {
    assert_eq!(parse_string(&[5, 0, 0, 0, b'a']), Err(ProtocolError::Truncated));
}

#[test]
fn string_field_invalid_utf8() {
    assert_eq!(parse_string(&[2, 0, 0, 0, 0xff, 0xfe]), Err(ProtocolError::InvalidUtf8));
}

#[test]
fn string_field_leaves_remainder() {
    let (rest, s) = parse_string(&[1, 0, 0, 0, b'x', 9, 9]).unwrap();
    assert_eq!(s, "x");
    assert_eq!(rest, &[9, 9]);
}

#[test]
fn bool_field_round_trip() {
    let mut bytes: Vec<u8> = Vec::new();
    serialise_bool(true, &mut bytes);
    serialise_bool(false, &mut bytes);
    assert_eq!(bytes, vec![1, 0]);
    let (rest, b) = parse_bool(&bytes).unwrap();
    assert!(b);
    let (rest2, b2) = parse_bool(rest).unwrap();
    assert!(!b2);
    assert_eq!(rest2.len(), 0);
    assert_eq!(parse_bool(&[]), Err(ProtocolError::Truncated));
}

#[test]
fn u32_field_round_trip() {
    let mut bytes: Vec<u8> = Vec::new();
    serialise_u32(0x01020304, &mut bytes);
    assert_eq!(bytes, vec![0x04, 0x03, 0x02, 0x01]);
    let (rest, v) = parse_u32(&bytes).unwrap();
    assert_eq!(v, 0x01020304);
    assert_eq!(rest.len(), 0);
    assert_eq!(parse_u32(&[1, 2, 3]), Err(ProtocolError::Truncated));
}

#[test]
fn request_round_trip_create_database() {
    let cmd = Command::CreateDatabase { name: String::from("shop") };
    let bytes = request::serialise(cmd);
    assert_eq!(bytes, encoded("shop", 0x00));
    let back = request::parse(&bytes).unwrap();
    assert_eq!(back, Command::CreateDatabase { name: String::from("shop") });
}

#[test]
fn request_round_trip_open_database() {
    let cmd = Command::OpenDatabase { name: String::from("shop") };
    let bytes = request::serialise(cmd);
    assert_eq!(bytes, encoded("shop", 0x01));
    let back = request::parse(&bytes).unwrap();
    assert_eq!(back, Command::OpenDatabase { name: String::from("shop") });
}

#[test]
fn request_round_trip_create_table() {
    let cmd = Command::CreateTable { name: String::from("orders"), cols: vec![] };
    let bytes = request::serialise(cmd);
    assert_eq!(bytes, encoded("orders", 0x02));
    let back = request::parse(&bytes).unwrap();
    assert_eq!(back, Command::CreateTable { name: String::from("orders"), cols: vec![] });
}

#[test]
fn request_round_trip_lists() {
    let bytes = request::serialise(Command::ListDatabases);
    assert_eq!(bytes, vec![0x03]);
    assert_eq!(request::parse(&bytes).unwrap(), Command::ListDatabases);

    let bytes = request::serialise(Command::ListTables);
    assert_eq!(bytes, vec![0x04]);
    assert_eq!(request::parse(&bytes).unwrap(), Command::ListTables);
}

#[test]
fn request_round_trip_empty_name() {
    let cmd = Command::CreateDatabase { name: String::new() };
    let bytes = request::serialise(cmd);
    assert_eq!(bytes, vec![0x00, 0, 0, 0, 0]);
    let back = request::parse(&bytes).unwrap();
    assert_eq!(back, Command::CreateDatabase { name: String::new() });
}

#[test]
fn request_trailing_data_after_name() {
    let mut bytes = encoded("shop", 0x00);
    bytes.push(0x00);
    assert_eq!(request::parse(&bytes), Err(ProtocolError::TrailingData));
}

#[test]
fn request_trailing_data_after_list() {
    assert_eq!(request::parse(&[0x03, 0x01]), Err(ProtocolError::TrailingData));
    assert_eq!(request::parse(&[0x04, 0x01]), Err(ProtocolError::TrailingData));
}

#[test]
fn request_unknown_discriminant() {
    assert_eq!(request::parse(&[0x7f]), Err(ProtocolError::UnknownCommand));
    assert_eq!(request::parse(&[0x05]), Err(ProtocolError::UnknownCommand));
}

#[test]
fn request_empty_payload() {
    assert_eq!(request::parse(&[]), Err(ProtocolError::Truncated));
}

#[test]
fn request_truncated_name() {
    assert_eq!(request::parse(&[0x00, 9, 0, 0, 0, b'a']), Err(ProtocolError::Truncated));
}

#[test]
fn request_invalid_utf8_name() {
    assert_eq!(
        request::parse(&[0x01, 2, 0, 0, 0, 0xc0, 0x00]),
        Err(ProtocolError::InvalidUtf8)
    );
}

#[test]
fn response_flag_round_trips() {
    let resp = Response::CreateDatabase { success: true };
    let bytes = response::serialise(&resp);
    assert_eq!(bytes, vec![0x00, 0x01]);
    assert_eq!(response::parse(&bytes).unwrap(), Response::CreateDatabase { success: true });

    let resp = Response::CreateTable { success: false };
    let bytes = response::serialise(&resp);
    assert_eq!(bytes, vec![0x02, 0x00]);
    assert_eq!(response::parse(&bytes).unwrap(), Response::CreateTable { success: false });
}

#[test]
fn response_nonzero_byte_reads_as_true() {
    assert_eq!(
        response::parse(&[0x00, 0x07]).unwrap(),
        Response::CreateDatabase { success: true }
    );
}

#[test]
fn response_list_round_trip() {
    let resp = Response::ListDatabases {
        names: vec![String::from("a"), String::from("bee"), String::new()],
    };
    let bytes = response::serialise(&resp);
    let expected: Vec<u8> = vec![
        0x03, 3, 0, 0, 0, 1, 0, 0, 0, b'a', 3, 0, 0, 0, b'b', b'e', b'e', 0, 0, 0, 0,
    ];
    assert_eq!(bytes, expected);
    assert_eq!(
        response::parse(&bytes).unwrap(),
        Response::ListDatabases { names: vec![String::from("a"), String::from("bee"), String::new()] }
    );
}

#[test]
fn response_empty_list() {
    let resp = Response::ListTables { names: vec![] };
    let bytes = response::serialise(&resp);
    assert_eq!(bytes, vec![0x04, 0, 0, 0, 0]);
    assert_eq!(response::parse(&bytes).unwrap(), Response::ListTables { names: vec![] });
}

#[test]
fn response_open_database_has_no_decoding() {
    assert_eq!(response::parse(&[0x01, 0x01]), Err(ProtocolError::UnknownCommand));
}

#[test]
fn response_trailing_data() {
    assert_eq!(response::parse(&[0x00, 0x01, 0x00]), Err(ProtocolError::TrailingData));
    assert_eq!(
        response::parse(&[0x03, 0, 0, 0, 0, 9]),
        Err(ProtocolError::TrailingData)
    );
}

#[test]
fn response_truncated_list() {
    assert_eq!(response::parse(&[0x03, 2, 0, 0, 0, 1, 0, 0, 0, b'a']), Err(ProtocolError::Truncated));
}

#[test]
fn frame_round_trip() {
    let frame = encode_frame(&[0xAA, 0xBB]);
    assert_eq!(frame, vec![2, 0, 0, 0, 0xAA, 0xBB]);
    let (payload, consumed) = decode_frame(&frame).unwrap();
    assert_eq!(payload, vec![0xAA, 0xBB]);
    assert_eq!(consumed, 6);
}

#[test]
fn frame_empty_payload() {
    let frame = encode_frame(&[]);
    assert_eq!(frame, vec![0, 0, 0, 0]);
    let (payload, consumed) = decode_frame(&frame).unwrap();
    assert_eq!(payload, Vec::<u8>::new());
    assert_eq!(consumed, 4);
}

#[test]
fn frame_clean_close_on_empty_stream() {
    assert_eq!(decode_frame(&[]), Err(FrameError::CleanClose));
}

#[test]
fn frame_truncated_header_is_fatal() {
    assert_eq!(decode_frame(&[2, 0]), Err(FrameError::Truncated));
}

#[test]
fn frame_truncated_payload_is_fatal() {
    assert_eq!(decode_frame(&[3, 0, 0, 0, 1]), Err(FrameError::Truncated));
}

#[test]
fn frame_leaves_following_bytes() {
    let mut stream = encode_frame(&[0x01]);
    stream.extend_from_slice(&[9, 9, 9]);
    let (payload, consumed) = decode_frame(&stream).unwrap();
    assert_eq!(payload, vec![0x01]);
    assert_eq!(&stream[consumed..], &[9, 9, 9]);
}
