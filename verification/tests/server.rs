//! Scenario tests of the per-message handler: whole request payloads in,
//! whole response frames out, with session and catalog state across calls.

use squeef::catalog::Catalog;
use squeef::command::Command;
use squeef::errors::{CatalogError, ProtocolError};
use squeef::handler::{dispatch, handle_message, ServerError};
use squeef::request;
use squeef::response::Response;
use squeef::session::Session;

fn payload_of(cmd: Command) -> Vec<u8> {
    request::serialise(cmd)
}

#[test]
fn end_to_end_shop_scenario() {
    let mut session = Session::new();
    let mut catalog = Catalog::new();

    // CreateDatabase("shop") answers a success flag: payload 0x00 0x01.
    let msg = payload_of(Command::CreateDatabase { name: String::from("shop") });
    let (frame, err) = handle_message(&msg, &mut session, &mut catalog);
    assert_eq!(frame.unwrap(), vec![2, 0, 0, 0, 0x00, 0x01]);
    assert_eq!(err, None);

    // OpenDatabase("shop") answers nothing.
    let msg = payload_of(Command::OpenDatabase { name: String::from("shop") });
    let (frame, err) = handle_message(&msg, &mut session, &mut catalog);
    assert_eq!(frame, None);
    assert_eq!(err, None);

    // CreateTable("orders") answers success.
    let msg = payload_of(Command::CreateTable { name: String::from("orders"), cols: vec![] });
    let (frame, err) = handle_message(&msg, &mut session, &mut catalog);
    assert_eq!(frame.unwrap(), vec![2, 0, 0, 0, 0x02, 0x01]);
    assert_eq!(err, None);

    // The same again answers failure.
    let msg = payload_of(Command::CreateTable { name: String::from("orders"), cols: vec![] });
    let (frame, err) = handle_message(&msg, &mut session, &mut catalog);
    assert_eq!(frame.unwrap(), vec![2, 0, 0, 0, 0x02, 0x00]);
    assert_eq!(err, Some(ServerError::Catalog(CatalogError::DuplicateName)));

    // ListTables answers count 1, name "orders".
    let msg = payload_of(Command::ListTables);
    let (frame, err) = handle_message(&msg, &mut session, &mut catalog);
    let frame = frame.unwrap();
    assert_eq!(err, None);
    let mut expected_payload: Vec<u8> = vec![0x04, 1, 0, 0, 0, 6, 0, 0, 0];
    expected_payload.extend_from_slice(b"orders");
    let mut expected = (expected_payload.len() as u32).to_le_bytes().to_vec();
    expected.extend_from_slice(&expected_payload);
    assert_eq!(frame, expected);

    // The client can decode that payload back.
    let resp = squeef::response::parse(&frame[4..]).unwrap();
    assert_eq!(resp, Response::ListTables { names: vec![String::from("orders")] });
}

#[test]
fn unknown_discriminant_keeps_connection_usable() {
    let mut session = Session::new();
    let mut catalog = Catalog::new();
    catalog.create_database(String::from("a")).unwrap();

    // A frame with discriminant 0x7f: an error, no response, nothing changes.
    let (frame, err) = handle_message(&[0x7f], &mut session, &mut catalog);
    assert_eq!(frame, None);
    assert_eq!(err, Some(ServerError::Protocol(ProtocolError::UnknownCommand)));

    // A well-formed ListDatabases on the same state still succeeds.
    let msg = payload_of(Command::ListDatabases);
    let (frame, err) = handle_message(&msg, &mut session, &mut catalog);
    assert_eq!(err, None);
    let expected_payload: Vec<u8> = vec![0x03, 1, 0, 0, 0, 1, 0, 0, 0, b'a'];
    let mut expected = (expected_payload.len() as u32).to_le_bytes().to_vec();
    expected.extend_from_slice(&expected_payload);
    assert_eq!(frame.unwrap(), expected);
}

#[test]
fn open_missing_database_leaves_session_idle() {
    let mut session = Session::new();
    let mut catalog = Catalog::new();

    let (resp, err) = dispatch(
        Command::OpenDatabase { name: String::from("nowhere") },
        &mut session,
        &mut catalog,
    );
    assert_eq!(resp, None);
    assert_eq!(err, Some(CatalogError::NotFound));
    assert_eq!(session.current(), None);

    let (resp, err) = dispatch(
        Command::CreateTable { name: String::from("t"), cols: vec![] },
        &mut session,
        &mut catalog,
    );
    assert_eq!(resp, None);
    assert_eq!(err, Some(CatalogError::NoOpenDatabase));
}

#[test]
fn list_tables_without_open_database() {
    let mut session = Session::new();
    let mut catalog = Catalog::new();
    let (resp, err) = dispatch(Command::ListTables, &mut session, &mut catalog);
    assert_eq!(resp, None);
    assert_eq!(err, Some(CatalogError::NoOpenDatabase));
}

#[test]
fn racing_creates_from_two_connections() {
    // Two connections race to create "x"; the catalog lock serialises them,
    // so one dispatch runs first. Exactly one succeeds, whatever the order,
    // and the catalog holds exactly one entry.
    let mut catalog = Catalog::new();
    let mut session_a = Session::new();
    let mut session_b = Session::new();

    let (resp, err) = dispatch(
        Command::CreateDatabase { name: String::from("x") },
        &mut session_a,
        &mut catalog,
    );
    assert_eq!(resp, Some(Response::CreateDatabase { success: true }));
    assert_eq!(err, None);

    let (resp, err) = dispatch(
        Command::CreateDatabase { name: String::from("x") },
        &mut session_b,
        &mut catalog,
    );
    assert_eq!(resp, Some(Response::CreateDatabase { success: false }));
    assert_eq!(err, Some(CatalogError::DuplicateName));

    assert_eq!(catalog.list_database_names(), vec![String::from("x")]);
}

#[test]
fn reopening_switches_the_active_database() {
    let mut session = Session::new();
    let mut catalog = Catalog::new();
    dispatch(Command::CreateDatabase { name: String::from("a") }, &mut session, &mut catalog);
    dispatch(Command::CreateDatabase { name: String::from("b") }, &mut session, &mut catalog);
    dispatch(Command::OpenDatabase { name: String::from("a") }, &mut session, &mut catalog);
    let first = session.current().unwrap();
    dispatch(Command::OpenDatabase { name: String::from("b") }, &mut session, &mut catalog);
    let second = session.current().unwrap();
    assert_ne!(first, second);

    dispatch(
        Command::CreateTable { name: String::from("t"), cols: vec![] },
        &mut session,
        &mut catalog,
    );
    assert_eq!(catalog.list_table_names(second).unwrap(), vec![String::from("t")]);
    assert_eq!(catalog.list_table_names(first).unwrap(), Vec::<String>::new());
}

#[test]
fn create_database_is_session_independent() {
    let mut session = Session::new();
    let mut catalog = Catalog::new();
    dispatch(Command::CreateDatabase { name: String::from("a") }, &mut session, &mut catalog);
    dispatch(Command::OpenDatabase { name: String::from("a") }, &mut session, &mut catalog);
    let open = session.current();
    dispatch(Command::CreateDatabase { name: String::from("b") }, &mut session, &mut catalog);
    assert_eq!(session.current(), open);
}

#[test]
fn protocol_error_mutates_nothing() {
    let mut session = Session::new();
    let mut catalog = Catalog::new();
    // Truncated name field.
    let (frame, err) = handle_message(&[0x00, 9, 0, 0, 0], &mut session, &mut catalog);
    assert_eq!(frame, None);
    assert_eq!(err, Some(ServerError::Protocol(ProtocolError::Truncated)));
    assert_eq!(catalog.list_database_names(), Vec::<String>::new());
    // Trailing bytes after a whole command.
    let mut msg = payload_of(Command::CreateDatabase { name: String::from("x") });
    msg.push(0);
    let (frame, err) = handle_message(&msg, &mut session, &mut catalog);
    assert_eq!(frame, None);
    assert_eq!(err, Some(ServerError::Protocol(ProtocolError::TrailingData)));
    assert_eq!(catalog.list_database_names(), Vec::<String>::new());
}

#[test]
fn multibyte_names_travel_whole_stack() {
    let mut session = Session::new();
    let mut catalog = Catalog::new();
    let name = "caf\u{e9}";
    let msg = payload_of(Command::CreateDatabase { name: String::from(name) });
    let (frame, err) = handle_message(&msg, &mut session, &mut catalog);
    assert_eq!(frame.unwrap(), vec![2, 0, 0, 0, 0x00, 0x01]);
    assert_eq!(err, None);
    assert_eq!(catalog.list_database_names(), vec![String::from(name)]);
}

#[test]
fn list_databases_works_from_open_state() {
    let mut session = Session::new();
    let mut catalog = Catalog::new();
    dispatch(Command::CreateDatabase { name: String::from("a") }, &mut session, &mut catalog);
    dispatch(Command::OpenDatabase { name: String::from("a") }, &mut session, &mut catalog);
    let (resp, err) = dispatch(Command::ListDatabases, &mut session, &mut catalog);
    assert_eq!(resp, Some(Response::ListDatabases { names: vec![String::from("a")] }));
    assert_eq!(err, None);
    assert!(session.current().is_some());
}
