//! Tests of the client's command language.

use squeef::command::Command;
use squeef::lang::{parse, parse_command, tokenize, ParseError};

#[test]
fn tokenize_splits_on_whitespace() {
    assert_eq!(
        tokenize("CREATE DATABASE foo"),
        vec![String::from("CREATE"), String::from("DATABASE"), String::from("foo")]
    );
}

#[test]
fn tokenize_collapses_runs_and_edges() {
    assert_eq!(
        tokenize("  LIST\t\tTABLES \r\n"),
        vec![String::from("LIST"), String::from("TABLES")]
    );
    assert_eq!(tokenize(""), Vec::<String>::new());
    assert_eq!(tokenize(" \t "), Vec::<String>::new());
}

#[test]
fn parse_create_database_forms() {
    assert_eq!(
        parse(String::from("CREATE DATABASE shop")).unwrap(),
        Command::CreateDatabase { name: String::from("shop") }
    );
    assert_eq!(
        parse(String::from("CREATE DB shop")).unwrap(),
        Command::CreateDatabase { name: String::from("shop") }
    );
}

#[test]
fn parse_create_table() {
    assert_eq!(
        parse(String::from("CREATE TABLE orders")).unwrap(),
        Command::CreateTable { name: String::from("orders"), cols: vec![] }
    );
}

#[test]
fn parse_open_database() {
    assert_eq!(
        parse(String::from("OPEN DATABASE shop")).unwrap(),
        Command::OpenDatabase { name: String::from("shop") }
    );
}

#[test]
fn parse_lists() {
    assert_eq!(parse(String::from("LIST DATABASES")).unwrap(), Command::ListDatabases);
    assert_eq!(parse(String::from("LIST DBS")).unwrap(), Command::ListDatabases);
    assert_eq!(parse(String::from("LIST TABLES")).unwrap(), Command::ListTables);
}

#[test]
fn parse_rejects_bad_input() {
    assert_eq!(parse(String::new()), Err(ParseError::InvalidCommand));
    assert_eq!(parse(String::from("DROP DATABASE x")), Err(ParseError::InvalidCommand));
    assert_eq!(parse(String::from("CREATE")), Err(ParseError::InvalidCommand));
    assert_eq!(parse(String::from("CREATE DATABASE")), Err(ParseError::InvalidCommand));
    assert_eq!(parse(String::from("OPEN shop")), Err(ParseError::InvalidCommand));
    assert_eq!(parse(String::from("LIST")), Err(ParseError::InvalidCommand));
    assert_eq!(parse(String::from("LIST COLUMNS")), Err(ParseError::InvalidCommand));
}

#[test]
fn parse_command_script() {
    let script = "CREATE DATABASE shop\nOPEN DATABASE shop\nCREATE TABLE orders\n";
    let cmds = parse_command(script).unwrap();
    assert_eq!(
        cmds,
        vec![
            Command::CreateDatabase { name: String::from("shop") },
            Command::OpenDatabase { name: String::from("shop") },
            Command::CreateTable { name: String::from("orders"), cols: vec![] },
        ]
    );
}

#[test]
fn parse_command_stops_at_first_bad_line() {
    let script = "CREATE DATABASE shop\nNOT A COMMAND\nLIST DBS";
    assert_eq!(parse_command(script), Err(ParseError::InvalidCommand));
}

#[test]
fn parse_command_empty_input() {
    assert_eq!(parse_command("").unwrap(), Vec::<Command>::new());
}

#[test]
fn parse_keeps_multibyte_names() {
    assert_eq!(
        parse(String::from("CREATE DATABASE caf\u{e9}")).unwrap(),
        Command::CreateDatabase { name: String::from("caf\u{e9}") }
    );
}

#[test]
fn parse_ignores_extra_trailing_tokens() {
    assert_eq!(
        parse(String::from("CREATE DB shop extra tokens")).unwrap(),
        Command::CreateDatabase { name: String::from("shop") }
    );
}
