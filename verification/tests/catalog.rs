//! Tests of the catalog: creation, lookup, listing and the error cases.

use squeef::catalog::Catalog;
use squeef::errors::CatalogError;

#[test]
fn create_database_returns_handles_in_order() {
    let mut cat = Catalog::new();
    assert_eq!(cat.create_database(String::from("a")).unwrap(), 0);
    assert_eq!(cat.create_database(String::from("b")).unwrap(), 1);
    assert_eq!(cat.create_database(String::from("c")).unwrap(), 2);
}

#[test]
fn duplicate_database_fails_and_keeps_one_entry() {
    let mut cat = Catalog::new();
    cat.create_database(String::from("x")).unwrap();
    assert_eq!(cat.create_database(String::from("x")), Err(CatalogError::DuplicateName));
    let names = cat.list_database_names();
    assert_eq!(names, vec![String::from("x")]);
}

#[test]
fn list_database_names_in_creation_order() {
    let mut cat = Catalog::new();
    cat.create_database(String::from("a")).unwrap();
    cat.create_database(String::from("b")).unwrap();
    cat.create_database(String::from("c")).unwrap();
    assert_eq!(
        cat.list_database_names(),
        vec![String::from("a"), String::from("b"), String::from("c")]
    );
}

#[test]
fn find_database_by_name() {
    let mut cat = Catalog::new();
    cat.create_database(String::from("a")).unwrap();
    let b = cat.create_database(String::from("b")).unwrap();
    assert_eq!(cat.find_database(&String::from("b")), Some(b));
    assert_eq!(cat.find_database(&String::from("missing")), None);
}

#[test]
fn stale_handle_fails_create_table() {
    // A handle "obtained" before any database exists never resolves.
    let stale: usize = 0;
    let mut cat = Catalog::new();
    assert_eq!(
        cat.create_table(stale, String::from("t")),
        Err(CatalogError::InvalidHandle)
    );
}

#[test]
fn stale_handle_fails_list_tables() {
    let cat = Catalog::new();
    assert_eq!(cat.list_table_names(7), Err(CatalogError::InvalidHandle));
}

#[test]
fn create_table_and_list() {
    let mut cat = Catalog::new();
    let db = cat.create_database(String::from("shop")).unwrap();
    assert_eq!(cat.create_table(db, String::from("orders")).unwrap(), 0);
    assert_eq!(cat.create_table(db, String::from("items")).unwrap(), 1);
    assert_eq!(
        cat.list_table_names(db).unwrap(),
        vec![String::from("orders"), String::from("items")]
    );
}

#[test]
fn duplicate_table_fails() {
    let mut cat = Catalog::new();
    let db = cat.create_database(String::from("shop")).unwrap();
    cat.create_table(db, String::from("orders")).unwrap();
    assert_eq!(
        cat.create_table(db, String::from("orders")),
        Err(CatalogError::DuplicateName)
    );
    assert_eq!(cat.list_table_names(db).unwrap(), vec![String::from("orders")]);
}

#[test]
fn same_table_name_in_two_databases() {
    let mut cat = Catalog::new();
    let a = cat.create_database(String::from("a")).unwrap();
    let b = cat.create_database(String::from("b")).unwrap();
    cat.create_table(a, String::from("t")).unwrap();
    cat.create_table(b, String::from("t")).unwrap();
    assert_eq!(cat.list_table_names(a).unwrap(), vec![String::from("t")]);
    assert_eq!(cat.list_table_names(b).unwrap(), vec![String::from("t")]);
}

#[test]
fn handles_stay_valid_as_catalog_grows() {
    let mut cat = Catalog::new();
    let first = cat.create_database(String::from("first")).unwrap();
    for k in 0..10 {
        cat.create_database(format!("db{}", k)).unwrap();
    }
    cat.create_table(first, String::from("t")).unwrap();
    assert_eq!(cat.list_table_names(first).unwrap(), vec![String::from("t")]);
}
