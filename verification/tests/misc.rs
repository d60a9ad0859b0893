//! Tests of configuration defaults, log filtering and error descriptions.

use squeef::client_config;
use squeef::config::{Config, ServerConfig, StorageConfig, DEFAULT_PORT};
use squeef::errors::{CatalogError, ProtocolError};
use squeef::log::{should_log, LogLevel};

#[test]
fn server_config_defaults() {
    let c = ServerConfig::default();
    assert_eq!(c.port, 6870);
    assert_eq!(c.max_concurrent_connection, 8);
    assert_eq!(DEFAULT_PORT, 6870);
}

#[test]
fn storage_config_default_path() {
    let c = StorageConfig::default();
    assert_eq!(c.persistent_storage_dir, "/var/lib/squeef");
}

#[test]
fn whole_config_default() {
    let c = Config::default();
    assert_eq!(c.server.port, 6870);
    assert_eq!(c.storage.persistent_storage_dir, "/var/lib/squeef");
}

#[test]
fn client_config_defaults() {
    let c = client_config::Config::default();
    assert_eq!(c.host, "127.0.0.1");
    assert_eq!(c.port, 6870);
}

#[test]
fn severity_order() {
    assert!(LogLevel::DEBUG.severity() < LogLevel::INFO.severity());
    assert!(LogLevel::INFO.severity() < LogLevel::WARN.severity());
    assert!(LogLevel::WARN.severity() < LogLevel::ERROR.severity());
}

#[test]
fn sink_accepts_messages_at_or_above_its_level() {
    assert!(should_log(&LogLevel::INFO, &LogLevel::INFO));
    assert!(should_log(&LogLevel::INFO, &LogLevel::ERROR));
    assert!(!should_log(&LogLevel::INFO, &LogLevel::DEBUG));
    assert!(should_log(&LogLevel::DEBUG, &LogLevel::DEBUG));
    assert!(!should_log(&LogLevel::ERROR, &LogLevel::WARN));
}

#[test]
fn error_messages_name_the_case() {
    assert_eq!(ProtocolError::UnknownCommand.message(), "unknown command discriminant");
    assert_eq!(ProtocolError::TrailingData.message(), "remaining data after command");
    assert_eq!(ProtocolError::Truncated.message(), "data too short for field");
    assert_eq!(ProtocolError::InvalidUtf8.message(), "invalid utf-8 string");
    assert_eq!(CatalogError::DuplicateName.message(), "name already in use");
    assert_eq!(CatalogError::InvalidHandle.message(), "invalid database handle");
    assert_eq!(CatalogError::NotFound.message(), "no database with that name");
    assert_eq!(CatalogError::NoOpenDatabase.message(), "no open database");
}
