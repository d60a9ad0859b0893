//! A small catalog service library: a length-prefixed wire protocol with a
//! discriminated command/response codec, and an in-memory catalog of named
//! databases and tables with per-connection session state on top.

pub mod catalog;
pub mod client_config;
pub mod command;
pub mod config;
pub mod errors;
pub mod frame;
pub mod handler;
pub mod lang;
pub mod log;
pub mod request;
pub mod response;
pub mod session;
pub mod utils;
