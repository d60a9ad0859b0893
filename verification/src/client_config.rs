//! Client configuration values: the server address to connect to, with its
//! defaults. Command-line parsing lives outside the library.

use vstd::prelude::*;

use crate::config::DEFAULT_PORT;

verus! {

/// Where the client connects.
#[derive(Debug)]
pub struct Config {
    pub host: String,
    pub port: u16,
}

impl Default for Config {
    /// The defaults: the loopback address and the default port.
    fn default() -> (c: Config)
        ensures
            c.host@ == "127.0.0.1"@,
            c.port == DEFAULT_PORT,
    {
        Config { host: "127.0.0.1".to_owned(), port: DEFAULT_PORT }
    }
}

} // verus!
