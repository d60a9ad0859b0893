//! Server configuration values: plain data with their defaults.
//!
//! Loading these from a configuration file is I/O and lives outside the
//! library; the library holds the shapes and the default values that the
//! rest of the system is specified against.

use vstd::prelude::*;

verus! {

/// The default port the service listens on.
pub const DEFAULT_PORT: u16 = 6870;

/// Settings of the listening service.
#[derive(Debug)]
pub struct ServerConfig {
    pub port: u16,
    pub max_concurrent_connection: isize,
}

impl Default for ServerConfig {
    /// The defaults: the default port, eight concurrent connections.
    fn default() -> (c: ServerConfig)
        ensures
            c.port == DEFAULT_PORT,
            c.max_concurrent_connection == 8,
    {
        ServerConfig { port: DEFAULT_PORT, max_concurrent_connection: 8 }
    }
}

/// Settings of the persistence layer. The surrounding system carries this
/// path, but no storage-to-disk path consumes it in this design.
#[derive(Debug)]
pub struct StorageConfig {
    pub persistent_storage_dir: String,
}

impl Default for StorageConfig {
    fn default() -> (c: StorageConfig)
        ensures
            c.persistent_storage_dir@ == "/var/lib/squeef"@,
    {
        StorageConfig { persistent_storage_dir: "/var/lib/squeef".to_owned() }
    }
}

/// The whole configuration.
#[derive(Debug)]
pub struct Config {
    pub server: ServerConfig,
    pub storage: StorageConfig,
}

impl Default for Config {
    fn default() -> (c: Config)
        ensures
            c.server.port == DEFAULT_PORT,
            c.server.max_concurrent_connection == 8,
            c.storage.persistent_storage_dir@ == "/var/lib/squeef"@,
    {
        Config { server: ServerConfig::default(), storage: StorageConfig::default() }
    }
}

} // verus!
