//! Service configuration, as plain data.  Loading it from disk is the
//! composition root's job.

use vstd::prelude::*;

verus! {

/// Connection pool settings.
pub struct PoolOptions {
    /// Largest number of open connections.
    pub max_open_conns: u64,
    /// Largest number of idle connections kept.
    pub max_idle_conns: u64,
    /// Longest lifetime of one connection.
    pub max_lifetime: u64,
    /// How long to wait for a connection from the pool.
    pub timeout: u64,
}

/// Where and how to reach the relational store.
pub struct DatabaseConfig {
    pub url: String,
    pub option: Option<PoolOptions>,
}

/// Log output settings.
pub struct LoggerConfig {
    /// Log level name.
    pub level: String,
    /// Whether to log to the console.
    pub console: bool,
}

/// The whole service configuration.
pub struct AppConfig {
    pub server: String,
    pub logger: LoggerConfig,
    pub database: DatabaseConfig,
}

} // verus!
