//! Configuration data: plain values read once at startup and immutable
//! afterwards.

use vstd::prelude::*;

verus! {

/// A network endpoint as configuration text: a host (an IP address in
/// textual form, validated by the networking layer) and a port.
pub struct ConfigInet {
    pub host: String,
    pub port: u16,
}

/// Where the HTTP listener binds.
pub struct ConfigListen {
    pub inet: ConfigInet,
}

/// The cache backend section of the configuration file.
pub struct ConfigMemcached {
    pub inet: ConfigInet,
    pub max_key_size: u32,
    pub max_key_expiration: u32,
    pub pool_size: u8,
    pub reconnect: u16,
    pub timeout: u16,
}

/// The whole configuration file.
pub struct Config {
    pub listen: ConfigListen,
    pub memcached: ConfigMemcached,
}

/// Connection and policy parameters the cache store is built from.
pub struct ConfigRedis {
    pub host: String,
    pub port: u16,
    pub password: Option<String>,
    pub database: u32,
    pub pool_size: u32,
    pub idle_timeout_seconds: u64,
    pub connection_timeout_seconds: u64,
    pub max_key_size: usize,
    pub max_key_expiration: usize,
}

} // verus!
