//! Default configuration values, as the text they stand in for.

use vstd::prelude::*;

verus! {

pub const LISTEN_HOST: &'static str = "127.0.0.1";

pub const LISTEN_PORT: &'static str = "8080";

pub const MEMCACHED_HOST: &'static str = "127.0.0.1";

pub const MEMCACHED_PORT: &'static str = "11211";

pub const MEMCACHED_MAX_KEY_SIZE: &'static str = "256000";

pub const MEMCACHED_MAX_KEY_EXPIRATION: &'static str = "86400";

pub const MEMCACHED_POOL_SIZE: &'static str = "8";

pub const MEMCACHED_RECONNECT: &'static str = "1000";

pub const MEMCACHED_TIMEOUT: &'static str = "1000";

} // verus!
