//! Configuration reader: resolves each setting from its section of the
//! parsed configuration file, falling back to its default, and parses the
//! numeric settings into their machine types.

use crate::config::Config;
use crate::config::ConfigInet;
use crate::config::ConfigListen;
use crate::config::ConfigMemcached;
use crate::defaults;
use crate::text::parse_bounded;
use crate::text::parse_dec_bounded;
use ini::Ini;
use vstd::prelude::*;

verus! {

pub struct ReaderBuilder;

pub struct Reader;

pub struct ReaderGetterBuilder;

pub struct ReaderGetter;

#[verifier::external_type_specification]
#[verifier::external_body]
pub struct ExIni(Ini);

/// What the parsed configuration file holds: the value's text for every
/// (section, key) pair of a named section.
pub uninterp spec fn ini_entries(conf: Ini) -> Map<(Seq<char>, Seq<char>), Seq<char>>;

/// The resolved text for (group, key): the stored value, or the default
/// when the section or the key is absent.
pub open spec fn lookup_or(
    entries: Map<(Seq<char>, Seq<char>), Seq<char>>,
    group: Seq<char>,
    key: Seq<char>,
    default: Seq<char>,
) -> Seq<char> {
    if entries.contains_key((group, key)) {
        entries[(group, key)]
    } else {
        default
    }
}

/// Relies on ini::Ini::get_from_or: the value under `key` in section
/// `group`, or `default` when the section or the key is absent.
#[verifier::external_body]
fn ini_get_or(conf: &Ini, group: &str, key: &str, default: &str) -> (r: String)
    ensures
        r@ == lookup_or(ini_entries(*conf), group@, key@, default@),
{
    conf.get_from_or(Some(group), key, default).to_owned()
}

impl ReaderBuilder {
    pub fn new() -> Reader {
        Reader
    }
}

impl ReaderGetterBuilder {
    pub fn new() -> ReaderGetter {
        ReaderGetter
    }
}

impl ReaderGetter {
    /// Resolves (group, key) with its default and parses it as a `u8`.
    pub fn get_u8(&self, conf: &Ini, group: &str, key: &str, default: &str) -> (r: Option<u8>)
        ensures
            match parse_bounded(lookup_or(ini_entries(*conf), group@, key@, default@), 255) {
                Some(v) => r matches Some(x) && x as nat == v,
                None => r is None,
            },
    {
        let raw = ini_get_or(conf, group, key, default);
        match parse_dec_bounded(raw.as_str(), 255) {
            Some(v) => Some(v as u8),
            None => None,
        }
    }

    /// Resolves (group, key) with its default and parses it as a `u16`.
    pub fn get_u16(&self, conf: &Ini, group: &str, key: &str, default: &str) -> (r: Option<u16>)
        ensures
            match parse_bounded(lookup_or(ini_entries(*conf), group@, key@, default@), 65535) {
                Some(v) => r matches Some(x) && x as nat == v,
                None => r is None,
            },
    {
        let raw = ini_get_or(conf, group, key, default);
        match parse_dec_bounded(raw.as_str(), 65535) {
            Some(v) => Some(v as u16),
            None => None,
        }
    }

    /// Resolves (group, key) with its default and parses it as a `u32`.
    pub fn get_u32(&self, conf: &Ini, group: &str, key: &str, default: &str) -> (r: Option<u32>)
        ensures
            match parse_bounded(
                lookup_or(ini_entries(*conf), group@, key@, default@),
                4294967295,
            ) {
                Some(v) => r matches Some(x) && x as nat == v,
                None => r is None,
            },
    {
        let raw = ini_get_or(conf, group, key, default);
        match parse_dec_bounded(raw.as_str(), 4294967295) {
            Some(v) => Some(v as u32),
            None => None,
        }
    }

    /// Resolves a network endpoint: the host text as stored (validated by
    /// the networking layer at bind time) and the port parsed as a `u16`.
    pub fn get_inet(
        &self,
        conf: &Ini,
        group: &str,
        key_host: &str,
        key_port: &str,
        default_host: &str,
        default_port: &str,
    ) -> (r: Option<ConfigInet>)
        ensures
            ({
                let host = lookup_or(ini_entries(*conf), group@, key_host@, default_host@);
                match parse_bounded(
                    lookup_or(ini_entries(*conf), group@, key_port@, default_port@),
                    65535,
                ) {
                    Some(p) => r matches Some(inet) && inet.host@ == host && inet.port as nat == p,
                    None => r is None,
                }
            }),
    {
        let host = ini_get_or(conf, group, key_host, default_host);
        match self.get_u16(conf, group, key_port, default_port) {
            Some(port) => Some(ConfigInet { host, port }),
            None => None,
        }
    }
}

impl Reader {
    /// Builds the configuration from a parsed file: every setting resolved
    /// from its section with its default, numeric settings parsed. `None`
    /// when any numeric setting does not parse or does not fit its type.
    pub fn make(&self, conf: &Ini) -> (r: Option<Config>)
        ensures
            ({
                let e = ini_entries(*conf);
                &&& (r is Some <==> {
                    &&& parse_bounded(
                        lookup_or(e, "listen"@, "port"@, defaults::LISTEN_PORT@),
                        65535,
                    ) is Some
                    &&& parse_bounded(
                        lookup_or(e, "memcached"@, "port"@, defaults::MEMCACHED_PORT@),
                        65535,
                    ) is Some
                    &&& parse_bounded(
                        lookup_or(
                            e,
                            "memcached"@,
                            "max_key_size"@,
                            defaults::MEMCACHED_MAX_KEY_SIZE@,
                        ),
                        4294967295,
                    ) is Some
                    &&& parse_bounded(
                        lookup_or(
                            e,
                            "memcached"@,
                            "max_key_expiration"@,
                            defaults::MEMCACHED_MAX_KEY_EXPIRATION@,
                        ),
                        4294967295,
                    ) is Some
                    &&& parse_bounded(
                        lookup_or(e, "memcached"@, "pool_size"@, defaults::MEMCACHED_POOL_SIZE@),
                        255,
                    ) is Some
                    &&& parse_bounded(
                        lookup_or(e, "memcached"@, "reconnect"@, defaults::MEMCACHED_RECONNECT@),
                        65535,
                    ) is Some
                    &&& parse_bounded(
                        lookup_or(e, "memcached"@, "timeout"@, defaults::MEMCACHED_TIMEOUT@),
                        65535,
                    ) is Some
                })
                &&& (r matches Some(c) ==> {
                    &&& c.listen.inet.host@ == lookup_or(
                        e,
                        "listen"@,
                        "host"@,
                        defaults::LISTEN_HOST@,
                    )
                    &&& Some(c.listen.inet.port as nat) == parse_bounded(
                        lookup_or(e, "listen"@, "port"@, defaults::LISTEN_PORT@),
                        65535,
                    )
                    &&& c.memcached.inet.host@ == lookup_or(
                        e,
                        "memcached"@,
                        "host"@,
                        defaults::MEMCACHED_HOST@,
                    )
                    &&& Some(c.memcached.inet.port as nat) == parse_bounded(
                        lookup_or(e, "memcached"@, "port"@, defaults::MEMCACHED_PORT@),
                        65535,
                    )
                    &&& Some(c.memcached.max_key_size as nat) == parse_bounded(
                        lookup_or(
                            e,
                            "memcached"@,
                            "max_key_size"@,
                            defaults::MEMCACHED_MAX_KEY_SIZE@,
                        ),
                        4294967295,
                    )
                    &&& Some(c.memcached.max_key_expiration as nat) == parse_bounded(
                        lookup_or(
                            e,
                            "memcached"@,
                            "max_key_expiration"@,
                            defaults::MEMCACHED_MAX_KEY_EXPIRATION@,
                        ),
                        4294967295,
                    )
                    &&& Some(c.memcached.pool_size as nat) == parse_bounded(
                        lookup_or(e, "memcached"@, "pool_size"@, defaults::MEMCACHED_POOL_SIZE@),
                        255,
                    )
                    &&& Some(c.memcached.reconnect as nat) == parse_bounded(
                        lookup_or(e, "memcached"@, "reconnect"@, defaults::MEMCACHED_RECONNECT@),
                        65535,
                    )
                    &&& Some(c.memcached.timeout as nat) == parse_bounded(
                        lookup_or(e, "memcached"@, "timeout"@, defaults::MEMCACHED_TIMEOUT@),
                        65535,
                    )
                })
            }),
    {
        let getter = ReaderGetterBuilder::new();
        let listen_inet = match getter.get_inet(
            conf,
            "listen",
            "host",
            "port",
            defaults::LISTEN_HOST,
            defaults::LISTEN_PORT,
        ) {
            Some(x) => x,
            None => {
                return None;
            },
        };
        let memcached_inet = match getter.get_inet(
            conf,
            "memcached",
            "host",
            "port",
            defaults::MEMCACHED_HOST,
            defaults::MEMCACHED_PORT,
        ) {
            Some(x) => x,
            None => {
                return None;
            },
        };
        let max_key_size = match getter.get_u32(
            conf,
            "memcached",
            "max_key_size",
            defaults::MEMCACHED_MAX_KEY_SIZE,
        ) {
            Some(x) => x,
            None => {
                return None;
            },
        };
        let max_key_expiration = match getter.get_u32(
            conf,
            "memcached",
            "max_key_expiration",
            defaults::MEMCACHED_MAX_KEY_EXPIRATION,
        ) {
            Some(x) => x,
            None => {
                return None;
            },
        };
        let pool_size = match getter.get_u8(
            conf,
            "memcached",
            "pool_size",
            defaults::MEMCACHED_POOL_SIZE,
        ) {
            Some(x) => x,
            None => {
                return None;
            },
        };
        let reconnect = match getter.get_u16(
            conf,
            "memcached",
            "reconnect",
            defaults::MEMCACHED_RECONNECT,
        ) {
            Some(x) => x,
            None => {
                return None;
            },
        };
        let timeout = match getter.get_u16(
            conf,
            "memcached",
            "timeout",
            defaults::MEMCACHED_TIMEOUT,
        ) {
            Some(x) => x,
            None => {
                return None;
            },
        };
        Some(
            Config {
                listen: ConfigListen { inet: listen_inet },
                memcached: ConfigMemcached {
                    inet: memcached_inet,
                    max_key_size,
                    max_key_expiration,
                    pool_size,
                    reconnect,
                    timeout,
                },
            },
        )
    }
}

} // verus!
