use bloom::reader::ReaderBuilder;
use bloom::reader::ReaderGetterBuilder;
use ini::Ini;

fn sample() -> Ini {
    Ini::load_from_str(
        "[listen]\nhost = 0.0.0.0\nport = 8081\n\n[memcached]\nhost = 192.168.1.10\nport = 11212\nmax_key_size = 10\nmax_key_expiration = 600\npool_size = 4\nreconnect = 900\ntimeout = 200\n",
    )
    .unwrap()
}

#[test]
fn reader_builds_config_from_file_text() {
    let conf = sample();
    let c = ReaderBuilder::new().make(&conf).unwrap();
    assert_eq!(c.listen.inet.host, "0.0.0.0");
    assert_eq!(c.listen.inet.port, 8081);
    assert_eq!(c.memcached.inet.host, "192.168.1.10");
    assert_eq!(c.memcached.inet.port, 11212);
    assert_eq!(c.memcached.max_key_size, 10);
    assert_eq!(c.memcached.max_key_expiration, 600);
    assert_eq!(c.memcached.pool_size, 4);
    assert_eq!(c.memcached.reconnect, 900);
    assert_eq!(c.memcached.timeout, 200);
}

#[test]
fn reader_uses_defaults_for_missing_settings() {
    let conf = Ini::load_from_str("").unwrap();
    let c = ReaderBuilder::new().make(&conf).unwrap();
    assert_eq!(c.listen.inet.host, "127.0.0.1");
    assert_eq!(c.listen.inet.port, 8080);
    assert_eq!(c.memcached.inet.host, "127.0.0.1");
    assert_eq!(c.memcached.inet.port, 11211);
    assert_eq!(c.memcached.max_key_size, 256000);
    assert_eq!(c.memcached.max_key_expiration, 86400);
    assert_eq!(c.memcached.pool_size, 8);
    assert_eq!(c.memcached.reconnect, 1000);
    assert_eq!(c.memcached.timeout, 1000);
}

#[test]
fn getter_parses_bounded_numbers() {
    let conf = Ini::load_from_str("[memcached]\na = 255\nb = 256\nc = lots\nd = +5\ne = 0\n")
        .unwrap();
    let getter = ReaderGetterBuilder::new();
    assert_eq!(getter.get_u8(&conf, "memcached", "a", "1"), Some(255));
    assert_eq!(getter.get_u8(&conf, "memcached", "b", "1"), None);
    assert_eq!(getter.get_u8(&conf, "memcached", "c", "1"), None);
    assert_eq!(getter.get_u8(&conf, "memcached", "d", "1"), Some(5));
    assert_eq!(getter.get_u8(&conf, "memcached", "e", "1"), Some(0));
    assert_eq!(getter.get_u8(&conf, "memcached", "missing", "17"), Some(17));
    assert_eq!(getter.get_u16(&conf, "memcached", "b", "1"), Some(256));
    assert_eq!(getter.get_u32(&conf, "memcached", "missing", "4294967295"), Some(4294967295));
    assert_eq!(getter.get_u32(&conf, "memcached", "missing", "4294967296"), None);
}

#[test]
fn getter_resolves_network_endpoints() {
    let conf = sample();
    let getter = ReaderGetterBuilder::new();
    let inet = getter
        .get_inet(&conf, "memcached", "host", "port", "127.0.0.1", "11211")
        .unwrap();
    assert_eq!(inet.host, "192.168.1.10");
    assert_eq!(inet.port, 11212);
}

#[test]
fn malformed_numeric_setting_is_refused() {
    let conf = Ini::load_from_str("[memcached]\npool_size = lots\n").unwrap();
    assert!(ReaderBuilder::new().make(&conf).is_none());
}
