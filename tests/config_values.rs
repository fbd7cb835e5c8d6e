use cxdb_server::config::{parse_u64, Config};

#[test]
fn unset_values_take_defaults() {
    let c = Config::from_values(None, None, None, None, None, None);
    assert_eq!(c.data_dir, "./data");
    assert_eq!(c.bind_addr, "127.0.0.1:9009");
    assert_eq!(c.http_bind_addr, "127.0.0.1:9010");
    assert_eq!(c.max_connections, 512);
    assert_eq!(c.connection_read_timeout_secs, 300);
    assert_eq!(c.connection_write_timeout_secs, 30);
}

#[test]
fn given_values_win() {
    let c = Config::from_values(
        Some("/var/cxdb".to_string()),
        Some("0.0.0.0:1".to_string()),
        Some("0.0.0.0:2".to_string()),
        Some("0".to_string()),
        Some("+15".to_string()),
        Some("45".to_string()),
    );
    assert_eq!(c.data_dir, "/var/cxdb");
    assert_eq!(c.bind_addr, "0.0.0.0:1");
    assert_eq!(c.http_bind_addr, "0.0.0.0:2");
    assert_eq!(c.max_connections, 0);
    assert_eq!(c.connection_read_timeout_secs, 15);
    assert_eq!(c.connection_write_timeout_secs, 45);
}

#[test]
fn unreadable_numbers_take_defaults() {
    let c = Config::from_values(None, None, None, Some("lots".to_string()), Some("-1".to_string()), Some("".to_string()));
    assert_eq!(c.max_connections, 512);
    assert_eq!(c.connection_read_timeout_secs, 300);
    assert_eq!(c.connection_write_timeout_secs, 30);
}

#[test]
fn decimal_numerals() {
    assert_eq!(parse_u64("42"), Some(42));
    assert_eq!(parse_u64("+7"), Some(7));
    assert_eq!(parse_u64("007"), Some(7));
    assert_eq!(parse_u64("18446744073709551615"), Some(u64::MAX));
    assert_eq!(parse_u64("18446744073709551616"), None);
    assert_eq!(parse_u64(""), None);
    assert_eq!(parse_u64("+"), None);
    assert_eq!(parse_u64("-1"), None);
    assert_eq!(parse_u64("12a"), None);
    assert_eq!(parse_u64(" 1"), None);
}
