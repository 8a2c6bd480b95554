//! Pool configuration tests.

use h3db::pool::check_pool_config;

#[test]
fn test_bare_url_warns_twice() {
    let w = check_pool_config("tcp://localhost:9010/water2");
    assert!(w.compression_off);
    assert!(w.no_connection_timeout);
}

#[test]
fn test_fully_configured_url_is_quiet() {
    let w = check_pool_config("tcp://localhost:9010/water2?compression=lz4&connection_timeout=5000ms");
    assert!(!w.compression_off);
    assert!(!w.no_connection_timeout);
}

#[test]
fn test_compression_none_still_warns() {
    let w = check_pool_config("tcp://h/db?compression=none&connection_timeout=2000ms");
    assert!(w.compression_off);
    assert!(!w.no_connection_timeout);
}

#[test]
fn test_missing_connection_timeout_warns() {
    let w = check_pool_config("tcp://h/db?compression=lz4");
    assert!(!w.compression_off);
    assert!(w.no_connection_timeout);
}

#[test]
fn test_first_occurrence_wins() {
    let w = check_pool_config("tcp://h/db?compression=none&compression=lz4");
    assert!(w.compression_off);
}
