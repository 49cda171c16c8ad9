//! Configuration assembly and validation.

use coach::config::{load_config, ConfigError};

#[test]
fn assembles_valid_configuration() {
    let c = load_config("postgres://localhost/coach", "8080", "https://example.test/results")
        .unwrap();
    assert_eq!(c.database.url, "postgres://localhost/coach");
    assert_eq!(c.server_port, 8080);
    assert_eq!(c.results_url, "https://example.test/results");
}

#[test]
fn port_accepts_every_u16() {
    assert_eq!(load_config("db", "0", "").unwrap().server_port, 0);
    assert_eq!(load_config("db", "1", "").unwrap().server_port, 1);
    assert_eq!(load_config("db", "65535", "").unwrap().server_port, 65535);
    assert!(matches!(load_config("db", "65536", ""), Err(ConfigError::InvalidServerPort)));
    assert!(matches!(load_config("db", "999999999999", ""), Err(ConfigError::InvalidServerPort)));
}

#[test]
fn port_reads_like_a_u16_token() {
    // leading plus and leading zeros, as u16 parsing accepts them
    assert_eq!(load_config("db", "+8080", "").unwrap().server_port, 8080);
    assert_eq!(load_config("db", "00080", "").unwrap().server_port, 80);
    assert!(matches!(load_config("db", "+", ""), Err(ConfigError::InvalidServerPort)));
}

#[test]
fn malformed_port_is_rejected() {
    assert!(matches!(load_config("db", "", ""), Err(ConfigError::InvalidServerPort)));
    assert!(matches!(load_config("db", "80a", ""), Err(ConfigError::InvalidServerPort)));
    assert!(matches!(load_config("db", "-1", ""), Err(ConfigError::InvalidServerPort)));
    assert!(matches!(load_config("db", "80 ", ""), Err(ConfigError::InvalidServerPort)));
}

#[test]
fn urls_are_taken_verbatim() {
    // an empty URL is a value, not an error: validating it is the
    // collaborator's business
    let c = load_config("", "8080", "").unwrap();
    assert_eq!(c.database.url, "");
    assert_eq!(c.results_url, "");
}
