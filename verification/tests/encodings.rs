//! Text encodings, error mapping, and configuration validation.

use admission::codec::{parse_field_exec, to_hex, u64_to_dec};
use admission::strutil::{str_eq, str_starts_with};
use admission::config::get_config;
use admission::errors::Error;

#[test]
fn decimal_encoding_is_canonical() {
    assert_eq!(u64_to_dec(0), "0");
    assert_eq!(u64_to_dec(7), "7");
    assert_eq!(u64_to_dec(10), "10");
    assert_eq!(u64_to_dec(1234567890), "1234567890");
    assert_eq!(u64_to_dec(u64::MAX), "18446744073709551615");
}

#[test]
fn hex_encoding_known_values() {
    assert_eq!(to_hex(&vec![]), "");
    assert_eq!(to_hex(&vec![0x00, 0xff, 0x10, 0xab]), "00ff10ab");
    assert_eq!(to_hex(&vec![0x5a]), "5a");
}

#[test]
fn parse_field_reads_a_terminated_number() {
    assert_eq!(parse_field_exec("123.rest", 0), Some((123, 4)));
    assert_eq!(parse_field_exec("a.55.z", 2), Some((55, 5)));
    assert_eq!(parse_field_exec("0.", 0), Some((0, 2)));
    assert_eq!(parse_field_exec("18446744073709551615.", 0), Some((u64::MAX, 21)));
}

#[test]
fn parse_field_rejects_bad_fields() {
    // no digits
    assert_eq!(parse_field_exec(".x", 0), None);
    assert_eq!(parse_field_exec("", 0), None);
    // no terminator
    assert_eq!(parse_field_exec("123", 0), None);
    assert_eq!(parse_field_exec("123x", 0), None);
    // value beyond the number type
    assert_eq!(parse_field_exec("18446744073709551616.", 0), None);
    assert_eq!(parse_field_exec("99999999999999999999999.", 0), None);
}

#[test]
fn status_codes_match_the_http_mapping() {
    assert_eq!(Error::ConnectionFailed.status_code(), 500);
    assert_eq!(Error::NotFound.status_code(), 404);
    assert_eq!(Error::InvalidParameter.status_code(), 400);
    assert_eq!(Error::NoPermission.status_code(), 403);
    assert_eq!(Error::InvalidCredentials.status_code(), 401);
    assert_eq!(Error::JWTCreationFailed.status_code(), 500);
    assert_eq!(Error::InvalidAuthHeader.status_code(), 400);
    assert_eq!(Error::MissingAPIKey.status_code(), 400);
    assert_eq!(Error::NoCredit.status_code(), 400);
    assert_eq!(Error::RateLimitExceeded.status_code(), 429);
}

#[test]
fn messages_match_the_error_texts() {
    assert_eq!(Error::ConnectionFailed.message(), "Database connection error");
    assert_eq!(Error::NotFound.message(), "Resource not found");
    assert_eq!(Error::InvalidParameter.message(), "Invalid parameter");
    assert_eq!(Error::NoPermission.message(), "No permission");
    assert_eq!(Error::InvalidCredentials.message(), "Invalid credentials");
    // deliberately generic
    assert_eq!(Error::JWTCreationFailed.message(), "Internal server error");
    assert_eq!(Error::InvalidAuthHeader.message(), "Invalid auth header");
    assert_eq!(Error::MissingAPIKey.message(), "Missing API key");
    assert_eq!(Error::NoCredit.message(), "No credit");
    assert_eq!(Error::RateLimitExceeded.message(), "Rate limit exceeded");
}

#[test]
fn config_accepts_real_ports_only() {
    let c = get_config(8080, String::from("app.db"), String::from("s3cret"))
        .expect("valid configuration");
    assert_eq!(c.port, 8080);
    assert_eq!(c.database_url, "app.db");
    assert_eq!(c.jwt_secret, "s3cret");
    assert!(get_config(0, String::from("app.db"), String::from("s")).is_err());
    assert!(get_config(65536, String::from("app.db"), String::from("s")).is_err());
    assert!(get_config(-1, String::from("app.db"), String::from("s")).is_err());
}

#[test]
fn string_helpers_compare_by_characters() {
    assert!(str_eq("", ""));
    assert!(str_eq("αβγ", "αβγ"));
    assert!(!str_eq("a", "b"));
    assert!(!str_eq("ab", "abc"));
    assert!(str_starts_with("Bearer x", "Bearer "));
    assert!(!str_starts_with("Basic x", "Bearer "));
    assert!(!str_starts_with("Bear", "Bearer "));
}
