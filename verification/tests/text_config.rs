//! Parsing, rendering, configuration defaults, and error translation.

use little_bell::config::{
    default_base_url, default_database_url, default_port, get_memory_usage, Config,
};
use little_bell::error::AppError;
use little_bell::text::{i64_dec_string, parse_i64, parse_u64, trim_ascii_spaces};

#[test]
fn parse_i64_accepts_the_signed_decimal_grammar() {
    assert_eq!(parse_i64("123"), Some(123));
    assert_eq!(parse_i64("+5"), Some(5));
    assert_eq!(parse_i64("-5"), Some(-5));
    assert_eq!(parse_i64("0"), Some(0));
    assert_eq!(parse_i64("9223372036854775807"), Some(i64::MAX));
    assert_eq!(parse_i64("-9223372036854775808"), Some(i64::MIN));
}

#[test]
fn parse_i64_rejects_everything_else() {
    assert_eq!(parse_i64(""), None);
    assert_eq!(parse_i64("+"), None);
    assert_eq!(parse_i64("-"), None);
    assert_eq!(parse_i64("12a"), None);
    assert_eq!(parse_i64("a12"), None);
    assert_eq!(parse_i64(" 12"), None);
    assert_eq!(parse_i64("1 2"), None);
    assert_eq!(parse_i64("9223372036854775808"), None);
    assert_eq!(parse_i64("-9223372036854775809"), None);
    assert_eq!(parse_i64("12345678901234567890123"), None);
}

#[test]
fn parse_u64_accepts_the_unsigned_decimal_grammar() {
    assert_eq!(parse_u64("123"), Some(123));
    assert_eq!(parse_u64("+123"), Some(123));
    assert_eq!(parse_u64("0"), Some(0));
    assert_eq!(parse_u64("18446744073709551615"), Some(u64::MAX));
    assert_eq!(parse_u64("18446744073709551616"), None);
    assert_eq!(parse_u64("-1"), None);
    assert_eq!(parse_u64(""), None);
    assert_eq!(parse_u64("kB"), None);
}

#[test]
fn decimal_rendering_matches_the_number() {
    assert_eq!(i64_dec_string(0), "0");
    assert_eq!(i64_dec_string(7), "7");
    assert_eq!(i64_dec_string(10), "10");
    assert_eq!(i64_dec_string(905), "905");
    assert_eq!(i64_dec_string(i64::MAX), "9223372036854775807");
}

#[test]
fn trimming_removes_surrounding_ascii_whitespace() {
    assert_eq!(trim_ascii_spaces("  a b \t"), "a b");
    assert_eq!(trim_ascii_spaces(""), "");
    assert_eq!(trim_ascii_spaces(" \t\r\n"), "");
    assert_eq!(trim_ascii_spaces("x"), "x");
}

#[test]
fn memory_usage_reads_the_resident_set_line() {
    let status = "Name:\tserver\nVmPeak:\t  999 kB\nVmRSS:\t  123 kB\nThreads:\t8\n";
    assert_eq!(get_memory_usage(status), 123 * 1024);
}

#[test]
fn memory_usage_without_the_field_is_zero() {
    assert_eq!(get_memory_usage(""), 0);
    assert_eq!(get_memory_usage("Name:\tserver\nThreads:\t8\n"), 0);
    // A field line without a number yields nothing.
    assert_eq!(get_memory_usage("VmRSS:\n"), 0);
    assert_eq!(get_memory_usage("VmRSS: many kB\n"), 0);
}

#[test]
fn memory_usage_too_large_to_scale_is_zero() {
    // The kilobyte count parses, but scaling it to bytes would overflow.
    assert_eq!(get_memory_usage("VmRSS: 18446744073709551615 kB\n"), 0);
}

#[test]
fn config_defaults() {
    assert_eq!(default_port(), 3000);
    assert_eq!(default_database_url(), "sqlite:data/tracking.db");
    assert_eq!(default_base_url(), "http://localhost:3000");
    let c = Config::default();
    assert_eq!(c.port, 3000);
    assert_eq!(c.database_url, "sqlite:data/tracking.db");
    assert_eq!(c.base_url, "http://localhost:3000");
}

#[test]
fn errors_translate_to_status_and_message() {
    assert_eq!(
        AppError::Database("boom".to_string()).status_and_message(),
        (500, "Internal server error")
    );
    assert_eq!(
        AppError::InvalidEmailId("x".to_string()).status_and_message(),
        (400, "Invalid email ID")
    );
    assert_eq!(AppError::EmailNotFound.status_and_message(), (404, "Email not found"));
    assert_eq!(AppError::TenantNotFound.status_and_message(), (404, "Tenant not found"));
    assert_eq!(
        AppError::InvalidUrl("x".to_string()).status_and_message(),
        (400, "Invalid URL")
    );
}
