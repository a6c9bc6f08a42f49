use std::time::{Duration, SystemTime, UNIX_EPOCH};

use wsg::error::{ApplicationError, GarbageError};
use wsg::utils::{
    cache_file_path, cache_needs_write, check_cache_entry, checked_total, decimal_string, format_bytes,
    encode_hash, generate_base64_from_path, is_cache_durable, to_file_safe, is_cache_fresh, to_be_bytes, DEFAULT_CACHE_DURABILITY_NANOS,
};

#[test]
fn test_format_bytes() {
    let test_cases = [
        (0, "0.00 B"),
        (100, "100.00 B"),
        (1000, "1.00 kB"),
        (1000_00, "100.00 kB"),
        (1000_000, "1.00 MB"),
        (1000_000_00, "100.00 MB"),
        (1000_000_000, "1.00 GB"),
        (1000_000_000_00, "100.00 GB"),
        (1000_000_000_000, "1.00 TB"),
        (1000_000_000_000_00, "100.00 TB"),
        (1000_000_000_000_000, "1.00 PB"),
        (1000_000_000_000_000_00, "100.00 PB"),
        (1000_000_000_000_000_000, "1.00 EB"),
        (1000_000_000_000_000_000_0, "10.00 EB"),
    ];

    for (input, expected_output) in test_cases {
        let output = format_bytes(input);
        assert_eq!(output, expected_output);
    }
}

#[test]
fn format_bytes_rounds_to_two_decimals() {
    assert_eq!(format_bytes(1500), "1.50 kB");
    assert_eq!(format_bytes(999), "999.00 B");
    assert_eq!(format_bytes(1234567), "1.23 MB");
    assert_eq!(format_bytes(1235000), "1.24 MB");
    assert_eq!(format_bytes(999_999), "1000.00 kB");
    assert_eq!(format_bytes(u64::MAX), "18.45 EB");
    assert_eq!(format_bytes(10_000_000), "10.00 MB");
    assert_eq!(format_bytes(5_000_000), "5.00 MB");
}

#[test]
fn decimal_string_writes_digits() {
    assert_eq!(decimal_string(0), "0");
    assert_eq!(decimal_string(7), "7");
    assert_eq!(decimal_string(10), "10");
    assert_eq!(decimal_string(18446744073709551615), "18446744073709551615");
}

#[test]
fn test_is_cache_durable() {
    let now = || SystemTime::now().duration_since(UNIX_EPOCH).unwrap().as_nanos();
    let base = now();
    assert_eq!(is_cache_durable(now(), base + Duration::from_secs(5).as_nanos()), true);
    assert_eq!(is_cache_durable(now(), base + Duration::from_secs(10).as_nanos()), true);
    assert_eq!(is_cache_durable(now(), base - Duration::from_secs(5).as_nanos()), false);
    assert_eq!(is_cache_durable(now(), base - Duration::from_secs(10).as_nanos()), false);
}

#[test]
fn cache_freshness_uses_default_durability() {
    let m: u128 = 1_000_000_000_000;
    assert!(is_cache_fresh(m, m, None));
    assert!(is_cache_fresh(m, m + DEFAULT_CACHE_DURABILITY_NANOS - 1, None));
    assert!(!is_cache_fresh(m, m + DEFAULT_CACHE_DURABILITY_NANOS, None));
    assert!(is_cache_fresh(m, m + 9, Some(10)));
    assert!(!is_cache_fresh(m, m + 10, Some(10)));
    assert!(is_cache_fresh(m, m - 1, Some(0)));
}

#[test]
fn zero_durability_entry_is_expired() {
    let m: u128 = 42;
    assert!(matches!(check_cache_entry(Some(m), m, Some(0)), Err(GarbageError::InvalidCache)));
    assert!(matches!(check_cache_entry(Some(m), m + 1, Some(0)), Err(GarbageError::InvalidCache)));
}

#[test]
fn missing_cache_entry_is_reported() {
    assert!(matches!(check_cache_entry(None, 5, None), Err(GarbageError::MissingCache)));
    assert!(matches!(check_cache_entry(Some(5), 6, None), Ok(())));
}

#[test]
fn cache_write_skipped_only_while_fresh() {
    assert!(cache_needs_write(None, 100, None));
    assert!(!cache_needs_write(Some(100), 150, Some(60)));
    assert!(cache_needs_write(Some(100), 160, Some(60)));
}

#[test]
fn checked_total_sums_or_overflows() {
    assert_eq!(checked_total(&vec![]), Some(0));
    assert_eq!(checked_total(&vec![1_000_000, 1_500_000]), Some(2_500_000));
    assert_eq!(checked_total(&vec![u64::MAX, 1]), None);
    assert_eq!(checked_total(&vec![u64::MAX - 1, 1]), Some(u64::MAX));
}

#[test]
fn be_bytes_most_significant_first() {
    assert_eq!(to_be_bytes(0x0102030405060708), vec![1, 2, 3, 4, 5, 6, 7, 8]);
    assert_eq!(to_be_bytes(0), vec![0; 8]);
}

#[test]
fn test_generate_base64_from_path() {
    // The three names are the encodings of the hashes that std's `Path` hash gave these
    // roots before Rust 1.95; the hash of a root is whatever the running std computes.
    assert_eq!(encode_hash(0x1d4f8729686c9aa5), "HU+HKWhsmqU");
    assert_eq!(encode_hash(0xf6c394cea9d69c6d), "9sOUzqnWnG0");
    assert_eq!(encode_hash(0xbd60acb658c79e45), "vWCstljHnkU");
    let unix = generate_base64_from_path("/Users/testuser/Projects");
    assert_eq!(generate_base64_from_path("/Users/testuser/Projects/"), unix);
    let windows = generate_base64_from_path("C:/Users/TestUser/Projects");
    assert_eq!(generate_base64_from_path("C:/Users/TestUser/Projects/"), windows);
    assert_ne!(unix, windows);
    assert_eq!(generate_base64_from_path(""), generate_base64_from_path("/"));
}

#[test]
fn hash_encoding_uses_standard_alphabet() {
    assert_eq!(encode_hash(0), "AAAAAAAAAAA");
    assert_eq!(encode_hash(u64::MAX), "//////////8");
    assert_eq!(encode_hash(0xfbff000000000000), "+/8AAAAAAAA");
}

#[test]
fn cache_file_names_hold_no_separator() {
    assert_eq!(to_file_safe("a/b+c//"), "a_b+c__");
    for i in 0..300 {
        let root = format!("/projects/p{}", i);
        let location = cache_file_path("/tmp", &root);
        let name = location.strip_prefix("/tmp/wsg/").unwrap();
        assert!(!name.contains('/'));
        assert_eq!(name.len(), 11);
    }
}

#[test]
fn cache_location_ignores_trailing_separators() {
    let a = cache_file_path("/tmp", "/a/b");
    assert_eq!(a, cache_file_path("/tmp", "/a/b/"));
    assert_eq!(a, cache_file_path("/tmp", "/a/b//"));
    assert_ne!(a, cache_file_path("/tmp", "/a/c"));
    assert!(a.starts_with("/tmp/wsg/"));
    assert_eq!(a.len(), "/tmp/wsg/".len() + 11);
}

#[test]
fn garbage_error_becomes_application_error() {
    let e = ApplicationError::from(GarbageError::MissingCache);
    assert!(matches!(e, ApplicationError::GarbageError(GarbageError::MissingCache)));
}
