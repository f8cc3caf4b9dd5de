use ip_market_backend::text::{
    chars_of, contains, format_timestamp, generate_hash, starts_with, text_mentions,
    u64_to_decimal, validate_image_url,
};

#[test]
fn image_url_schemes() {
    assert!(validate_image_url("http://example.com/a.png"));
    assert!(validate_image_url("https://example.com/a.png"));
    assert!(validate_image_url("ipfs://bafy"));
    assert!(validate_image_url("ipfs://"));
    assert!(!validate_image_url("ftp://example.com/a.png"));
    assert!(!validate_image_url(""));
    assert!(!validate_image_url("http:/"));
    assert!(!validate_image_url("HTTP://example.com"));
    assert!(!validate_image_url(" https://example.com"));
}

#[test]
fn timestamp_is_whole_seconds() {
    assert_eq!(format_timestamp(0), "0");
    assert_eq!(format_timestamp(999_999_999), "0");
    assert_eq!(format_timestamp(1_000_000_000), "1");
    assert_eq!(format_timestamp(1_234_567_890_123_456_789), "1234567890");
    assert_eq!(format_timestamp(u64::MAX), "18446744073");
}

#[test]
fn decimal_numerals() {
    assert_eq!(u64_to_decimal(0), "0");
    assert_eq!(u64_to_decimal(9), "9");
    assert_eq!(u64_to_decimal(10), "10");
    assert_eq!(u64_to_decimal(1005), "1005");
    assert_eq!(u64_to_decimal(u64::MAX), "18446744073709551615");
    for n in [0u64, 1, 42, 99, 100, 12345, 9_007_199_254_740_993] {
        assert_eq!(u64_to_decimal(n), format!("{}", n));
    }
}

#[test]
fn hash_is_sha256_in_hex() {
    assert_eq!(
        generate_hash("abc"),
        "ba7816bf8f01cfea414140de5dae2223b00361a396177a9cb410ff61f20015ad"
    );
    assert_eq!(
        generate_hash(""),
        "e3b0c44298fc1c149afbf4c8996fb92427ae41e4649b934ca495991b7852b855"
    );
    assert_ne!(generate_hash("abc"), "abc");
}

#[test]
fn prefixes() {
    assert!(starts_with("hello", ""));
    assert!(starts_with("hello", "he"));
    assert!(starts_with("hello", "hello"));
    assert!(!starts_with("hello", "hello!"));
    assert!(!starts_with("hello", "el"));
    assert!(starts_with("\u{e9}t\u{e9}", "\u{e9}"));
    assert!(!starts_with("\u{e9}t\u{e9}", "e"));
}

#[test]
fn substrings() {
    assert!(contains("hello world", "o w"));
    assert!(contains("hello world", ""));
    assert!(contains("", ""));
    assert!(contains("hello", "hello"));
    assert!(contains("hello", "lo"));
    assert!(!contains("hello", "hello!"));
    assert!(!contains("hello", "ol"));
    assert!(!contains("", "a"));
    assert!(contains("na\u{ef}ve caf\u{e9}", "\u{ef}ve"));
}

#[test]
fn mentions_ignore_case_of_the_text() {
    assert!(text_mentions("Sunset OVER the Bay", "over"));
    assert!(text_mentions("Sunset", "sun"));
    assert!(!text_mentions("Sunset", "Sun"));
    assert!(!text_mentions("Sunset", "moon"));
    assert!(text_mentions("\u{c9}T\u{c9}", "\u{e9}t\u{e9}"));
}

#[test]
fn characters_of_a_string() {
    assert_eq!(chars_of("a\u{e9}b"), vec!['a', '\u{e9}', 'b']);
    assert_eq!(chars_of(""), Vec::<char>::new());
}
