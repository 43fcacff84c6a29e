use rtftp::text::{contains, decimal_text, hex_text, parse_decimal, same_text, starts_with};

#[test]
fn decimal_numbers() {
    assert_eq!(parse_decimal("0"), Some(0));
    assert_eq!(parse_decimal("+0"), Some(0));
    assert_eq!(parse_decimal("65535"), Some(65535));
    assert_eq!(parse_decimal(&usize::MAX.to_string()), Some(usize::MAX));
    assert_eq!(parse_decimal("18446744073709551616"), None);
    assert_eq!(parse_decimal("184467440737095516150"), None);
    assert_eq!(parse_decimal(""), None);
    assert_eq!(parse_decimal("+"), None);
    assert_eq!(parse_decimal("-1"), None);
    assert_eq!(parse_decimal("1 "), None);
    for value in [0usize, 1, 9, 10, 11, 99, 100, 255, 512, 65535, 4194319, usize::MAX] {
        assert_eq!(decimal_text(value), value.to_string());
        assert_eq!(parse_decimal(&decimal_text(value)), Some(value));
    }
}

#[test]
fn hexadecimal_numbers() {
    for value in [0u16, 1, 4, 9, 10, 15, 16, 0x7f, 0xff, 0x100, 0x105, 0xabc, 0x1000, 0xffff] {
        assert_eq!(hex_text(value), format!("{:02x}", value));
    }
}

#[test]
fn text_comparisons() {
    assert!(same_text("octet", "octet"));
    assert!(!same_text("octet", "Octet"));
    assert!(!same_text("octet", "octe"));
    assert!(same_text("", ""));
    assert!(starts_with("nbd://x", "nbd://"));
    assert!(!starts_with("nbd:/", "nbd://"));
    assert!(starts_with("abc", ""));
    assert!(contains("abc", ""));
    assert!(contains("", ""));
    assert!(!contains("", "a"));
    assert!(contains("xxabcxx", "abc"));
    assert!(contains("abc", "abc"));
    assert!(contains("ab abc", "abc"));
    assert!(!contains("ab ab c", "abc"));
    assert!(contains("No such file or directory", "directory"));
}
