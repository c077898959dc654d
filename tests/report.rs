use redis_bigkeys::report::{format_with_commas, truncate_key};

#[test]
fn commas_group_thousands() {
    assert_eq!(format_with_commas(0), "0");
    assert_eq!(format_with_commas(7), "7");
    assert_eq!(format_with_commas(999), "999");
    assert_eq!(format_with_commas(1000), "1,000");
    assert_eq!(format_with_commas(1234567), "1,234,567");
    assert_eq!(format_with_commas(1002003), "1,002,003");
    assert_eq!(format_with_commas(u64::MAX), "18,446,744,073,709,551,615");
}

#[test]
fn truncation_of_long_keys() {
    assert_eq!(truncate_key("short", 80), "short");
    assert_eq!(truncate_key("abcdef", 6), "abcdef");
    assert_eq!(truncate_key("abcdefg", 6), "abc...");
    assert_eq!(truncate_key("日本語のキー", 5), "日本...");
    assert_eq!(truncate_key("abcd", 3), "...");
}
