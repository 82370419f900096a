use redbreadcrumb::{YaraGenerator, YaraOptions};

#[test]
fn test_generate_yara_rule() {
    let options = YaraOptions { ascii: true, wide: true, ..Default::default() };
    let rule = YaraGenerator::generate("RT3xK9mPq2Wv", None, &options);
    assert!(rule.contains("RT3xK9mPq2Wv"));
    assert!(rule.contains("ascii"));
    assert!(rule.contains("wide"));
}

#[test]
fn test_hex_pattern() {
    let hex = YaraGenerator::to_hex_pattern("ABC");
    assert_eq!(hex, "41 42 43");
}

#[test]
fn test_default_rule_name_uses_string_prefix() {
    let rule = YaraGenerator::generate_hex_only("TRACKER12345", None);
    assert!(rule.starts_with("rule tracking_string_TRACKER1 {"));
    assert!(rule.contains("$hex = { 54 52 41 43 4B 45 52 31 32 33 34 35 }"));
    assert!(rule.contains("condition:"));
}

#[test]
fn test_rule_name_sanitized() {
    let rule = YaraGenerator::generate_hex_only("ABC", Some("my-rule name"));
    assert!(rule.starts_with("rule my_rule_name {"));
}

#[test]
fn test_rule_name_numeric_start_prefixed() {
    let rule = YaraGenerator::generate_hex_only("ABC", Some("1badname"));
    assert!(rule.starts_with("rule rule_1badname {"));
}

#[test]
fn test_escaped_quote_in_rule() {
    let options = YaraOptions::default();
    let rule = YaraGenerator::generate("a\"b", None, &options);
    assert!(rule.contains("$tracking_string = \"a\\\"b\""));
}

#[test]
fn test_rule_has_date_line() {
    let options = YaraOptions::default();
    let rule = YaraGenerator::generate("ABC", None, &options);
    assert!(rule.contains("date = \""));
    assert!(rule.contains("author = \"redteamstrings\""));
    assert!(rule.contains("any of them"));
}
