use redbreadcrumb::StringGenerator;

#[test]
fn test_generate_length() {
    let gen = StringGenerator::new("RT".to_string());
    let s = gen.generate(12);
    assert_eq!(s.len(), 12);
    assert!(s.starts_with("RT"));
}

#[test]
fn test_generate_alphanumeric() {
    let gen = StringGenerator::new("".to_string());
    let s = gen.generate(100);
    assert!(s.chars().all(|c| c.is_alphanumeric()));
}

#[test]
fn test_generate_hex_characters() {
    let gen = StringGenerator::new("RT".to_string());
    let s = gen.generate_hex(20);
    assert_eq!(s.len(), 20);
    assert!(s.starts_with("RT"));
    assert!(s[2..].chars().all(|c| c.is_ascii_hexdigit()));
}

#[test]
fn test_generate_prefix_longer_than_length() {
    let gen = StringGenerator::new("LONGPREFIX".to_string());
    let s = gen.generate(4);
    assert_eq!(s, "LONGPREFIX");
}

#[test]
fn test_default_generator_prefix() {
    let gen = StringGenerator::default();
    let s = gen.generate(8);
    assert!(s.starts_with("RT"));
    assert_eq!(s.len(), 8);
}
