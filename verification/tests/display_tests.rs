use redbreadcrumb::{BinaryFormat, Language, PatchError, PatchStrategy};

#[test]
fn test_language_display() {
    assert_eq!(Language::C.name(), "c");
    assert_eq!(Language::Cpp.name(), "cpp");
    assert_eq!(Language::Rust.name(), "rust");
}

#[test]
fn test_strategy_display() {
    assert_eq!(PatchStrategy::Cave.name(), "cave");
    assert_eq!(PatchStrategy::Overlay.name(), "overlay");
}

#[test]
fn test_format_display() {
    assert_eq!(BinaryFormat::PE32.name(), "PE32");
    assert_eq!(BinaryFormat::ELF64.name(), "ELF64");
    assert_eq!(BinaryFormat::MachOFat.name(), "Mach-O Fat/Universal");
    assert_eq!(BinaryFormat::Unknown.name(), "Unknown");
}

#[test]
fn test_generate_code_dispatch() {
    let c = redbreadcrumb::codegen::generate_code("TEST", Language::C);
    assert!(c.contains("TRACKING_STRING"));
    let go = redbreadcrumb::codegen::generate_code("TEST", Language::Go);
    assert!(go.contains("package main"));
    assert!(go.contains("trackingString"));
}

#[test]
fn test_error_messages() {
    assert_eq!(PatchError::UnsupportedFormat.message(), "unsupported binary format");
    assert!(PatchError::PatchFailed("no room".to_string()).message().contains("no room"));
    assert_eq!(
        PatchError::NoCaveFound { needed: 8, found: 2 }.message(),
        "no suitable code cave found (need 8 bytes, largest found: 2)"
    );
}
