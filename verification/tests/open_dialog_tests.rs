use ruffle::open_dialog::OptionalUrlField;

#[test]
fn field_with_default_is_enabled() {
    let f = OptionalUrlField::new(Some("https://example.org/".to_string()), "https://example.org");
    assert!(f.enabled);
    assert!(f.is_valid());
    assert_eq!(f.value, "https://example.org/");
    assert_eq!(f.hint, "https://example.org");
}

#[test]
fn field_without_default_is_disabled_and_empty() {
    let f = OptionalUrlField::new(None, "socks5://localhost:8080");
    assert!(!f.enabled);
    assert!(f.value.is_empty());
    assert!(f.is_valid());
}

#[test]
fn field_with_error_is_invalid() {
    let mut f = OptionalUrlField::new(None, "");
    f.error = true;
    assert!(!f.is_valid());
}
