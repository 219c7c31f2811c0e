fn is_valid_label(label: &str) -> bool {
    if label.is_empty() || label.len() > 32 {
        return false;
    }
    label
        .chars()
        .all(|c| c.is_ascii_alphanumeric() || c == '_' || c == '-')
}

#[test]
fn valid_labels() {
    assert!(is_valid_label("default"));
    assert!(is_valid_label("daylight"));
    assert!(is_valid_label("glasses-on"));
    assert!(is_valid_label("low_light_2"));
}

#[test]
fn invalid_labels() {
    assert!(!is_valid_label(""));
    assert!(!is_valid_label("label with spaces"));
    assert!(!is_valid_label("label/slash"));
    assert!(!is_valid_label("label..dots"));
    assert!(!is_valid_label("aaaaaaaaaaaaaaaaaaaaaaaaaaaaaaaaaaaaaaaa")); // >32 chars
}
