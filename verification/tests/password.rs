use pw::password::{generate_password, password_charset, password_from_indices};

#[test]
fn generate_password_has_requested_length() {
    assert_eq!(generate_password(16, false).len(), 16);
    assert_eq!(generate_password(0, false).len(), 0);
}

#[test]
fn generate_password_no_symbols_is_alphanumeric_only() {
    let password = generate_password(200, true);
    assert!(password.chars().all(|c| c.is_ascii_alphanumeric()));
}

#[test]
fn generate_password_with_symbols_can_include_symbols() {
    let found_symbol = (0..50).any(|_| {
        generate_password(64, false)
            .chars()
            .any(|c| !c.is_ascii_alphanumeric())
    });
    assert!(found_symbol, "expected at least one symbol across 50 tries");
}

#[test]
fn generate_password_is_random() {
    assert_ne!(generate_password(32, false), generate_password(32, false));
}

#[test]
fn password_charset_sizes() {
    assert_eq!(password_charset(true).len(), 62);
    assert_eq!(password_charset(false).len(), 94);
    assert!(password_charset(false).ends_with("{|}~"));
}

#[test]
fn password_from_indices_picks_characters() {
    let charset = password_charset(false);
    assert_eq!(password_from_indices(&charset, &vec![0, 26, 52, 62, 93]), "Aa0!~");
    assert_eq!(password_from_indices(&charset, &vec![]), "");
}
