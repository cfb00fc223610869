use pw::identity::generate_identity;
use pw::store::{
    build_entry_path, decrypt_entry, encrypt_entry, entry_name_from_path, entry_parent_dirs,
    StoreError,
};

#[test]
fn build_entry_path_flat_name() {
    let path = build_entry_path(b"/store", "github").unwrap();
    assert_eq!(path, b"/store/github.age".to_vec());
}

#[test]
fn build_entry_path_nested_name() {
    let path = build_entry_path(b"/store", "github/key1").unwrap();
    assert_eq!(path, b"/store/github/key1.age".to_vec());
}

#[test]
fn build_entry_path_rejects_invalid_names() {
    for name in [
        "",
        "/",
        "..",
        ".",
        "../evil",
        "a/../../evil",
        "a/./b",
        "a//b",
        "a/",
        "/a",
        "a\\b",
    ] {
        assert!(
            build_entry_path(b"/store", name).is_err(),
            "expected {name:?} to be rejected"
        );
    }
}

#[test]
fn build_entry_path_appends_age_to_the_whole_name() {
    assert_eq!(build_entry_path(b"/store", "github.com").unwrap(), b"/store/github.com.age".to_vec());
    assert_eq!(build_entry_path(b"/store", "a.b/c").unwrap(), b"/store/a.b/c.age".to_vec());
    assert_eq!(build_entry_path(b"/store", "x/a.b.c").unwrap(), b"/store/x/a.b.c.age".to_vec());
    assert_eq!(build_entry_path(b"/store", "a.").unwrap(), b"/store/a..age".to_vec());
    assert_eq!(build_entry_path(b"/store", ".hidden").unwrap(), b"/store/.hidden.age".to_vec());
    assert_eq!(build_entry_path(b"/store", "...").unwrap(), b"/store/....age".to_vec());
}

#[test]
fn names_differing_in_a_dot_suffix_get_distinct_files() {
    let a = build_entry_path(b"/store", "a").unwrap();
    let ax = build_entry_path(b"/store", "a.x").unwrap();
    let aage = build_entry_path(b"/store", "a.age").unwrap();
    assert_ne!(a, ax);
    assert_ne!(a, aage);
    assert_ne!(ax, aage);
}

#[test]
fn build_entry_path_separator_follows_the_store_dir() {
    assert_eq!(build_entry_path(b"/store/", "a").unwrap(), b"/store/a.age".to_vec());
    assert_eq!(build_entry_path(b"", "a/b").unwrap(), b"a/b.age".to_vec());
    assert_eq!(build_entry_path(b"rel", "é/ü").unwrap(), "rel/é/ü.age".as_bytes().to_vec());
}

#[test]
fn build_entry_path_error_is_invalid_name() {
    assert!(matches!(build_entry_path(b"/store", "a//b"), Err(StoreError::InvalidName)));
}

#[test]
fn nested_entries_have_distinct_paths() {
    let a = build_entry_path(b"/store", "github/key1").unwrap();
    let b = build_entry_path(b"/store", "github/key2").unwrap();
    assert_ne!(a, b);
}

#[test]
fn encrypt_decrypt_roundtrip() {
    let identity = generate_identity();
    let ciphertext = encrypt_entry(&identity.identity, "hunter2");
    let plaintext = decrypt_entry(&identity.identity, &ciphertext).unwrap();
    assert_eq!(plaintext, "hunter2");
}

#[test]
fn decrypt_fails_with_wrong_identity() {
    let identity = generate_identity();
    let other = generate_identity();
    let ciphertext = encrypt_entry(&identity.identity, "hunter2");
    assert!(decrypt_entry(&other.identity, &ciphertext).is_err());
}

#[test]
fn encrypt_entry_output_is_not_the_plaintext() {
    let identity = generate_identity();
    let ciphertext = encrypt_entry(&identity.identity, "hunter2");
    assert_ne!(ciphertext, b"hunter2".to_vec());
    assert!(ciphertext.starts_with(b"age-encryption.org/v1"));
}

#[test]
fn nested_entries_decrypt_independently() {
    let identity = generate_identity();
    let c1 = encrypt_entry(&identity.identity, "p1");
    let c2 = encrypt_entry(&identity.identity, "p2");
    assert_eq!(decrypt_entry(&identity.identity, &c1).unwrap(), "p1");
    assert_eq!(decrypt_entry(&identity.identity, &c2).unwrap(), "p2");
}

#[test]
fn decrypt_entry_rejects_garbage() {
    let identity = generate_identity();
    let err = decrypt_entry(&identity.identity, b"not real ciphertext").unwrap_err();
    assert!(matches!(err, StoreError::Decrypt(_)));
}

#[test]
fn unicode_password_roundtrip() {
    let identity = generate_identity();
    let ciphertext = encrypt_entry(&identity.identity, "pässwörd ✓");
    assert_eq!(decrypt_entry(&identity.identity, &ciphertext).unwrap(), "pässwörd ✓");
}

#[test]
fn entry_name_from_path_reverses_the_entry_file() {
    assert_eq!(entry_name_from_path(b"github.age"), Some("github".to_string()));
    assert_eq!(entry_name_from_path(b"github.com.age"), Some("github.com".to_string()));
    assert_eq!(entry_name_from_path(b"github/key1.age"), Some("github/key1".to_string()));
    assert_eq!(entry_name_from_path("é/ü.age".as_bytes()), Some("é/ü".to_string()));
}

#[test]
fn entry_name_from_path_skips_other_files() {
    assert_eq!(entry_name_from_path(b"notes.txt"), None);
    assert_eq!(entry_name_from_path(b".age"), None);
    assert_eq!(entry_name_from_path(b"age"), None);
    assert_eq!(entry_name_from_path(b"a\\b.age"), None);
    assert_eq!(entry_name_from_path(b"a/../b.age"), None);
    assert_eq!(entry_name_from_path(&[0xff, b'.', b'a', b'g', b'e']), None);
}

#[test]
fn entry_parent_dirs_innermost_first() {
    assert_eq!(
        entry_parent_dirs(b"/store", "a/b/c"),
        vec![b"/store/a/b".to_vec(), b"/store/a".to_vec()]
    );
    assert!(entry_parent_dirs(b"/store", "github").is_empty());
    assert_eq!(entry_parent_dirs(b"/store/", "g/k"), vec![b"/store/g".to_vec()]);
}
