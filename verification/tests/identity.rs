use pw::identity::{generate_identity, key_file_contents, parse_identity_file, IdentityError};

#[test]
fn generated_identity_has_age_forms() {
    let identity = generate_identity();
    assert!(identity.identity.as_str().starts_with("AGE-SECRET-KEY-1"));
    assert!(identity.recipient.starts_with("age1"));
}

#[test]
fn generated_key_file_reads_back_key() {
    let identity = generate_identity();
    let parsed = parse_identity_file(&identity.file_contents).unwrap();
    assert_eq!(parsed.as_str(), identity.identity.as_str());
}

#[test]
fn key_file_contents_layout() {
    let text = key_file_contents("age1xyz", "AGE-SECRET-KEY-1ABC");
    assert_eq!(
        text,
        "# pw private key - keep this secret\n# public key: age1xyz\nAGE-SECRET-KEY-1ABC\n"
    );
}

#[test]
fn parse_identity_file_skips_blank_and_comment_lines() {
    let identity = generate_identity();
    let contents = format!("\n   \n# comment\r\n\t{}  \r\n# trailing\n", identity.identity.as_str());
    assert_eq!(parse_identity_file(&contents).unwrap().as_str(), identity.identity.as_str());
}

#[test]
fn parse_identity_file_without_key_line() {
    assert!(matches!(parse_identity_file(""), Err(IdentityError::NoKey)));
    assert!(matches!(parse_identity_file("# only\n \n"), Err(IdentityError::NoKey)));
}

#[test]
fn parse_identity_file_rejects_a_bad_key() {
    assert!(matches!(parse_identity_file("not a key\n"), Err(IdentityError::Invalid(_))));
    assert!(matches!(
        parse_identity_file(" # indented comment is a key line\n"),
        Err(IdentityError::Invalid(_))
    ));
}
