use pw::commands::{
    answer_is_yes, confirm_overwrite, confirmed_password, edited_entry, generated_length,
    group_members, matching_entries, plan_remove, plan_transfer, CommandError, Overwrite, Removal,
};

#[test]
fn confirm_overwrite_asks_only_when_needed() {
    assert!(matches!(confirm_overwrite(false, "github", false), Overwrite::Proceed));
    assert!(matches!(confirm_overwrite(true, "github", true), Overwrite::Proceed));
    match confirm_overwrite(true, "github", false) {
        Overwrite::Ask(prompt) => assert_eq!(prompt, "github already exists. Overwrite?"),
        Overwrite::Proceed => panic!("expected a question"),
    }
}

#[test]
fn answers_meaning_yes() {
    for answer in ["y", "Y", "yes", "YES", "yEs", " yes\n", "\ty\r\n"] {
        assert!(answer_is_yes(answer), "{answer:?}");
    }
    for answer in ["", "\n", "n", "no", "ye", "yess", "y e s", "oui"] {
        assert!(!answer_is_yes(answer), "{answer:?}");
    }
}

#[test]
fn generated_length_defaults_and_rejects_zero() {
    assert_eq!(generated_length(None), Ok(25));
    assert_eq!(generated_length(Some(12)), Ok(12));
    assert_eq!(generated_length(Some(0)), Err(CommandError::ZeroLength));
}

#[test]
fn confirmed_password_needs_equal_entries() {
    assert_eq!(confirmed_password("a".to_string(), "a"), Ok("a".to_string()));
    assert_eq!(confirmed_password("a".to_string(), "b"), Err(CommandError::PasswordsDiffer));
}

#[test]
fn edited_entry_strips_one_newline() {
    assert_eq!(edited_entry("pw", "pw\n"), None);
    assert_eq!(edited_entry("pw", "pw"), None);
    assert_eq!(edited_entry("pw", "pw\n\n"), Some("pw\n".to_string()));
    assert_eq!(edited_entry("", "new\n"), Some("new".to_string()));
}

#[test]
fn plan_transfer_needs_the_source() {
    assert_eq!(plan_transfer(false, false, "b", false).unwrap_err(), CommandError::NoSuchEntry);
    assert!(matches!(plan_transfer(true, false, "b", false), Ok(Overwrite::Proceed)));
    assert!(matches!(plan_transfer(true, true, "b", false), Ok(Overwrite::Ask(_))));
}

#[test]
fn plan_remove_cases() {
    assert_eq!(plan_remove(true, 3, false), Ok(Removal::Entry));
    assert_eq!(plan_remove(false, 0, true), Err(CommandError::NoSuchEntry));
    assert_eq!(plan_remove(false, 2, false), Err(CommandError::GroupNeedsRecursive(2)));
    assert_eq!(plan_remove(false, 2, true), Ok(Removal::Group(2)));
}

fn names(v: &[&str]) -> Vec<String> {
    v.iter().map(|s| s.to_string()).collect()
}

#[test]
fn group_members_share_the_prefix() {
    let entries = names(&["github/key1", "github", "githubx/a", "github/key2", "mail"]);
    assert_eq!(group_members(&entries, "github"), names(&["github/key1", "github/key2"]));
    assert!(group_members(&entries, "mail").is_empty());
}

#[test]
fn matching_entries_contain_the_pattern() {
    let entries = names(&["github/key1", "mail", "gitlab"]);
    assert_eq!(matching_entries(&entries, "git"), names(&["github/key1", "gitlab"]));
    assert_eq!(matching_entries(&entries, ""), entries);
    assert!(matching_entries(&entries, "zzz").is_empty());
}
