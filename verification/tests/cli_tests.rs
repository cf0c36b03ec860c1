use enterance::cli::{credentials_from_args, parse_args};

fn argv(items: &[&str]) -> Vec<String> {
    items.iter().map(|s| s.to_string()).collect()
}

#[test]
fn empty_command_line() {
    let a = parse_args(&argv(&["launcher"]));
    assert_eq!(a.username, None);
    assert_eq!(a.password, None);
    assert!(!a.no_update);
    let b = parse_args(&Vec::new());
    assert!(!b.no_update);
}

#[test]
fn separate_values() {
    let a = parse_args(&argv(&["launcher", "--username", "bob", "--password", "pw", "--no-update"]));
    assert_eq!(a.username.as_deref(), Some("bob"));
    assert_eq!(a.password.as_deref(), Some("pw"));
    assert!(a.no_update);
}

#[test]
fn attached_values() {
    let a = parse_args(&argv(&["launcher", "--username=al=ice", "--password="]));
    assert_eq!(a.username.as_deref(), Some("al=ice"));
    assert_eq!(a.password.as_deref(), Some(""));
}

#[test]
fn value_that_looks_like_option_is_not_taken() {
    let a = parse_args(&argv(&["launcher", "--username", "--no-update"]));
    assert_eq!(a.username, None);
    assert!(a.no_update);
    let b = parse_args(&argv(&["launcher", "--password"]));
    assert_eq!(b.password, None);
}

#[test]
fn later_occurrence_wins_and_program_name_is_skipped() {
    let a = parse_args(&argv(&["--no-update", "--username", "a", "--username=b", "stray"]));
    assert_eq!(a.username.as_deref(), Some("b"));
    assert!(!a.no_update);
}

#[test]
fn credentials_need_both() {
    let a = parse_args(&argv(&["l", "--username", "u"]));
    assert!(credentials_from_args(&a).is_none());
    let b = parse_args(&argv(&["l", "--username", "u", "--password", "p"]));
    assert_eq!(credentials_from_args(&b), Some(("u".to_string(), "p".to_string())));
}
