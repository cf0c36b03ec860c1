use enterance::username::sanitize_lowered;
use enterance::{sanitize_username, set_selected_auth_user};

#[test]
fn sanitize_replaces_reserved_characters() {
    assert_eq!(sanitize_username("  Bob<>:\"/\\|?*  "), "bob_________");
}

#[test]
fn sanitize_lowercases_and_trims() {
    assert_eq!(sanitize_username("\t Alice Smith \n"), "alice smith");
    assert_eq!(sanitize_username("ÄBC"), "äbc");
}

#[test]
fn sanitize_falls_back_to_user() {
    assert_eq!(sanitize_username(""), "user");
    assert_eq!(sanitize_username("   \t "), "user");
}

#[test]
fn sanitized_names_are_plain_file_names() {
    for name in ["a/b", "..\\x", "C:Drive", "  ", "ok"].iter() {
        let s = sanitize_username(name);
        assert!(!s.is_empty());
        assert!(!s.contains(|c: char| "<>:\"/\\|?*".contains(c)), "{:?}", s);
    }
}

#[test]
fn sanitize_lowered_does_not_lowercase() {
    assert_eq!(sanitize_lowered("AB/c"), "AB_c");
    assert_eq!(sanitize_lowered(""), "user");
}

#[test]
fn selected_user_is_set_once() {
    let mut selected: Option<String> = None;
    set_selected_auth_user(&mut selected, " First ");
    assert_eq!(selected.as_deref(), Some("first"));
    set_selected_auth_user(&mut selected, "second");
    assert_eq!(selected.as_deref(), Some("first"));
}

#[test]
fn sanitizing_twice_equals_once() {
    for name in ["  Bob ", "A<b>C", "", "ÄÖ/ü", "user"].iter() {
        let once = sanitize_username(name);
        assert_eq!(sanitize_username(&once), once, "{:?}", name);
    }
}
