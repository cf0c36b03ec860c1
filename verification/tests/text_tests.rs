use enterance::text::{chars_of, contains, eq_ignore_ascii_case, is_whitespace_char, starts_with, trim};

#[test]
fn whitespace_table_matches_std() {
    for code in 0u32..=0x10FFFF {
        if let Some(c) = char::from_u32(code) {
            assert_eq!(is_whitespace_char(c), c.is_whitespace(), "U+{:04X}", code);
        }
    }
}

#[test]
fn trim_matches_std() {
    let samples = [
        "", " ", "  a  ", "\t\nabc\r\n", "abc", " a b ", "\u{3000}x\u{2028}", "\u{85}\u{a0}y z\u{205f}",
        "ünïcode ", "\u{200b}zero-width\u{200b}",
    ];
    for s in samples.iter() {
        assert_eq!(trim(s), s.trim(), "{:?}", s);
    }
}

#[test]
fn eq_ignore_ascii_case_matches_std() {
    let pairs = [
        ("abc", "ABC"), ("AbC", "aBc"), ("abc", "abd"), ("", ""), ("a", ""), ("É", "é"),
        ("DEADbeef", "deadBEEF"), ("ß", "ß"), ("[", "{"), ("@", "`"),
    ];
    for (a, b) in pairs.iter() {
        assert_eq!(eq_ignore_ascii_case(a, b), a.eq_ignore_ascii_case(b), "{:?} {:?}", a, b);
    }
}

#[test]
fn contains_and_starts_with_match_std() {
    let cases = [
        ("launcher_session", "launcher"), ("x-launcher", "launcher"), ("launch", "launcher"),
        ("", ""), ("abc", ""), ("", "a"), ("--flag", "--"), ("-flag", "--"),
    ];
    for (s, p) in cases.iter() {
        assert_eq!(contains(s, p), s.contains(p), "{:?} {:?}", s, p);
        assert_eq!(starts_with(s, p), s.starts_with(p), "{:?} {:?}", s, p);
    }
}

#[test]
fn chars_of_lists_characters() {
    assert_eq!(chars_of("aé😀"), vec!['a', 'é', '😀']);
    assert_eq!(chars_of(""), Vec::<char>::new());
}
