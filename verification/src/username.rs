//! Turning a login name into the name part of the per-user token file.
use vstd::prelude::*;
use crate::text::{chars_of, push_char, spec_to_lowercase, spec_trim, to_lowercase, trim};

verus! {

/// Characters that a file name may not hold on the platforms the launcher
/// runs on; a user name has each of them replaced by `_`.
pub open spec fn is_reserved_char(c: char) -> bool {
    ||| c == '<'
    ||| c == '>'
    ||| c == ':'
    ||| c == '"'
    ||| c == '/'
    ||| c == '\\'
    ||| c == '|'
    ||| c == '?'
    ||| c == '*'
}

/// `s` with every reserved character replaced by `_`.
pub open spec fn replace_reserved(s: Seq<char>) -> Seq<char> {
    s.map_values(|c: char| if is_reserved_char(c) { '_' } else { c })
}

/// The last step of sanitising: replace reserved characters, and fall back
/// to `user` when nothing is left.
pub open spec fn finish_user_name(lowered: Seq<char>) -> Seq<char> {
    if lowered.len() == 0 {
        "user"@
    } else {
        replace_reserved(lowered)
    }
}

/// The sanitised form of a user name: trimmed, lowercased, reserved
/// characters replaced by `_`, and `user` when that leaves nothing.
pub open spec fn spec_sanitize_username(user: Seq<char>) -> Seq<char> {
    finish_user_name(spec_to_lowercase(spec_trim(user)))
}

/// A name that can stand as a file name: not empty, with no reserved
/// character (so no path separator either).
pub open spec fn is_plain_file_name(s: Seq<char>) -> bool {
    &&& s.len() > 0
    &&& forall|i: int| 0 <= i < s.len() ==> !is_reserved_char(#[trigger] s[i])
}

/// Sanitising changes only the nine characters `<`, `>`, `:`, `"`, `/`,
/// `\`, `|`, `?` and `*`, each to `_`: every other character of the
/// trimmed, lowercased name stays at its place, and the length stays the
/// same; a name that is empty after trimming and lowercasing becomes `user`.
pub proof fn lemma_sanitize_changes_only_reserved(lowered: Seq<char>)
    ensures
        lowered.len() == 0 ==> finish_user_name(lowered) == "user"@,
        lowered.len() > 0 ==> finish_user_name(lowered).len() == lowered.len(),
        lowered.len() > 0 ==> forall|i: int|
            0 <= i < lowered.len() ==> #[trigger] finish_user_name(lowered)[i] == if lowered[i]
                == '<' || lowered[i] == '>' || lowered[i] == ':' || lowered[i] == '"'
                || lowered[i] == '/' || lowered[i] == '\\' || lowered[i] == '|' || lowered[i]
                == '?' || lowered[i] == '*' {
                '_'
            } else {
                lowered[i]
            },
{
}

/// Two different names, neither of which holds any of the nine reserved
/// characters, stay different when sanitised (so two such users never share
/// a token file).
pub proof fn lemma_sanitize_keeps_names_apart(a: Seq<char>, b: Seq<char>)
    requires
        a.len() > 0,
        b.len() > 0,
        a != b,
        forall|i: int|
            0 <= i < a.len() ==> !(a[i] == '<' || a[i] == '>' || a[i] == ':' || a[i] == '"'
                || a[i] == '/' || a[i] == '\\' || a[i] == '|' || a[i] == '?' || a[i] == '*'),
        forall|i: int|
            0 <= i < b.len() ==> !(b[i] == '<' || b[i] == '>' || b[i] == ':' || b[i] == '"'
                || b[i] == '/' || b[i] == '\\' || b[i] == '|' || b[i] == '?' || b[i] == '*'),
    ensures
        finish_user_name(a) != finish_user_name(b),
{
    lemma_sanitize_changes_only_reserved(a);
    lemma_sanitize_changes_only_reserved(b);
    if finish_user_name(a) == finish_user_name(b) {
        assert forall|i: int| 0 <= i < a.len() implies a[i] == b[i] by {
            assert(finish_user_name(a)[i] == finish_user_name(b)[i]);
        }
        assert(a =~= b);
    }
}

/// Whether `c` is one of the reserved characters.
pub fn is_reserved(c: char) -> (r: bool)
    ensures
        r == is_reserved_char(c),
{
    c == '<' || c == '>' || c == ':' || c == '"' || c == '/' || c == '\\' || c == '|' || c == '?'
        || c == '*'
}

/// The sanitised user name, given the user name already trimmed and
/// lowercased.
pub fn sanitize_lowered(lowered: &str) -> (r: String)
    ensures
        r@ == finish_user_name(lowered@),
        is_plain_file_name(r@),
{
    let cs = chars_of(lowered);
    let n = cs.len();
    if n == 0 {
        let r = String::from_str("user");
        proof {
            reveal_strlit("user");
        }
        return r;
    }
    let mut r = String::new();
    for i in 0..n
        invariant
            n == lowered@.len(),
            cs@ == lowered@,
            r@ == replace_reserved(lowered@).take(i as int),
    {
        let c = cs[i];
        if is_reserved(c) {
            push_char(&mut r, '_');
        } else {
            push_char(&mut r, c);
        }
        assert(replace_reserved(lowered@).take(i + 1) == replace_reserved(lowered@).take(
            i as int,
        ).push(replace_reserved(lowered@)[i as int]));
    }
    assert(replace_reserved(lowered@).take(n as int) == replace_reserved(lowered@));
    r
}

/// The sanitised form of a user name, used as part of the name of the
/// user's token file.
pub fn sanitize_username(user: &str) -> (r: String)
    ensures
        r@ == spec_sanitize_username(user@),
        is_plain_file_name(r@),
{
    let trimmed = trim(user);
    let lowered = to_lowercase(trimmed);
    sanitize_lowered(lowered.as_str())
}

/// Records the user whose token the launcher reads and writes. Only the
/// first call takes effect: once a user is selected, later calls leave the
/// selection as it is.
pub fn set_selected_auth_user(selected: &mut Option<String>, user: &str)
    ensures
        *old(selected) is Some ==> *final(selected) == *old(selected),
        *old(selected) is None ==> (*final(selected) matches Some(s) && s@
            == spec_sanitize_username(user@)),
{
    if selected.is_none() {
        *selected = Some(sanitize_username(user));
    }
}

} // verus!
