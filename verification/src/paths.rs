//! Where the launcher keeps its files: everything lives in one directory
//! (the launcher's own, or the one `ENTERANCE_PATH` names), and each file is
//! that directory joined with a fixed name, by the path rules of the
//! platform the launcher runs on.
use vstd::prelude::*;
use crate::text::{chars_of, push_char, spec_to_lowercase, spec_trim};
use crate::username::{
    finish_user_name, is_plain_file_name, is_reserved_char, replace_reserved, sanitize_username,
    spec_sanitize_username,
};

verus! {

/// The path rules a directory and a file name are joined by.
#[derive(Clone, Copy, Debug, PartialEq, Eq)]
pub enum PathStyle {
    /// `/` separates components.
    Unix,
    /// `\` and `/` separate components, `\` is written, and a drive such as
    /// `C:` may lead a path.
    Windows,
}

/// Whether `c` separates path components under `style`.
pub open spec fn is_separator(style: PathStyle, c: char) -> bool {
    match style {
        PathStyle::Unix => c == '/',
        PathStyle::Windows => c == '/' || c == '\\',
    }
}

/// The separator written between a directory and a file name.
pub open spec fn main_separator(style: PathStyle) -> char {
    match style {
        PathStyle::Unix => '/',
        PathStyle::Windows => '\\',
    }
}

/// An ASCII letter.
pub open spec fn is_ascii_letter(c: char) -> bool {
    ('a' <= c && c <= 'z') || ('A' <= c && c <= 'Z')
}

/// A Windows path that is a drive and nothing else, such as `C:`.
pub open spec fn is_bare_drive(style: PathStyle, base: Seq<char>) -> bool {
    style == PathStyle::Windows && base.len() == 2 && is_ascii_letter(base[0]) && base[1] == ':'
}

/// The directory part that a file name is appended to, as `Path::join` does
/// it for a name that is one plain component: nothing is added to an empty
/// base, to one that ends with a separator, or to a bare Windows drive
/// (`C:` and `x` give `C:x`); otherwise the platform's separator is added.
pub open spec fn dir_prefix(style: PathStyle, base: Seq<char>) -> Seq<char> {
    if base.len() == 0 || is_separator(style, base.last()) || is_bare_drive(style, base) {
        base
    } else {
        base.push(main_separator(style))
    }
}

/// A directory joined with a plain file name.
pub open spec fn spec_join(style: PathStyle, base: Seq<char>, name: Seq<char>) -> Seq<char> {
    dir_prefix(style, base) + name
}

/// The name of the token file of a user.
pub open spec fn spec_token_file_name(user: Seq<char>) -> Seq<char> {
    "auth_"@ + spec_sanitize_username(user)
}

/// The path of the token file of a user.
pub open spec fn spec_token_path_for_user(
    style: PathStyle,
    my_dir: Seq<char>,
    user: Seq<char>,
) -> Seq<char> {
    spec_join(style, my_dir, spec_token_file_name(user))
}

/// The token path that the launcher uses: the selected user's first, then
/// the user that the environment names, else the shared `auth` file.
pub open spec fn spec_login_token_path(
    style: PathStyle,
    my_dir: Seq<char>,
    selected: Option<Seq<char>>,
    env_user: Option<Seq<char>>,
) -> Seq<char> {
    match selected {
        Some(u) => spec_token_path_for_user(style, my_dir, u),
        None => match env_user {
            Some(u) => spec_token_path_for_user(style, my_dir, u),
            None => spec_join(style, my_dir, "auth"@),
        },
    }
}

/// Joins a directory and a file name that is one plain component
/// (`Path::join` for such a name).
fn join_path(style: PathStyle, base: &str, name: &str) -> (r: String)
    requires
        is_plain_file_name(name@),
    ensures
        r@ == spec_join(style, base@, name@),
{
    let b = chars_of(base);
    let n = b.len();
    let mut r = String::from_str(base);
    if n > 0 {
        let last = b[n - 1];
        let ends_with_separator = match style {
            PathStyle::Unix => last == '/',
            PathStyle::Windows => last == '/' || last == '\\',
        };
        let bare_drive = match style {
            PathStyle::Unix => false,
            PathStyle::Windows => n == 2 && (('a' <= b[0] && b[0] <= 'z') || ('A' <= b[0]
                && b[0] <= 'Z')) && b[1] == ':',
        };
        if !ends_with_separator && !bare_drive {
            match style {
                PathStyle::Unix => push_char(&mut r, '/'),
                PathStyle::Windows => push_char(&mut r, '\\'),
            }
        }
    }
    r.append(name);
    r
}

/// The directory that holds the launcher's files: the one the environment
/// names if it names one, else the directory of the executable, else the
/// current directory.
pub fn get_my_dir(env_dir: Option<String>, exe_dir: Option<String>, current_dir: String) -> (r:
    String)
    ensures
        r@ == (match env_dir {
            Some(d) => d@,
            None => match exe_dir {
                Some(d) => d@,
                None => current_dir@,
            },
        }),
{
    match env_dir {
        Some(d) => d,
        None => match exe_dir {
            Some(d) => d,
            None => current_dir,
        },
    }
}

/// The path of the update cache.
pub fn get_cache_file_path(style: PathStyle, my_dir: &str) -> (r: String)
    ensures
        r@ == spec_join(style, my_dir@, "cache"@),
{
    proof {
        reveal_strlit("cache");
    }
    join_path(style, my_dir, "cache")
}

/// The path of the configuration file.
pub fn get_config_path(style: PathStyle, my_dir: &str) -> (r: String)
    ensures
        r@ == spec_join(style, my_dir@, "enterance.ini"@),
{
    proof {
        reveal_strlit("enterance.ini");
    }
    join_path(style, my_dir, "enterance.ini")
}

/// The path of the server list.
pub fn get_server_path(style: PathStyle, my_dir: &str) -> (r: String)
    ensures
        r@ == spec_join(style, my_dir@, "server"@),
{
    proof {
        reveal_strlit("server");
    }
    join_path(style, my_dir, "server")
}

/// The path of the token file of `user`: `auth_` and the sanitised user
/// name, in the launcher's directory.
pub fn get_login_token_path_for_user(style: PathStyle, my_dir: &str, user: &str) -> (r: String)
    ensures
        r@ == spec_token_path_for_user(style, my_dir@, user@),
{
    let mut fname = String::from_str("auth_");
    let clean = sanitize_username(user);
    fname.append(clean.as_str());
    proof {
        lemma_token_file_in_dir(style, my_dir@, user@);
    }
    join_path(style, my_dir, fname.as_str())
}

/// The path of the token file that the launcher reads and writes.
pub fn get_login_token_path(
    style: PathStyle,
    my_dir: &str,
    selected: Option<&str>,
    env_user: Option<&str>,
) -> (r: String)
    ensures
        r@ == spec_login_token_path(
            style,
            my_dir@,
            match selected {
                Some(u) => Some(u@),
                None => None,
            },
            match env_user {
                Some(u) => Some(u@),
                None => None,
            },
        ),
{
    match selected {
        Some(u) => get_login_token_path_for_user(style, my_dir, u),
        None => match env_user {
            Some(u) => get_login_token_path_for_user(style, my_dir, u),
            None => {
                proof {
                    reveal_strlit("auth");
                }
                join_path(style, my_dir, "auth")
            },
        },
    }
}

/// A user's token file lies directly in the launcher's directory: its path
/// is the directory, a separator where one is needed, and one file name
/// made of `auth_` and the sanitised user name, which is not empty and
/// holds no reserved character and so no path separator.
pub proof fn lemma_token_file_in_dir(style: PathStyle, my_dir: Seq<char>, user: Seq<char>)
    ensures
        spec_token_path_for_user(style, my_dir, user) == dir_prefix(style, my_dir)
            + spec_token_file_name(user),
        is_plain_file_name(spec_token_file_name(user)),
{
    reveal_strlit("auth_");
    let name = spec_token_file_name(user);
    let clean = spec_sanitize_username(user);
    lemma_sanitized_is_plain(user);
    assert forall|i: int| 0 <= i < name.len() implies !is_reserved_char(#[trigger] name[i]) by {
        if i >= 5 {
            assert(name[i] == clean[i - 5]);
        }
    }
}

/// A sanitised user name is never empty and holds no reserved character.
pub proof fn lemma_sanitized_is_plain(user: Seq<char>)
    ensures
        is_plain_file_name(spec_sanitize_username(user)),
{
    reveal_strlit("user");
}

/// Sanitising a sanitised user name again leaves it as it is, wherever
/// lowercasing leaves that name unchanged and the name has no white space at
/// its ends. (Those two are properties of Unicode lowercasing that its
/// documentation does not promise, so they stand here as premises.)
pub proof fn lemma_sanitize_idempotent(user: Seq<char>)
    requires
        spec_trim(spec_sanitize_username(user)) == spec_sanitize_username(user),
        spec_to_lowercase(spec_sanitize_username(user)) == spec_sanitize_username(user),
    ensures
        spec_sanitize_username(spec_sanitize_username(user)) == spec_sanitize_username(user),
{
    let s = spec_sanitize_username(user);
    lemma_sanitized_is_plain(user);
    assert(finish_user_name(s) == replace_reserved(s));
    assert(replace_reserved(s) == s);
}

/// Once a user is selected (the selection holds the sanitised name), the
/// launcher's token path is that user's own token path, whatever user the
/// environment names; this holds wherever sanitising the stored name again
/// leaves it as it is (see [`lemma_sanitize_idempotent`]).
pub proof fn lemma_selected_user_token_path(
    style: PathStyle,
    my_dir: Seq<char>,
    user: Seq<char>,
    env_user: Option<Seq<char>>,
)
    requires
        spec_trim(spec_sanitize_username(user)) == spec_sanitize_username(user),
        spec_to_lowercase(spec_sanitize_username(user)) == spec_sanitize_username(user),
    ensures
        spec_login_token_path(style, my_dir, Some(spec_sanitize_username(user)), env_user)
            == spec_token_path_for_user(style, my_dir, user),
{
    lemma_sanitize_idempotent(user);
}

} // verus!

verus! {

/// Joining by the platform's rules, spelled out: an empty directory gives
/// the file name alone; a directory ending with `/` (or, on Windows, `\`) is
/// followed directly by the name, as is a bare Windows drive such as `C:`;
/// any other directory gets one `/` on Unix, one `\` on Windows, before the
/// name.
pub proof fn lemma_join_laws(style: PathStyle, base: Seq<char>, name: Seq<char>)
    ensures
        base.len() == 0 ==> spec_join(style, base, name) == name,
        base.len() > 0 && base.last() == '/' ==> spec_join(style, base, name) == base + name,
        style == PathStyle::Windows && base.len() > 0 && base.last() == '\\' ==> spec_join(
            style,
            base,
            name,
        ) == base + name,
        style == PathStyle::Windows && base.len() == 2 && base[1] == ':' && (('a' <= base[0]
            <= 'z') || ('A' <= base[0] <= 'Z')) ==> spec_join(style, base, name) == base + name,
        style == PathStyle::Unix && base.len() > 0 && base.last() != '/' ==> spec_join(
            style,
            base,
            name,
        ) == base + seq!['/'] + name,
        style == PathStyle::Windows && base.len() > 0 && base.last() != '/' && base.last() != '\\'
            && !(base.len() == 2 && base[1] == ':' && (('a' <= base[0] <= 'z') || ('A' <= base[0]
            <= 'Z'))) ==> spec_join(style, base, name) == base + seq!['\\'] + name,
{
    if base.len() > 0 {
        assert(base.push('/') == base + seq!['/']);
        assert(base.push('\\') == base + seq!['\\']);
    }
}

/// Sanitising ignores white space around a name: the name and the name
/// trimmed give the same sanitised name (and so the same token file).
pub proof fn lemma_sanitize_ignores_surrounding_space(user: Seq<char>)
    ensures
        spec_sanitize_username(spec_trim(user)) == spec_sanitize_username(user),
{
    crate::text::lemma_trim_idempotent(user);
}

/// Sanitising sees a name only through its trimmed, lowercased form: two
/// names whose trimmed forms lowercase alike give the same sanitised name.
pub proof fn lemma_sanitize_sees_lowercased(a: Seq<char>, b: Seq<char>)
    requires
        spec_to_lowercase(spec_trim(a)) == spec_to_lowercase(spec_trim(b)),
    ensures
        spec_sanitize_username(a) == spec_sanitize_username(b),
{
}

} // verus!

verus! {

/// The token path goes by the selected user whatever the environment
/// names; without a selection by the environment's user; with neither it is
/// the shared `auth` file in the launcher's directory.
pub proof fn lemma_token_path_priority(
    style: PathStyle,
    my_dir: Seq<char>,
    selected: Option<Seq<char>>,
    env_user: Option<Seq<char>>,
)
    ensures
        selected matches Some(u) ==> spec_login_token_path(style, my_dir, selected, env_user)
            == spec_join(style, my_dir, "auth_"@ + spec_sanitize_username(u)),
        selected is None ==> (env_user matches Some(u) ==> spec_login_token_path(
            style,
            my_dir,
            selected,
            env_user,
        ) == spec_join(style, my_dir, "auth_"@ + spec_sanitize_username(u))),
        (selected is None && env_user is None) ==> spec_login_token_path(
            style,
            my_dir,
            selected,
            env_user,
        ) == spec_join(style, my_dir, "auth"@),
{
}

} // verus!
