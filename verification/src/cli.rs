//! The launcher's command line: `--no-update`, `--username NAME`,
//! `--password PASS` and the `--username=NAME` / `--password=PASS` forms.
use vstd::prelude::*;
use crate::text::{spec_starts_with, starts_with};

verus! {

/// What the command line asks for.
#[derive(Clone, Debug)]
pub struct CliArgs {
    pub username: Option<String>,
    pub password: Option<String>,
    pub no_update: bool,
}

/// The abstract value of [`CliArgs`].
pub struct CliArgsView {
    pub username: Option<Seq<char>>,
    pub password: Option<Seq<char>>,
    pub no_update: bool,
}

impl View for CliArgs {
    type V = CliArgsView;

    open spec fn view(&self) -> CliArgsView {
        CliArgsView {
            username: match self.username {
                Some(u) => Some(u@),
                None => None,
            },
            password: match self.password {
                Some(p) => Some(p@),
                None => None,
            },
            no_update: self.no_update,
        }
    }
}

/// Whether the argument after position `i` exists and can be the value of
/// an option: it does not start with `--`.
pub open spec fn has_value_after(args: Seq<Seq<char>>, i: int) -> bool {
    i + 1 < args.len() && !spec_starts_with(args[i + 1], "--"@)
}

/// The result of reading `args` from position `i` on, with `st` read so
/// far. An option's value may follow it as the next argument, which is
/// then consumed, or be attached after `=`; a later occurrence overrides an
/// earlier one; anything else is ignored.
pub open spec fn parse_from(args: Seq<Seq<char>>, i: int, st: CliArgsView) -> CliArgsView
    decreases args.len() - i,
{
    if i < 0 || i >= args.len() {
        st
    } else {
        let a = args[i];
        if a == "--no-update"@ {
            parse_from(args, i + 1, CliArgsView { no_update: true, ..st })
        } else if a == "--username"@ {
            if has_value_after(args, i) {
                parse_from(args, i + 2, CliArgsView { username: Some(args[i + 1]), ..st })
            } else {
                parse_from(args, i + 1, st)
            }
        } else if a == "--password"@ {
            if has_value_after(args, i) {
                parse_from(args, i + 2, CliArgsView { password: Some(args[i + 1]), ..st })
            } else {
                parse_from(args, i + 1, st)
            }
        } else if spec_starts_with(a, "--username="@) {
            parse_from(
                args,
                i + 1,
                CliArgsView { username: Some(a.skip("--username="@.len() as int)), ..st },
            )
        } else if spec_starts_with(a, "--password="@) {
            parse_from(
                args,
                i + 1,
                CliArgsView { password: Some(a.skip("--password="@.len() as int)), ..st },
            )
        } else {
            parse_from(args, i + 1, st)
        }
    }
}

/// Nothing given on the command line.
pub open spec fn no_args() -> CliArgsView {
    CliArgsView { username: None, password: None, no_update: false }
}

/// The abstract command line: the program's arguments, the program name
/// (position 0) left out.
pub open spec fn spec_parse_args(argv: Seq<Seq<char>>) -> CliArgsView {
    parse_from(argv, 1, no_args())
}

/// The characters of each argument.
pub open spec fn args_view(argv: Seq<String>) -> Seq<Seq<char>> {
    argv.map_values(|a: String| a@)
}

/// Reads the command line `argv`, whose first element is the program name.
pub fn parse_args(argv: &Vec<String>) -> (r: CliArgs)
    ensures
        r@ == spec_parse_args(args_view(argv@)),
{
    let ghost args = args_view(argv@);
    let n = argv.len();
    let mut st = CliArgs { username: None, password: None, no_update: false };
    let mut i: usize = 1;
    let no_update_flag = String::from_str("--no-update");
    let username_flag = String::from_str("--username");
    let password_flag = String::from_str("--password");
    while i < n
        invariant
            n == argv@.len(),
            args == args_view(argv@),
            no_update_flag@ == "--no-update"@,
            username_flag@ == "--username"@,
            password_flag@ == "--password"@,
            1 <= i,
            parse_from(args, i as int, st@) == spec_parse_args(args),
        decreases n - i,
    {
        let a = &argv[i];
        assert(a@ == args[i as int]);
        if *a == no_update_flag {
            st.no_update = true;
            i = i + 1;
        } else if *a == username_flag {
            if i + 1 < n && !starts_with(argv[i + 1].as_str(), "--") {
                assert(argv[i + 1 as int]@ == args[i + 1]);
                st.username = Some(argv[i + 1].clone());
                i = i + 2;
            } else {
                i = i + 1;
            }
        } else if *a == password_flag {
            if i + 1 < n && !starts_with(argv[i + 1].as_str(), "--") {
                assert(argv[i + 1 as int]@ == args[i + 1]);
                st.password = Some(argv[i + 1].clone());
                i = i + 2;
            } else {
                i = i + 1;
            }
        } else if starts_with(a.as_str(), "--username=") {
            st.username = Some(strip_prefix_of(a.as_str(), "--username="));
            i = i + 1;
        } else if starts_with(a.as_str(), "--password=") {
            st.password = Some(strip_prefix_of(a.as_str(), "--password="));
            i = i + 1;
        } else {
            i = i + 1;
        }
    }
    st
}

/// The rest of `s` after the prefix `p`, which it starts with.
fn strip_prefix_of(s: &str, p: &str) -> (r: String)
    requires
        spec_starts_with(s@, p@),
    ensures
        r@ == s@.skip(p@.len() as int),
{
    let from = p.unicode_len();
    let to = s.unicode_len();
    String::from_str(s.substring_char(from, to))
}

/// Credentials given in full on the command line: both a user name and a
/// password.
pub fn credentials_from_args(args: &CliArgs) -> (r: Option<(String, String)>)
    ensures
        r matches Some((u, p)) ==> (args.username matches Some(u0) && u@ == u0@)
            && (args.password matches Some(p0) && p@ == p0@),
        r is None ==> (args.username is None || args.password is None),
{
    match (&args.username, &args.password) {
        (Some(u), Some(p)) => Some((u.clone(), p.clone())),
        _ => None,
    }
}

} // verus!

verus! {

/// `v` with `--no-update` given.
pub open spec fn with_no_update(v: CliArgsView) -> CliArgsView {
    CliArgsView { no_update: true, ..v }
}

proof fn lemma_flag_commutes(args: Seq<Seq<char>>, j: int, s: CliArgsView)
    ensures
        parse_from(args, j, with_no_update(s)) == with_no_update(parse_from(args, j, s)),
    decreases args.len() - j,
{
    if 0 <= j < args.len() {
        let a = args[j];
        if a == "--no-update"@ {
            lemma_flag_commutes(args, j + 1, with_no_update(s));
            lemma_flag_commutes(args, j + 1, s);
        } else if a == "--username"@ {
            if has_value_after(args, j) {
                lemma_flag_commutes(args, j + 2, CliArgsView { username: Some(args[j + 1]), ..s });
            } else {
                lemma_flag_commutes(args, j + 1, s);
            }
        } else if a == "--password"@ {
            if has_value_after(args, j) {
                lemma_flag_commutes(args, j + 2, CliArgsView { password: Some(args[j + 1]), ..s });
            } else {
                lemma_flag_commutes(args, j + 1, s);
            }
        } else if spec_starts_with(a, "--username="@) {
            lemma_flag_commutes(
                args,
                j + 1,
                CliArgsView { username: Some(a.skip("--username="@.len() as int)), ..s },
            );
        } else if spec_starts_with(a, "--password="@) {
            lemma_flag_commutes(
                args,
                j + 1,
                CliArgsView { password: Some(a.skip("--password="@.len() as int)), ..s },
            );
        } else {
            lemma_flag_commutes(args, j + 1, s);
        }
    }
}

proof fn lemma_parse_shift(args: Seq<Seq<char>>, k: int, j: int, s: CliArgsView)
    requires
        0 <= k <= j,
        k < args.len(),
    ensures
        parse_from(args, j + 1, s) == parse_from(args.remove(k), j, s),
    decreases args.len() - j,
{
    let b = args.remove(k);
    if j + 1 < args.len() {
        assert(b[j] == args[j + 1]);
        if j + 2 < args.len() {
            assert(b[j + 1] == args[j + 2]);
        }
        let a = args[j + 1];
        if a == "--no-update"@ {
            lemma_parse_shift(args, k, j + 1, CliArgsView { no_update: true, ..s });
        } else if a == "--username"@ {
            if has_value_after(args, j + 1) {
                lemma_parse_shift(args, k, j + 2, CliArgsView { username: Some(args[j + 2]), ..s });
            } else {
                lemma_parse_shift(args, k, j + 1, s);
            }
        } else if a == "--password"@ {
            if has_value_after(args, j + 1) {
                lemma_parse_shift(args, k, j + 2, CliArgsView { password: Some(args[j + 2]), ..s });
            } else {
                lemma_parse_shift(args, k, j + 1, s);
            }
        } else if spec_starts_with(a, "--username="@) {
            lemma_parse_shift(
                args,
                k,
                j + 1,
                CliArgsView { username: Some(a.skip("--username="@.len() as int)), ..s },
            );
        } else if spec_starts_with(a, "--password="@) {
            lemma_parse_shift(
                args,
                k,
                j + 1,
                CliArgsView { password: Some(a.skip("--password="@.len() as int)), ..s },
            );
        } else {
            lemma_parse_shift(args, k, j + 1, s);
        }
    }
}

proof fn lemma_no_update_from(args: Seq<Seq<char>>, k: int, i: int, s: CliArgsView)
    requires
        1 <= i <= k < args.len(),
        args[k] == "--no-update"@,
        k == 1 || (args[k - 1] != "--username"@ && args[k - 1] != "--password"@),
    ensures
        parse_from(args, i, s) == with_no_update(parse_from(args.remove(k), i, s)),
    decreases k - i,
{
    let b = args.remove(k);
    if i == k {
        lemma_parse_shift(args, k, k, with_no_update(s));
        lemma_flag_commutes(b, k, s);
    } else {
        reveal_strlit("--no-update");
        reveal_strlit("--");
        assert(spec_starts_with(args[k], "--"@)) by {
            assert(args[k].subrange(0, 2) =~= "--"@);
        }
        assert(b[i] == args[i]);
        if i + 1 < k {
            assert(b[i + 1] == args[i + 1]);
        }
        let a = args[i];
        if a == "--no-update"@ {
            lemma_no_update_from(args, k, i + 1, CliArgsView { no_update: true, ..s });
        } else if a == "--username"@ {
            if has_value_after(args, i) {
                lemma_no_update_from(args, k, i + 2, CliArgsView { username: Some(args[i + 1]), ..s });
            } else {
                lemma_no_update_from(args, k, i + 1, s);
            }
        } else if a == "--password"@ {
            if has_value_after(args, i) {
                lemma_no_update_from(args, k, i + 2, CliArgsView { password: Some(args[i + 1]), ..s });
            } else {
                lemma_no_update_from(args, k, i + 1, s);
            }
        } else if spec_starts_with(a, "--username="@) {
            lemma_no_update_from(
                args,
                k,
                i + 1,
                CliArgsView { username: Some(a.skip("--username="@.len() as int)), ..s },
            );
        } else if spec_starts_with(a, "--password="@) {
            lemma_no_update_from(
                args,
                k,
                i + 1,
                CliArgsView { password: Some(a.skip("--password="@.len() as int)), ..s },
            );
        } else {
            lemma_no_update_from(args, k, i + 1, s);
        }
    }
}

/// `--no-update` takes no value: removing one occurrence of it from the
/// command line leaves the user name and password read exactly as they
/// were, and only `no_update` depends on it. (Excluded is an occurrence
/// right after `--username` or `--password`: there it stops that option
/// from taking the next argument as its value, since a value never starts
/// with `--`.)
pub proof fn lemma_no_update_takes_no_value(argv: Seq<Seq<char>>, k: int)
    requires
        1 <= k < argv.len(),
        argv[k] == "--no-update"@,
        k == 1 || (argv[k - 1] != "--username"@ && argv[k - 1] != "--password"@),
    ensures
        spec_parse_args(argv).no_update,
        spec_parse_args(argv).username == spec_parse_args(argv.remove(k)).username,
        spec_parse_args(argv).password == spec_parse_args(argv.remove(k)).password,
{
    lemma_no_update_from(argv, k, 1, no_args());
}

} // verus!

verus! {

proof fn lemma_parse_suffix(p: Seq<Seq<char>>, t: Seq<Seq<char>>, j: int, s: CliArgsView)
    requires
        0 <= j,
    ensures
        parse_from(p + t, p.len() + j, s) == parse_from(t, j, s),
    decreases t.len() - j,
{
    let a2 = p + t;
    if j < t.len() {
        assert(a2[p.len() + j] == t[j]);
        if j + 1 < t.len() {
            assert(a2[p.len() + j + 1] == t[j + 1]);
        }
        let a = t[j];
        if a == "--no-update"@ {
            lemma_parse_suffix(p, t, j + 1, CliArgsView { no_update: true, ..s });
        } else if a == "--username"@ {
            if has_value_after(t, j) {
                lemma_parse_suffix(p, t, j + 2, CliArgsView { username: Some(t[j + 1]), ..s });
            } else {
                lemma_parse_suffix(p, t, j + 1, s);
            }
        } else if a == "--password"@ {
            if has_value_after(t, j) {
                lemma_parse_suffix(p, t, j + 2, CliArgsView { password: Some(t[j + 1]), ..s });
            } else {
                lemma_parse_suffix(p, t, j + 1, s);
            }
        } else if spec_starts_with(a, "--username="@) {
            lemma_parse_suffix(
                p,
                t,
                j + 1,
                CliArgsView { username: Some(a.skip("--username="@.len() as int)), ..s },
            );
        } else if spec_starts_with(a, "--password="@) {
            lemma_parse_suffix(
                p,
                t,
                j + 1,
                CliArgsView { password: Some(a.skip("--password="@.len() as int)), ..s },
            );
        } else {
            lemma_parse_suffix(p, t, j + 1, s);
        }
    }
}

/// Reading a command line that goes on with `t`, where `t` starts with an
/// option (`--...`), reads the first part and then `t` on its own: no value
/// is taken across the boundary.
proof fn lemma_parse_concat(p: Seq<Seq<char>>, t: Seq<Seq<char>>, i: int, s: CliArgsView)
    requires
        0 <= i <= p.len(),
        t.len() > 0,
        spec_starts_with(t[0], "--"@),
    ensures
        parse_from(p + t, i, s) == parse_from(t, 0, parse_from(p, i, s)),
    decreases p.len() - i,
{
    let a2 = p + t;
    if i == p.len() {
        lemma_parse_suffix(p, t, 0, s);
    } else {
        assert(a2[i] == p[i]);
        assert(a2[i + 1] == if i + 1 < p.len() {
            p[i + 1]
        } else {
            t[0]
        });
        let a = p[i];
        if a == "--no-update"@ {
            lemma_parse_concat(p, t, i + 1, CliArgsView { no_update: true, ..s });
        } else if a == "--username"@ {
            if has_value_after(p, i) {
                lemma_parse_concat(p, t, i + 2, CliArgsView { username: Some(p[i + 1]), ..s });
            } else {
                lemma_parse_concat(p, t, i + 1, s);
            }
        } else if a == "--password"@ {
            if has_value_after(p, i) {
                lemma_parse_concat(p, t, i + 2, CliArgsView { password: Some(p[i + 1]), ..s });
            } else {
                lemma_parse_concat(p, t, i + 1, s);
            }
        } else if spec_starts_with(a, "--username="@) {
            lemma_parse_concat(
                p,
                t,
                i + 1,
                CliArgsView { username: Some(a.skip("--username="@.len() as int)), ..s },
            );
        } else if spec_starts_with(a, "--password="@) {
            lemma_parse_concat(
                p,
                t,
                i + 1,
                CliArgsView { password: Some(a.skip("--password="@.len() as int)), ..s },
            );
        } else {
            lemma_parse_concat(p, t, i + 1, s);
        }
    }
}

/// The last `--username NAME` wins: whatever comes before, a command line
/// that ends with `--username` and a value not starting with `--` has that
/// value as user name, and the password and `--no-update` as before.
pub proof fn lemma_username_value_wins(argv: Seq<Seq<char>>, name: Seq<char>)
    requires
        argv.len() >= 1,
        !spec_starts_with(name, "--"@),
    ensures
        spec_parse_args(argv + seq!["--username"@, name]).username == Some(name),
        spec_parse_args(argv + seq!["--username"@, name]).password == spec_parse_args(
            argv,
        ).password,
        spec_parse_args(argv + seq!["--username"@, name]).no_update == spec_parse_args(
            argv,
        ).no_update,
{
    reveal_strlit("--username");
    reveal_strlit("--");
    reveal_strlit("--no-update");
    let t = seq!["--username"@, name];
    assert(t[0].subrange(0, 2) =~= "--"@);
    lemma_parse_concat(argv, t, 1, no_args());
    reveal_with_fuel(parse_from, 3);
}

/// The last `--password PASS` wins, in the same way.
pub proof fn lemma_password_value_wins(argv: Seq<Seq<char>>, pass: Seq<char>)
    requires
        argv.len() >= 1,
        !spec_starts_with(pass, "--"@),
    ensures
        spec_parse_args(argv + seq!["--password"@, pass]).password == Some(pass),
        spec_parse_args(argv + seq!["--password"@, pass]).username == spec_parse_args(
            argv,
        ).username,
        spec_parse_args(argv + seq!["--password"@, pass]).no_update == spec_parse_args(
            argv,
        ).no_update,
{
    reveal_strlit("--password");
    reveal_strlit("--username");
    reveal_strlit("--");
    reveal_strlit("--no-update");
    let t = seq!["--password"@, pass];
    assert(t[0].subrange(0, 2) =~= "--"@);
    assert("--password"@ != "--username"@) by {
        assert("--password"@[2] != "--username"@[2]);
    }
    lemma_parse_concat(argv, t, 1, no_args());
    reveal_with_fuel(parse_from, 3);
}

/// The last `--username=NAME` wins: a command line ending with it has
/// `NAME` (everything after the first `=`) as user name, the rest as before.
pub proof fn lemma_attached_username_wins(argv: Seq<Seq<char>>, name: Seq<char>)
    requires
        argv.len() >= 1,
    ensures
        spec_parse_args(argv.push("--username="@ + name)).username == Some(name),
        spec_parse_args(argv.push("--username="@ + name)).password == spec_parse_args(
            argv,
        ).password,
        spec_parse_args(argv.push("--username="@ + name)).no_update == spec_parse_args(
            argv,
        ).no_update,
{
    reveal_strlit("--username=");
    reveal_strlit("--username");
    reveal_strlit("--password");
    reveal_strlit("--");
    reveal_strlit("--no-update");
    let x = "--username="@ + name;
    let t = seq![x];
    assert(argv.push(x) == argv + t);
    assert(x.subrange(0, 2) =~= "--"@);
    assert(x.subrange(0, 11) =~= "--username="@);
    assert(x.skip(11) =~= name);
    assert(x != "--no-update"@) by {
        assert(x[2] != "--no-update"@[2]);
    }
    assert(x != "--username"@) by {
        assert(x.len() != "--username"@.len());
    }
    assert(x != "--password"@) by {
        assert(x[2] != "--password"@[2]);
    }
    assert(spec_starts_with(x, "--username="@));
    lemma_parse_concat(argv, t, 1, no_args());
    reveal_with_fuel(parse_from, 2);
    assert(t[0] == x);
}

/// The last `--password=PASS` wins, in the same way.
pub proof fn lemma_attached_password_wins(argv: Seq<Seq<char>>, pass: Seq<char>)
    requires
        argv.len() >= 1,
    ensures
        spec_parse_args(argv.push("--password="@ + pass)).password == Some(pass),
        spec_parse_args(argv.push("--password="@ + pass)).username == spec_parse_args(
            argv,
        ).username,
        spec_parse_args(argv.push("--password="@ + pass)).no_update == spec_parse_args(
            argv,
        ).no_update,
{
    reveal_strlit("--password=");
    reveal_strlit("--username=");
    reveal_strlit("--username");
    reveal_strlit("--password");
    reveal_strlit("--");
    reveal_strlit("--no-update");
    let x = "--password="@ + pass;
    let t = seq![x];
    assert(argv.push(x) == argv + t);
    assert(x.subrange(0, 2) =~= "--"@);
    assert(x.subrange(0, 11) =~= "--password="@);
    assert(x.skip(11) =~= pass);
    assert(x != "--no-update"@) by {
        assert(x[2] != "--no-update"@[2]);
    }
    assert(x != "--username"@) by {
        assert(x[2] != "--username"@[2]);
    }
    assert(x != "--password"@) by {
        assert(x.len() != "--password"@.len());
    }
    assert(!spec_starts_with(x, "--username="@)) by {
        assert(x.subrange(0, 11)[2] != "--username="@[2]);
    }
    assert(spec_starts_with(x, "--password="@));
    lemma_parse_concat(argv, t, 1, no_args());
    reveal_with_fuel(parse_from, 2);
    assert(t[0] == x);
}

} // verus!
