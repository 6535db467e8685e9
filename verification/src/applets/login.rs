//! login: its options, what the shadow table says of a user, the user's
//! entry in the password table, and the name the shell is started under.
use vstd::prelude::*;
use crate::num::{parse_dec, parse_dec_exec};
use crate::paths::{file_name, file_name_spec};
use crate::text::{
    chars_of, chars_of_all, eq_chars, eq_lit, lines, lines_exec, push_all, split_exec, split_on,
    starts_with, starts_with_lit, string_of, views, vviews,
};

verus! {

/// What the words of an invocation set.
pub struct LoginArgs {
    pub preserve_env: bool,
    /// The last word that is no option; empty where there is none.
    pub username: String,
}

/// Reading the words from `i` on: `-p` keeps the environment, help ends the
/// reading (`None`), any word not starting with `-` is the user name.
pub open spec fn scan(args: Seq<Seq<char>>, i: int, preserve: bool, user: Seq<char>) -> Option<(bool, Seq<char>)>
    decreases args.len() - i,
{
    if i < 0 || i >= args.len() {
        Some((preserve, user))
    } else {
        let a = args[i];
        if a == "-p"@ {
            scan(args, i + 1, true, user)
        } else if a == "-h"@ || a == "--help"@ {
            None
        } else if !starts_with(a, "-"@) {
            scan(args, i + 1, preserve, a)
        } else {
            scan(args, i + 1, preserve, user)
        }
    }
}

/// Reads the options of an invocation; `None` where help was asked for.
pub fn parse_args(args: &[String]) -> (r: Option<LoginArgs>)
    ensures
        match r {
            Some(a) => scan(views(args@), 0, false, seq![]) == Some((a.preserve_env, a.username@)),
            None => scan(views(args@), 0, false, seq![]) is None,
        },
{
    let ghost av = views(args@);
    let cs = chars_of_all(args);
    let n = args.len();
    let mut preserve_env = false;
    let mut username = String::new();
    let mut i: usize = 0;
    while i < n
        invariant
            n == args@.len(),
            cs@.len() == n,
            av == views(args@),
            forall|k: int| 0 <= k < n ==> #[trigger] cs@[k]@ == args@[k]@,
            i <= n,
            scan(av, i as int, preserve_env, username@) == scan(av, 0, false, seq![]),
        decreases n - i,
    {
        let a = cs[i].as_slice();
        assert(av[i as int] == a@);
        if eq_lit(a, "-p") {
            preserve_env = true;
        } else if eq_lit(a, "-h") || eq_lit(a, "--help") {
            return None;
        } else if !starts_with_lit(a, "-") {
            username = args[i].clone();
        }
        i = i + 1;
    }
    Some(LoginArgs { preserve_env, username })
}

/// What the shadow table says of a login attempt.
pub enum ShadowVerdict {
    /// The user is unknown or locked, or the table could not be read.
    Denied,
    /// The user has no password and none was typed.
    Granted,
    /// The typed password must hash to this stored hash.
    Check(String),
}

pub enum VerdictView {
    Denied,
    Granted,
    Check(Seq<char>),
}

impl View for ShadowVerdict {
    type V = VerdictView;

    open spec fn view(&self) -> VerdictView {
        match self {
            ShadowVerdict::Denied => VerdictView::Denied,
            ShadowVerdict::Granted => VerdictView::Granted,
            ShadowVerdict::Check(h) => VerdictView::Check(h@),
        }
    }
}

/// The first line whose first `:`-separated field is the user (with at
/// least two fields) decides: a hash of `!`, `*` or `!!` is a locked
/// account; an empty hash and an empty password let the user in; any other
/// hash is checked against the password.
pub open spec fn shadow_spec(ls: Seq<Seq<char>>, user: Seq<char>, password_empty: bool) -> VerdictView
    decreases ls.len(),
{
    if ls.len() == 0 {
        VerdictView::Denied
    } else {
        let parts = split_on(ls[0], ':');
        if parts.len() >= 2 && parts[0] == user {
            let h = parts[1];
            if h == "!"@ || h == "*"@ || h == "!!"@ {
                VerdictView::Denied
            } else if h.len() == 0 && password_empty {
                VerdictView::Granted
            } else {
                VerdictView::Check(h)
            }
        } else {
            shadow_spec(ls.drop_first(), user, password_empty)
        }
    }
}

/// What the shadow table (`None` where it could not be read) says of the
/// user and the typed password.
pub fn shadow_verdict(shadow: Option<&str>, username: &str, password: &str) -> (r: ShadowVerdict)
    ensures
        r@ == match shadow {
            Some(t) => shadow_spec(lines(t@), username@, password@.len() == 0),
            None => VerdictView::Denied,
        },
{
    let t = match shadow {
        Some(t) => t,
        None => {
            return ShadowVerdict::Denied;
        },
    };
    let pw_empty = chars_of(password).len() == 0;
    let nc = chars_of(username);
    let ls = lines_exec(chars_of(t).as_slice());
    let ghost lv = vviews(ls@);
    let ghost target = shadow_spec(lv, username@, pw_empty);
    let mut i: usize = 0;
    assert(lv.skip(0) =~= lv);
    while i < ls.len()
        invariant
            i <= ls@.len(),
            nc@ == username@,
            lv == vviews(ls@),
            target == shadow_spec(lv, username@, pw_empty),
            lv == lines(t@),
            shadow == Some(t),
            pw_empty == (password@.len() == 0),
            shadow_spec(lv.skip(i as int), username@, pw_empty) == target,
        decreases ls@.len() - i,
    {
        assert(lv.skip(i as int)[0] == ls@[i as int]@);
        assert(lv.skip(i as int).drop_first() =~= lv.skip(i + 1));
        let parts = split_exec(ls[i].as_slice(), ':');
        assert(vviews(parts@) == split_on(lv.skip(i as int)[0], ':'));
        if parts.len() >= 2 {
            assert(vviews(parts@)[0] == parts@[0]@);
            assert(vviews(parts@)[1] == parts@[1]@);
            if eq_chars(parts[0].as_slice(), nc.as_slice()) {
                let h = parts[1].as_slice();
                if eq_lit(h, "!") || eq_lit(h, "*") || eq_lit(h, "!!") {
                    return ShadowVerdict::Denied;
                }
                if h.len() == 0 && pw_empty {
                    return ShadowVerdict::Granted;
                }
                return ShadowVerdict::Check(string_of(h));
            }
        }
        i = i + 1;
    }
    assert(lv.skip(i as int) =~= Seq::<Seq<char>>::empty());
    ShadowVerdict::Denied
}

/// A user's entry in the password table.
pub struct UserInfo {
    pub uid: u32,
    pub gid: u32,
    pub home: String,
    pub shell: String,
}

/// The first line whose first `:`-separated field is the user (with at
/// least seven fields) decides: its third and fourth fields must be `u32`
/// numbers, and its sixth and seventh are the home and the shell.
pub open spec fn passwd_spec(ls: Seq<Seq<char>>, user: Seq<char>) -> Option<(u32, u32, Seq<char>, Seq<char>)>
    decreases ls.len(),
{
    if ls.len() == 0 {
        None
    } else {
        let parts = split_on(ls[0], ':');
        if parts.len() >= 7 && parts[0] == user {
            match (parse_dec(parts[2], u32::MAX as nat), parse_dec(parts[3], u32::MAX as nat)) {
                (Some(u), Some(g)) => Some((u as u32, g as u32, parts[5], parts[6])),
                _ => None,
            }
        } else {
            passwd_spec(ls.drop_first(), user)
        }
    }
}

/// The user's entry in the password table (`None` where it could not be
/// read).
pub fn user_info(passwd: Option<&str>, username: &str) -> (r: Option<UserInfo>)
    ensures
        match (r, passwd) {
            (None, None) => true,
            (None, Some(t)) => passwd_spec(lines(t@), username@) is None,
            (Some(u), Some(t)) => passwd_spec(lines(t@), username@) == Some((u.uid, u.gid, u.home@, u.shell@)),
            (Some(_), None) => false,
        },
{
    let t = match passwd {
        Some(t) => t,
        None => {
            return None;
        },
    };
    let nc = chars_of(username);
    let ls = lines_exec(chars_of(t).as_slice());
    let ghost lv = vviews(ls@);
    let ghost target = passwd_spec(lv, username@);
    let mut i: usize = 0;
    assert(lv.skip(0) =~= lv);
    while i < ls.len()
        invariant
            i <= ls@.len(),
            nc@ == username@,
            lv == vviews(ls@),
            target == passwd_spec(lv, username@),
            lv == lines(t@),
            passwd == Some(t),
            passwd_spec(lv.skip(i as int), username@) == target,
        decreases ls@.len() - i,
    {
        assert(lv.skip(i as int)[0] == ls@[i as int]@);
        assert(lv.skip(i as int).drop_first() =~= lv.skip(i + 1));
        let parts = split_exec(ls[i].as_slice(), ':');
        assert(vviews(parts@) == split_on(lv.skip(i as int)[0], ':'));
        if parts.len() >= 7 {
            assert(vviews(parts@)[0] == parts@[0]@);
            assert(vviews(parts@)[2] == parts@[2]@);
            assert(vviews(parts@)[3] == parts@[3]@);
            assert(vviews(parts@)[5] == parts@[5]@);
            assert(vviews(parts@)[6] == parts@[6]@);
            if eq_chars(parts[0].as_slice(), nc.as_slice()) {
                let u = parse_dec_exec(parts[2].as_slice(), 0xffff_ffff);
                let g = parse_dec_exec(parts[3].as_slice(), 0xffff_ffff);
                return match (u, g) {
                    (Some(u), Some(g)) => Some(
                        UserInfo {
                            uid: u as u32,
                            gid: g as u32,
                            home: string_of(parts[5].as_slice()),
                            shell: string_of(parts[6].as_slice()),
                        },
                    ),
                    _ => None,
                };
            }
        }
        i = i + 1;
    }
    assert(lv.skip(i as int) =~= Seq::<Seq<char>>::empty());
    None
}

/// The name the shell is started under: a dash and the shell's file name
/// (`sh` where the path has none).
pub fn shell_arg0(shell: &str) -> (r: String)
    ensures
        r@ == "-"@ + (if file_name_spec(shell@).len() == 0 {
            "sh"@
        } else {
            file_name_spec(shell@)
        }),
{
    let f = chars_of(file_name(shell).as_str());
    let mut v = chars_of("-");
    if f.len() == 0 {
        push_all(&mut v, chars_of("sh").as_slice());
    } else {
        push_all(&mut v, f.as_slice());
    }
    string_of(v.as_slice())
}

} // verus!
