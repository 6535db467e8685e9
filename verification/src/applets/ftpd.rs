//! ftpd: its options and the answer of a session to each command line.
use vstd::prelude::*;
use crate::num::{decimal, fmt_dec, parse_dec, parse_dec_exec};
use crate::paths::{join_path, join_path_spec};
use crate::text::{ascii_upper_text, is_ascii_text,
    chars_of, chars_of_all, eq_lit, push_all, push_str, splitn, splitn_exec, starts_with,
    starts_with_lit, string_of, to_string, to_upper, trim, trim_chars, upper_text, views, vviews,
};

verus! {

/// What the options of an invocation set.
pub struct FtpdArgs {
    pub root: String,
    pub port: u16,
    pub anonymous_only: bool,
}

/// The port given to `-p`: a `u16`, else 21.
pub open spec fn port_spec(s: Seq<char>) -> u16 {
    match parse_dec(s, u16::MAX as nat) {
        Some(v) => v as u16,
        None => 21,
    }
}

/// Reading the words from `i` on; `None`: help was asked for. `-p` takes
/// the port, `-w` allows more than anonymous users, the last word not
/// starting with `-` is the root directory.
pub open spec fn scan(args: Seq<Seq<char>>, i: int, root: Seq<char>, port: u16, anon: bool) -> Option<(Seq<char>, u16, bool)>
    decreases args.len() - i,
{
    if i < 0 || i >= args.len() {
        Some((root, port, anon))
    } else {
        let a = args[i];
        if a == "-p"@ {
            if i + 1 < args.len() {
                scan(args, i + 2, root, port_spec(args[i + 1]), anon)
            } else {
                Some((root, port, anon))
            }
        } else if a == "-w"@ {
            scan(args, i + 1, root, port, false)
        } else if a == "-h"@ || a == "--help"@ {
            None
        } else if !starts_with(a, "-"@) {
            scan(args, i + 1, a, port, anon)
        } else {
            scan(args, i + 1, root, port, anon)
        }
    }
}

/// Reads the options of an invocation; `None` where help was asked for.
pub fn parse_args(args: &[String]) -> (r: Option<FtpdArgs>)
    ensures
        match r {
            Some(a) => scan(views(args@), 0, "/srv/ftp"@, 21, true) == Some((a.root@, a.port, a.anonymous_only)),
            None => scan(views(args@), 0, "/srv/ftp"@, 21, true) is None,
        },
{
    let ghost av = views(args@);
    let cs = chars_of_all(args);
    let n = args.len();
    let mut root = to_string("/srv/ftp");
    let mut port: u16 = 21;
    let mut anonymous_only = true;
    let mut i: usize = 0;
    while i < n
        invariant
            n == args@.len(),
            cs@.len() == n,
            av == views(args@),
            forall|k: int| 0 <= k < n ==> #[trigger] cs@[k]@ == args@[k]@,
            i <= n,
            scan(av, i as int, root@, port, anonymous_only) == scan(av, 0, "/srv/ftp"@, 21, true),
        decreases n - i,
    {
        let a = cs[i].as_slice();
        assert(av[i as int] == a@);
        if eq_lit(a, "-p") {
            if i + 1 < n {
                assert(av[i + 1] == cs@[i + 1]@);
                port = match parse_dec_exec(cs[i + 1].as_slice(), 0xffff) {
                    Some(v) => v as u16,
                    None => 21,
                };
                i = i + 1;
            }
        } else if eq_lit(a, "-w") {
            anonymous_only = false;
        } else if eq_lit(a, "-h") || eq_lit(a, "--help") {
            return None;
        } else if !starts_with_lit(a, "-") {
            root = args[i].clone();
        }
        i = i + 1;
    }
    Some(FtpdArgs { root, port, anonymous_only })
}

/// The address the server listens on.
pub fn bind_address(port: u16) -> (r: String)
    ensures
        r@ == "0.0.0.0:"@ + decimal(port as nat),
{
    let mut v = chars_of("0.0.0.0:");
    push_all(&mut v, fmt_dec(port as u64).as_slice());
    string_of(v.as_slice())
}

/// What a session does with one command.
pub enum FtpStep {
    /// Send this reply.
    Reply(String),
    /// Change to `cwd` if it is a directory under the root (`250 OK`),
    /// else refuse (`550 Failed to change directory`).
    ChangeDir(String),
    /// List the current directory between `150` and `226` replies.
    List,
    /// Say goodbye and end the session.
    Quit,
}

pub enum StepView {
    Reply(Seq<char>),
    ChangeDir(Seq<char>),
    List,
    Quit,
}

impl View for FtpStep {
    type V = StepView;

    open spec fn view(&self) -> StepView {
        match self {
            FtpStep::Reply(r) => StepView::Reply(r@),
            FtpStep::ChangeDir(d) => StepView::ChangeDir(d@),
            FtpStep::List => StepView::List,
            FtpStep::Quit => StepView::Quit,
        }
    }
}

/// The answer to a command (already in upper case) with its argument, in
/// the directory `cwd`.
pub open spec fn command_spec(cmd: Seq<char>, arg: Seq<char>, cwd: Seq<char>) -> StepView {
    if cmd == "USER"@ || cmd == "PASS"@ {
        StepView::Reply("230 Login successful\r\n"@)
    } else if cmd == "SYST"@ {
        StepView::Reply("215 UNIX Type: L8\r\n"@)
    } else if cmd == "PWD"@ || cmd == "XPWD"@ {
        StepView::Reply("257 \""@ + cwd + "\"\r\n"@)
    } else if cmd == "CWD"@ || cmd == "XCWD"@ {
        StepView::ChangeDir(join_path_spec(cwd, arg))
    } else if cmd == "LIST"@ {
        StepView::List
    } else if cmd == "TYPE"@ {
        StepView::Reply("200 Type set\r\n"@)
    } else if cmd == "QUIT"@ {
        StepView::Quit
    } else if cmd == "NOOP"@ {
        StepView::Reply("200 OK\r\n"@)
    } else {
        StepView::Reply("502 Command not implemented\r\n"@)
    }
}

/// The answer to a command already in upper case (see `command_spec`).
pub fn command_step(cmd: &str, arg: &str, cwd: &str) -> (r: FtpStep)
    ensures
        r@ == command_spec(cmd@, arg@, cwd@),
{
    let c = chars_of(cmd);
    let c = c.as_slice();
    if eq_lit(c, "USER") || eq_lit(c, "PASS") {
        FtpStep::Reply(to_string("230 Login successful\r\n"))
    } else if eq_lit(c, "SYST") {
        FtpStep::Reply(to_string("215 UNIX Type: L8\r\n"))
    } else if eq_lit(c, "PWD") || eq_lit(c, "XPWD") {
        let mut v = chars_of("257 \"");
        push_all(&mut v, chars_of(cwd).as_slice());
        push_str(&mut v, "\"\r\n");
        FtpStep::Reply(string_of(v.as_slice()))
    } else if eq_lit(c, "CWD") || eq_lit(c, "XCWD") {
        FtpStep::ChangeDir(join_path(cwd, arg))
    } else if eq_lit(c, "LIST") {
        FtpStep::List
    } else if eq_lit(c, "TYPE") {
        FtpStep::Reply(to_string("200 Type set\r\n"))
    } else if eq_lit(c, "QUIT") {
        FtpStep::Quit
    } else if eq_lit(c, "NOOP") {
        FtpStep::Reply(to_string("200 OK\r\n"))
    } else {
        FtpStep::Reply(to_string("502 Command not implemented\r\n"))
    }
}

/// A command line split in two at its first space once trimmed: the
/// command word and the rest (empty where there is none).
pub open spec fn line_parts(line: Seq<char>) -> (Seq<char>, Seq<char>) {
    let p = splitn(trim(line), 2, ' ');
    (p[0], if p.len() > 1 { p[1] } else { seq![] })
}

/// The answer to a command line: its command word in upper case, then
/// `command_spec`.
pub fn respond(line: &str, cwd: &str) -> (r: FtpStep)
    ensures
        r@ == command_spec(upper_text(line_parts(line@).0), line_parts(line@).1, cwd@),
        is_ascii_text(line_parts(line@).0) ==> r@ == command_spec(
            ascii_upper_text(line_parts(line@).0),
            line_parts(line@).1,
            cwd@,
        ),
{
    let t = trim_chars(chars_of(line).as_slice());
    let parts = splitn_exec(t.as_slice(), 2, ' ');
    proof {
        reveal_with_fuel(splitn, 2);
    }
    assert(vviews(parts@)[0] == parts@[0]@);
    let cmd = string_of(parts[0].as_slice());
    let arg = if parts.len() > 1 {
        assert(vviews(parts@)[1] == parts@[1]@);
        string_of(parts[1].as_slice())
    } else {
        String::new()
    };
    let up = to_upper(cmd.as_str());
    command_step(up.as_str(), arg.as_str(), cwd)
}

/// What std's `Path::strip_prefix("/")` leaves of a path (the path itself
/// where it does not start at the root).
pub uninterp spec fn below_root(p: Seq<char>) -> Seq<char>;

/// Trusted: std's `Path::strip_prefix` with `/`, the path itself where it
/// does not begin with the root; the result depends on the path alone.
#[verifier::external_body]
fn strip_root(p: &str) -> (r: String)
    ensures
        r@ == below_root(p@),
{
    let path = std::path::Path::new(p);
    path.strip_prefix("/").unwrap_or(path).to_string_lossy().into_owned()
}

/// Where a directory of the session lies on disk: its part below the
/// root, under the served root.
pub fn disk_path(root: &str, dir: &str) -> (r: String)
    ensures
        r@ == join_path_spec(root@, below_root(dir@)),
{
    let rel = strip_root(dir);
    join_path(root, rel.as_str())
}

/// The line of a listed name.
pub fn entry_line(name: &str) -> (r: String)
    ensures
        r@ == name@ + "\r\n"@,
{
    let mut v = chars_of(name);
    push_str(&mut v, "\r\n");
    string_of(v.as_slice())
}

/// The reply to a change of directory.
pub fn cwd_reply(is_dir: bool) -> (r: String)
    ensures
        r@ == if is_dir { "250 OK\r\n"@ } else { "550 Failed to change directory\r\n"@ },
{
    if is_dir {
        to_string("250 OK\r\n")
    } else {
        to_string("550 Failed to change directory\r\n")
    }
}

} // verus!
