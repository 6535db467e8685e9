//! logger: its options, the priority it logs at, and the message.
use vstd::prelude::*;
use crate::text::{
    chars_of, chars_of_all, eq_lit, join, join_exec, split_once, split_once_exec, string_of,
    to_string, trim, trim_chars, views, vviews,
};

verus! {

/// The syslog facility and level codes (`<syslog.h>` on Linux).
pub const LOG_KERN: i32 = 0;
pub const LOG_USER: i32 = 8;
pub const LOG_MAIL: i32 = 16;
pub const LOG_DAEMON: i32 = 24;
pub const LOG_AUTH: i32 = 32;
pub const LOG_SYSLOG: i32 = 40;
pub const LOG_LPR: i32 = 48;
pub const LOG_NEWS: i32 = 56;
pub const LOG_UUCP: i32 = 64;
pub const LOG_CRON: i32 = 72;
pub const LOG_LOCAL0: i32 = 128;
pub const LOG_LOCAL1: i32 = 136;
pub const LOG_LOCAL2: i32 = 144;
pub const LOG_LOCAL3: i32 = 152;
pub const LOG_LOCAL4: i32 = 160;
pub const LOG_LOCAL5: i32 = 168;
pub const LOG_LOCAL6: i32 = 176;
pub const LOG_LOCAL7: i32 = 184;
pub const LOG_EMERG: i32 = 0;
pub const LOG_ALERT: i32 = 1;
pub const LOG_CRIT: i32 = 2;
pub const LOG_ERR: i32 = 3;
pub const LOG_WARNING: i32 = 4;
pub const LOG_NOTICE: i32 = 5;
pub const LOG_INFO: i32 = 6;
pub const LOG_DEBUG: i32 = 7;

/// The code of a facility name (`user` for unknown names).
pub open spec fn facility_code(f: Seq<char>) -> i32 {
    if f == "kern"@ {
        LOG_KERN
    } else if f == "mail"@ {
        LOG_MAIL
    } else if f == "daemon"@ {
        LOG_DAEMON
    } else if f == "auth"@ {
        LOG_AUTH
    } else if f == "syslog"@ {
        LOG_SYSLOG
    } else if f == "lpr"@ {
        LOG_LPR
    } else if f == "news"@ {
        LOG_NEWS
    } else if f == "uucp"@ {
        LOG_UUCP
    } else if f == "cron"@ {
        LOG_CRON
    } else if f == "local0"@ {
        LOG_LOCAL0
    } else if f == "local1"@ {
        LOG_LOCAL1
    } else if f == "local2"@ {
        LOG_LOCAL2
    } else if f == "local3"@ {
        LOG_LOCAL3
    } else if f == "local4"@ {
        LOG_LOCAL4
    } else if f == "local5"@ {
        LOG_LOCAL5
    } else if f == "local6"@ {
        LOG_LOCAL6
    } else if f == "local7"@ {
        LOG_LOCAL7
    } else {
        LOG_USER
    }
}

/// The code of a level name (`notice` for unknown names).
pub open spec fn level_code(l: Seq<char>) -> i32 {
    if l == "emerg"@ {
        LOG_EMERG
    } else if l == "alert"@ {
        LOG_ALERT
    } else if l == "crit"@ {
        LOG_CRIT
    } else if l == "err"@ || l == "error"@ {
        LOG_ERR
    } else if l == "warning"@ || l == "warn"@ {
        LOG_WARNING
    } else if l == "info"@ {
        LOG_INFO
    } else if l == "debug"@ {
        LOG_DEBUG
    } else {
        LOG_NOTICE
    }
}

/// A priority `facility.level`, or a level alone (of facility `user`).
pub open spec fn priority_spec(s: Seq<char>) -> i32 {
    match split_once(s, '.') {
        Some((f, l)) => facility_code(f) | level_code(l),
        None => LOG_USER | level_code(s),
    }
}

fn facility_exec(f: &[char]) -> (r: i32)
    ensures
        r == facility_code(f@),
{
    if eq_lit(f, "kern") {
        LOG_KERN
    } else if eq_lit(f, "mail") {
        LOG_MAIL
    } else if eq_lit(f, "daemon") {
        LOG_DAEMON
    } else if eq_lit(f, "auth") {
        LOG_AUTH
    } else if eq_lit(f, "syslog") {
        LOG_SYSLOG
    } else if eq_lit(f, "lpr") {
        LOG_LPR
    } else if eq_lit(f, "news") {
        LOG_NEWS
    } else if eq_lit(f, "uucp") {
        LOG_UUCP
    } else if eq_lit(f, "cron") {
        LOG_CRON
    } else if eq_lit(f, "local0") {
        LOG_LOCAL0
    } else if eq_lit(f, "local1") {
        LOG_LOCAL1
    } else if eq_lit(f, "local2") {
        LOG_LOCAL2
    } else if eq_lit(f, "local3") {
        LOG_LOCAL3
    } else if eq_lit(f, "local4") {
        LOG_LOCAL4
    } else if eq_lit(f, "local5") {
        LOG_LOCAL5
    } else if eq_lit(f, "local6") {
        LOG_LOCAL6
    } else if eq_lit(f, "local7") {
        LOG_LOCAL7
    } else {
        LOG_USER
    }
}

fn level_exec(l: &[char]) -> (r: i32)
    ensures
        r == level_code(l@),
{
    if eq_lit(l, "emerg") {
        LOG_EMERG
    } else if eq_lit(l, "alert") {
        LOG_ALERT
    } else if eq_lit(l, "crit") {
        LOG_CRIT
    } else if eq_lit(l, "err") || eq_lit(l, "error") {
        LOG_ERR
    } else if eq_lit(l, "warning") || eq_lit(l, "warn") {
        LOG_WARNING
    } else if eq_lit(l, "info") {
        LOG_INFO
    } else if eq_lit(l, "debug") {
        LOG_DEBUG
    } else {
        LOG_NOTICE
    }
}

/// The priority given to `-p` (see `priority_spec`).
pub fn parse_priority(s: &str) -> (r: i32)
    ensures
        r == priority_spec(s@),
{
    let c = chars_of(s);
    match split_once_exec(c.as_slice(), '.') {
        Some((f, l)) => facility_exec(f.as_slice()) | level_exec(l.as_slice()),
        None => LOG_USER | level_exec(c.as_slice()),
    }
}

/// What the options of an invocation set.
pub struct LoggerArgs {
    pub priority: i32,
    pub tag: Option<String>,
    pub stderr_too: bool,
    pub parts: Vec<String>,
}

pub struct ArgsView {
    pub priority: i32,
    pub tag: Option<Seq<char>>,
    pub stderr_too: bool,
    pub parts: Seq<Seq<char>>,
}

impl View for LoggerArgs {
    type V = ArgsView;

    open spec fn view(&self) -> ArgsView {
        ArgsView {
            priority: self.priority,
            tag: match self.tag {
                Some(t) => Some(t@),
                None => None,
            },
            stderr_too: self.stderr_too,
            parts: views(self.parts@),
        }
    }
}

pub open spec fn args_start() -> ArgsView {
    ArgsView { priority: LOG_USER | LOG_NOTICE, tag: None, stderr_too: false, parts: seq![] }
}

/// Reading the words from `i` on: `-p PRIORITY`, `-t TAG`, `-s`; every
/// other word is part of the message. `None`: help was asked for.
pub open spec fn args_scan(args: Seq<Seq<char>>, i: int, st: ArgsView) -> Option<ArgsView>
    decreases args.len() - i,
{
    if i < 0 || i >= args.len() {
        Some(st)
    } else {
        let a = args[i];
        if a == "-p"@ || a == "--priority"@ || a == "-t"@ || a == "--tag"@ {
            if i + 1 < args.len() {
                let st2 = if a == "-p"@ || a == "--priority"@ {
                    ArgsView { priority: priority_spec(args[i + 1]), ..st }
                } else {
                    ArgsView { tag: Some(args[i + 1]), ..st }
                };
                args_scan(args, i + 2, st2)
            } else {
                Some(st)
            }
        } else if a == "-s"@ || a == "--stderr"@ {
            args_scan(args, i + 1, ArgsView { stderr_too: true, ..st })
        } else if a == "-h"@ || a == "--help"@ {
            None
        } else {
            args_scan(args, i + 1, ArgsView { parts: st.parts.push(a), ..st })
        }
    }
}

/// Reads the options of an invocation; `None` where help was asked for.
pub fn parse_args(args: &[String]) -> (r: Option<LoggerArgs>)
    ensures
        match r {
            Some(a) => args_scan(views(args@), 0, args_start()) == Some(a@),
            None => args_scan(views(args@), 0, args_start()) is None,
        },
{
    let ghost av = views(args@);
    let cs = chars_of_all(args);
    let n = args.len();
    let mut st = LoggerArgs {
        priority: LOG_USER | LOG_NOTICE,
        tag: None,
        stderr_too: false,
        parts: Vec::new(),
    };
    assert(views(st.parts@) =~= Seq::<Seq<char>>::empty());
    assert(st@ =~= args_start());
    let mut i: usize = 0;
    while i < n
        invariant
            n == args@.len(),
            cs@.len() == n,
            av == views(args@),
            forall|k: int| 0 <= k < n ==> #[trigger] cs@[k]@ == args@[k]@,
            i <= n,
            args_scan(av, i as int, st@) == args_scan(av, 0, args_start()),
        decreases n - i,
    {
        let a = cs[i].as_slice();
        assert(av[i as int] == a@);
        let is_p = eq_lit(a, "-p") || eq_lit(a, "--priority");
        let is_t = eq_lit(a, "-t") || eq_lit(a, "--tag");
        if is_p || is_t {
            if i + 1 < n {
                assert(av[i + 1] == cs@[i + 1]@);
                if is_p {
                    st.priority = parse_priority(args[i + 1].as_str());
                } else {
                    st.tag = Some(args[i + 1].clone());
                }
                i = i + 2;
            } else {
                i = n;
            }
        } else if eq_lit(a, "-s") || eq_lit(a, "--stderr") {
            st.stderr_too = true;
            i = i + 1;
        } else if eq_lit(a, "-h") || eq_lit(a, "--help") {
            return None;
        } else {
            let ghost before = views(st.parts@);
            st.parts.push(args[i].clone());
            assert(views(st.parts@) =~= before.push(a@));
            i = i + 1;
        }
    }
    Some(st)
}

/// The message: the words joined by spaces, or, where there are none, the
/// line read from standard input without surrounding whitespace.
pub fn message_text(parts: &Vec<String>, input: &str) -> (r: String)
    ensures
        r@ == if parts@.len() == 0 {
            trim(input@)
        } else {
            join(views(parts@), " "@)
        },
{
    if parts.len() == 0 {
        return string_of(trim_chars(chars_of(input).as_slice()).as_slice());
    }
    let cs = chars_of_all(parts.as_slice());
    assert(vviews(cs@) =~= views(parts@));
    string_of(join_exec(&cs, " ").as_slice())
}

/// The name the messages are logged under: the tag, or `logger`.
pub fn ident(tag: &Option<String>) -> (r: String)
    ensures
        r@ == match tag {
            Some(t) => t@,
            None => "logger"@,
        },
{
    match tag {
        Some(t) => t.clone(),
        None => to_string("logger"),
    }
}

} // verus!
