//! killall: its options, the signal names it knows, which processes carry
//! a name, and the list of signals it prints.
use vstd::prelude::*;
use crate::applets::kill::{i32_of, strip_sig};
use crate::num::{decimal, fmt_dec, pad_left, pad_left_exec, pad_right, pad_right_exec, parse_i32_exec};
use crate::text::{ascii_upper_text, is_ascii_text,
    chars_of, chars_of_all, copy_chars, eq_chars, eq_lit, push_all, push_str, slice_chars,
    starts_with, starts_with_lit, string_of, to_upper, trim, trim_chars, upper_text, views,
};

verus! {

/// The number of an upper-case signal name without `SIG`, among the few
/// killall knows, or 0.
pub open spec fn short_name_number(name: Seq<char>) -> i32 {
    if name == "HUP"@ {
        1
    } else if name == "INT"@ {
        2
    } else if name == "QUIT"@ {
        3
    } else if name == "KILL"@ {
        9
    } else if name == "TERM"@ {
        15
    } else if name == "STOP"@ {
        19
    } else if name == "CONT"@ {
        18
    } else if name == "USR1"@ {
        10
    } else if name == "USR2"@ {
        12
    } else {
        0
    }
}

/// The signal a word names: its number where it is one, else the number
/// of its upper-case form (without a leading `SIG`), else 0.
pub open spec fn signal_spec(s: Seq<char>) -> i32 {
    match i32_of(s) {
        Some(n) => n,
        None => short_name_number(strip_sig(upper_text(s))),
    }
}

/// The number of an upper-case signal name (see `short_name_number`),
/// which may start with `SIG`.
pub fn signal_by_name(upper: &str) -> (r: i32)
    ensures
        r == short_name_number(strip_sig(upper@)),
{
    let u = chars_of(upper);
    proof {
        reveal_strlit("SIG");
    }
    let name = if starts_with_lit(u.as_slice(), "SIG") {
        slice_chars(u.as_slice(), 3, u.len())
    } else {
        copy_chars(u.as_slice())
    };
    assert(name@ == strip_sig(upper@));
    let n = name.as_slice();
    if eq_lit(n, "HUP") {
        1
    } else if eq_lit(n, "INT") {
        2
    } else if eq_lit(n, "QUIT") {
        3
    } else if eq_lit(n, "KILL") {
        9
    } else if eq_lit(n, "TERM") {
        15
    } else if eq_lit(n, "STOP") {
        19
    } else if eq_lit(n, "CONT") {
        18
    } else if eq_lit(n, "USR1") {
        10
    } else if eq_lit(n, "USR2") {
        12
    } else {
        0
    }
}

/// The signal a word names (see `signal_spec`).
pub fn parse_signal(s: &str) -> (r: i32)
    ensures
        r == signal_spec(s@),
        is_ascii_text(s@) ==> r == match i32_of(s@) {
            Some(n) => n,
            None => short_name_number(strip_sig(ascii_upper_text(s@))),
        },
{
    match parse_i32_exec(chars_of(s).as_slice()) {
        Some(n) => n,
        None => signal_by_name(to_upper(s).as_str()),
    }
}

/// What the words of an invocation say.
pub enum KillallPlan {
    /// Print the signal list and succeed.
    List,
    /// Print the usage and succeed.
    Help,
    /// No name: print the usage and fail.
    Usage,
    /// `killall: unknown option: WORD`, fail.
    Unknown(String),
    /// Send `signal` to the processes with each name.
    Send { signal: i32, quiet: bool, names: Vec<String> },
}

pub enum PlanView {
    List,
    Help,
    Usage,
    Unknown(Seq<char>),
    Send { signal: i32, quiet: bool, names: Seq<Seq<char>> },
}

impl View for KillallPlan {
    type V = PlanView;

    open spec fn view(&self) -> PlanView {
        match self {
            KillallPlan::List => PlanView::List,
            KillallPlan::Help => PlanView::Help,
            KillallPlan::Usage => PlanView::Usage,
            KillallPlan::Unknown(w) => PlanView::Unknown(w@),
            KillallPlan::Send { signal, quiet, names } => PlanView::Send {
                signal: *signal,
                quiet: *quiet,
                names: views(names@),
            },
        }
    }
}

/// Reading the words from `i` on with signal `sig`, `-q` given or not and
/// the names so far; `-l`, help and an unknown option end the reading.
pub open spec fn scan(
    args: Seq<Seq<char>>,
    i: int,
    sig: i32,
    quiet: bool,
    names: Seq<Seq<char>>,
) -> PlanView
    decreases args.len() - i,
{
    if i < 0 || i >= args.len() {
        if names.len() == 0 {
            PlanView::Usage
        } else {
            PlanView::Send { signal: sig, quiet, names }
        }
    } else {
        let a = args[i];
        if a == "-q"@ || a == "--quiet"@ {
            scan(args, i + 1, sig, true, names)
        } else if a == "-s"@ || a == "--signal"@ {
            if i + 1 < args.len() {
                scan(args, i + 2, signal_spec(args[i + 1]), quiet, names)
            } else {
                scan(args, args.len() as int, sig, quiet, names)
            }
        } else if a == "-l"@ || a == "--list"@ {
            PlanView::List
        } else if a == "-h"@ || a == "--help"@ {
            PlanView::Help
        } else if starts_with(a, "-"@) && a.len() > 1 {
            if signal_spec(a.skip(1)) != 0 {
                scan(args, i + 1, signal_spec(a.skip(1)), quiet, names)
            } else {
                PlanView::Unknown(a)
            }
        } else {
            scan(args, i + 1, sig, quiet, names.push(a))
        }
    }
}

/// What killall does with the words of its invocation (see `scan`).
pub fn plan(args: &[String]) -> (r: KillallPlan)
    ensures
        r@ == scan(views(args@), 0, 15, false, seq![]),
{
    let ghost av = views(args@);
    let cs = chars_of_all(args);
    let n = args.len();
    let mut sig: i32 = 15;
    let mut quiet = false;
    let mut names: Vec<String> = Vec::new();
    assert(views(names@) =~= Seq::<Seq<char>>::empty());
    let mut i: usize = 0;
    while i < n
        invariant
            n == args@.len(),
            cs@.len() == n,
            av == views(args@),
            forall|k: int| 0 <= k < n ==> #[trigger] cs@[k]@ == args@[k]@,
            i <= n,
            scan(av, i as int, sig, quiet, views(names@)) == scan(av, 0, 15, false, seq![]),
        decreases n - i,
    {
        let a = cs[i].as_slice();
        assert(av[i as int] == a@);
        if eq_lit(a, "-q") || eq_lit(a, "--quiet") {
            quiet = true;
            i = i + 1;
        } else if eq_lit(a, "-s") || eq_lit(a, "--signal") {
            if i + 1 < n {
                assert(av[i + 1] == cs@[i + 1]@);
                sig = parse_signal(args[i + 1].as_str());
                i = i + 2;
            } else {
                i = n;
            }
        } else if eq_lit(a, "-l") || eq_lit(a, "--list") {
            return KillallPlan::List;
        } else if eq_lit(a, "-h") || eq_lit(a, "--help") {
            return KillallPlan::Help;
        } else if starts_with_lit(a, "-") && a.len() > 1 {
            let rest = slice_chars(a, 1, a.len());
            assert(rest@ =~= a@.skip(1));
            let p = parse_signal(string_of(rest.as_slice()).as_str());
            if p != 0 {
                sig = p;
                i = i + 1;
            } else {
                return KillallPlan::Unknown(args[i].clone());
            }
        } else {
            let ghost before = views(names@);
            names.push(args[i].clone());
            assert(views(names@) =~= before.push(a@));
            i = i + 1;
        }
    }
    if names.len() == 0 {
        KillallPlan::Usage
    } else {
        KillallPlan::Send { signal: sig, quiet, names }
    }
}

/// The process number a `/proc` entry name stands for: all ASCII digits
/// and an `i32`.
pub open spec fn pid_of_dir_spec(name: Seq<char>) -> Option<i32> {
    if forall|k: int| 0 <= k < name.len() ==> '0' <= #[trigger] name[k] && name[k] <= '9' {
        i32_of(name)
    } else {
        None
    }
}

/// The process number of a `/proc` entry (see `pid_of_dir_spec`).
pub fn pid_of_dir(name: &str) -> (r: Option<i32>)
    ensures
        r == pid_of_dir_spec(name@),
{
    let c = chars_of(name);
    let mut k: usize = 0;
    while k < c.len()
        invariant
            k <= c@.len(),
            c@ == name@,
            forall|j: int| 0 <= j < k ==> '0' <= #[trigger] c@[j] && c@[j] <= '9',
        decreases c@.len() - k,
    {
        if !('0' <= c[k] && c[k] <= '9') {
            return None;
        }
        k = k + 1;
    }
    parse_i32_exec(c.as_slice())
}

/// A process carries the name when its `comm` text, trimmed, is the name.
pub fn comm_matches(comm: &str, name: &str) -> (r: bool)
    ensures
        r == (trim(comm@) == name@),
{
    let t = trim_chars(chars_of(comm).as_slice());
    eq_chars(t.as_slice(), chars_of(name).as_slice())
}

/// The signal names killall lists, in order of their numbers 1 to 15.
pub open spec fn listed_names() -> Seq<Seq<char>> {
    seq![
        "HUP"@, "INT"@, "QUIT"@, "ILL"@, "TRAP"@, "ABRT"@, "BUS"@, "FPE"@, "KILL"@, "USR1"@,
        "SEGV"@, "USR2"@, "PIPE"@, "ALRM"@, "TERM"@,
    ]
}

/// The list of signals from entry `k` on: five to a line.
pub open spec fn list_text(names: Seq<Seq<char>>, k: int) -> Seq<char>
    decreases names.len() - k,
{
    if k < 0 || k >= names.len() {
        "\n"@
    } else {
        pad_left(decimal((k + 1) as nat), 2, ' ') + ") SIG"@ + pad_right(names[k], 8) + (if (k
            + 1) % 5 == 0 {
            "\n"@
        } else {
            seq![]
        }) + list_text(names, k + 1)
    }
}

/// The text `killall -l` prints.
pub fn signal_list() -> (r: String)
    ensures
        r@ == list_text(listed_names(), 0),
{
    let names: [&str; 15] = [
        "HUP", "INT", "QUIT", "ILL", "TRAP", "ABRT", "BUS", "FPE", "KILL", "USR1", "SEGV",
        "USR2", "PIPE", "ALRM", "TERM",
    ];
    let ghost sn = listed_names();
    assert(names@.map_values(|x: &str| x@) =~= sn);
    let mut out: Vec<char> = Vec::new();
    let mut k: usize = 0;
    while k < 15
        invariant
            k <= 15,
            sn == listed_names(),
            names@.map_values(|x: &str| x@) == sn,
            out@ + list_text(sn, k as int) == list_text(sn, 0),
        decreases 15 - k,
    {
        assert(names@.map_values(|x: &str| x@)[k as int] == names@[k as int]@);
        let ghost before = out@;
        let d = fmt_dec((k + 1) as u64);
        push_all(&mut out, pad_left_exec(d.as_slice(), 2, ' ').as_slice());
        push_str(&mut out, ") SIG");
        push_all(&mut out, pad_right_exec(chars_of(names[k]).as_slice(), 8).as_slice());
        if (k + 1) % 5 == 0 {
            push_str(&mut out, "\n");
        }
        assert(out@ + list_text(sn, k + 1) =~= before + list_text(sn, k as int));
        k = k + 1;
    }
    push_str(&mut out, "\n");
    string_of(out.as_slice())
}

} // verus!
