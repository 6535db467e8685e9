//! fuser: its options, the signal names it knows, and the lines it prints
//! for a file and the processes using it.
use vstd::prelude::*;
use crate::applets::kill::i32_of;
use crate::num::{fmt_signed, parse_i32_exec, signed_decimal};
use crate::text::{ascii_upper_text, is_ascii_text,
    chars_of, chars_of_all, eq_lit, push_all, push_str, starts_with, starts_with_lit, string_of,
    to_upper, trim_prefix_all, trim_prefix_all_exec, upper_text, views,
};

verus! {

/// The signal the word `s` names, `upper` being its upper-case form: that
/// form without its leading `SIG`s is `KILL`/`9`, `TERM`/`15`, `HUP`/`1`,
/// `INT`/`2` or `QUIT`/`3`; else the word as a number; else none.
pub open spec fn signal_from(s: Seq<char>, upper: Seq<char>) -> Option<i32> {
    let n = trim_prefix_all(upper, "SIG"@);
    if n == "KILL"@ || n == "9"@ {
        Some(9)
    } else if n == "TERM"@ || n == "15"@ {
        Some(15)
    } else if n == "HUP"@ || n == "1"@ {
        Some(1)
    } else if n == "INT"@ || n == "2"@ {
        Some(2)
    } else if n == "QUIT"@ || n == "3"@ {
        Some(3)
    } else {
        i32_of(s)
    }
}

pub open spec fn signal_spec(s: Seq<char>) -> Option<i32> {
    signal_from(s, upper_text(s))
}

/// The signal named by `s`, whose upper-case form is `upper` (see
/// `signal_from`).
pub fn signal_of(s: &str, upper: &str) -> (r: Option<i32>)
    ensures
        r == signal_from(s@, upper@),
{
    let n = trim_prefix_all_exec(chars_of(upper).as_slice(), "SIG");
    let t = n.as_slice();
    if eq_lit(t, "KILL") || eq_lit(t, "9") {
        Some(9)
    } else if eq_lit(t, "TERM") || eq_lit(t, "15") {
        Some(15)
    } else if eq_lit(t, "HUP") || eq_lit(t, "1") {
        Some(1)
    } else if eq_lit(t, "INT") || eq_lit(t, "2") {
        Some(2)
    } else if eq_lit(t, "QUIT") || eq_lit(t, "3") {
        Some(3)
    } else {
        parse_i32_exec(chars_of(s).as_slice())
    }
}

/// The signal a word names (see `signal_spec`).
pub fn parse_signal(s: &str) -> (r: Option<i32>)
    ensures
        r == signal_spec(s@),
        is_ascii_text(s@) ==> r == signal_from(s@, ascii_upper_text(s@)),
{
    let u = to_upper(s);
    signal_of(s, u.as_str())
}

/// What the words of an invocation say.
pub enum FuserPlan {
    /// Print the usage and succeed.
    Help,
    /// No file: print the usage and fail.
    Usage,
    /// Look for the processes using each file; send them `signal` if one is
    /// set; `verbose`: one line per process.
    Run { signal: Option<i32>, verbose: bool, files: Vec<String> },
}

pub enum PlanView {
    Help,
    Usage,
    Run { signal: Option<i32>, verbose: bool, files: Seq<Seq<char>> },
}

impl View for FuserPlan {
    type V = PlanView;

    open spec fn view(&self) -> PlanView {
        match self {
            FuserPlan::Help => PlanView::Help,
            FuserPlan::Usage => PlanView::Usage,
            FuserPlan::Run { signal, verbose, files } => PlanView::Run {
                signal: *signal,
                verbose: *verbose,
                files: views(files@),
            },
        }
    }
}

/// Reading the words from `i` on: `-k` (signal 9), `-s SIGNAL`, `-v`;
/// words that do not start with `-` are files, others are ignored.
pub open spec fn scan(
    args: Seq<Seq<char>>,
    i: int,
    sig: Option<i32>,
    verbose: bool,
    files: Seq<Seq<char>>,
) -> PlanView
    decreases args.len() - i,
{
    if i < 0 || i >= args.len() {
        if files.len() == 0 {
            PlanView::Usage
        } else {
            PlanView::Run { signal: sig, verbose, files }
        }
    } else {
        let a = args[i];
        if a == "-k"@ || a == "--kill"@ {
            scan(args, i + 1, Some(9), verbose, files)
        } else if a == "-s"@ || a == "--signal"@ {
            if i + 1 < args.len() {
                scan(args, i + 2, signal_spec(args[i + 1]), verbose, files)
            } else {
                scan(args, args.len() as int, sig, verbose, files)
            }
        } else if a == "-v"@ || a == "--verbose"@ {
            scan(args, i + 1, sig, true, files)
        } else if a == "-h"@ || a == "--help"@ {
            PlanView::Help
        } else if !starts_with(a, "-"@) {
            scan(args, i + 1, sig, verbose, files.push(a))
        } else {
            scan(args, i + 1, sig, verbose, files)
        }
    }
}

/// What fuser does with the words of its invocation (see `scan`).
pub fn plan(args: &[String]) -> (r: FuserPlan)
    ensures
        r@ == scan(views(args@), 0, None, false, seq![]),
{
    let ghost av = views(args@);
    let cs = chars_of_all(args);
    let n = args.len();
    let mut sig: Option<i32> = None;
    let mut verbose = false;
    let mut files: Vec<String> = Vec::new();
    assert(views(files@) =~= Seq::<Seq<char>>::empty());
    let mut i: usize = 0;
    while i < n
        invariant
            n == args@.len(),
            cs@.len() == n,
            av == views(args@),
            forall|k: int| 0 <= k < n ==> #[trigger] cs@[k]@ == args@[k]@,
            i <= n,
            scan(av, i as int, sig, verbose, views(files@)) == scan(av, 0, None, false, seq![]),
        decreases n - i,
    {
        let a = cs[i].as_slice();
        assert(av[i as int] == a@);
        if eq_lit(a, "-k") || eq_lit(a, "--kill") {
            sig = Some(9);
            i = i + 1;
        } else if eq_lit(a, "-s") || eq_lit(a, "--signal") {
            if i + 1 < n {
                assert(av[i + 1] == cs@[i + 1]@);
                sig = parse_signal(args[i + 1].as_str());
                i = i + 2;
            } else {
                i = n;
            }
        } else if eq_lit(a, "-v") || eq_lit(a, "--verbose") {
            verbose = true;
            i = i + 1;
        } else if eq_lit(a, "-h") || eq_lit(a, "--help") {
            return FuserPlan::Help;
        } else if !starts_with_lit(a, "-") {
            let ghost before = views(files@);
            files.push(args[i].clone());
            assert(views(files@) =~= before.push(a@));
            i = i + 1;
        } else {
            i = i + 1;
        }
    }
    if files.len() == 0 {
        FuserPlan::Usage
    } else {
        FuserPlan::Run { signal: sig, verbose, files }
    }
}

/// The process numbers separated by spaces.
pub open spec fn pid_list(pids: Seq<i32>) -> Seq<char>
    decreases pids.len(),
{
    if pids.len() == 0 {
        seq![]
    } else if pids.len() == 1 {
        signed_decimal(pids[0] as int)
    } else {
        pid_list(pids.drop_last()) + " "@ + signed_decimal(pids.last() as int)
    }
}

/// The lines for a file in use: `FILE: PID PID ...`, or under `-v` the
/// file's name and a line `  PID NAME` per process.
pub open spec fn report_spec(file: Seq<char>, pids: Seq<i32>, names: Seq<Seq<char>>, verbose: bool) -> Seq<Seq<char>> {
    if verbose {
        seq![file + ":"@] + Seq::new(
            pids.len(),
            |k: int| "  "@ + signed_decimal(pids[k] as int) + " "@ + names[k],
        )
    } else {
        seq![file + ": "@ + pid_list(pids)]
    }
}

/// The lines for a file in use by `pids`, whose process names are `names`
/// under `-v` (see `report_spec`).
pub fn report(file: &str, pids: &[i32], names: &[String], verbose: bool) -> (r: Vec<String>)
    requires
        verbose ==> names@.len() == pids@.len(),
    ensures
        views(r@) == report_spec(file@, pids@, views(names@), verbose),
{
    let mut r: Vec<String> = Vec::new();
    let fc = chars_of(file);
    if verbose {
        let mut head = crate::text::copy_chars(fc.as_slice());
        push_str(&mut head, ":");
        r.push(string_of(head.as_slice()));
        let ghost nv = views(names@);
        let ghost f = |k: int| "  "@ + signed_decimal(pids@[k] as int) + " "@ + nv[k];
        let mut k: usize = 0;
        assert(views(r@) =~= seq![fc@ + ":"@] + Seq::new(0, f));
        while k < pids.len()
            invariant
                k <= pids@.len(),
                names@.len() == pids@.len(),
                nv == views(names@),
                f == (|k: int| "  "@ + signed_decimal(pids@[k] as int) + " "@ + nv[k]),
                views(r@) == seq![fc@ + ":"@] + Seq::new(k as nat, f),
            decreases pids@.len() - k,
        {
            let mut l = chars_of("  ");
            push_all(&mut l, fmt_signed(pids[k] as i64).as_slice());
            push_str(&mut l, " ");
            push_all(&mut l, chars_of(names[k].as_str()).as_slice());
            assert(l@ == f(k as int));
            let ghost before = views(r@);
            r.push(string_of(l.as_slice()));
            assert(views(r@) =~= before.push(l@));
            assert(Seq::new((k + 1) as nat, f) =~= Seq::new(k as nat, f).push(f(k as int)));
            k = k + 1;
        }
    } else {
        let mut l = crate::text::copy_chars(fc.as_slice());
        push_str(&mut l, ": ");
        let ghost head = l@;
        let mut k: usize = 0;
        while k < pids.len()
            invariant
                k <= pids@.len(),
                l@ == head + pid_list(pids@.take(k as int)),
            decreases pids@.len() - k,
        {
            let ghost before = l@;
            if k > 0 {
                push_str(&mut l, " ");
            }
            push_all(&mut l, fmt_signed(pids[k] as i64).as_slice());
            assert(pids@.take(k + 1).drop_last() =~= pids@.take(k as int));
            assert(l@ =~= head + pid_list(pids@.take(k + 1)));
            k = k + 1;
        }
        assert(pids@.take(pids@.len() as int) =~= pids@);
        r.push(string_of(l.as_slice()));
        assert(views(r@) =~= seq![l@]);
    }
    r
}

} // verus!
