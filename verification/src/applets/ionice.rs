//! ionice: its options, the I/O priority it sets, and how it shows one.
use vstd::prelude::*;
use crate::applets::kill::i32_of;
use crate::num::{parse_i32_exec, signed_decimal, fmt_signed};
use crate::text::{chars_of, chars_of_all, eq_lit, push_all, push_str, string_of, views};

verus! {

/// The options read: the class, the priority data (4 by default), the
/// process, and where the command starts (the number of words where there
/// is no command).
pub struct IoniceArgs {
    pub class: Option<i32>,
    pub data: i32,
    pub pid: Option<i32>,
    pub next: usize,
}

/// Reading the options from `i` on: `-c CLASS`, `-n PRIO`, `-p PID` (a
/// value that is not a number, or is missing, counts as none; for `-n`,
/// 4); the first other word starts the command.
pub open spec fn args_scan(args: Seq<Seq<char>>, i: int, class: Option<i32>, data: i32, pid: Option<i32>) -> (Option<i32>, i32, Option<i32>, int)
    decreases args.len() + 2 - i,
{
    if i < 0 || i >= args.len() {
        (class, data, pid, args.len() as int)
    } else {
        let a = args[i];
        let v = if i + 1 < args.len() {
            i32_of(args[i + 1])
        } else {
            None
        };
        if a == "-c"@ {
            args_scan(args, i + 2, v, data, pid)
        } else if a == "-n"@ {
            args_scan(args, i + 2, class, match v {
                Some(x) => x,
                None => 4,
            }, pid)
        } else if a == "-p"@ {
            args_scan(args, i + 2, class, data, v)
        } else {
            (class, data, pid, i)
        }
    }
}

/// Reads the options of an invocation (see `args_scan`).
pub fn parse_args(args: &[String]) -> (r: IoniceArgs)
    ensures
        args_scan(views(args@), 0, None, 4, None) == (r.class, r.data, r.pid, r.next as int),
{
    let ghost av = views(args@);
    let cs = chars_of_all(args);
    let n = args.len();
    let mut class: Option<i32> = None;
    let mut data: i32 = 4;
    let mut pid: Option<i32> = None;
    let mut i: usize = 0;
    while i < n
        invariant
            n == args@.len(),
            cs@.len() == n,
            av == views(args@),
            forall|k: int| 0 <= k < n ==> #[trigger] cs@[k]@ == args@[k]@,
            i <= n,
            args_scan(av, i as int, class, data, pid) == args_scan(av, 0, None, 4, None),
        decreases n - i,
    {
        let a = cs[i].as_slice();
        assert(av[i as int] == a@);
        let is_c = eq_lit(a, "-c");
        let is_n = eq_lit(a, "-n");
        let is_p = eq_lit(a, "-p");
        if !is_c && !is_n && !is_p {
            return IoniceArgs { class, data, pid, next: i };
        }
        let v = if i + 1 < n {
            assert(av[i + 1] == cs@[i + 1]@);
            parse_i32_exec(cs[i + 1].as_slice())
        } else {
            None
        };
        if is_c {
            class = v;
        } else if is_n {
            data = match v {
                Some(x) => x,
                None => 4,
            };
        } else {
            pid = v;
        }
        if i + 1 < n {
            i = i + 2;
        } else {
            assert(args_scan(av, i + 2, class, data, pid) == (class, data, pid, n as int));
            return IoniceArgs { class, data, pid, next: n };
        }
    }
    IoniceArgs { class, data, pid, next: n }
}

/// The I/O priority set: the class (2 by default) shifted by 13, or'ed
/// with the data.
pub fn ioprio(class: Option<i32>, data: i32) -> (r: i32)
    ensures
        r == ((match class {
            Some(c) => c,
            None => 2i32,
        }) << 13u32) | data,
{
    let c = match class {
        Some(c) => c,
        None => 2,
    };
    (c << 13u32) | data
}

/// The class names by number.
pub open spec fn class_name(c: int) -> Seq<char> {
    if c == 0 {
        "none"@
    } else if c == 1 {
        "realtime"@
    } else if c == 2 {
        "best-effort"@
    } else if c == 3 {
        "idle"@
    } else {
        "unknown"@
    }
}

/// How a process's I/O priority `res` is shown: its class's name and
/// `prio` and the data.
pub fn query_text(res: i64) -> (r: String)
    requires
        res >= 0,
    ensures
        r@ == class_name(((res >> 13u64) & 7) as int) + ": prio "@ + signed_decimal((res & 0xff) as int),
{
    let cls = (res >> 13u64) & 7;
    let mut v = if cls == 0 {
        chars_of("none")
    } else if cls == 1 {
        chars_of("realtime")
    } else if cls == 2 {
        chars_of("best-effort")
    } else if cls == 3 {
        chars_of("idle")
    } else {
        chars_of("unknown")
    };
    push_str(&mut v, ": prio ");
    push_all(&mut v, fmt_signed(res & 0xff).as_slice());
    string_of(v.as_slice())
}

} // verus!
