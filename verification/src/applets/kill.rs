//! kill: its options, the numbers of signal names, and the list of
//! signals it prints.
use vstd::prelude::*;
use crate::num::{digit_value, digits_value, decimal, fmt_dec, pad_left, pad_left_exec, pad_right, pad_right_exec, parse_i32_exec, parse_signed};
use crate::text::{ascii_lower, ascii_lower_text, ascii_upper, ascii_upper_text, is_ascii_text,
    chars_of, chars_of_all, eq_lit, push_all, push_str, slice_chars, starts_with, starts_with_lit,
    string_of, to_upper, upper_text, views,
};

verus! {

/// A number as `str::parse::<i32>` reads it.
pub open spec fn i32_of(s: Seq<char>) -> Option<i32> {
    match parse_signed(s, 10, i32::MIN as int, i32::MAX as int) {
        Some(v) => Some(v as i32),
        None => None,
    }
}

/// The name of signal `k + 1`, for `k` from 0 to 30.
pub open spec fn signal_name(k: int) -> Seq<char> {
    if k == 0 {
        "HUP"@
    } else if k == 1 {
        "INT"@
    } else if k == 2 {
        "QUIT"@
    } else if k == 3 {
        "ILL"@
    } else if k == 4 {
        "TRAP"@
    } else if k == 5 {
        "ABRT"@
    } else if k == 6 {
        "BUS"@
    } else if k == 7 {
        "FPE"@
    } else if k == 8 {
        "KILL"@
    } else if k == 9 {
        "USR1"@
    } else if k == 10 {
        "SEGV"@
    } else if k == 11 {
        "USR2"@
    } else if k == 12 {
        "PIPE"@
    } else if k == 13 {
        "ALRM"@
    } else if k == 14 {
        "TERM"@
    } else if k == 15 {
        "STKFLT"@
    } else if k == 16 {
        "CHLD"@
    } else if k == 17 {
        "CONT"@
    } else if k == 18 {
        "STOP"@
    } else if k == 19 {
        "TSTP"@
    } else if k == 20 {
        "TTIN"@
    } else if k == 21 {
        "TTOU"@
    } else if k == 22 {
        "URG"@
    } else if k == 23 {
        "XCPU"@
    } else if k == 24 {
        "XFSZ"@
    } else if k == 25 {
        "VTALRM"@
    } else if k == 26 {
        "PROF"@
    } else if k == 27 {
        "WINCH"@
    } else if k == 28 {
        "IO"@
    } else if k == 29 {
        "PWR"@
    } else {
        "SYS"@
    }
}

/// The signal names kill knows, in order of their numbers 1 to 31.
pub open spec fn signal_names() -> Seq<Seq<char>> {
    Seq::new(31, |k: int| signal_name(k))
}

/// The first place from `i` on where `name` stands in `names`.
pub open spec fn position_from(names: Seq<Seq<char>>, name: Seq<char>, i: int) -> Option<int>
    decreases names.len() - i,
{
    if i < 0 || i >= names.len() {
        None
    } else if names[i] == name {
        Some(i)
    } else {
        position_from(names, name, i + 1)
    }
}

/// The number of an upper-case signal name without `SIG` (`IOT` and
/// `POLL` being other names of 6 and 29), or 0.
pub open spec fn name_number(name: Seq<char>) -> i32 {
    if name == "IOT"@ {
        6
    } else if name == "POLL"@ {
        29
    } else {
        match position_from(signal_names(), name, 0) {
            Some(k) => (k + 1) as i32,
            None => 0,
        }
    }
}

/// `s` without one leading `SIG`.
pub open spec fn strip_sig(s: Seq<char>) -> Seq<char> {
    if starts_with(s, "SIG"@) {
        s.skip(3)
    } else {
        s
    }
}

/// The signal a word names: its number where it is one, else the number
/// of its upper-case form (without a leading `SIG`), else 0.
pub open spec fn signal_spec(s: Seq<char>) -> i32 {
    match i32_of(s) {
        Some(n) => n,
        None => name_number(strip_sig(upper_text(s))),
    }
}

/// The number of an upper-case signal name (see `name_number`), which may
/// start with `SIG`.
pub fn signal_by_name(upper: &str) -> (r: i32)
    ensures
        r == name_number(strip_sig(upper@)),
{
    let u = chars_of(upper);
    proof {
        reveal_strlit("SIG");
    }
    let name = if starts_with_lit(u.as_slice(), "SIG") {
        slice_chars(u.as_slice(), 3, u.len())
    } else {
        crate::text::copy_chars(u.as_slice())
    };
    assert(name@ == strip_sig(upper@));
    let n = name.as_slice();
    if eq_lit(n, "IOT") {
        return 6;
    }
    if eq_lit(n, "POLL") {
        return 29;
    }
    let names: [&str; 31] = [
        "HUP", "INT", "QUIT", "ILL", "TRAP", "ABRT", "BUS", "FPE", "KILL", "USR1", "SEGV",
        "USR2", "PIPE", "ALRM", "TERM", "STKFLT", "CHLD", "CONT", "STOP", "TSTP", "TTIN",
        "TTOU", "URG", "XCPU", "XFSZ", "VTALRM", "PROF", "WINCH", "IO", "PWR", "SYS",
    ];
    let ghost sn = signal_names();
    assert(names@.map_values(|x: &str| x@) =~= sn);
    let mut k: usize = 0;
    while k < 31
        invariant
            k <= 31,
            sn == signal_names(),
            n@ == strip_sig(upper@),
            n@ != "IOT"@ && n@ != "POLL"@,
            names@.map_values(|x: &str| x@) == sn,
            position_from(sn, n@, k as int) == position_from(sn, n@, 0),
        decreases 31 - k,
    {
        assert(names@.map_values(|x: &str| x@)[k as int] == names@[k as int]@);
        if eq_lit(n, names[k]) {
            return (k + 1) as i32;
        }
        k = k + 1;
    }
    0
}

/// The signal a word names (see `signal_spec`).
pub fn parse_signal(s: &str) -> (r: i32)
    ensures
        r == signal_spec(s@),
        is_ascii_text(s@) ==> r == ascii_signal(s@),
{
    match parse_i32_exec(chars_of(s).as_slice()) {
        Some(n) => n,
        None => signal_by_name(to_upper(s).as_str()),
    }
}

/// What the words of an invocation say: list the signals, or send `signal`
/// to the processes `pids`; an argument that is neither.
pub enum KillPlan {
    List,
    Send { signal: i32, pids: Vec<i32> },
    Usage,
    Invalid(String),
}

pub enum PlanView {
    List,
    Send { signal: i32, pids: Seq<i32> },
    Usage,
    Invalid(Seq<char>),
}

impl View for KillPlan {
    type V = PlanView;

    open spec fn view(&self) -> PlanView {
        match self {
            KillPlan::List => PlanView::List,
            KillPlan::Send { signal, pids } => PlanView::Send { signal: *signal, pids: pids@ },
            KillPlan::Usage => PlanView::Usage,
            KillPlan::Invalid(a) => PlanView::Invalid(a@),
        }
    }
}

/// The reading of the words so far: the signal, the processes, `-l`.
pub struct KillState {
    pub signal: i32,
    pub pids: Seq<i32>,
    pub list: bool,
}

/// Reading the words from `i` on: `-l`, `-s SIGNAL`, `-SIGNAL` (where it
/// names no signal, a number `N` means process group `-N`), or a process
/// number; `Err(word)` at the first word that is none of these.
pub open spec fn kill_scan(args: Seq<Seq<char>>, i: int, st: KillState) -> Result<KillState, Seq<char>>
    decreases args.len() - i,
{
    if i < 0 || i >= args.len() {
        Ok(st)
    } else {
        let a = args[i];
        if a == "-l"@ || a == "--list"@ {
            kill_scan(args, i + 1, KillState { list: true, ..st })
        } else if a == "-s"@ {
            if i + 1 < args.len() {
                kill_scan(args, i + 2, KillState { signal: signal_spec(args[i + 1]), ..st })
            } else {
                Ok(st)
            }
        } else if starts_with(a, "-"@) && a.len() > 1 {
            let sig = a.skip(1);
            if signal_spec(sig) != 0 {
                kill_scan(args, i + 1, KillState { signal: signal_spec(sig), ..st })
            } else {
                match i32_of(sig) {
                    Some(p) => kill_scan(args, i + 1, KillState { pids: st.pids.push((-p) as i32), ..st }),
                    None => kill_scan(args, i + 1, st),
                }
            }
        } else {
            match i32_of(a) {
                Some(p) => kill_scan(args, i + 1, KillState { pids: st.pids.push(p), ..st }),
                None => Err(a),
            }
        }
    }
}

pub open spec fn plan_spec(args: Seq<Seq<char>>) -> PlanView {
    match kill_scan(args, 0, KillState { signal: 15, pids: seq![], list: false }) {
        Err(a) => PlanView::Invalid(a),
        Ok(st) => if st.list {
            PlanView::List
        } else if st.pids.len() == 0 {
            PlanView::Usage
        } else {
            PlanView::Send { signal: st.signal, pids: st.pids }
        },
    }
}

/// What kill does with the words of its invocation (see `plan_spec`).
pub fn plan(args: &[String]) -> (r: KillPlan)
    ensures
        r@ == plan_spec(views(args@)),
{
    let ghost av = views(args@);
    let cs = chars_of_all(args);
    let n = args.len();
    let mut signal: i32 = 15;
    let mut pids: Vec<i32> = Vec::new();
    let mut list = false;
    let mut i: usize = 0;
    while i < n
        invariant
            n == args@.len(),
            cs@.len() == n,
            av == views(args@),
            forall|k: int| 0 <= k < n ==> #[trigger] cs@[k]@ == args@[k]@,
            i <= n,
            kill_scan(av, i as int, KillState { signal, pids: pids@, list }) == kill_scan(
                av,
                0,
                KillState { signal: 15, pids: seq![], list: false },
            ),
        decreases n - i,
    {
        let a = cs[i].as_slice();
        assert(av[i as int] == a@);
        if eq_lit(a, "-l") || eq_lit(a, "--list") {
            list = true;
            i = i + 1;
        } else if eq_lit(a, "-s") {
            if i + 1 < n {
                assert(av[i + 1] == cs@[i + 1]@);
                signal = parse_signal(args[i + 1].as_str());
                i = i + 2;
            } else {
                i = n;
            }
        } else if starts_with_lit(a, "-") && a.len() > 1 {
            let sig = slice_chars(a, 1, a.len());
            assert(sig@ =~= a@.skip(1));
            let sig_text = string_of(sig.as_slice());
            let parsed = parse_signal(sig_text.as_str());
            if parsed != 0 {
                signal = parsed;
            } else {
                match parse_i32_exec(sig.as_slice()) {
                    Some(p) => {
                        assert(p == 0);
                        pids.push(-p);
                    },
                    None => {},
                }
            }
            i = i + 1;
        } else {
            match parse_i32_exec(a) {
                Some(p) => {
                    pids.push(p);
                    i = i + 1;
                },
                None => {
                    return KillPlan::Invalid(args[i].clone());
                },
            }
        }
    }
    if list {
        KillPlan::List
    } else if pids.len() == 0 {
        KillPlan::Usage
    } else {
        KillPlan::Send { signal, pids }
    }
}

/// One entry of the signal list: the number right-aligned in two places,
/// `) SIG`, and the name padded to eight characters.
pub open spec fn list_entry(num: nat, name: Seq<char>) -> Seq<char> {
    pad_left(decimal(num), 2, ' ') + ") SIG"@ + pad_right(name, 8)
}

/// The list of signals from entry `k` on: four to a line.
pub open spec fn list_text(names: Seq<Seq<char>>, k: int) -> Seq<char>
    decreases names.len() - k,
{
    if k < 0 || k >= names.len() {
        "\n"@
    } else {
        list_entry((k + 1) as nat, names[k]) + (if (k + 1) % 4 == 0 {
            "\n"@
        } else {
            seq![]
        }) + list_text(names, k + 1)
    }
}

/// The text `kill -l` prints.
pub fn signal_list() -> (r: String)
    ensures
        r@ == list_text(signal_names(), 0),
{
    let names: [&str; 31] = [
        "HUP", "INT", "QUIT", "ILL", "TRAP", "ABRT", "BUS", "FPE", "KILL", "USR1", "SEGV",
        "USR2", "PIPE", "ALRM", "TERM", "STKFLT", "CHLD", "CONT", "STOP", "TSTP", "TTIN",
        "TTOU", "URG", "XCPU", "XFSZ", "VTALRM", "PROF", "WINCH", "IO", "PWR", "SYS",
    ];
    let ghost sn = signal_names();
    assert(names@.map_values(|x: &str| x@) =~= sn);
    let mut out: Vec<char> = Vec::new();
    let mut k: usize = 0;
    while k < 31
        invariant
            k <= 31,
            sn == signal_names(),
            names@.map_values(|x: &str| x@) == sn,
            out@ + list_text(sn, k as int) == list_text(sn, 0),
        decreases 31 - k,
    {
        assert(names@.map_values(|x: &str| x@)[k as int] == names@[k as int]@);
        let ghost before = out@;
        let d = fmt_dec((k + 1) as u64);
        push_all(&mut out, pad_left_exec(d.as_slice(), 2, ' ').as_slice());
        push_str(&mut out, ") SIG");
        push_all(&mut out, pad_right_exec(chars_of(names[k]).as_slice(), 8).as_slice());
        if (k + 1) % 4 == 0 {
            push_str(&mut out, "\n");
        }
        assert(out@ + list_text(sn, k + 1) =~= before + list_text(sn, k as int));
        k = k + 1;
    }
    push_str(&mut out, "\n");
    string_of(out.as_slice())
}



/// The place of a listed signal name, told apart by its first two and its
/// last characters.
spec fn signal_index(s: Seq<char>) -> int {
    let a = s[0];
    let b = s[1];
    let z = s[s.len() - 1];
    if a == 'H' && b == 'U' && z == 'P' {
        0
    } else if a == 'I' && b == 'N' && z == 'T' {
        1
    } else if a == 'Q' && b == 'U' && z == 'T' {
        2
    } else if a == 'I' && b == 'L' && z == 'L' {
        3
    } else if a == 'T' && b == 'R' && z == 'P' {
        4
    } else if a == 'A' && b == 'B' && z == 'T' {
        5
    } else if a == 'B' && b == 'U' && z == 'S' {
        6
    } else if a == 'F' && b == 'P' && z == 'E' {
        7
    } else if a == 'K' && b == 'I' && z == 'L' {
        8
    } else if a == 'U' && b == 'S' && z == '1' {
        9
    } else if a == 'S' && b == 'E' && z == 'V' {
        10
    } else if a == 'U' && b == 'S' && z == '2' {
        11
    } else if a == 'P' && b == 'I' && z == 'E' {
        12
    } else if a == 'A' && b == 'L' && z == 'M' {
        13
    } else if a == 'T' && b == 'E' && z == 'M' {
        14
    } else if a == 'S' && b == 'T' && z == 'T' {
        15
    } else if a == 'C' && b == 'H' && z == 'D' {
        16
    } else if a == 'C' && b == 'O' && z == 'T' {
        17
    } else if a == 'S' && b == 'T' && z == 'P' {
        18
    } else if a == 'T' && b == 'S' && z == 'P' {
        19
    } else if a == 'T' && b == 'T' && z == 'N' {
        20
    } else if a == 'T' && b == 'T' && z == 'U' {
        21
    } else if a == 'U' && b == 'R' && z == 'G' {
        22
    } else if a == 'X' && b == 'C' && z == 'U' {
        23
    } else if a == 'X' && b == 'F' && z == 'Z' {
        24
    } else if a == 'V' && b == 'T' && z == 'M' {
        25
    } else if a == 'P' && b == 'R' && z == 'F' {
        26
    } else if a == 'W' && b == 'I' && z == 'H' {
        27
    } else if a == 'I' && b == 'O' && z == 'O' {
        28
    } else if a == 'P' && b == 'W' && z == 'R' {
        29
    } else if a == 'S' && b == 'Y' && z == 'S' {
        30
    } else {
        -1
    }
}

#[verifier::rlimit(20)]
proof fn lemma_signal_index(k: int)
    requires
        0 <= k < 31,
    ensures
        signal_index(signal_name(k)) == k,
{
    reveal_strlit("HUP");
    reveal_strlit("INT");
    reveal_strlit("QUIT");
    reveal_strlit("ILL");
    reveal_strlit("TRAP");
    reveal_strlit("ABRT");
    reveal_strlit("BUS");
    reveal_strlit("FPE");
    reveal_strlit("KILL");
    reveal_strlit("USR1");
    reveal_strlit("SEGV");
    reveal_strlit("USR2");
    reveal_strlit("PIPE");
    reveal_strlit("ALRM");
    reveal_strlit("TERM");
    reveal_strlit("STKFLT");
    reveal_strlit("CHLD");
    reveal_strlit("CONT");
    reveal_strlit("STOP");
    reveal_strlit("TSTP");
    reveal_strlit("TTIN");
    reveal_strlit("TTOU");
    reveal_strlit("URG");
    reveal_strlit("XCPU");
    reveal_strlit("XFSZ");
    reveal_strlit("VTALRM");
    reveal_strlit("PROF");
    reveal_strlit("WINCH");
    reveal_strlit("IO");
    reveal_strlit("PWR");
    reveal_strlit("SYS");
    if k == 0 {
        assert(signal_name(k) == "HUP"@);
    } else if k == 1 {
        assert(signal_name(k) == "INT"@);
    } else if k == 2 {
        assert(signal_name(k) == "QUIT"@);
    } else if k == 3 {
        assert(signal_name(k) == "ILL"@);
    } else if k == 4 {
        assert(signal_name(k) == "TRAP"@);
    } else if k == 5 {
        assert(signal_name(k) == "ABRT"@);
    } else if k == 6 {
        assert(signal_name(k) == "BUS"@);
    } else if k == 7 {
        assert(signal_name(k) == "FPE"@);
    } else if k == 8 {
        assert(signal_name(k) == "KILL"@);
    } else if k == 9 {
        assert(signal_name(k) == "USR1"@);
    } else if k == 10 {
        assert(signal_name(k) == "SEGV"@);
    } else if k == 11 {
        assert(signal_name(k) == "USR2"@);
    } else if k == 12 {
        assert(signal_name(k) == "PIPE"@);
    } else if k == 13 {
        assert(signal_name(k) == "ALRM"@);
    } else if k == 14 {
        assert(signal_name(k) == "TERM"@);
    } else if k == 15 {
        assert(signal_name(k) == "STKFLT"@);
    } else if k == 16 {
        assert(signal_name(k) == "CHLD"@);
    } else if k == 17 {
        assert(signal_name(k) == "CONT"@);
    } else if k == 18 {
        assert(signal_name(k) == "STOP"@);
    } else if k == 19 {
        assert(signal_name(k) == "TSTP"@);
    } else if k == 20 {
        assert(signal_name(k) == "TTIN"@);
    } else if k == 21 {
        assert(signal_name(k) == "TTOU"@);
    } else if k == 22 {
        assert(signal_name(k) == "URG"@);
    } else if k == 23 {
        assert(signal_name(k) == "XCPU"@);
    } else if k == 24 {
        assert(signal_name(k) == "XFSZ"@);
    } else if k == 25 {
        assert(signal_name(k) == "VTALRM"@);
    } else if k == 26 {
        assert(signal_name(k) == "PROF"@);
    } else if k == 27 {
        assert(signal_name(k) == "WINCH"@);
    } else if k == 28 {
        assert(signal_name(k) == "IO"@);
    } else if k == 29 {
        assert(signal_name(k) == "PWR"@);
    } else if k == 30 {
        assert(signal_name(k) == "SYS"@);
    }
}


proof fn lemma_position_of_listed(k: int, i: int)
    requires
        0 <= i <= k < 31,
    ensures
        position_from(signal_names(), signal_name(k), i) == Some(k),
    decreases k - i,
{
    let sn = signal_names();
    if i < k {
        lemma_signal_index(i);
        lemma_signal_index(k);
        assert(sn[i] != signal_name(k));
        lemma_position_of_listed(k, i + 1);
    }
}

/// Every name that `kill -l` lists names, with or without `SIG`, the
/// number it is listed under.
pub proof fn lemma_listed_names_read_back(k: int)
    requires
        0 <= k < signal_names().len(),
    ensures
        name_number(signal_names()[k]) == k + 1,
        name_number(strip_sig("SIG"@ + signal_names()[k])) == k + 1,
{
    let n = signal_names()[k];
    lemma_position_of_listed(k, 0);
    lemma_signal_index(k);
    reveal_strlit("IOT");
    reveal_strlit("POLL");
    reveal_strlit("SIG");
    assert(signal_index("IOT"@) == -1);
    assert(signal_index("POLL"@) == -1);
    assert(("SIG"@ + n).take(3) =~= "SIG"@);
    assert(("SIG"@ + n).skip(3) =~= n);
}


/// The signal an ASCII word names (what `parse_signal` returns for it).
pub open spec fn ascii_signal(s: Seq<char>) -> i32 {
    match i32_of(s) {
        Some(n) => n,
        None => name_number(strip_sig(ascii_upper_text(s))),
    }
}

proof fn lemma_digits_stop(t: Seq<char>, k: int)
    requires
        0 <= k < t.len(),
        digit_value(t[k], 10) is None,
    ensures
        digits_value(t, 10) is None,
    decreases t.len(),
{
    if k < t.len() - 1 {
        lemma_digits_stop(t.drop_last(), k);
    }
}

/// A word with a character that is no digit and no sign is no number.
proof fn lemma_no_number(t: Seq<char>, k: int)
    requires
        0 <= k < t.len(),
        digit_value(t[k], 10) is None,
        t[k] != '-' && t[k] != '+',
    ensures
        i32_of(t) is None,
{
    if t[0] == '-' || t[0] == '+' {
        lemma_digits_stop(t.drop_first(), k - 1);
    } else {
        lemma_digits_stop(t, k);
    }
}

proof fn lemma_position_bound(names: Seq<Seq<char>>, name: Seq<char>, i: int)
    ensures
        position_from(names, name, i) matches Some(k) ==> 0 <= i <= k < names.len(),
    decreases names.len() - i,
{
    if 0 <= i < names.len() && names[i] != name {
        lemma_position_bound(names, name, i + 1);
    }
}

/// How `kill` reads a signal name does not depend on a leading `SIG` or on
/// the case of its letters, and gives a number from 0 (no such name) to
/// 31: for an ASCII word that is no number and does not already start with
/// `SIG`.
pub proof fn lemma_signal_name_forms(s: Seq<char>)
    requires
        is_ascii_text(s),
        i32_of(s) is None,
        !starts_with(ascii_upper_text(s), "SIG"@),
    ensures
        ascii_signal("SIG"@ + s) == ascii_signal(s),
        ascii_signal(ascii_lower_text(s)) == ascii_signal(s),
        0 <= ascii_signal(s) <= 31,
{
    reveal_strlit("SIG");
    let u = ascii_upper_text(s);
    let t = "SIG"@ + s;
    // A leading `SIG`.
    assert(t[0] == 'S');
    lemma_no_number(t, 0);
    assert(ascii_upper_text(t) =~= "SIG"@ + u);
    assert(starts_with(ascii_upper_text(t), "SIG"@)) by {
        assert(ascii_upper_text(t).take(3) =~= "SIG"@);
    }
    assert(ascii_upper_text(t).skip(3) =~= u);
    // The case of the letters.
    let l = ascii_lower_text(s);
    assert forall|i: int| 0 <= i < s.len() implies ascii_upper(#[trigger] l[i]) == ascii_upper(s[i]) by {
        let c = s[i];
        assert(l[i] == ascii_lower(c));
        if 'A' <= c && c <= 'Z' {
            assert(('a' as u32) <= (c as u32) + 32 <= ('z' as u32));
        }
    }
    assert(ascii_upper_text(l) =~= u);
    if exists|k: int| 0 <= k < s.len() && (('a' <= #[trigger] s[k] && s[k] <= 'z') || ('A' <= s[k] && s[k] <= 'Z')) {
        let k = choose|k: int| 0 <= k < s.len() && (('a' <= #[trigger] s[k] && s[k] <= 'z') || ('A' <= s[k] && s[k] <= 'Z'));
        assert(l[k] == ascii_lower(s[k]));
        lemma_no_number(l, k);
    } else {
        assert forall|i: int| 0 <= i < s.len() implies #[trigger] l[i] == s[i] by {
            assert(l[i] == ascii_lower(s[i]));
        }
        assert(l =~= s);
    }
    // The range.
    lemma_position_bound(signal_names(), strip_sig(u), 0);
}

} // verus!
