//! hwclock: what an invocation asks of the hardware clock, and the lines
//! it prints.
use vstd::prelude::*;
use crate::num::{fmt_signed, fmt_zero_padded, signed_decimal, zero_padded};
use crate::text::{chars_of, chars_of_all, eq_lit, push_all, push_str, string_of, trim, trim_chars, views};

verus! {

/// What the options of an invocation set.
pub struct HwclockArgs {
    pub show: bool,
    pub systohc: bool,
    pub hctosys: bool,
    pub utc: bool,
}

/// Reading the words from `i` on; `None`: help was asked for. `-w` and
/// `-s` turn showing off, `-r` turns it on again; unknown words are
/// ignored.
pub open spec fn scan(args: Seq<Seq<char>>, i: int, st: HwclockArgs) -> Option<HwclockArgs>
    decreases args.len() - i,
{
    if i < 0 || i >= args.len() {
        Some(st)
    } else {
        let a = args[i];
        if a == "-r"@ || a == "--show"@ {
            scan(args, i + 1, HwclockArgs { show: true, ..st })
        } else if a == "-w"@ || a == "--systohc"@ {
            scan(args, i + 1, HwclockArgs { systohc: true, show: false, ..st })
        } else if a == "-s"@ || a == "--hctosys"@ {
            scan(args, i + 1, HwclockArgs { hctosys: true, show: false, ..st })
        } else if a == "-u"@ || a == "--utc"@ {
            scan(args, i + 1, HwclockArgs { utc: true, ..st })
        } else if a == "-l"@ || a == "--localtime"@ {
            scan(args, i + 1, HwclockArgs { utc: false, ..st })
        } else if a == "-h"@ || a == "--help"@ {
            None
        } else {
            scan(args, i + 1, st)
        }
    }
}

pub open spec fn scan_start() -> HwclockArgs {
    HwclockArgs { show: true, systohc: false, hctosys: false, utc: true }
}

/// Reads the options of an invocation; `None` where help was asked for.
pub fn parse_args(args: &[String]) -> (r: Option<HwclockArgs>)
    ensures
        r == scan(views(args@), 0, scan_start()),
{
    let ghost av = views(args@);
    let cs = chars_of_all(args);
    let n = args.len();
    let mut st = HwclockArgs { show: true, systohc: false, hctosys: false, utc: true };
    let mut i: usize = 0;
    while i < n
        invariant
            n == args@.len(),
            cs@.len() == n,
            av == views(args@),
            forall|k: int| 0 <= k < n ==> #[trigger] cs@[k]@ == args@[k]@,
            i <= n,
            scan(av, i as int, st) == scan(av, 0, scan_start()),
        decreases n - i,
    {
        let a = cs[i].as_slice();
        assert(av[i as int] == a@);
        if eq_lit(a, "-r") || eq_lit(a, "--show") {
            st.show = true;
        } else if eq_lit(a, "-w") || eq_lit(a, "--systohc") {
            st.systohc = true;
            st.show = false;
        } else if eq_lit(a, "-s") || eq_lit(a, "--hctosys") {
            st.hctosys = true;
            st.show = false;
        } else if eq_lit(a, "-u") || eq_lit(a, "--utc") {
            st.utc = true;
        } else if eq_lit(a, "-l") || eq_lit(a, "--localtime") {
            st.utc = false;
        } else if eq_lit(a, "-h") || eq_lit(a, "--help") {
            return None;
        }
        i = i + 1;
    }
    Some(st)
}

/// What hwclock does.
#[derive(PartialEq, Eq, Structural)]
pub enum HwclockAction {
    Show,
    SystemToHardware,
    HardwareToSystem,
}

/// Showing wins, then setting the clock from the system, then the system
/// from the clock.
pub fn action(a: &HwclockArgs) -> (r: HwclockAction)
    ensures
        r == if a.show {
            HwclockAction::Show
        } else if a.systohc {
            HwclockAction::SystemToHardware
        } else if a.hctosys {
            HwclockAction::HardwareToSystem
        } else {
            HwclockAction::Show
        },
{
    if a.show {
        HwclockAction::Show
    } else if a.systohc {
        HwclockAction::SystemToHardware
    } else if a.hctosys {
        HwclockAction::HardwareToSystem
    } else {
        HwclockAction::Show
    }
}

/// The clock as the system's clock class shows it: both files non-empty,
/// printed trimmed and apart; `None` where either is empty.
pub fn sysfs_line(date: &str, time: &str) -> (r: Option<String>)
    ensures
        (date@.len() == 0 || time@.len() == 0) ==> r is None,
        (date@.len() > 0 && time@.len() > 0) ==> (r matches Some(l) && l@ == trim(date@) + " "@ + trim(time@)),
{
    let d = chars_of(date);
    let t = chars_of(time);
    if d.len() == 0 || t.len() == 0 {
        return None;
    }
    let mut v = trim_chars(d.as_slice());
    push_str(&mut v, " ");
    push_all(&mut v, trim_chars(t.as_slice()).as_slice());
    Some(string_of(v.as_slice()))
}

/// The clock as its device reads it (`year` counted from 1900, `mon` from
/// 0): `YYYY-MM-DD hh:mm:ss`, each field zero-padded.
pub fn rtc_line(year: i32, mon: i32, mday: i32, hour: i32, min: i32, sec: i32) -> (r: String)
    requires
        year + 1900 <= i32::MAX,
        mon + 1 <= i32::MAX,
    ensures
        r@ == zero_padded(year + 1900, 4) + "-"@ + zero_padded(mon + 1, 2) + "-"@ + zero_padded(mday as int, 2)
            + " "@ + zero_padded(hour as int, 2) + ":"@ + zero_padded(min as int, 2) + ":"@ + zero_padded(sec as int, 2),
{
    let mut v = fmt_zero_padded(year as i64 + 1900, 4);
    push_str(&mut v, "-");
    push_all(&mut v, fmt_zero_padded(mon as i64 + 1, 2).as_slice());
    push_str(&mut v, "-");
    push_all(&mut v, fmt_zero_padded(mday as i64, 2).as_slice());
    push_str(&mut v, " ");
    push_all(&mut v, fmt_zero_padded(hour as i64, 2).as_slice());
    push_str(&mut v, ":");
    push_all(&mut v, fmt_zero_padded(min as i64, 2).as_slice());
    push_str(&mut v, ":");
    push_all(&mut v, fmt_zero_padded(sec as i64, 2).as_slice());
    string_of(v.as_slice())
}

/// The line printed when the clock is to be set from the system.
pub fn system_time_line(secs: i64) -> (r: String)
    ensures
        r@ == "System time: "@ + signed_decimal(secs as int) + " seconds since epoch"@,
{
    let mut v = chars_of("System time: ");
    push_all(&mut v, fmt_signed(secs).as_slice());
    push_str(&mut v, " seconds since epoch");
    string_of(v.as_slice())
}

} // verus!
