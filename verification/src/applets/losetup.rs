//! losetup: what an invocation asks of the loop devices, the name of a
//! free device, and the status line of an attached one.
use vstd::prelude::*;
use crate::applets::install::opt_view;
use crate::num::{decimal, fmt_dec, parse_dec, parse_dec_exec};
use crate::text::{
    chars_of, chars_of_all, eq_lit, push_all, push_str, starts_with, starts_with_lit, string_of,
    trim, trim_chars, views,
};

verus! {

/// What the words of an invocation set.
pub struct ScanState {
    pub detach: bool,
    pub detach_all: bool,
    pub find_free: bool,
    pub read_only: bool,
    pub offset: u64,
    pub device: Option<Seq<char>>,
    pub file: Option<Seq<char>>,
}

pub open spec fn scan_start() -> ScanState {
    ScanState {
        detach: false,
        detach_all: false,
        find_free: false,
        read_only: false,
        offset: 0,
        device: None,
        file: None,
    }
}

/// The value given to `-o`: a decimal number, else 0.
pub open spec fn offset_spec(s: Seq<char>) -> u64 {
    match parse_dec(s, u64::MAX as nat) {
        Some(v) => v as u64,
        None => 0,
    }
}

/// Reading the words from `i` on; `None`: help was asked for. The first
/// path is the device, any later one the file.
pub open spec fn scan(args: Seq<Seq<char>>, i: int, st: ScanState) -> Option<ScanState>
    decreases args.len() - i,
{
    if i < 0 || i >= args.len() {
        Some(st)
    } else {
        let a = args[i];
        if a == "-d"@ || a == "--detach"@ {
            scan(args, i + 1, ScanState { detach: true, ..st })
        } else if a == "-D"@ || a == "--detach-all"@ {
            scan(args, i + 1, ScanState { detach_all: true, ..st })
        } else if a == "-f"@ || a == "--find"@ {
            scan(args, i + 1, ScanState { find_free: true, ..st })
        } else if a == "-r"@ || a == "--read-only"@ {
            scan(args, i + 1, ScanState { read_only: true, ..st })
        } else if a == "-o"@ || a == "--offset"@ {
            if i + 1 < args.len() {
                scan(args, i + 2, ScanState { offset: offset_spec(args[i + 1]), ..st })
            } else {
                Some(st)
            }
        } else if a == "-h"@ || a == "--help"@ {
            None
        } else if !starts_with(a, "-"@) {
            if st.device is None {
                scan(args, i + 1, ScanState { device: Some(a), ..st })
            } else {
                scan(args, i + 1, ScanState { file: Some(a), ..st })
            }
        } else {
            scan(args, i + 1, st)
        }
    }
}

/// What losetup does.
pub enum LosetupPlan {
    /// List the attached loop devices.
    ShowAll,
    /// Print the usage and succeed.
    Help,
    /// Detach every attached loop device.
    DetachAll,
    /// `-d` without a device: fail.
    DetachMissing,
    /// Detach this device.
    Detach(String),
    /// Find a free device; attach `target` to it where one is given, else
    /// print its name.
    FindFree { target: Option<String>, read_only: bool, offset: u64 },
    /// Attach `file` to `device`.
    Setup { device: String, file: String, read_only: bool, offset: u64 },
}

pub enum PlanView {
    ShowAll,
    Help,
    DetachAll,
    DetachMissing,
    Detach(Seq<char>),
    FindFree { target: Option<Seq<char>>, read_only: bool, offset: u64 },
    Setup { device: Seq<char>, file: Seq<char>, read_only: bool, offset: u64 },
}

impl View for LosetupPlan {
    type V = PlanView;

    open spec fn view(&self) -> PlanView {
        match self {
            LosetupPlan::ShowAll => PlanView::ShowAll,
            LosetupPlan::Help => PlanView::Help,
            LosetupPlan::DetachAll => PlanView::DetachAll,
            LosetupPlan::DetachMissing => PlanView::DetachMissing,
            LosetupPlan::Detach(d) => PlanView::Detach(d@),
            LosetupPlan::FindFree { target, read_only, offset } => PlanView::FindFree {
                target: opt_view(*target),
                read_only: *read_only,
                offset: *offset,
            },
            LosetupPlan::Setup { device, file, read_only, offset } => PlanView::Setup {
                device: device@,
                file: file@,
                read_only: *read_only,
                offset: *offset,
            },
        }
    }
}

/// What the options decide once read: detaching all comes first, then
/// detaching one (which needs a non-empty device), then finding a free
/// device (attaching the file, or else the only path given), then attaching
/// a file to a device; otherwise the list.
pub open spec fn decide(st: ScanState) -> PlanView {
    if st.detach_all {
        PlanView::DetachAll
    } else if st.detach {
        match st.device {
            Some(d) => if d.len() == 0 {
                PlanView::DetachMissing
            } else {
                PlanView::Detach(d)
            },
            None => PlanView::DetachMissing,
        }
    } else if st.find_free {
        PlanView::FindFree {
            target: if st.file is Some {
                st.file
            } else {
                st.device
            },
            read_only: st.read_only,
            offset: st.offset,
        }
    } else {
        match (st.device, st.file) {
            (Some(d), Some(f)) => PlanView::Setup { device: d, file: f, read_only: st.read_only, offset: st.offset },
            _ => PlanView::ShowAll,
        }
    }
}

pub open spec fn plan_spec(args: Seq<Seq<char>>) -> PlanView {
    if args.len() == 0 {
        PlanView::ShowAll
    } else {
        match scan(args, 0, scan_start()) {
            Some(st) => decide(st),
            None => PlanView::Help,
        }
    }
}

/// What losetup does with the words of its invocation.
pub fn plan(args: &[String]) -> (r: LosetupPlan)
    ensures
        r@ == plan_spec(views(args@)),
{
    if args.len() == 0 {
        return LosetupPlan::ShowAll;
    }
    let ghost av = views(args@);
    let cs = chars_of_all(args);
    let n = args.len();
    let mut detach = false;
    let mut detach_all = false;
    let mut find_free = false;
    let mut read_only = false;
    let mut offset: u64 = 0;
    let mut device: Option<String> = None;
    let mut file: Option<String> = None;
    let mut i: usize = 0;
    while i < n
        invariant
            n == args@.len(),
            n > 0,
            cs@.len() == n,
            av == views(args@),
            forall|k: int| 0 <= k < n ==> #[trigger] cs@[k]@ == args@[k]@,
            i <= n,
            scan(av, i as int, ScanState {
                detach, detach_all, find_free, read_only, offset,
                device: opt_view(device),
                file: opt_view(file),
            }) == scan(av, 0, scan_start()),
        decreases n - i,
    {
        let a = cs[i].as_slice();
        assert(av[i as int] == a@);
        if eq_lit(a, "-d") || eq_lit(a, "--detach") {
            detach = true;
        } else if eq_lit(a, "-D") || eq_lit(a, "--detach-all") {
            detach_all = true;
        } else if eq_lit(a, "-f") || eq_lit(a, "--find") {
            find_free = true;
        } else if eq_lit(a, "-r") || eq_lit(a, "--read-only") {
            read_only = true;
        } else if eq_lit(a, "-o") || eq_lit(a, "--offset") {
            if i + 1 < n {
                assert(av[i + 1] == cs@[i + 1]@);
                offset = match parse_dec_exec(cs[i + 1].as_slice(), 0xffff_ffff_ffff_ffff) {
                    Some(v) => v,
                    None => 0,
                };
                i = i + 1;
            }
        } else if eq_lit(a, "-h") || eq_lit(a, "--help") {
            return LosetupPlan::Help;
        } else if !starts_with_lit(a, "-") {
            if device.is_none() {
                device = Some(args[i].clone());
            } else {
                file = Some(args[i].clone());
            }
        }
        i = i + 1;
    }
    if detach_all {
        return LosetupPlan::DetachAll;
    }
    if detach {
        return match device {
            Some(d) => if chars_of(d.as_str()).len() == 0 {
                LosetupPlan::DetachMissing
            } else {
                LosetupPlan::Detach(d)
            },
            None => LosetupPlan::DetachMissing,
        };
    }
    if find_free {
        let f = if file.is_some() {
            file
        } else {
            device
        };
        return LosetupPlan::FindFree { target: f, read_only, offset };
    }
    match (device, file) {
        (Some(d), Some(f)) => LosetupPlan::Setup { device: d, file: f, read_only, offset },
        _ => LosetupPlan::ShowAll,
    }
}

/// The device that the free-device request answered: `/dev/loop` and its
/// number; none where the answer is negative.
pub fn free_device(num: i32) -> (r: Option<String>)
    ensures
        num < 0 ==> r is None,
        num >= 0 ==> (r matches Some(d) && d@ == "/dev/loop"@ + decimal(num as nat)),
{
    if num < 0 {
        return None;
    }
    let mut v = chars_of("/dev/loop");
    push_all(&mut v, fmt_dec(num as u64).as_slice());
    Some(string_of(v.as_slice()))
}

/// Is this entry of the block devices a loop device?
pub fn is_loop_name(name: &str) -> (r: bool)
    ensures
        r == starts_with(name@, "loop"@),
{
    starts_with_lit(chars_of(name).as_slice(), "loop")
}

/// The line listing an attached device: its name, the file behind it and
/// its offset, both trimmed.
pub fn status_line(name: &str, backing: &str, offset: &str) -> (r: String)
    ensures
        r@ == "/dev/"@ + name@ + ": []: ("@ + trim(backing@) + "), offset "@ + trim(offset@),
{
    let mut v = chars_of("/dev/");
    push_all(&mut v, chars_of(name).as_slice());
    push_str(&mut v, ": []: (");
    push_all(&mut v, trim_chars(chars_of(backing).as_slice()).as_slice());
    push_str(&mut v, "), offset ");
    push_all(&mut v, trim_chars(chars_of(offset).as_slice()).as_slice());
    string_of(v.as_slice())
}

} // verus!
