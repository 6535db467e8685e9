//! kexec: what an invocation asks for (load a kernel, unload it, boot into
//! it) and the flags handed to the loading call.
use vstd::prelude::*;
use crate::applets::install::opt_view;
use crate::text::{chars_of_all, eq_lit, slice_chars, starts_with, starts_with_lit, string_of, to_string, views};

verus! {

/// Flag of the loading call: unload the loaded kernel.
pub const KEXEC_FILE_UNLOAD: u64 = 0x1;

/// Flag of the loading call: no initial ramdisk is given.
pub const KEXEC_FILE_NO_INITRAMFS: u64 = 0x4;

/// What the words of an invocation set.
pub struct ScanState {
    pub load: bool,
    pub unload: bool,
    pub boot: bool,
    pub force: bool,
    pub initrd: Option<Seq<char>>,
    pub cmdline: Seq<char>,
    pub kernel: Option<Seq<char>>,
}

/// Where reading the words ends.
pub enum ScanEnd {
    Done(ScanState),
    Help,
    /// An option that takes a value came last; the option's long name.
    Missing(Seq<char>),
    /// A word that starts with `-` and is no option.
    Unknown(Seq<char>),
}

pub open spec fn scan_start() -> ScanState {
    ScanState {
        load: false,
        unload: false,
        boot: false,
        force: false,
        initrd: None,
        cmdline: seq![],
        kernel: None,
    }
}

/// Reading the words from `i` on.
pub open spec fn scan(args: Seq<Seq<char>>, i: int, st: ScanState) -> ScanEnd
    decreases args.len() - i,
{
    if i < 0 || i >= args.len() {
        ScanEnd::Done(st)
    } else {
        let a = args[i];
        if a == "-l"@ || a == "--load"@ {
            scan(args, i + 1, ScanState { load: true, ..st })
        } else if a == "-u"@ || a == "--unload"@ {
            scan(args, i + 1, ScanState { unload: true, ..st })
        } else if a == "-e"@ || a == "--exec"@ {
            scan(args, i + 1, ScanState { boot: true, ..st })
        } else if a == "-f"@ || a == "--force"@ {
            scan(args, i + 1, ScanState { force: true, ..st })
        } else if a == "--initrd"@ || a == "-i"@ {
            if i + 1 < args.len() {
                scan(args, i + 2, ScanState { initrd: Some(args[i + 1]), ..st })
            } else {
                ScanEnd::Missing("--initrd"@)
            }
        } else if a == "--append"@ || a == "-c"@ {
            if i + 1 < args.len() {
                scan(args, i + 2, ScanState { cmdline: args[i + 1], ..st })
            } else {
                ScanEnd::Missing("--append"@)
            }
        } else if a == "-h"@ || a == "--help"@ {
            ScanEnd::Help
        } else if starts_with(a, "--initrd="@) {
            scan(args, i + 1, ScanState { initrd: Some(a.skip(9)), ..st })
        } else if starts_with(a, "--append="@) {
            scan(args, i + 1, ScanState { cmdline: a.skip(9), ..st })
        } else if starts_with(a, "-"@) {
            ScanEnd::Unknown(a)
        } else {
            scan(args, i + 1, ScanState { kernel: Some(a), ..st })
        }
    }
}

/// What kexec does.
pub enum KexecPlan {
    /// Print the usage and succeed.
    Help,
    /// An option lacks its value (the option's long name): fail.
    MissingValue(String),
    /// An unknown option: fail.
    UnknownOption(String),
    /// Unload the loaded kernel.
    Unload,
    /// Loading was asked for without a kernel: fail.
    NoKernel,
    /// Load `kernel` (with `initrd` and `cmdline`), then boot into it where
    /// `then_exec`.
    Load { kernel: String, initrd: Option<String>, cmdline: String, then_exec: bool },
    /// Boot into the loaded kernel.
    Exec,
    /// No mode and no kernel: print the usage and fail.
    Usage,
}

pub enum PlanView {
    Help,
    MissingValue(Seq<char>),
    UnknownOption(Seq<char>),
    Unload,
    NoKernel,
    Load { kernel: Seq<char>, initrd: Option<Seq<char>>, cmdline: Seq<char>, then_exec: bool },
    Exec,
    Usage,
}

impl View for KexecPlan {
    type V = PlanView;

    open spec fn view(&self) -> PlanView {
        match self {
            KexecPlan::Help => PlanView::Help,
            KexecPlan::MissingValue(o) => PlanView::MissingValue(o@),
            KexecPlan::UnknownOption(a) => PlanView::UnknownOption(a@),
            KexecPlan::Unload => PlanView::Unload,
            KexecPlan::NoKernel => PlanView::NoKernel,
            KexecPlan::Load { kernel, initrd, cmdline, then_exec } => PlanView::Load {
                kernel: kernel@,
                initrd: opt_view(*initrd),
                cmdline: cmdline@,
                then_exec: *then_exec,
            },
            KexecPlan::Exec => PlanView::Exec,
            KexecPlan::Usage => PlanView::Usage,
        }
    }
}

/// What the options decide once read: `-f` means load and boot; unloading
/// comes first; loading needs a kernel; a kernel given with no mode chosen
/// is loaded and booted in one step.
pub open spec fn decide(st: ScanState) -> PlanView {
    let load = st.load || st.force;
    let boot = st.boot || st.force;
    if st.unload {
        PlanView::Unload
    } else if load {
        match st.kernel {
            Some(k) => PlanView::Load { kernel: k, initrd: st.initrd, cmdline: st.cmdline, then_exec: boot },
            None => PlanView::NoKernel,
        }
    } else if boot {
        PlanView::Exec
    } else {
        match st.kernel {
            Some(k) => PlanView::Load { kernel: k, initrd: st.initrd, cmdline: st.cmdline, then_exec: true },
            None => PlanView::Usage,
        }
    }
}

pub open spec fn plan_spec(args: Seq<Seq<char>>) -> PlanView {
    match scan(args, 0, scan_start()) {
        ScanEnd::Done(st) => decide(st),
        ScanEnd::Help => PlanView::Help,
        ScanEnd::Missing(o) => PlanView::MissingValue(o),
        ScanEnd::Unknown(a) => PlanView::UnknownOption(a),
    }
}

/// What kexec does with the words of its invocation.
pub fn plan(args: &[String]) -> (r: KexecPlan)
    ensures
        r@ == plan_spec(views(args@)),
{
    let ghost av = views(args@);
    let cs = chars_of_all(args);
    let n = args.len();
    let mut load = false;
    let mut unload = false;
    let mut boot = false;
    let mut force = false;
    let mut initrd: Option<String> = None;
    let mut cmdline = String::new();
    let mut kernel: Option<String> = None;
    let mut i: usize = 0;
    while i < n
        invariant
            n == args@.len(),
            cs@.len() == n,
            av == views(args@),
            forall|k: int| 0 <= k < n ==> #[trigger] cs@[k]@ == args@[k]@,
            i <= n,
            scan(av, i as int, ScanState {
                load, unload, boot, force,
                initrd: opt_view(initrd),
                cmdline: cmdline@,
                kernel: opt_view(kernel),
            }) == scan(av, 0, scan_start()),
        decreases n - i,
    {
        let a = cs[i].as_slice();
        assert(av[i as int] == a@);
        if eq_lit(a, "-l") || eq_lit(a, "--load") {
            load = true;
        } else if eq_lit(a, "-u") || eq_lit(a, "--unload") {
            unload = true;
        } else if eq_lit(a, "-e") || eq_lit(a, "--exec") {
            boot = true;
        } else if eq_lit(a, "-f") || eq_lit(a, "--force") {
            force = true;
        } else if eq_lit(a, "--initrd") || eq_lit(a, "-i") {
            if i + 1 < n {
                assert(av[i + 1] == args@[i + 1]@);
                initrd = Some(args[i + 1].clone());
                i = i + 2;
                continue;
            }
            return KexecPlan::MissingValue(to_string("--initrd"));
        } else if eq_lit(a, "--append") || eq_lit(a, "-c") {
            if i + 1 < n {
                assert(av[i + 1] == args@[i + 1]@);
                cmdline = args[i + 1].clone();
                i = i + 2;
                continue;
            }
            return KexecPlan::MissingValue(to_string("--append"));
        } else if eq_lit(a, "-h") || eq_lit(a, "--help") {
            return KexecPlan::Help;
        } else if starts_with_lit(a, "--initrd=") {
            proof {
                reveal_strlit("--initrd=");
            }
            let v = slice_chars(a, 9, a.len());
            assert(v@ =~= a@.skip(9));
            initrd = Some(string_of(v.as_slice()));
        } else if starts_with_lit(a, "--append=") {
            proof {
                reveal_strlit("--append=");
            }
            let v = slice_chars(a, 9, a.len());
            assert(v@ =~= a@.skip(9));
            cmdline = string_of(v.as_slice());
        } else if starts_with_lit(a, "-") {
            return KexecPlan::UnknownOption(args[i].clone());
        } else {
            kernel = Some(args[i].clone());
        }
        i = i + 1;
    }
    if force {
        load = true;
        boot = true;
    }
    if unload {
        return KexecPlan::Unload;
    }
    if load {
        return match kernel {
            Some(k) => KexecPlan::Load { kernel: k, initrd, cmdline, then_exec: boot },
            None => KexecPlan::NoKernel,
        };
    }
    if boot {
        return KexecPlan::Exec;
    }
    match kernel {
        Some(k) => KexecPlan::Load { kernel: k, initrd, cmdline, then_exec: true },
        None => KexecPlan::Usage,
    }
}

/// The flags of the loading call: without an initial ramdisk the kernel is
/// told there is none.
pub fn load_flags(has_initrd: bool) -> (r: u64)
    ensures
        r == if has_initrd { 0 } else { KEXEC_FILE_NO_INITRAMFS },
{
    if has_initrd {
        0
    } else {
        KEXEC_FILE_NO_INITRAMFS
    }
}

/// The exit status of the whole invocation, given how the load and the boot
/// went (a boot that returns has failed).
pub fn exit_status(p: &KexecPlan, load_ok: bool, unload_ok: bool) -> (r: i32)
    ensures
        r == match p@ {
            PlanView::Help => 0i32,
            PlanView::Unload => if unload_ok { 0i32 } else { 1i32 },
            PlanView::Load { then_exec, .. } => if load_ok && !then_exec { 0i32 } else { 1i32 },
            _ => 1i32,
        },
{
    match p {
        KexecPlan::Help => 0,
        KexecPlan::Unload => if unload_ok { 0 } else { 1 },
        KexecPlan::Load { then_exec, .. } => if load_ok && !*then_exec { 0 } else { 1 },
        _ => 1,
    }
}

} // verus!
