//! kbd_mode: its options and how it names a keyboard mode.
use vstd::prelude::*;
use crate::text::{chars_of_all, eq_lit, starts_with, starts_with_lit, to_string, views};

verus! {

/// The keyboard modes.
pub const K_RAW: i64 = 0;
pub const K_XLATE: i64 = 1;
pub const K_MEDIUMRAW: i64 = 2;
pub const K_UNICODE: i64 = 3;

/// What the words of an invocation say.
pub enum KbdPlan {
    /// Print the usage and succeed.
    Help,
    /// `kbd_mode: unknown option 'WORD'`, fail.
    Unknown(String),
    /// On terminal `dev`, set the mode, or report it where none is given.
    Run { mode: Option<i64>, dev: String },
}

pub enum PlanView {
    Help,
    Unknown(Seq<char>),
    Run { mode: Option<i64>, dev: Seq<char> },
}

impl View for KbdPlan {
    type V = PlanView;

    open spec fn view(&self) -> PlanView {
        match self {
            KbdPlan::Help => PlanView::Help,
            KbdPlan::Unknown(w) => PlanView::Unknown(w@),
            KbdPlan::Run { mode, dev } => PlanView::Run { mode: *mode, dev: dev@ },
        }
    }
}

/// Reading the words from `i` on: `-a` (translated), `-k` (medium raw),
/// `-s` (raw), `-u` (Unicode), `-C TTY`; other words are ignored.
pub open spec fn scan(args: Seq<Seq<char>>, i: int, mode: Option<i64>, dev: Seq<char>) -> PlanView
    decreases args.len() - i,
{
    if i < 0 || i >= args.len() {
        PlanView::Run { mode, dev }
    } else {
        let a = args[i];
        if a == "-a"@ {
            scan(args, i + 1, Some(K_XLATE), dev)
        } else if a == "-k"@ {
            scan(args, i + 1, Some(K_MEDIUMRAW), dev)
        } else if a == "-s"@ {
            scan(args, i + 1, Some(K_RAW), dev)
        } else if a == "-u"@ {
            scan(args, i + 1, Some(K_UNICODE), dev)
        } else if a == "-C"@ {
            if i + 1 < args.len() {
                scan(args, i + 2, mode, args[i + 1])
            } else {
                scan(args, i + 1, mode, dev)
            }
        } else if a == "--help"@ {
            PlanView::Help
        } else if starts_with(a, "-"@) {
            PlanView::Unknown(a)
        } else {
            scan(args, i + 1, mode, dev)
        }
    }
}

/// What kbd_mode does with the words of its invocation (see `scan`).
pub fn plan(args: &[String]) -> (r: KbdPlan)
    ensures
        r@ == scan(views(args@), 0, None, "/dev/tty"@),
{
    let ghost av = views(args@);
    let cs = chars_of_all(args);
    let n = args.len();
    let mut mode: Option<i64> = None;
    let mut dev = to_string("/dev/tty");
    let mut i: usize = 0;
    while i < n
        invariant
            n == args@.len(),
            cs@.len() == n,
            av == views(args@),
            forall|k: int| 0 <= k < n ==> #[trigger] cs@[k]@ == args@[k]@,
            i <= n,
            scan(av, i as int, mode, dev@) == scan(av, 0, None, "/dev/tty"@),
        decreases n - i,
    {
        let a = cs[i].as_slice();
        assert(av[i as int] == a@);
        if eq_lit(a, "-a") {
            mode = Some(K_XLATE);
        } else if eq_lit(a, "-k") {
            mode = Some(K_MEDIUMRAW);
        } else if eq_lit(a, "-s") {
            mode = Some(K_RAW);
        } else if eq_lit(a, "-u") {
            mode = Some(K_UNICODE);
        } else if eq_lit(a, "-C") {
            if i + 1 < n {
                assert(av[i + 1] == cs@[i + 1]@);
                dev = args[i + 1].clone();
                i = i + 1;
            }
        } else if eq_lit(a, "--help") {
            return KbdPlan::Help;
        } else if starts_with_lit(a, "-") {
            return KbdPlan::Unknown(args[i].clone());
        }
        i = i + 1;
    }
    KbdPlan::Run { mode, dev }
}

/// The sentence reporting a keyboard mode.
pub fn mode_report(mode: i64) -> (r: String)
    ensures
        r@ == "The keyboard is in "@ + (if mode == K_RAW {
            "raw (scancode)"@
        } else if mode == K_XLATE {
            "default (ASCII)"@
        } else if mode == K_MEDIUMRAW {
            "mediumraw (keycode)"@
        } else if mode == K_UNICODE {
            "Unicode (UTF-8)"@
        } else {
            "unknown"@
        }) + " mode"@,
{
    let mut v = crate::text::chars_of("The keyboard is in ");
    if mode == K_RAW {
        crate::text::push_str(&mut v, "raw (scancode)");
    } else if mode == K_XLATE {
        crate::text::push_str(&mut v, "default (ASCII)");
    } else if mode == K_MEDIUMRAW {
        crate::text::push_str(&mut v, "mediumraw (keycode)");
    } else if mode == K_UNICODE {
        crate::text::push_str(&mut v, "Unicode (UTF-8)");
    } else {
        crate::text::push_str(&mut v, "unknown");
    }
    crate::text::push_str(&mut v, " mode");
    crate::text::string_of(v.as_slice())
}

} // verus!
