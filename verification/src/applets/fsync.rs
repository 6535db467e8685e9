//! fsync: its options.
use vstd::prelude::*;
use crate::text::{chars_of_all, eq_lit, starts_with, starts_with_lit, views};

verus! {

/// What the words of an invocation say.
pub enum FsyncPlan {
    /// Print the usage and succeed.
    Help,
    /// No file: print the usage and fail.
    Usage,
    /// `fsync: unknown option: WORD`, fail.
    Unknown(String),
    /// Flush each file (only its data under `-d`).
    Sync { datasync: bool, files: Vec<String> },
}

pub enum PlanView {
    Help,
    Usage,
    Unknown(Seq<char>),
    Sync { datasync: bool, files: Seq<Seq<char>> },
}

impl View for FsyncPlan {
    type V = PlanView;

    open spec fn view(&self) -> PlanView {
        match self {
            FsyncPlan::Help => PlanView::Help,
            FsyncPlan::Usage => PlanView::Usage,
            FsyncPlan::Unknown(w) => PlanView::Unknown(w@),
            FsyncPlan::Sync { datasync, files } => PlanView::Sync { datasync: *datasync, files: views(files@) },
        }
    }
}

/// Reading the words from `i` on: `-d`, help, files, and an unknown
/// option that ends the reading.
pub open spec fn scan(args: Seq<Seq<char>>, i: int, ds: bool, files: Seq<Seq<char>>) -> PlanView
    decreases args.len() - i,
{
    if i < 0 || i >= args.len() {
        if files.len() == 0 {
            PlanView::Usage
        } else {
            PlanView::Sync { datasync: ds, files }
        }
    } else {
        let a = args[i];
        if a == "-d"@ || a == "--datasync"@ {
            scan(args, i + 1, true, files)
        } else if a == "-h"@ || a == "--help"@ {
            PlanView::Help
        } else if !starts_with(a, "-"@) {
            scan(args, i + 1, ds, files.push(a))
        } else {
            PlanView::Unknown(a)
        }
    }
}

/// What fsync does with the words of its invocation (see `scan`).
pub fn plan(args: &[String]) -> (r: FsyncPlan)
    ensures
        r@ == scan(views(args@), 0, false, seq![]),
{
    let ghost av = views(args@);
    let cs = chars_of_all(args);
    let mut ds = false;
    let mut files: Vec<String> = Vec::new();
    assert(views(files@) =~= Seq::<Seq<char>>::empty());
    let mut i: usize = 0;
    while i < args.len()
        invariant
            i <= args@.len(),
            cs@.len() == args@.len(),
            av == views(args@),
            forall|k: int| 0 <= k < args@.len() ==> #[trigger] cs@[k]@ == args@[k]@,
            scan(av, i as int, ds, views(files@)) == scan(av, 0, false, seq![]),
        decreases args@.len() - i,
    {
        let a = cs[i].as_slice();
        assert(av[i as int] == a@);
        if eq_lit(a, "-d") || eq_lit(a, "--datasync") {
            ds = true;
        } else if eq_lit(a, "-h") || eq_lit(a, "--help") {
            return FsyncPlan::Help;
        } else if !starts_with_lit(a, "-") {
            let ghost before = views(files@);
            files.push(args[i].clone());
            assert(views(files@) =~= before.push(a@));
        } else {
            return FsyncPlan::Unknown(args[i].clone());
        }
        i = i + 1;
    }
    if files.len() == 0 {
        FsyncPlan::Usage
    } else {
        FsyncPlan::Sync { datasync: ds, files }
    }
}

} // verus!
