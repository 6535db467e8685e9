//! ifup: what an invocation asks for, and the paths and lines that go with
//! an interface.
use vstd::prelude::*;
use crate::text::{chars_of, chars_of_all, eq_lit, push_all, starts_with, starts_with_lit, string_of, views};

verus! {

/// What ifup does.
pub enum IfupPlan {
    /// Bring up every interface the kernel lists.
    All,
    /// Print the usage and succeed.
    Help,
    /// No interface named: print the usage and fail.
    Usage,
    /// Bring up these interfaces.
    Up(Vec<String>),
}

pub enum PlanView {
    All,
    Help,
    Usage,
    Up(Seq<Seq<char>>),
}

impl View for IfupPlan {
    type V = PlanView;

    open spec fn view(&self) -> PlanView {
        match self {
            IfupPlan::All => PlanView::All,
            IfupPlan::Help => PlanView::Help,
            IfupPlan::Usage => PlanView::Usage,
            IfupPlan::Up(v) => PlanView::Up(views(v@)),
        }
    }
}

/// Reading the words from `i` on: the first of `-a` and help decides at
/// once; the words not starting with `-` are the interfaces.
pub open spec fn scan(args: Seq<Seq<char>>, i: int, ifaces: Seq<Seq<char>>) -> PlanView
    decreases args.len() - i,
{
    if i < 0 || i >= args.len() {
        if ifaces.len() == 0 {
            PlanView::Usage
        } else {
            PlanView::Up(ifaces)
        }
    } else {
        let a = args[i];
        if a == "-a"@ || a == "--all"@ {
            PlanView::All
        } else if a == "-h"@ || a == "--help"@ {
            PlanView::Help
        } else if !starts_with(a, "-"@) {
            scan(args, i + 1, ifaces.push(a))
        } else {
            scan(args, i + 1, ifaces)
        }
    }
}

/// What ifup does with the words of its invocation.
pub fn plan(args: &[String]) -> (r: IfupPlan)
    ensures
        r@ == scan(views(args@), 0, seq![]),
{
    let ghost av = views(args@);
    let cs = chars_of_all(args);
    let n = args.len();
    let mut ifaces: Vec<String> = Vec::new();
    let mut i: usize = 0;
    assert(views(ifaces@) =~= Seq::<Seq<char>>::empty());
    while i < n
        invariant
            n == args@.len(),
            cs@.len() == n,
            av == views(args@),
            forall|k: int| 0 <= k < n ==> #[trigger] cs@[k]@ == args@[k]@,
            i <= n,
            scan(av, i as int, views(ifaces@)) == scan(av, 0, seq![]),
        decreases n - i,
    {
        let a = cs[i].as_slice();
        assert(av[i as int] == a@);
        if eq_lit(a, "-a") || eq_lit(a, "--all") {
            return IfupPlan::All;
        } else if eq_lit(a, "-h") || eq_lit(a, "--help") {
            return IfupPlan::Help;
        } else if !starts_with_lit(a, "-") {
            let ghost before = views(ifaces@);
            ifaces.push(args[i].clone());
            assert(views(ifaces@) =~= before.push(a@));
        }
        i = i + 1;
    }
    if ifaces.len() == 0 {
        IfupPlan::Usage
    } else {
        IfupPlan::Up(ifaces)
    }
}

/// The script run after an interface comes up.
pub fn script_path(iface: &str) -> (r: String)
    ensures
        r@ == "/etc/network/if-up.d/"@ + iface@,
{
    let mut v = chars_of("/etc/network/if-up.d/");
    push_all(&mut v, chars_of(iface).as_slice());
    string_of(v.as_slice())
}

/// The line printed once an interface is up.
pub fn up_line(iface: &str) -> (r: String)
    ensures
        r@ == "ifup: interface "@ + iface@ + " is up"@,
{
    let mut v = chars_of("ifup: interface ");
    push_all(&mut v, chars_of(iface).as_slice());
    push_all(&mut v, chars_of(" is up").as_slice());
    string_of(v.as_slice())
}

} // verus!
