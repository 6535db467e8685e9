//! insmod: the module it loads and the parameters it passes.
use vstd::prelude::*;
use crate::text::{chars_of, chars_of_all, eq_lit, join, join_exec, string_of, views, vviews};

verus! {

/// What the words of an invocation say.
pub enum InsmodPlan {
    /// No words: print the usage and fail.
    Usage,
    /// Help asked for first: print the usage and succeed.
    Help,
    /// Load the module at `path` with the parameters joined by spaces.
    Load { path: String, params: String },
}

/// What insmod does with the words of its invocation.
pub fn plan(args: &[String]) -> (r: InsmodPlan)
    ensures
        args@.len() == 0 ==> r is Usage,
        args@.len() > 0 && (args@[0]@ == "--help"@ || args@[0]@ == "-h"@) ==> r is Help,
        args@.len() > 0 && !(args@[0]@ == "--help"@ || args@[0]@ == "-h"@) ==> (r matches InsmodPlan::Load { path, params }
            && path@ == args@[0]@ && params@ == join(views(args@).skip(1), " "@)),
{
    if args.len() == 0 {
        return InsmodPlan::Usage;
    }
    let first = chars_of(args[0].as_str());
    if eq_lit(first.as_slice(), "--help") || eq_lit(first.as_slice(), "-h") {
        return InsmodPlan::Help;
    }
    let cs = chars_of_all(args);
    let mut rest: Vec<Vec<char>> = Vec::new();
    let mut k: usize = 1;
    while k < cs.len()
        invariant
            1 <= k <= cs@.len(),
            cs@.len() == args@.len(),
            forall|j: int| 0 <= j < args@.len() ==> #[trigger] cs@[j]@ == args@[j]@,
            vviews(rest@) == views(args@).subrange(1, k as int),
        decreases cs@.len() - k,
    {
        let ghost before = vviews(rest@);
        rest.push(crate::text::copy_chars(cs[k].as_slice()));
        assert(vviews(rest@) =~= before.push(args@[k as int]@));
        assert(views(args@).subrange(1, k + 1) =~= views(args@).subrange(1, k as int).push(args@[k as int]@));
        k = k + 1;
    }
    assert(views(args@).subrange(1, args@.len() as int) =~= views(args@).skip(1));
    let params = join_exec(&rest, " ");
    InsmodPlan::Load { path: args[0].clone(), params: string_of(params.as_slice()) }
}

} // verus!
