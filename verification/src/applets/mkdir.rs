//! mkdir: its options and the message for a created directory.
use vstd::prelude::*;
use crate::text::{chars_of, eq_lit, push_all, push_str, string_of, views};

verus! {

/// What the words of an invocation set: `-p`, `-v` (`-m` is accepted and
/// ignored), and the directories.
pub struct MkdirArgs {
    pub parents: bool,
    pub verbose: bool,
    pub dirs: Vec<String>,
}

pub open spec fn is_flag(a: Seq<char>) -> bool {
    a == "-p"@ || a == "--parents"@ || a == "-v"@ || a == "--verbose"@ || a == "-m"@
}

/// Reads the words of an invocation; without directories mkdir reports a
/// missing operand.
pub fn parse_args(args: &[String]) -> (r: MkdirArgs)
    ensures
        r.parents == exists|k: int| 0 <= k < args@.len() && (#[trigger] args@[k]@ == "-p"@ || args@[k]@ == "--parents"@),
        r.verbose == exists|k: int| 0 <= k < args@.len() && (#[trigger] args@[k]@ == "-v"@ || args@[k]@ == "--verbose"@),
        views(r.dirs@) == views(args@).filter(|a: Seq<char>| !is_flag(a)),
{
    let ghost av = views(args@);
    let ghost keep = |a: Seq<char>| !is_flag(a);
    let mut parents = false;
    let mut verbose = false;
    let mut dirs: Vec<String> = Vec::new();
    let mut i: usize = 0;
    assert(av.take(0).filter(keep) =~= Seq::<Seq<char>>::empty());
    while i < args.len()
        invariant
            i <= args@.len(),
            av == views(args@),
            keep == (|a: Seq<char>| !is_flag(a)),
            views(dirs@) == av.take(i as int).filter(keep),
            parents == exists|k: int| 0 <= k < i && (#[trigger] args@[k]@ == "-p"@ || args@[k]@ == "--parents"@),
            verbose == exists|k: int| 0 <= k < i && (#[trigger] args@[k]@ == "-v"@ || args@[k]@ == "--verbose"@),
        decreases args@.len() - i,
    {
        let c = chars_of(args[i].as_str());
        let a = c.as_slice();
        assert(av[i as int] == a@);
        proof {
            reveal_with_fuel(Seq::filter, 2);
            assert(av.take(i + 1).drop_last() =~= av.take(i as int));
        }
        let ghost before = views(dirs@);
        let is_p = eq_lit(a, "-p") || eq_lit(a, "--parents");
        let is_v = eq_lit(a, "-v") || eq_lit(a, "--verbose");
        let ghost p0 = parents;
        let ghost v0 = verbose;
        proof {
            let ep = exists|k: int| 0 <= k < i + 1 && (#[trigger] args@[k]@ == "-p"@ || args@[k]@ == "--parents"@);
            let ev = exists|k: int| 0 <= k < i + 1 && (#[trigger] args@[k]@ == "-v"@ || args@[k]@ == "--verbose"@);
            if is_p {
                assert(args@[i as int]@ == "-p"@ || args@[i as int]@ == "--parents"@);
            }
            if is_v {
                assert(args@[i as int]@ == "-v"@ || args@[i as int]@ == "--verbose"@);
            }
            assert(ep == (p0 || is_p));
            assert(ev == (v0 || is_v));
        }
        if is_p {
            parents = true;
        }
        if is_v {
            verbose = true;
        }
        if is_p || is_v || eq_lit(a, "-m") {
        } else {
            dirs.push(args[i].clone());
            assert(views(dirs@) =~= before.push(a@));
        }
        assert(views(dirs@) =~= av.take(i + 1).filter(keep));
        i = i + 1;
    }
    assert(av.take(args@.len() as int) =~= av);
    MkdirArgs { parents, verbose, dirs }
}

/// The message printed under `-v` for a created directory.
pub fn created_message(dir: &str) -> (r: String)
    ensures
        r@ == "mkdir: created directory '"@ + dir@ + "'"@,
{
    let mut v = chars_of("mkdir: created directory '");
    push_all(&mut v, chars_of(dir).as_slice());
    push_str(&mut v, "'");
    string_of(v.as_slice())
}

/// A failure is not reported under `-p` where the directory exists.
pub fn failure_ignored(parents: bool, is_dir: bool) -> (r: bool)
    ensures
        r == (parents && is_dir),
{
    parents && is_dir
}

} // verus!
