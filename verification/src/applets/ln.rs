//! ln: its options, the links an invocation makes, and the line printed
//! for each.
use vstd::prelude::*;
use crate::paths::{file_name, join_path, join_path_spec, file_name_spec};
use crate::text::{chars_of, chars_of_all, eq_lit, push_all, push_str, string_of, views};

verus! {

/// What the words of an invocation set; every word that is not one of the
/// flags is a path.
pub struct LnArgs {
    pub symbolic: bool,
    pub force: bool,
    pub verbose: bool,
    pub paths: Vec<String>,
}

pub open spec fn is_flag(a: Seq<char>) -> bool {
    a == "-s"@ || a == "--symbolic"@ || a == "-f"@ || a == "--force"@ || a == "-v"@ || a == "--verbose"@
}

pub open spec fn has(args: Seq<Seq<char>>, w1: Seq<char>, w2: Seq<char>) -> bool {
    exists|k: int| 0 <= k < args.len() && (args[k] == w1 || args[k] == w2)
}

/// Reads the words of an invocation.
pub fn parse_args(args: &[String]) -> (r: LnArgs)
    ensures
        r.symbolic == has(views(args@), "-s"@, "--symbolic"@),
        r.force == has(views(args@), "-f"@, "--force"@),
        r.verbose == has(views(args@), "-v"@, "--verbose"@),
        views(r.paths@) == views(args@).filter(|a: Seq<char>| !is_flag(a)),
{
    let ghost av = views(args@);
    let ghost keep = |a: Seq<char>| !is_flag(a);
    let cs = chars_of_all(args);
    let n = args.len();
    let mut st = LnArgs { symbolic: false, force: false, verbose: false, paths: Vec::new() };
    let mut i: usize = 0;
    assert(av.take(0).filter(keep) =~= Seq::<Seq<char>>::empty());
    assert(views(st.paths@) =~= Seq::<Seq<char>>::empty());
    while i < n
        invariant
            n == args@.len(),
            cs@.len() == n,
            av == views(args@),
            keep == (|a: Seq<char>| !is_flag(a)),
            forall|k: int| 0 <= k < n ==> #[trigger] cs@[k]@ == args@[k]@,
            i <= n,
            st.symbolic == has(av.take(i as int), "-s"@, "--symbolic"@),
            st.force == has(av.take(i as int), "-f"@, "--force"@),
            st.verbose == has(av.take(i as int), "-v"@, "--verbose"@),
            views(st.paths@) == av.take(i as int).filter(keep),
        decreases n - i,
    {
        let a = cs[i].as_slice();
        assert(av[i as int] == a@);
        let ghost t0 = av.take(i as int);
        let ghost t1 = av.take(i + 1);
        assert(t1 =~= t0.push(a@));
        assert forall|w1: Seq<char>, w2: Seq<char>| has(t1, w1, w2) == (has(t0, w1, w2) || a@ == w1 || a@ == w2) by {
            if has(t1, w1, w2) {
                let k = choose|k: int| 0 <= k < t1.len() && (t1[k] == w1 || t1[k] == w2);
                if k < t0.len() {
                    assert(t0[k] == t1[k]);
                }
            }
            if has(t0, w1, w2) {
                let k = choose|k: int| 0 <= k < t0.len() && (t0[k] == w1 || t0[k] == w2);
                assert(t1[k] == t0[k]);
            }
            if a@ == w1 || a@ == w2 {
                assert(t1[i as int] == a@);
            }
        }
        proof {
            reveal_with_fuel(Seq::filter, 2);
            assert(t1.drop_last() =~= t0);
        }
        let ghost before = views(st.paths@);
        let s = eq_lit(a, "-s") || eq_lit(a, "--symbolic");
        let f = eq_lit(a, "-f") || eq_lit(a, "--force");
        let v = eq_lit(a, "-v") || eq_lit(a, "--verbose");
        if s {
            st.symbolic = true;
        }
        if f {
            st.force = true;
        }
        if v {
            st.verbose = true;
        }
        if !s && !f && !v {
            st.paths.push(args[i].clone());
            assert(views(st.paths@) =~= before.push(a@));
        }
        i = i + 1;
    }
    assert(av.take(n as int) =~= av);
    st
}

/// Where the link to `source` is made: inside a target directory under the
/// source's file name, else the target itself.
pub open spec fn link_spec(source: Seq<char>, target: Seq<char>, target_is_dir: bool) -> Seq<char> {
    if target_is_dir {
        join_path_spec(target, file_name_spec(source))
    } else {
        target
    }
}

/// Why links cannot be made.
pub enum LnError {
    /// Fewer than two paths.
    MissingOperand,
    /// Several sources and a target that is not a directory.
    NotADirectory(String),
}

/// The links of an invocation, each source with the path of its link (the
/// last path is the target), or why there are none.
pub open spec fn links_spec(paths: Seq<Seq<char>>, target_is_dir: bool) -> Result<Seq<(Seq<char>, Seq<char>)>, Option<Seq<char>>> {
    if paths.len() < 2 {
        Err(None)
    } else {
        let target = paths.last();
        let sources = paths.drop_last();
        if sources.len() > 1 && !target_is_dir {
            Err(Some(target))
        } else {
            Ok(sources.map_values(|s: Seq<char>| (s, link_spec(s, target, target_is_dir))))
        }
    }
}

pub open spec fn pair_views(v: Seq<(String, String)>) -> Seq<(Seq<char>, Seq<char>)> {
    v.map_values(|p: (String, String)| (p.0@, p.1@))
}

fn link_path(source: &str, target: &str, target_is_dir: bool) -> (r: String)
    ensures
        r@ == link_spec(source@, target@, target_is_dir),
{
    if target_is_dir {
        let f = file_name(source);
        join_path(target, f.as_str())
    } else {
        crate::text::to_string(target)
    }
}

/// The links of an invocation (see `links_spec`); whether the target is a
/// directory is told by `target_is_dir`.
pub fn plan_links(paths: &Vec<String>, target_is_dir: bool) -> (r: Result<Vec<(String, String)>, LnError>)
    ensures
        match (r, links_spec(views(paths@), target_is_dir)) {
            (Ok(a), Ok(b)) => pair_views(a@) == b,
            (Err(LnError::MissingOperand), Err(None)) => true,
            (Err(LnError::NotADirectory(a)), Err(Some(b))) => a@ == b,
            _ => false,
        },
{
    let ghost pv = views(paths@);
    let n = paths.len();
    if n < 2 {
        return Err(LnError::MissingOperand);
    }
    assert(pv.last() == paths@[n - 1]@);
    let target = paths[n - 1].as_str();
    if n - 1 > 1 && !target_is_dir {
        return Err(LnError::NotADirectory(paths[n - 1].clone()));
    }
    let ghost srcs = pv.drop_last();
    let ghost f = |s: Seq<char>| (s, link_spec(s, pv.last(), target_is_dir));
    let mut out: Vec<(String, String)> = Vec::new();
    let mut i: usize = 0;
    while i < n - 1
        invariant
            n == paths@.len(),
            n >= 2,
            pv == views(paths@),
            srcs == pv.drop_last(),
            target@ == pv.last(),
            f == (|s: Seq<char>| (s, link_spec(s, pv.last(), target_is_dir))),
            i <= n - 1,
            pair_views(out@) == srcs.take(i as int).map_values(f),
        decreases n - 1 - i,
    {
        assert(srcs[i as int] == paths@[i as int]@);
        let l = link_path(paths[i].as_str(), target, target_is_dir);
        let ghost before = out@;
        out.push((paths[i].clone(), l));
        assert(pair_views(out@) =~= pair_views(before).push(f(srcs[i as int])));
        assert(srcs.take(i + 1).map_values(f) =~= srcs.take(i as int).map_values(f).push(f(srcs[i as int])));
        i = i + 1;
    }
    assert(srcs.take((n - 1) as int) =~= srcs);
    Ok(out)
}

/// The line printed under `-v` for a made link.
pub fn made_line(link: &str, source: &str) -> (r: String)
    ensures
        r@ == "'"@ + link@ + "' -> '"@ + source@ + "'"@,
{
    let mut v = chars_of("'");
    push_all(&mut v, chars_of(link).as_slice());
    push_str(&mut v, "' -> '");
    push_all(&mut v, chars_of(source).as_slice());
    push_str(&mut v, "'");
    string_of(v.as_slice())
}

} // verus!
