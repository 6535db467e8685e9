//! Paths as Rust's `std::path` reads them on Unix: joining, components,
//! the last name, and whether one path lies under another.
use vstd::prelude::*;
use crate::text::{
    chars_of, copy_chars, eq_chars, eq_lit, push_all, push_str, split_exec, split_on,
    starts_with, starts_with_lit, string_of, vviews,
};

verus! {

/// Rust's `Path::join` on Unix: an absolute `rel` replaces `base`, else it
/// follows `base` after a `/` where `base` does not end with one.
pub open spec fn join_path_spec(base: Seq<char>, rel: Seq<char>) -> Seq<char> {
    if starts_with(rel, "/"@) {
        rel
    } else if base.len() > 0 && base.last() != '/' {
        base + "/"@ + rel
    } else {
        base + rel
    }
}

/// `join_path_spec(base, rel)`.
pub fn join_path(base: &str, rel: &str) -> (r: String)
    ensures
        r@ == join_path_spec(base@, rel@),
{
    let b = chars_of(base);
    let rc = chars_of(rel);
    if starts_with_lit(rc.as_slice(), "/") {
        return string_of(rc.as_slice());
    }
    let mut out = copy_chars(b.as_slice());
    if b.len() > 0 && b[b.len() - 1] != '/' {
        push_str(&mut out, "/");
    }
    push_all(&mut out, rc.as_slice());
    string_of(out.as_slice())
}

/// Rust's `Path::components` on Unix, each component as its text: `/` for
/// the root, `.` for a leading current directory, then the names between
/// the `/`s other than empty ones and `.`.
pub open spec fn components(p: Seq<char>) -> Seq<Seq<char>> {
    let pieces = split_on(p, '/');
    let head: Seq<Seq<char>> = if p.len() > 0 && p[0] == '/' {
        seq!["/"@]
    } else if pieces.len() > 0 && pieces[0] == "."@ {
        seq!["."@]
    } else {
        seq![]
    };
    head + pieces.filter(|c: Seq<char>| c.len() > 0 && c != "."@)
}

/// Rust's `Path::starts_with`: the components of `base` begin those of `p`.
pub open spec fn path_starts_with(p: Seq<char>, base: Seq<char>) -> bool {
    let a = components(p);
    let b = components(base);
    b.len() <= a.len() && a.take(b.len() as int) == b
}

fn components_exec(p: &[char]) -> (r: Vec<Vec<char>>)
    ensures
        vviews(r@) == components(p@),
{
    let pieces = split_exec(p, '/');
    let ghost pv = vviews(pieces@);
    let ghost keep = |c: Seq<char>| c.len() > 0 && c != "."@;
    let mut r: Vec<Vec<char>> = Vec::new();
    if p.len() > 0 && p[0] == '/' {
        r.push(chars_of("/"));
    } else if pieces.len() > 0 && eq_lit(pieces[0].as_slice(), ".") {
        assert(pv[0] == pieces@[0]@);
        r.push(chars_of("."));
    } else if pieces.len() > 0 {
        assert(pv[0] == pieces@[0]@);
    }
    let ghost head = vviews(r@);
    assert(pv.take(0).filter(keep) =~= Seq::<Seq<char>>::empty());
    assert(vviews(r@) =~= head + pv.take(0).filter(keep));
    let mut i: usize = 0;
    while i < pieces.len()
        invariant
            i <= pieces@.len(),
            pv == vviews(pieces@),
            keep == (|c: Seq<char>| c.len() > 0 && c != "."@),
            vviews(r@) == head + pv.take(i as int).filter(keep),
        decreases pieces@.len() - i,
    {
        assert(pv[i as int] == pieces@[i as int]@);
        proof {
            reveal_with_fuel(Seq::filter, 2);
            assert(pv.take(i + 1).drop_last() =~= pv.take(i as int));
        }
        let ghost before = vviews(r@);
        if pieces[i].len() > 0 && !eq_lit(pieces[i].as_slice(), ".") {
            r.push(copy_chars(pieces[i].as_slice()));
            assert(vviews(r@) =~= before.push(pv[i as int]));
        }
        assert(vviews(r@) =~= head + pv.take(i + 1).filter(keep));
        i = i + 1;
    }
    assert(pv.take(pieces@.len() as int) =~= pv);
    r
}

/// Whether the path `p` lies under `base`, component by component
/// (`Path::starts_with`).
pub fn path_within(p: &str, base: &str) -> (r: bool)
    ensures
        r == path_starts_with(p@, base@),
{
    let a = components_exec(chars_of(p).as_slice());
    let b = components_exec(chars_of(base).as_slice());
    let ghost av = vviews(a@);
    let ghost bv = vviews(b@);
    assert(av.len() == a@.len() && bv.len() == b@.len());
    assert(av == components(p@) && bv == components(base@));
    if b.len() > a.len() {
        return false;
    }
    let mut i: usize = 0;
    while i < b.len()
        invariant
            i <= b@.len() <= a@.len(),
            av == components(p@),
            bv == components(base@),
            av == vviews(a@),
            bv == vviews(b@),
            forall|k: int| 0 <= k < i ==> #[trigger] av[k] == bv[k],
        decreases b@.len() - i,
    {
        assert(av[i as int] == a@[i as int]@);
        assert(bv[i as int] == b@[i as int]@);
        if !eq_chars(a[i].as_slice(), b[i].as_slice()) {
            assert(av.take(bv.len() as int)[i as int] != bv[i as int]);
            return false;
        }
        i = i + 1;
    }
    assert(av.take(bv.len() as int) =~= bv);
    true
}

/// Rust's `Path::file_name`: the last component where it is a name (not
/// the root, `.` or `..`); empty where there is none.
pub open spec fn file_name_spec(p: Seq<char>) -> Seq<char> {
    let c = components(p);
    if c.len() > 0 && c.last() != "/"@ && c.last() != "."@ && c.last() != ".."@ {
        c.last()
    } else {
        seq![]
    }
}

/// `file_name_spec(p)`.
pub fn file_name(p: &str) -> (r: String)
    ensures
        r@ == file_name_spec(p@),
{
    let c = components_exec(chars_of(p).as_slice());
    let n = c.len();
    if n > 0 {
        assert(vviews(c@).last() == c@[n - 1]@);
        let last = c[n - 1].as_slice();
        if !eq_lit(last, "/") && !eq_lit(last, ".") && !eq_lit(last, "..") {
            return string_of(last);
        }
    }
    string_of(Vec::<char>::new().as_slice())
}

} // verus!
