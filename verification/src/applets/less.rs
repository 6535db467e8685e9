//! less: its options, the text it pages, and how a key moves the page.
use vstd::prelude::*;
use crate::text::{chars_of, chars_of_all, eq_lit, push_all, push_str, starts_with, starts_with_lit, string_of, views};

verus! {

/// Reading the words from `i` on: the words not starting with `-` are the
/// files; `None`: help was asked for.
pub open spec fn scan(args: Seq<Seq<char>>, i: int, files: Seq<Seq<char>>) -> Option<Seq<Seq<char>>>
    decreases args.len() - i,
{
    if i < 0 || i >= args.len() {
        Some(files)
    } else {
        let a = args[i];
        if a == "-h"@ || a == "--help"@ {
            None
        } else if !starts_with(a, "-"@) {
            scan(args, i + 1, files.push(a))
        } else {
            scan(args, i + 1, files)
        }
    }
}

/// The files of an invocation; `None` where help was asked for.
pub fn parse_args(args: &[String]) -> (r: Option<Vec<String>>)
    ensures
        match r {
            Some(f) => scan(views(args@), 0, seq![]) == Some(views(f@)),
            None => scan(views(args@), 0, seq![]) is None,
        },
{
    let ghost av = views(args@);
    let cs = chars_of_all(args);
    let n = args.len();
    let mut files: Vec<String> = Vec::new();
    let mut i: usize = 0;
    assert(views(files@) =~= Seq::<Seq<char>>::empty());
    while i < n
        invariant
            n == args@.len(),
            cs@.len() == n,
            av == views(args@),
            forall|k: int| 0 <= k < n ==> #[trigger] cs@[k]@ == args@[k]@,
            i <= n,
            scan(av, i as int, views(files@)) == scan(av, 0, seq![]),
        decreases n - i,
    {
        let a = cs[i].as_slice();
        assert(av[i as int] == a@);
        if eq_lit(a, "-h") || eq_lit(a, "--help") {
            return None;
        } else if !starts_with_lit(a, "-") {
            let ghost before = views(files@);
            files.push(args[i].clone());
            assert(views(files@) =~= before.push(a@));
        }
        i = i + 1;
    }
    Some(files)
}

/// The text of the files one after another; with more than one file, each
/// is headed by its name between lines of colons.
pub open spec fn combined(names: Seq<Seq<char>>, texts: Seq<Seq<char>>, many: bool) -> Seq<char>
    decreases names.len(),
{
    if names.len() == 0 || texts.len() == 0 {
        seq![]
    } else {
        let head = if many {
            ":::::::::::\n"@ + names[0] + "\n:::::::::::\n"@
        } else {
            seq![]
        };
        head + texts[0] + combined(names.drop_first(), texts.drop_first(), many)
    }
}

/// `combined` of the files' names and texts (one text per name).
pub fn combine(names: &Vec<String>, texts: &Vec<String>) -> (r: String)
    requires
        names@.len() == texts@.len(),
    ensures
        r@ == combined(views(names@), views(texts@), names@.len() > 1),
{
    let n = names.len();
    let many = n > 1;
    let ghost nv = views(names@);
    let ghost tv = views(texts@);
    let mut v: Vec<char> = Vec::new();
    let mut i: usize = 0;
    assert(nv.skip(0) =~= nv);
    assert(tv.skip(0) =~= tv);
    assert(v@ + combined(nv, tv, many) =~= combined(nv, tv, many));
    while i < n
        invariant
            n == names@.len(),
            n == texts@.len(),
            many == (n > 1),
            nv == views(names@),
            tv == views(texts@),
            i <= n,
            v@ + combined(nv.skip(i as int), tv.skip(i as int), many) == combined(nv, tv, many),
        decreases n - i,
    {
        let ghost v0 = v@;
        assert(nv.skip(i as int)[0] == names@[i as int]@);
        assert(tv.skip(i as int)[0] == texts@[i as int]@);
        assert(nv.skip(i as int).drop_first() =~= nv.skip(i + 1));
        assert(tv.skip(i as int).drop_first() =~= tv.skip(i + 1));
        if many {
            push_str(&mut v, ":::::::::::\n");
            push_all(&mut v, chars_of(names[i].as_str()).as_slice());
            push_str(&mut v, "\n:::::::::::\n");
        }
        push_all(&mut v, chars_of(texts[i].as_str()).as_slice());
        proof {
            let head = if many {
                ":::::::::::\n"@ + nv[i as int] + "\n:::::::::::\n"@
            } else {
                seq![]
            };
            assert(v@ =~= v0 + head + tv[i as int]);
            assert(combined(nv.skip(i as int), tv.skip(i as int), many) == head + tv[i as int]
                + combined(nv.skip(i + 1), tv.skip(i + 1), many));
            assert(v0 + (head + tv[i as int] + combined(nv.skip(i + 1), tv.skip(i + 1), many))
                =~= v@ + combined(nv.skip(i + 1), tv.skip(i + 1), many));
        }
        i = i + 1;
    }
    assert(nv.skip(n as int) =~= Seq::<Seq<char>>::empty());
    assert(v@ =~= v@ + combined(nv.skip(n as int), tv.skip(n as int), many));
    string_of(v.as_slice())
}

/// The lines shown at once: one fewer than the terminal's rows, or 24
/// where it has at most one.
pub fn page_size(rows: usize) -> (r: usize)
    ensures
        r == if rows > 1 { (rows - 1) as usize } else { 24 },
{
    if rows > 1 {
        rows - 1
    } else {
        24
    }
}

/// Where the page that starts at `offset` ends among `n` lines.
pub fn page_end(offset: usize, page: usize, n: usize) -> (r: usize)
    requires
        offset <= n,
    ensures
        r == if offset + page < n { (offset + page) as usize } else { n },
{
    if page < n - offset {
        offset + page
    } else {
        n
    }
}

/// Where the next page starts after a key was read on the page
/// `offset..end` of `n` lines (the page did not reach the end); `None`: the
/// pager stops (`q`, `Q`, or nothing could be read).
pub fn next_offset(key: Option<u8>, offset: usize, end: usize, page: usize, n: usize) -> (r: Option<usize>)
    requires
        offset <= end < n,
    ensures
        r == match key {
            None => None,
            Some(k) => if k == 0x71 || k == 0x51 {
                None
            } else if k == 0x62 {
                Some(if offset >= page { (offset - page) as usize } else { 0 })
            } else if k == 0x0a || k == 0x6a {
                Some((offset + 1) as usize)
            } else if k == 0x6b {
                Some(if offset >= 1 { (offset - 1) as usize } else { 0 })
            } else if k == 0x67 {
                Some(0)
            } else if k == 0x47 {
                Some(if n >= page { (n - page) as usize } else { 0 })
            } else {
                Some(end)
            },
        },
        r matches Some(o) ==> o <= n,
{
    match key {
        None => None,
        Some(k) => {
            if k == 0x71 || k == 0x51 {
                None
            } else if k == 0x62 {
                Some(if offset >= page { offset - page } else { 0 })
            } else if k == 0x0a || k == 0x6a {
                Some(offset + 1)
            } else if k == 0x6b {
                Some(if offset >= 1 { offset - 1 } else { 0 })
            } else if k == 0x67 {
                Some(0)
            } else if k == 0x47 {
                Some(if n >= page { n - page } else { 0 })
            } else {
                Some(end)
            }
        },
    }
}

} // verus!
