//! ipcs: which facilities an invocation shows, and the lines of their
//! tables.
use vstd::prelude::*;
use crate::num::{pad_right, pad_right_exec};
use crate::text::{chars_of, chars_of_all, eq_lit, lines, lines_exec, push_all, push_str, skip_n, string_of, views, vviews, words, words_exec};

verus! {

/// Which facilities an invocation shows.
pub struct IpcsArgs {
    pub shm: bool,
    pub msg: bool,
    pub sem: bool,
}

/// Reading the words from `i` on; `None`: help was asked for. Unknown
/// words are ignored.
pub open spec fn scan(args: Seq<Seq<char>>, i: int, st: IpcsArgs) -> Option<IpcsArgs>
    decreases args.len() - i,
{
    if i < 0 || i >= args.len() {
        Some(st)
    } else {
        let a = args[i];
        if a == "-m"@ {
            scan(args, i + 1, IpcsArgs { shm: true, ..st })
        } else if a == "-q"@ {
            scan(args, i + 1, IpcsArgs { msg: true, ..st })
        } else if a == "-s"@ {
            scan(args, i + 1, IpcsArgs { sem: true, ..st })
        } else if a == "-a"@ || a == "--all"@ {
            scan(args, i + 1, IpcsArgs { shm: true, msg: true, sem: true })
        } else if a == "-h"@ || a == "--help"@ {
            None
        } else {
            scan(args, i + 1, st)
        }
    }
}

/// What is shown: what the options chose, or everything where they chose
/// nothing.
pub open spec fn shown(st: IpcsArgs) -> IpcsArgs {
    if !st.shm && !st.msg && !st.sem {
        IpcsArgs { shm: true, msg: true, sem: true }
    } else {
        st
    }
}

/// The facilities an invocation shows; `None` where help was asked for.
pub fn parse_args(args: &[String]) -> (r: Option<IpcsArgs>)
    ensures
        r == match scan(views(args@), 0, IpcsArgs { shm: false, msg: false, sem: false }) {
            Some(st) => Some(shown(st)),
            None => None,
        },
{
    let ghost av = views(args@);
    let cs = chars_of_all(args);
    let n = args.len();
    let mut st = IpcsArgs { shm: false, msg: false, sem: false };
    let mut i: usize = 0;
    while i < n
        invariant
            n == args@.len(),
            cs@.len() == n,
            av == views(args@),
            forall|k: int| 0 <= k < n ==> #[trigger] cs@[k]@ == args@[k]@,
            i <= n,
            scan(av, i as int, st) == scan(av, 0, IpcsArgs { shm: false, msg: false, sem: false }),
        decreases n - i,
    {
        let a = cs[i].as_slice();
        assert(av[i as int] == a@);
        if eq_lit(a, "-m") {
            st.shm = true;
        } else if eq_lit(a, "-q") {
            st.msg = true;
        } else if eq_lit(a, "-s") {
            st.sem = true;
        } else if eq_lit(a, "-a") || eq_lit(a, "--all") {
            st = IpcsArgs { shm: true, msg: true, sem: true };
        } else if eq_lit(a, "-h") || eq_lit(a, "--help") {
            return None;
        }
        i = i + 1;
    }
    if !st.shm && !st.msg && !st.sem {
        st = IpcsArgs { shm: true, msg: true, sem: true };
    }
    Some(st)
}

/// A row of a table: five columns, each padded to ten characters, apart by
/// one space.
pub open spec fn row(c: Seq<Seq<char>>) -> Seq<char>
    recommends
        c.len() == 5,
{
    pad_right(c[0], 10) + " "@ + pad_right(c[1], 10) + " "@ + pad_right(c[2], 10) + " "@ + pad_right(c[3], 10)
        + " "@ + pad_right(c[4], 10)
}

/// `row` of five columns.
pub fn row_line(c0: &[char], c1: &[char], c2: &[char], c3: &[char], c4: &[char]) -> (r: Vec<char>)
    ensures
        r@ == row(seq![c0@, c1@, c2@, c3@, c4@]),
{
    let mut v = pad_right_exec(c0, 10);
    push_str(&mut v, " ");
    push_all(&mut v, pad_right_exec(c1, 10).as_slice());
    push_str(&mut v, " ");
    push_all(&mut v, pad_right_exec(c2, 10).as_slice());
    push_str(&mut v, " ");
    push_all(&mut v, pad_right_exec(c3, 10).as_slice());
    push_str(&mut v, " ");
    push_all(&mut v, pad_right_exec(c4, 10).as_slice());
    v
}

/// The heading row of a table with this name for its second and last
/// columns.
pub fn heading(id_name: &str, size_name: &str) -> (r: String)
    ensures
        r@ == row(seq!["key"@, id_name@, "owner"@, "perms"@, size_name@]),
{
    let r = row_line(
        chars_of("key").as_slice(),
        chars_of(id_name).as_slice(),
        chars_of("owner").as_slice(),
        chars_of("perms").as_slice(),
        chars_of(size_name).as_slice(),
    );
    string_of(r.as_slice())
}

/// The row of a line of the kernel's table: its first five words (the
/// fifth empty where there are four), for lines of at least four words.
pub open spec fn line_row(l: Seq<char>) -> Option<Seq<char>> {
    let w = words(l);
    if w.len() >= 4 {
        Some(row(seq![w[0], w[1], w[2], w[3], if w.len() > 4 { w[4] } else { seq![] }]))
    } else {
        None
    }
}

pub open spec fn table_rows(ls: Seq<Seq<char>>) -> Seq<Seq<char>>
    decreases ls.len(),
{
    if ls.len() == 0 {
        seq![]
    } else {
        let rest = table_rows(ls.drop_last());
        match line_row(ls.last()) {
            Some(r) => rest.push(r),
            None => rest,
        }
    }
}

/// The rows of a kernel table, its heading line skipped.
pub fn rows(table: &str) -> (r: Vec<String>)
    ensures
        views(r@) == table_rows(skip_n(lines(table@), 1)),
{
    let ls = lines_exec(chars_of(table).as_slice());
    let ghost lv = vviews(ls@);
    let mut out: Vec<String> = Vec::new();
    assert(views(out@) =~= Seq::<Seq<char>>::empty());
    if ls.len() <= 1 {
        return out;
    }
    let mut i: usize = 1;
    assert(lv.skip(1).take(0) =~= Seq::<Seq<char>>::empty());
    while i < ls.len()
        invariant
            1 <= i <= ls@.len(),
            lv == vviews(ls@),
            lv == lines(table@),
            views(out@) == table_rows(lv.skip(1).take(i - 1)),
        decreases ls@.len() - i,
    {
        let l = ls[i].as_slice();
        assert(lv.skip(1).take(i + 1 - 1).drop_last() =~= lv.skip(1).take(i - 1));
        assert(lv.skip(1).take(i + 1 - 1).last() == l@);
        let w = words_exec(l);
        let ghost wv = vviews(w@);
        if w.len() >= 4 {
            assert(wv[0] == w@[0]@ && wv[1] == w@[1]@ && wv[2] == w@[2]@ && wv[3] == w@[3]@);
            let empty: Vec<char> = Vec::new();
            let last = if w.len() > 4 {
                assert(wv[4] == w@[4]@);
                w[4].as_slice()
            } else {
                empty.as_slice()
            };
            let r = row_line(w[0].as_slice(), w[1].as_slice(), w[2].as_slice(), w[3].as_slice(), last);
            let ghost before = views(out@);
            out.push(string_of(r.as_slice()));
            assert(views(out@) =~= before.push(r@));
        }
        i = i + 1;
    }
    assert(lv.skip(1).take(ls@.len() - 1) =~= lv.skip(1));
    out
}

} // verus!
