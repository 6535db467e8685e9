//! hd: its options; the dump is hexdump's canonical layout.
use vstd::prelude::*;
use crate::num::{parse_dec, parse_dec_exec};
use crate::text::{chars_of_all, eq_lit, starts_with, starts_with_lit, views};

verus! {

/// The options of an invocation: at most `length` bytes, of the files.
pub struct HdArgs {
    pub length: Option<usize>,
    pub files: Vec<String>,
}

/// Reading the words from `i` on: `-n LENGTH` (none where it is not a
/// number); words that do not start with `-` are files. `None`: help was
/// asked for.
pub open spec fn args_scan(args: Seq<Seq<char>>, i: int, length: Option<usize>, files: Seq<Seq<char>>) -> Option<(Option<usize>, Seq<Seq<char>>)>
    decreases args.len() - i,
{
    if i < 0 || i >= args.len() {
        Some((length, files))
    } else {
        let a = args[i];
        if a == "-n"@ {
            if i + 1 < args.len() {
                let l = match parse_dec(args[i + 1], usize::MAX as nat) {
                    Some(x) => Some(x as usize),
                    None => None,
                };
                args_scan(args, i + 2, l, files)
            } else {
                Some((length, files))
            }
        } else if a == "-h"@ || a == "--help"@ {
            None
        } else if !starts_with(a, "-"@) {
            args_scan(args, i + 1, length, files.push(a))
        } else {
            args_scan(args, i + 1, length, files)
        }
    }
}

/// Reads the options of an invocation; `None` where help was asked for.
pub fn parse_args(args: &[String]) -> (r: Option<HdArgs>)
    ensures
        match r {
            Some(a) => args_scan(views(args@), 0, None, seq![]) == Some((a.length, views(a.files@))),
            None => args_scan(views(args@), 0, None, seq![]) is None,
        },
{
    let ghost av = views(args@);
    let cs = chars_of_all(args);
    let n = args.len();
    let mut length: Option<usize> = None;
    let mut files: Vec<String> = Vec::new();
    assert(views(files@) =~= Seq::<Seq<char>>::empty());
    let mut i: usize = 0;
    while i < n
        invariant
            n == args@.len(),
            cs@.len() == n,
            av == views(args@),
            forall|k: int| 0 <= k < n ==> #[trigger] cs@[k]@ == args@[k]@,
            i <= n,
            args_scan(av, i as int, length, views(files@)) == args_scan(av, 0, None, seq![]),
        decreases n - i,
    {
        let a = cs[i].as_slice();
        assert(av[i as int] == a@);
        if eq_lit(a, "-n") {
            if i + 1 < n {
                assert(av[i + 1] == cs@[i + 1]@);
                length = match parse_dec_exec(cs[i + 1].as_slice(), usize::MAX as u64) {
                    Some(x) => Some(x as usize),
                    None => None,
                };
                i = i + 2;
            } else {
                i = n;
            }
        } else if eq_lit(a, "-h") || eq_lit(a, "--help") {
            return None;
        } else if !starts_with_lit(a, "-") {
            let ghost before = views(files@);
            files.push(args[i].clone());
            assert(views(files@) =~= before.push(a@));
            i = i + 1;
        } else {
            i = i + 1;
        }
    }
    Some(HdArgs { length, files })
}

} // verus!
