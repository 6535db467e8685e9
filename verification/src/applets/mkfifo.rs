//! mkfifo: its options: the mode and the names.
use vstd::prelude::*;
use crate::num::{parse_unsigned, parse_unsigned_exec};
use crate::text::{chars_of_all, eq_lit, slice_chars, starts_with, starts_with_lit, views};

verus! {

/// An octal mode, or `0o666` where the text is not one.
pub open spec fn mode_or_default(s: Seq<char>) -> u32 {
    match parse_unsigned(s, 8, u32::MAX as nat) {
        Some(v) => v as u32,
        None => 0o666,
    }
}

/// Reading the words from `i` on: `-m MODE`, `--mode MODE`, `-mMODE`;
/// words that do not start with `-` are names.
pub open spec fn args_scan(args: Seq<Seq<char>>, i: int, mode: u32, names: Seq<Seq<char>>) -> (u32, Seq<Seq<char>>)
    decreases args.len() - i,
{
    if i < 0 || i >= args.len() {
        (mode, names)
    } else {
        let a = args[i];
        if a == "-m"@ || a == "--mode"@ {
            if i + 1 < args.len() {
                args_scan(args, i + 2, mode_or_default(args[i + 1]), names)
            } else {
                (mode, names)
            }
        } else if starts_with(a, "-m"@) {
            args_scan(args, i + 1, mode_or_default(a.skip(2)), names)
        } else if !starts_with(a, "-"@) {
            args_scan(args, i + 1, mode, names.push(a))
        } else {
            args_scan(args, i + 1, mode, names)
        }
    }
}

fn mode_exec(s: &[char]) -> (r: u32)
    ensures
        r == mode_or_default(s@),
{
    match parse_unsigned_exec(s, 8, 0xffff_ffff) {
        Some(v) => v as u32,
        None => 0o666,
    }
}

/// The mode and the names of an invocation (see `args_scan`); without
/// names the usage is printed.
pub fn parse_args(args: &[String]) -> (r: (u32, Vec<String>))
    ensures
        args_scan(views(args@), 0, 0o666, seq![]) == (r.0, views(r.1@)),
{
    let ghost av = views(args@);
    let cs = chars_of_all(args);
    let n = args.len();
    let mut mode: u32 = 0o666;
    let mut names: Vec<String> = Vec::new();
    assert(views(names@) =~= Seq::<Seq<char>>::empty());
    proof {
        reveal_strlit("-m");
    }
    let mut i: usize = 0;
    while i < n
        invariant
            n == args@.len(),
            cs@.len() == n,
            av == views(args@),
            forall|k: int| 0 <= k < n ==> #[trigger] cs@[k]@ == args@[k]@,
            i <= n,
            "-m"@.len() == 2,
            args_scan(av, i as int, mode, views(names@)) == args_scan(av, 0, 0o666, seq![]),
        decreases n - i,
    {
        let a = cs[i].as_slice();
        assert(av[i as int] == a@);
        if eq_lit(a, "-m") || eq_lit(a, "--mode") {
            if i + 1 < n {
                assert(av[i + 1] == cs@[i + 1]@);
                mode = mode_exec(cs[i + 1].as_slice());
                i = i + 2;
            } else {
                i = n;
            }
        } else if starts_with_lit(a, "-m") {
            let rest = slice_chars(a, 2, a.len());
            assert(rest@ =~= a@.skip(2));
            mode = mode_exec(rest.as_slice());
            i = i + 1;
        } else if !starts_with_lit(a, "-") {
            let ghost before = views(names@);
            names.push(args[i].clone());
            assert(views(names@) =~= before.push(a@));
            i = i + 1;
        } else {
            i = i + 1;
        }
    }
    (mode, names)
}

} // verus!
