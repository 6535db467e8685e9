//! head: its options, the files it reads, and the header before each.
use vstd::prelude::*;
use crate::num::{parse_dec, parse_dec_exec};
use crate::text::{chars_of, chars_of_all, eq_lit, push_all, push_str, slice_chars, starts_with, starts_with_lit, string_of, to_string, views};

verus! {

/// The options of an invocation: the number of lines, or of bytes where
/// one is given, and the files.
pub struct HeadArgs {
    pub lines: usize,
    pub bytes: Option<usize>,
    pub files: Vec<String>,
}

pub open spec fn num_or(s: Seq<char>, d: usize) -> usize {
    match parse_dec(s, usize::MAX as nat) {
        Some(v) => v as usize,
        None => d,
    }
}

/// Reading the words from `i` on: `-n N`, `-c N`, `-nN`, `-cN` (10 lines
/// or 0 bytes where N is not a number), `-N` for N lines; every other word
/// is a file.
pub open spec fn args_scan(args: Seq<Seq<char>>, i: int, lines: usize, bytes: Option<usize>, files: Seq<Seq<char>>) -> (usize, Option<usize>, Seq<Seq<char>>)
    decreases args.len() - i,
{
    if i < 0 || i >= args.len() {
        (lines, bytes, files)
    } else {
        let a = args[i];
        if a == "-n"@ {
            if i + 1 < args.len() {
                args_scan(args, i + 2, num_or(args[i + 1], 10), bytes, files)
            } else {
                (lines, bytes, files)
            }
        } else if a == "-c"@ {
            if i + 1 < args.len() {
                args_scan(args, i + 2, lines, Some(num_or(args[i + 1], 0)), files)
            } else {
                (lines, bytes, files)
            }
        } else if starts_with(a, "-n"@) {
            args_scan(args, i + 1, num_or(a.skip(2), 10), bytes, files)
        } else if starts_with(a, "-c"@) {
            args_scan(args, i + 1, lines, Some(num_or(a.skip(2), 0)), files)
        } else if starts_with(a, "-"@) && parse_dec(a.skip(1), usize::MAX as nat) is Some {
            args_scan(args, i + 1, num_or(a.skip(1), 10), bytes, files)
        } else {
            args_scan(args, i + 1, lines, bytes, files.push(a))
        }
    }
}

/// The files read: those named, else standard input (`-`).
pub open spec fn files_read(files: Seq<Seq<char>>) -> Seq<Seq<char>> {
    if files.len() == 0 {
        seq!["-"@]
    } else {
        files
    }
}

/// Reads the options of an invocation (see `args_scan`); the files are
/// those read (see `files_read`).
pub fn parse_args(args: &[String]) -> (r: HeadArgs)
    ensures
        ({
            let s = args_scan(views(args@), 0, 10, None, seq![]);
            r.lines == s.0 && r.bytes == s.1 && views(r.files@) == files_read(s.2)
        }),
{
    let ghost av = views(args@);
    let cs = chars_of_all(args);
    let n = args.len();
    let mut lines: usize = 10;
    let mut bytes: Option<usize> = None;
    let mut files: Vec<String> = Vec::new();
    assert(views(files@) =~= Seq::<Seq<char>>::empty());
    proof {
        reveal_strlit("-n");
        reveal_strlit("-c");
        reveal_strlit("-");
    }
    let mut i: usize = 0;
    while i < n
        invariant
            n == args@.len(),
            cs@.len() == n,
            av == views(args@),
            forall|k: int| 0 <= k < n ==> #[trigger] cs@[k]@ == args@[k]@,
            i <= n,
            "-n"@.len() == 2 && "-c"@.len() == 2 && "-"@.len() == 1,
            args_scan(av, i as int, lines, bytes, views(files@)) == args_scan(av, 0, 10, None, seq![]),
        decreases n - i,
    {
        let a = cs[i].as_slice();
        assert(av[i as int] == a@);
        if eq_lit(a, "-n") {
            if i + 1 < n {
                assert(av[i + 1] == cs@[i + 1]@);
                lines = match parse_dec_exec(cs[i + 1].as_slice(), usize::MAX as u64) {
                    Some(v) => v as usize,
                    None => 10,
                };
                i = i + 2;
            } else {
                i = n;
            }
        } else if eq_lit(a, "-c") {
            if i + 1 < n {
                assert(av[i + 1] == cs@[i + 1]@);
                bytes = Some(match parse_dec_exec(cs[i + 1].as_slice(), usize::MAX as u64) {
                    Some(v) => v as usize,
                    None => 0,
                });
                i = i + 2;
            } else {
                i = n;
            }
        } else if starts_with_lit(a, "-n") {
            let rest = slice_chars(a, 2, a.len());
            assert(rest@ =~= a@.skip(2));
            lines = match parse_dec_exec(rest.as_slice(), usize::MAX as u64) {
                Some(v) => v as usize,
                None => 10,
            };
            i = i + 1;
        } else if starts_with_lit(a, "-c") {
            let rest = slice_chars(a, 2, a.len());
            assert(rest@ =~= a@.skip(2));
            bytes = Some(match parse_dec_exec(rest.as_slice(), usize::MAX as u64) {
                Some(v) => v as usize,
                None => 0,
            });
            i = i + 1;
        } else {
            let num = if starts_with_lit(a, "-") {
                let rest = slice_chars(a, 1, a.len());
                assert(rest@ =~= a@.skip(1));
                parse_dec_exec(rest.as_slice(), usize::MAX as u64)
            } else {
                None
            };
            match num {
                Some(v) => {
                    lines = v as usize;
                },
                None => {
                    let ghost before = views(files@);
                    files.push(args[i].clone());
                    assert(views(files@) =~= before.push(a@));
                },
            }
            i = i + 1;
        }
    }
    if files.len() == 0 {
        files.push(to_string("-"));
        assert(views(files@) =~= seq!["-"@]);
    }
    HeadArgs { lines, bytes, files }
}

/// The header before a file's part when several files are read.
pub fn header(file: &str) -> (r: String)
    ensures
        r@ == "==> "@ + file@ + " <=="@,
{
    let mut v = chars_of("==> ");
    push_all(&mut v, chars_of(file).as_slice());
    push_str(&mut v, " <==");
    string_of(v.as_slice())
}

} // verus!
