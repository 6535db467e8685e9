//! logread: its options.
use vstd::prelude::*;
use crate::text::{chars_of_all, eq_lit, starts_with, starts_with_lit, to_string, views};

verus! {

/// What the options of an invocation set: follow the log, and the log
/// file.
pub struct LogreadArgs {
    pub follow: bool,
    pub file: String,
}

/// Reading the words from `i` on; `None`: help was asked for. The last word
/// not starting with `-` is the log file.
pub open spec fn scan(args: Seq<Seq<char>>, i: int, follow: bool, file: Seq<char>) -> Option<(bool, Seq<char>)>
    decreases args.len() - i,
{
    if i < 0 || i >= args.len() {
        Some((follow, file))
    } else {
        let a = args[i];
        if a == "-f"@ {
            scan(args, i + 1, true, file)
        } else if a == "-h"@ || a == "--help"@ {
            None
        } else if !starts_with(a, "-"@) {
            scan(args, i + 1, follow, a)
        } else {
            scan(args, i + 1, follow, file)
        }
    }
}

/// Reads the options of an invocation; `None` where help was asked for.
pub fn parse_args(args: &[String]) -> (r: Option<LogreadArgs>)
    ensures
        match r {
            Some(a) => scan(views(args@), 0, false, "/var/log/messages"@) == Some((a.follow, a.file@)),
            None => scan(views(args@), 0, false, "/var/log/messages"@) is None,
        },
{
    let ghost av = views(args@);
    let cs = chars_of_all(args);
    let n = args.len();
    let mut follow = false;
    let mut file = to_string("/var/log/messages");
    let mut i: usize = 0;
    while i < n
        invariant
            n == args@.len(),
            cs@.len() == n,
            av == views(args@),
            forall|k: int| 0 <= k < n ==> #[trigger] cs@[k]@ == args@[k]@,
            i <= n,
            scan(av, i as int, follow, file@) == scan(av, 0, false, "/var/log/messages"@),
        decreases n - i,
    {
        let a = cs[i].as_slice();
        assert(av[i as int] == a@);
        if eq_lit(a, "-f") {
            follow = true;
        } else if eq_lit(a, "-h") || eq_lit(a, "--help") {
            return None;
        } else if !starts_with_lit(a, "-") {
            file = args[i].clone();
        }
        i = i + 1;
    }
    Some(LogreadArgs { follow, file })
}

} // verus!
