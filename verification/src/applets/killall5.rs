//! killall5: its options, and which processes it signals.
use vstd::prelude::*;
use crate::applets::kill::i32_of;
use crate::num::parse_i32_exec;
use crate::text::{chars_of, chars_of_all, eq_lit, slice_chars, views, vviews, words, words_exec};

verus! {

/// Reading the words from `i` on: `-o PID` (omitted where it is a number),
/// `-N` (signal N where it is a number); others are ignored.
pub open spec fn args_scan(args: Seq<Seq<char>>, i: int, sig: i32, omit: Seq<i32>) -> (i32, Seq<i32>)
    decreases args.len() - i,
{
    if i < 0 || i >= args.len() {
        (sig, omit)
    } else {
        let a = args[i];
        if a == "-o"@ {
            if i + 1 < args.len() {
                match i32_of(args[i + 1]) {
                    Some(p) => args_scan(args, i + 2, sig, omit.push(p)),
                    None => args_scan(args, i + 2, sig, omit),
                }
            } else {
                (sig, omit)
            }
        } else if a.len() > 0 && a[0] == '-' {
            match i32_of(a.skip(1)) {
                Some(n) => args_scan(args, i + 1, n, omit),
                None => args_scan(args, i + 1, sig, omit),
            }
        } else {
            args_scan(args, i + 1, sig, omit)
        }
    }
}

/// The signal and the processes to leave alone (see `args_scan`).
pub fn parse_args(args: &[String]) -> (r: (i32, Vec<i32>))
    ensures
        args_scan(views(args@), 0, 15, seq![]) == (r.0, r.1@),
{
    let ghost av = views(args@);
    let cs = chars_of_all(args);
    let n = args.len();
    let mut sig: i32 = 15;
    let mut omit: Vec<i32> = Vec::new();
    let mut i: usize = 0;
    while i < n
        invariant
            n == args@.len(),
            cs@.len() == n,
            av == views(args@),
            forall|k: int| 0 <= k < n ==> #[trigger] cs@[k]@ == args@[k]@,
            i <= n,
            args_scan(av, i as int, sig, omit@) == args_scan(av, 0, 15, seq![]),
        decreases n - i,
    {
        let a = cs[i].as_slice();
        assert(av[i as int] == a@);
        if eq_lit(a, "-o") {
            if i + 1 < n {
                assert(av[i + 1] == cs@[i + 1]@);
                match parse_i32_exec(cs[i + 1].as_slice()) {
                    Some(p) => omit.push(p),
                    None => {},
                }
                i = i + 2;
            } else {
                i = n;
            }
        } else if a.len() > 0 && a[0] == '-' {
            let rest = slice_chars(a, 1, a.len());
            assert(rest@ =~= a@.skip(1));
            match parse_i32_exec(rest.as_slice()) {
                Some(s) => {
                    sig = s;
                },
                None => {},
            }
            i = i + 1;
        } else {
            i = i + 1;
        }
    }
    (sig, omit)
}

/// The text after the last `)` of a `/proc/PID/stat` line (all of it
/// where there is none).
pub open spec fn after_last_paren(s: Seq<char>) -> Seq<char>
    decreases s.len(),
{
    if s.len() == 0 {
        s
    } else if s.last() == ')' {
        seq![]
    } else {
        after_last_paren(s.drop_last()).push(s.last())
    }
}

/// The session of a process, from its `stat` line: the fourth field after
/// the command name, where it is a number.
pub open spec fn stat_session(stat: Seq<char>) -> Option<i32> {
    let w = words(after_last_paren(stat));
    if w.len() > 3 {
        i32_of(w[3])
    } else {
        None
    }
}

/// Whether process `pid` is signalled: not init or below, not killall5
/// itself or its parent, not omitted, and not of killall5's session (by its
/// `stat` line, where it could be read).
pub open spec fn signalled(pid: i32, me: i32, parent: i32, session: i32, omit: Seq<i32>, stat: Option<Seq<char>>) -> bool {
    &&& pid > 1
    &&& pid != me
    &&& pid != parent
    &&& !omit.contains(pid)
    &&& match stat {
        Some(s) => stat_session(s) != Some(session),
        None => true,
    }
}

/// Whether a process is signalled (see `signalled`).
pub fn should_signal(pid: i32, me: i32, parent: i32, session: i32, omit: &Vec<i32>, stat: Option<&str>) -> (r: bool)
    ensures
        r == signalled(
            pid,
            me,
            parent,
            session,
            omit@,
            match stat {
                Some(s) => Some(s@),
                None => None,
            },
        ),
{
    if pid <= 1 || pid == me || pid == parent {
        return false;
    }
    let mut k: usize = 0;
    while k < omit.len()
        invariant
            k <= omit@.len(),
            forall|j: int| 0 <= j < k ==> omit@[j] != pid,
        decreases omit@.len() - k,
    {
        if omit[k] == pid {
            assert(omit@.contains(pid));
            return false;
        }
        k = k + 1;
    }
    match stat {
        None => true,
        Some(s) => {
            let c = chars_of(s);
            let mut e: usize = c.len();
            assert(c@.take(e as int) =~= c@);
            assert(c@.skip(e as int) =~= Seq::<char>::empty());
            assert(after_last_paren(c@) =~= after_last_paren(c@.take(e as int)) + c@.skip(e as int));
            while e > 0 && c[e - 1] != ')'
                invariant
                    e <= c@.len(),
                    after_last_paren(c@) == after_last_paren(c@.take(e as int)) + c@.skip(e as int),
                decreases e,
            {
                assert(c@.take(e as int).drop_last() =~= c@.take(e - 1));
                assert(c@.skip(e - 1) =~= seq![c@[e - 1]] + c@.skip(e as int));
                e = e - 1;
            }
            let tail = slice_chars(c.as_slice(), e, c.len());
            assert(tail@ =~= after_last_paren(c@)) by {
                if e > 0 {
                    assert(after_last_paren(c@.take(e as int)) =~= Seq::<char>::empty());
                } else {
                    assert(c@.take(0) =~= Seq::<char>::empty());
                }
            }
            let w = words_exec(tail.as_slice());
            if w.len() > 3 {
                assert(vviews(w@)[3] == w@[3]@);
                match parse_i32_exec(w[3].as_slice()) {
                    Some(sid) => sid != session,
                    None => true,
                }
            } else {
                true
            }
        },
    }
}

} // verus!
