//! klogd: its options and how it reads the priority of each kernel
//! message.
use vstd::prelude::*;
use crate::num::{parse_i32_exec, parse_signed};
use crate::text::{
    chars_of, chars_of_all, eq_lit, find_char, find_char_exec, lines, lines_exec, slice_chars,
    starts_with, starts_with_lit, string_of, utf8_text, views, vviews,
};

verus! {

/// What the options of an invocation set: stay in the foreground, and the
/// console level (negative: leave it as it is).
pub struct KlogdArgs {
    pub foreground: bool,
    pub console_level: i32,
}

/// A number as `str::parse::<i32>` reads it, else `dflt`.
pub open spec fn i32_or(s: Seq<char>, dflt: i32) -> i32 {
    match parse_signed(s, 10, i32::MIN as int, i32::MAX as int) {
        Some(v) => v as i32,
        None => dflt,
    }
}

/// Reading the words from `i` on; `None`: help was asked for. `-c` alone
/// sets level 7, `-cN` level N (7 where N is no number).
pub open spec fn scan(args: Seq<Seq<char>>, i: int, st: KlogdArgs) -> Option<KlogdArgs>
    decreases args.len() - i,
{
    if i < 0 || i >= args.len() {
        Some(st)
    } else {
        let a = args[i];
        if a == "-n"@ {
            scan(args, i + 1, KlogdArgs { foreground: true, ..st })
        } else if a == "-c"@ {
            scan(args, i + 1, KlogdArgs { console_level: 7, ..st })
        } else if a == "-h"@ || a == "--help"@ {
            None
        } else if starts_with(a, "-c"@) {
            scan(args, i + 1, KlogdArgs { console_level: i32_or(a.skip(2), 7), ..st })
        } else {
            scan(args, i + 1, st)
        }
    }
}

/// Reads the options of an invocation; `None` where help was asked for.
pub fn parse_args(args: &[String]) -> (r: Option<KlogdArgs>)
    ensures
        r == scan(views(args@), 0, KlogdArgs { foreground: false, console_level: -1i32 }),
{
    let ghost av = views(args@);
    let cs = chars_of_all(args);
    let n = args.len();
    let mut st = KlogdArgs { foreground: false, console_level: -1 };
    let mut i: usize = 0;
    while i < n
        invariant
            n == args@.len(),
            cs@.len() == n,
            av == views(args@),
            forall|k: int| 0 <= k < n ==> #[trigger] cs@[k]@ == args@[k]@,
            i <= n,
            scan(av, i as int, st) == scan(av, 0, KlogdArgs { foreground: false, console_level: -1i32 }),
        decreases n - i,
    {
        let a = cs[i].as_slice();
        assert(av[i as int] == a@);
        if eq_lit(a, "-n") {
            st.foreground = true;
        } else if eq_lit(a, "-c") {
            st.console_level = 7;
        } else if eq_lit(a, "-h") || eq_lit(a, "--help") {
            return None;
        } else if starts_with_lit(a, "-c") {
            proof {
                reveal_strlit("-c");
            }
            let rest = slice_chars(a, 2, a.len());
            assert(rest@ =~= a@.skip(2));
            st.console_level = match parse_i32_exec(rest.as_slice()) {
                Some(v) => v,
                None => 7,
            };
        }
        i = i + 1;
    }
    Some(st)
}

/// The priority and text of a kernel message line: a leading `<N>` gives
/// the priority (6 where N is no number) and the text follows it; without
/// one, priority 6 and the whole line.
pub open spec fn message_spec(l: Seq<char>) -> (i32, Seq<char>) {
    if l.len() > 0 && l[0] == '<' {
        match find_char(l, '>') {
            Some(e) => (i32_or(l.subrange(1, e), 6), l.skip(e + 1)),
            None => (6, l),
        }
    } else {
        (6, l)
    }
}

/// `message_spec` of one line.
pub fn message(l: &[char]) -> (r: (i32, Vec<char>))
    ensures
        (r.0, r.1@) == message_spec(l@),
{
    if l.len() > 0 && l[0] == '<' {
        match find_char_exec(l, '>') {
            Some(e) => {
                assert(e >= 1);
                let p = slice_chars(l, 1, e);
                let prio = match parse_i32_exec(p.as_slice()) {
                    Some(v) => v,
                    None => 6,
                };
                let rest = slice_chars(l, e + 1, l.len());
                assert(rest@ =~= l@.skip(e + 1));
                (prio, rest)
            },
            None => (6, crate::text::copy_chars(l)),
        }
    } else {
        (6, crate::text::copy_chars(l))
    }
}

/// The messages of what one read of the kernel log gave: its lines, each
/// read by `message_spec`; none where the bytes are not UTF-8.
pub fn buffer_messages(buf: &[u8]) -> (r: Vec<(i32, String)>)
    ensures
        !vstd::utf8::valid_utf8(buf@) ==> r@.len() == 0,
        vstd::utf8::valid_utf8(buf@) ==> (r@.len() == lines(vstd::utf8::decode_utf8(buf@)).len()
            && forall|k: int| 0 <= k < r@.len() ==> (#[trigger] r@[k]).0 == message_spec(lines(vstd::utf8::decode_utf8(buf@))[k]).0
                && r@[k].1@ == message_spec(lines(vstd::utf8::decode_utf8(buf@))[k]).1),
{
    let mut out: Vec<(i32, String)> = Vec::new();
    let text = match utf8_text(buf) {
        Some(t) => t,
        None => {
            return out;
        },
    };
    let ls = lines_exec(chars_of(text.as_str()).as_slice());
    let ghost lv = vviews(ls@);
    let mut i: usize = 0;
    while i < ls.len()
        invariant
            i <= ls@.len(),
            lv == vviews(ls@),
            lv == lines(vstd::utf8::decode_utf8(buf@)),
            vstd::utf8::valid_utf8(buf@),
            out@.len() == i,
            forall|k: int| 0 <= k < i ==> (#[trigger] out@[k]).0 == message_spec(lv[k]).0 && out@[k].1@ == message_spec(lv[k]).1,
        decreases ls@.len() - i,
    {
        assert(lv[i as int] == ls@[i as int]@);
        let (p, m) = message(ls[i].as_slice());
        out.push((p, string_of(m.as_slice())));
        i = i + 1;
    }
    out
}

} // verus!
