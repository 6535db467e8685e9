//! fold: its options, and how it breaks a line that is too wide: at word
//! boundaries under `-s`, else every `width` characters.
use vstd::prelude::*;
use crate::num::{parse_dec, parse_dec_exec};
use crate::text::{
    join, lemma_words_nonempty, chars_of, chars_of_all, copy_chars, eq_lit, push_all, slice_chars, starts_with,
    starts_with_lit, string_of, utf8_len, utf8_len_exec, views, vviews, words, words_exec,
};

verus! {

/// The options of an invocation.
pub struct FoldArgs {
    pub width: usize,
    pub break_words: bool,
    pub files: Vec<String>,
}

pub open spec fn width_or_default(s: Seq<char>) -> usize {
    match parse_dec(s, usize::MAX as nat) {
        Some(v) => v as usize,
        None => 80,
    }
}

/// Reading the words from `i` on: `-w WIDTH`, `-wWIDTH` (80 where it is
/// not a number), `-s`; every other word is a file.
pub open spec fn args_scan(args: Seq<Seq<char>>, i: int, width: usize, bw: bool, files: Seq<Seq<char>>) -> (usize, bool, Seq<Seq<char>>)
    decreases args.len() - i,
{
    if i < 0 || i >= args.len() {
        (width, bw, files)
    } else {
        let a = args[i];
        if a == "-w"@ || a == "--width"@ {
            if i + 1 < args.len() {
                args_scan(args, i + 2, width_or_default(args[i + 1]), bw, files)
            } else {
                (width, bw, files)
            }
        } else if a == "-s"@ || a == "--spaces"@ {
            args_scan(args, i + 1, width, true, files)
        } else if starts_with(a, "-w"@) {
            args_scan(args, i + 1, width_or_default(a.skip(2)), bw, files)
        } else {
            args_scan(args, i + 1, width, bw, files.push(a))
        }
    }
}

/// Reads the options of an invocation (see `args_scan`).
pub fn parse_args(args: &[String]) -> (r: FoldArgs)
    ensures
        args_scan(views(args@), 0, 80, false, seq![]) == (r.width, r.break_words, views(r.files@)),
{
    let ghost av = views(args@);
    let cs = chars_of_all(args);
    let n = args.len();
    let mut width: usize = 80;
    let mut bw = false;
    let mut files: Vec<String> = Vec::new();
    assert(views(files@) =~= Seq::<Seq<char>>::empty());
    let mut i: usize = 0;
    while i < n
        invariant
            n == args@.len(),
            cs@.len() == n,
            av == views(args@),
            forall|k: int| 0 <= k < n ==> #[trigger] cs@[k]@ == args@[k]@,
            i <= n,
            args_scan(av, i as int, width, bw, views(files@)) == args_scan(av, 0, 80, false, seq![]),
        decreases n - i,
    {
        let a = cs[i].as_slice();
        assert(av[i as int] == a@);
        if eq_lit(a, "-w") || eq_lit(a, "--width") {
            if i + 1 < n {
                assert(av[i + 1] == cs@[i + 1]@);
                width = match parse_dec_exec(cs[i + 1].as_slice(), usize::MAX as u64) {
                    Some(v) => v as usize,
                    None => 80,
                };
                i = i + 2;
            } else {
                i = n;
            }
        } else if eq_lit(a, "-s") || eq_lit(a, "--spaces") {
            bw = true;
            i = i + 1;
        } else if starts_with_lit(a, "-w") {
            proof {
                reveal_strlit("-w");
            }
            let rest = slice_chars(a, 2, a.len());
            assert(rest@ =~= a@.skip(2));
            width = match parse_dec_exec(rest.as_slice(), usize::MAX as u64) {
                Some(v) => v as usize,
                None => 80,
            };
            i = i + 1;
        } else {
            let ghost before = views(files@);
            files.push(args[i].clone());
            assert(views(files@) =~= before.push(a@));
            i = i + 1;
        }
    }
    FoldArgs { width, break_words: bw, files }
}

/// Packing the words from `i` on into lines of at most `width` bytes,
/// `cur` being the line so far (a word longer than the width has a line
/// of its own).
pub open spec fn pack(ws: Seq<Seq<char>>, i: int, width: nat, cur: Seq<char>, out: Seq<Seq<char>>) -> Seq<Seq<char>>
    decreases ws.len() - i,
{
    if i < 0 || i >= ws.len() {
        if cur.len() > 0 {
            out.push(cur)
        } else {
            out
        }
    } else if cur.len() == 0 {
        pack(ws, i + 1, width, ws[i], out)
    } else if utf8_len(cur) + 1 + utf8_len(ws[i]) <= width {
        pack(ws, i + 1, width, cur + " "@ + ws[i], out)
    } else {
        pack(ws, i + 1, width, ws[i], out.push(cur))
    }
}

/// The pieces of `width` characters (the last may be shorter).
pub open spec fn char_chunks(s: Seq<char>, width: nat) -> Seq<Seq<char>>
    decreases s.len(),
{
    if width == 0 || s.len() == 0 {
        seq![]
    } else if s.len() <= width {
        seq![s]
    } else {
        seq![s.take(width as int)] + char_chunks(s.skip(width as int), width)
    }
}

/// The lines a line becomes: itself where it takes at most `width` bytes,
/// else its words packed under `-s`, else its pieces of `width`
/// characters.
pub open spec fn fold_spec(line: Seq<char>, width: nat, bw: bool) -> Seq<Seq<char>> {
    if utf8_len(line) <= width {
        seq![line]
    } else if bw {
        pack(words(line), 0, width, seq![], seq![])
    } else {
        char_chunks(line, width)
    }
}

/// The lines a line becomes (see `fold_spec`); a width of 0 breaks only
/// under `-s` (breaking into pieces of no characters fails).
pub fn fold_line(line: &str, width: usize, break_words: bool) -> (r: Vec<String>)
    requires
        width > 0 || break_words || utf8_len(line@) == 0,
    ensures
        views(r@) == fold_spec(line@, width as nat, break_words),
{
    let lc = chars_of(line);
    let total = utf8_len_exec(lc.as_slice());
    let mut out: Vec<String> = Vec::new();
    let fits = match total {
        Some(t) => t <= width as u64,
        None => false,
    };
    if fits {
        out.push(crate::text::to_string(line));
        assert(views(out@) =~= seq![line@]);
        return out;
    }
    if break_words {
        let ws = words_exec(lc.as_slice());
        let ghost wv = vviews(ws@);
        let mut cur: Vec<char> = Vec::new();
        let mut i: usize = 0;
        assert(views(out@) =~= Seq::<Seq<char>>::empty());
        while i < ws.len()
            invariant
                i <= ws@.len(),
                wv == vviews(ws@),
                wv == words(line@),
                pack(wv, i as int, width as nat, cur@, views(out@)) == pack(wv, 0, width as nat, seq![], seq![]),
            decreases ws@.len() - i,
        {
            assert(wv[i as int] == ws@[i as int]@);
            if cur.len() == 0 {
                cur = copy_chars(ws[i].as_slice());
            } else {
                let a = utf8_len_exec(cur.as_slice());
                let b = utf8_len_exec(ws[i].as_slice());
                let fit = match (a, b) {
                    (Some(x), Some(y)) => x < u64::MAX - y && x + 1 + y <= width as u64,
                    _ => false,
                };
                if fit {
                    let ghost c0 = cur@;
                    cur.push(' ');
                    push_all(&mut cur, ws[i].as_slice());
                    assert(cur@ =~= c0 + " "@ + wv[i as int]) by {
                        reveal_strlit(" ");
                    }
                } else {
                    let ghost before = views(out@);
                    out.push(string_of(cur.as_slice()));
                    assert(views(out@) =~= before.push(cur@));
                    cur = copy_chars(ws[i].as_slice());
                }
            }
            i = i + 1;
        }
        if cur.len() > 0 {
            let ghost before = views(out@);
            out.push(string_of(cur.as_slice()));
            assert(views(out@) =~= before.push(cur@));
        }
        return out;
    }
    let mut start: usize = 0;
    assert(lc@.skip(0) =~= lc@);
    assert(views(out@) =~= Seq::<Seq<char>>::empty());
    while start < lc.len()
        invariant
            start <= lc@.len(),
            width > 0 || lc@.len() == 0,
            views(out@) + char_chunks(lc@.skip(start as int), width as nat) == char_chunks(line@, width as nat),
            lc@ == line@,
        decreases lc@.len() - start,
    {
        let ghost before = views(out@);
        if lc.len() - start <= width {
            let piece = slice_chars(lc.as_slice(), start, lc.len());
            assert(piece@ =~= lc@.skip(start as int));
            out.push(string_of(piece.as_slice()));
            assert(views(out@) =~= before.push(piece@));
            start = lc.len();
            assert(char_chunks(lc@.skip(start as int), width as nat) =~= Seq::<Seq<char>>::empty());
        } else {
            let piece = slice_chars(lc.as_slice(), start, start + width);
            assert(piece@ =~= lc@.skip(start as int).take(width as int));
            out.push(string_of(piece.as_slice()));
            assert(views(out@) =~= before.push(piece@));
            assert(lc@.skip(start as int).skip(width as int) =~= lc@.skip((start + width) as int));
            start = start + width;
        }
    }
    assert(char_chunks(lc@.skip(start as int), width as nat) =~= Seq::<Seq<char>>::empty());
    out
}


/// Folding at a width without `-s` loses and adds nothing: the pieces put
/// back together are the line, and each piece holds from one to `width`
/// characters.
pub proof fn lemma_chunks_rejoin(s: Seq<char>, width: nat)
    requires
        width > 0,
    ensures
        char_chunks(s, width).flatten() == s,
        forall|i: int|
            0 <= i < char_chunks(s, width).len() ==> 0 < #[trigger] char_chunks(s, width)[i].len() <= width,
    decreases s.len(),
{
    let c = char_chunks(s, width);
    if s.len() == 0 {
    } else if s.len() <= width {
        assert(c.drop_first() =~= Seq::<Seq<char>>::empty());
        assert(c.drop_first().flatten() =~= Seq::<char>::empty());
        assert(c.first() == s);
        assert(c.flatten() =~= s);
    } else {
        let rest = s.skip(width as int);
        lemma_chunks_rejoin(rest, width);
        assert(c.first() == s.take(width as int));
        assert(c.drop_first() =~= char_chunks(rest, width));
        assert(s.take(width as int) + rest =~= s);
        assert forall|i: int| 0 <= i < c.len() implies 0 < #[trigger] c[i].len() <= width by {
            if i > 0 {
                assert(c[i] == char_chunks(rest, width)[i - 1]);
            }
        }
    }
}


proof fn lemma_join_append(a: Seq<Seq<char>>, b: Seq<Seq<char>>, sep: Seq<char>)
    requires
        a.len() > 0,
        b.len() > 0,
    ensures
        join(a + b, sep) == join(a, sep) + sep + join(b, sep),
    decreases b.len(),
{
    if b.len() == 1 {
        assert((a + b).drop_last() =~= a);
        assert((a + b).last() == b[0]);
    } else {
        lemma_join_append(a, b.drop_last(), sep);
        assert((a + b).drop_last() =~= a + b.drop_last());
        assert((a + b).last() == b.last());
        assert(join(a, sep) + sep + join(b.drop_last(), sep) + sep + b.last() =~= join(a, sep) + sep + (join(
            b.drop_last(),
            sep,
        ) + sep + b.last()));
    }
}

/// Joining `a`, the group `m` and `b`: the joined group, with the joined
/// parts around it that are not empty.
proof fn lemma_join_around(a: Seq<Seq<char>>, m: Seq<Seq<char>>, b: Seq<Seq<char>>, sep: Seq<char>)
    requires
        m.len() > 0,
    ensures
        join(a + m + b, sep) == (if a.len() > 0 {
            join(a, sep) + sep
        } else {
            Seq::<char>::empty()
        }) + join(m, sep) + (if b.len() > 0 {
            sep + join(b, sep)
        } else {
            Seq::<char>::empty()
        }),
{
    let e = Seq::<char>::empty();
    let am = a + m;
    if a.len() > 0 {
        lemma_join_append(a, m, sep);
    } else {
        assert(am =~= m);
    }
    if b.len() > 0 {
        lemma_join_append(am, b, sep);
    } else {
        assert(am + b =~= am);
    }
    let left = if a.len() > 0 {
        join(a, sep) + sep
    } else {
        e
    };
    let right = if b.len() > 0 {
        sep + join(b, sep)
    } else {
        e
    };
    assert(join(am, sep) =~= left + join(m, sep));
    assert(join(am + b, sep) =~= left + join(m, sep) + right);
}

/// The line so far, as a list of one line where it is not empty.
pub open spec fn held(cur: Seq<char>) -> Seq<Seq<char>> {
    if cur.len() > 0 {
        seq![cur]
    } else {
        seq![]
    }
}

proof fn lemma_pack_joins(ws: Seq<Seq<char>>, i: int, width: nat, cur: Seq<char>, out: Seq<Seq<char>>)
    requires
        0 <= i <= ws.len(),
        forall|k: int| 0 <= k < ws.len() ==> (#[trigger] ws[k]).len() > 0,
        forall|k: int| 0 <= k < out.len() ==> (#[trigger] out[k]).len() > 0,
    ensures
        join(pack(ws, i, width, cur, out), " "@) == join(out + held(cur) + ws.skip(i), " "@),
    decreases ws.len() - i,
{
    let sp = " "@;
    if i >= ws.len() {
        assert(ws.skip(i) =~= Seq::<Seq<char>>::empty());
        assert(out + held(cur) + ws.skip(i) =~= if cur.len() > 0 {
            out.push(cur)
        } else {
            out
        });
    } else if cur.len() == 0 {
        lemma_pack_joins(ws, i + 1, width, ws[i], out);
        assert(out + held(ws[i]) + ws.skip(i + 1) =~= out + held(cur) + ws.skip(i));
    } else if utf8_len(cur) + 1 + utf8_len(ws[i]) <= width {
        let c2 = cur + sp + ws[i];
        lemma_pack_joins(ws, i + 1, width, c2, out);
        let rest = ws.skip(i + 1);
        lemma_join_around(out, seq![c2], rest, sp);
        lemma_join_around(out, seq![cur, ws[i]], rest, sp);
        assert(join(seq![cur, ws[i]], sp) == join(seq![cur], sp) + sp + ws[i]) by {
            assert(seq![cur, ws[i]].drop_last() =~= seq![cur]);
        }
        assert(join(seq![c2], sp) == c2);
        assert(out + held(c2) + rest =~= out + seq![c2] + rest);
        assert(out + held(cur) + ws.skip(i) =~= out + seq![cur, ws[i]] + rest);
    } else {
        let o2 = out.push(cur);
        assert forall|k: int| 0 <= k < o2.len() implies (#[trigger] o2[k]).len() > 0 by {
            if k < out.len() {
                assert(o2[k] == out[k]);
            }
        }
        lemma_pack_joins(ws, i + 1, width, ws[i], o2);
        assert(o2 + held(ws[i]) + ws.skip(i + 1) =~= out + held(cur) + ws.skip(i));
    }
}

/// Folding with `-s` only breaks lines at spaces and loses no character of
/// the words: the lines made, joined with single spaces, are the words of
/// the line joined with single spaces.
pub proof fn lemma_space_fold_keeps_words(line: Seq<char>, width: nat)
    ensures
        join(fold_spec(line, width, true), " "@) == if utf8_len(line) <= width {
            line
        } else {
            join(words(line), " "@)
        },
{
    let ws = words(line);
    lemma_words_nonempty(line);
    if utf8_len(line) > width {
        lemma_pack_joins(ws, 0, width, seq![], seq![]);
        assert(Seq::<Seq<char>>::empty() + held(seq![]) + ws.skip(0) =~= ws);
    }
}

} // verus!
