//! md5sum: its options, the MD5 sums it prints, and the checking of a
//! list of sums.
use md5::Digest;
use vstd::prelude::*;
use crate::applets::hexdump::hex2;
use crate::num::{fmt_hex_padded, is_digit_or_lower, lemma_padded_digit_chars};
use crate::text::{find_char, lemma_find_char_after, strip_cr, chars_of, eq_chars, eq_lit, lines, lines_exec, push_all, push_str, slice_chars, string_of, to_string, views, vviews};

verus! {

/// The options of an invocation: `-c` (check sums listed in the files),
/// and the files.
pub struct Md5sumArgs {
    pub check: bool,
    pub files: Vec<String>,
}

/// Reads the options of an invocation: `-c`/`--check`; every other word
/// is a file; without `-c` and without files, standard input (`-`).
pub fn parse_args(args: &[String]) -> (r: Md5sumArgs)
    ensures
        r.check == exists|k: int| 0 <= k < args@.len() && (#[trigger] args@[k]@ == "-c"@ || args@[k]@ == "--check"@),
        views(r.files@) == if !r.check && views(args@).filter(|a: Seq<char>| a != "-c"@ && a != "--check"@).len() == 0 {
            seq!["-"@]
        } else {
            views(args@).filter(|a: Seq<char>| a != "-c"@ && a != "--check"@)
        },
{
    let ghost av = views(args@);
    let ghost keep = |a: Seq<char>| a != "-c"@ && a != "--check"@;
    let mut check = false;
    let mut files: Vec<String> = Vec::new();
    let mut i: usize = 0;
    assert(av.take(0).filter(keep) =~= Seq::<Seq<char>>::empty());
    while i < args.len()
        invariant
            i <= args@.len(),
            av == views(args@),
            keep == (|a: Seq<char>| a != "-c"@ && a != "--check"@),
            views(files@) == av.take(i as int).filter(keep),
            check == exists|k: int| 0 <= k < i && (#[trigger] args@[k]@ == "-c"@ || args@[k]@ == "--check"@),
        decreases args@.len() - i,
    {
        let a = chars_of(args[i].as_str());
        assert(av[i as int] == a@);
        proof {
            reveal_with_fuel(Seq::filter, 2);
            assert(av.take(i + 1).drop_last() =~= av.take(i as int));
        }
        let ghost before = views(files@);
        if eq_lit(a.as_slice(), "-c") || eq_lit(a.as_slice(), "--check") {
            check = true;
        } else {
            files.push(args[i].clone());
            assert(views(files@) =~= before.push(a@));
        }
        i = i + 1;
    }
    assert(av.take(args@.len() as int) =~= av);
    if !check && files.len() == 0 {
        files.push(to_string("-"));
        assert(views(files@) =~= seq!["-"@]);
    }
    Md5sumArgs { check, files }
}

/// What the md-5 crate computes as the MD5 digest of some bytes.
pub uninterp spec fn md5_of(data: Seq<u8>) -> Seq<u8>;

/// Trusted: md-5's `Md5::digest` (the `Digest` trait), whose result
/// depends on the bytes alone and has 16 bytes.
#[verifier::external_body]
fn md5_digest(data: &[u8]) -> (r: Vec<u8>)
    ensures
        r@ == md5_of(data@),
        r@.len() == 16,
{
    md5::Md5::digest(data).to_vec()
}

/// Bytes in lower-case hex, two digits each.
pub open spec fn hex_bytes(b: Seq<u8>) -> Seq<char>
    decreases b.len(),
{
    if b.len() == 0 {
        seq![]
    } else {
        hex_bytes(b.drop_last()) + hex2(b.last())
    }
}

/// The MD5 sum of `data`, in hex.
pub fn md5_hex(data: &[u8]) -> (r: String)
    ensures
        r@ == hex_bytes(md5_of(data@)),
{
    let d = md5_digest(data);
    let mut v: Vec<char> = Vec::new();
    let mut k: usize = 0;
    while k < d.len()
        invariant
            k <= d@.len(),
            v@ == hex_bytes(d@.take(k as int)),
        decreases d@.len() - k,
    {
        push_all(&mut v, fmt_hex_padded(d[k] as u64, 2).as_slice());
        assert(d@.take(k + 1).drop_last() =~= d@.take(k as int));
        k = k + 1;
    }
    assert(d@.take(d@.len() as int) =~= d@);
    string_of(v.as_slice())
}

/// The line printed for a file's sum.
pub fn sum_line(hash: &str, file: &str) -> (r: String)
    ensures
        r@ == hash@ + "  "@ + file@,
{
    let mut v = chars_of(hash);
    push_str(&mut v, "  ");
    push_all(&mut v, chars_of(file).as_slice());
    string_of(v.as_slice())
}

/// The position of the first two spaces in `s`.
pub open spec fn first_gap(s: Seq<char>, k: int) -> Option<int>
    decreases s.len() - k,
{
    if k < 0 || k + 1 >= s.len() {
        None
    } else if s[k] == ' ' && s[k + 1] == ' ' {
        Some(k)
    } else {
        first_gap(s, k + 1)
    }
}

/// The entry of a check line: the expected sum and the file, split at the
/// first two spaces (`splitn(2, "  ")`); none where there are none.
pub open spec fn check_entry(line: Seq<char>) -> Option<(Seq<char>, Seq<char>)> {
    match first_gap(line, 0) {
        Some(k) => Some((line.take(k), line.skip(k + 2))),
        None => None,
    }
}

/// The entries of a list of sums, line by line.
pub open spec fn entries_of(ls: Seq<Seq<char>>) -> Seq<(Seq<char>, Seq<char>)>
    decreases ls.len(),
{
    if ls.len() == 0 {
        seq![]
    } else {
        match check_entry(ls.last()) {
            Some(e) => entries_of(ls.drop_last()).push(e),
            None => entries_of(ls.drop_last()),
        }
    }
}

fn check_entry_exec(line: &[char]) -> (r: Option<(Vec<char>, Vec<char>)>)
    ensures
        match (r, check_entry(line@)) {
            (Some((a, b)), Some((x, y))) => a@ == x && b@ == y,
            (None, None) => true,
            _ => false,
        },
{
    let mut k: usize = 0;
    let n = line.len();
    while n > 0 && k < n - 1
        invariant
            n == line@.len(),
            k <= line@.len(),
            first_gap(line@, k as int) == first_gap(line@, 0),
            line@.len() > 0 ==> k <= line@.len() - 1,
        decreases line@.len() - k,
    {
        if line[k] == ' ' && line[k + 1] == ' ' {
            let a = slice_chars(line, 0, k);
            let b = slice_chars(line, k + 2, line.len());
            assert(a@ =~= line@.take(k as int));
            assert(b@ =~= line@.skip(k + 2));
            return Some((a, b));
        }
        k = k + 1;
    }
    None
}

/// The entries of a list of sums (see `entries_of`).
pub fn check_entries(content: &str) -> (r: Vec<(String, String)>)
    ensures
        r@.map_values(|p: (String, String)| (p.0@, p.1@)) == entries_of(lines(content@)),
{
    let ls = lines_exec(chars_of(content).as_slice());
    let ghost lv = vviews(ls@);
    let mut r: Vec<(String, String)> = Vec::new();
    let mut i: usize = 0;
    assert(r@.map_values(|p: (String, String)| (p.0@, p.1@)) =~= entries_of(lv.take(0)));
    while i < ls.len()
        invariant
            i <= ls@.len(),
            lv == vviews(ls@),
            lv == lines(content@),
            r@.map_values(|p: (String, String)| (p.0@, p.1@)) == entries_of(lv.take(i as int)),
        decreases ls@.len() - i,
    {
        assert(lv[i as int] == ls@[i as int]@);
        assert(lv.take(i + 1).drop_last() =~= lv.take(i as int));
        let ghost before = r@.map_values(|p: (String, String)| (p.0@, p.1@));
        match check_entry_exec(ls[i].as_slice()) {
            Some((a, b)) => {
                let ghost e = (a@, b@);
                r.push((string_of(a.as_slice()), string_of(b.as_slice())));
                assert(r@.map_values(|p: (String, String)| (p.0@, p.1@)) =~= before.push(e));
            },
            None => {},
        }
        i = i + 1;
    }
    assert(lv.take(ls@.len() as int) =~= lv);
    r
}

/// The verdict on a checked file: `FILE: OK` where its sum is the one
/// expected, else `FILE: FAILED`; and whether it passed.
pub fn verdict(file: &str, hash: &str, expected: &str) -> (r: (String, bool))
    ensures
        r.1 == (hash@ == expected@),
        r.0@ == file@ + if r.1 {
            ": OK"@
        } else {
            ": FAILED"@
        },
{
    let ok = eq_chars(chars_of(hash).as_slice(), chars_of(expected).as_slice());
    let mut v = chars_of(file);
    if ok {
        push_str(&mut v, ": OK");
    } else {
        push_str(&mut v, ": FAILED");
    }
    (string_of(v.as_slice()), ok)
}

proof fn lemma_hex_bytes_chars(b: Seq<u8>)
    ensures
        forall|i: int| 0 <= i < hex_bytes(b).len() ==> is_digit_or_lower(#[trigger] hex_bytes(b)[i]),
    decreases b.len(),
{
    if b.len() > 0 {
        lemma_hex_bytes_chars(b.drop_last());
        lemma_padded_digit_chars(b.last() as nat, 16, 2);
        let h = hex_bytes(b);
        let a = hex_bytes(b.drop_last());
        let c = hex2(b.last());
        assert(h == a + c);
        assert forall|i: int| 0 <= i < h.len() implies is_digit_or_lower(#[trigger] h[i]) by {
            if i < a.len() {
                assert(h[i] == a[i]);
            } else {
                assert(h[i] == c[i - a.len()]);
            }
        }
    }
}

proof fn lemma_gap_at(x: Seq<char>, k: int, g: int)
    requires
        0 <= k <= g,
        g + 1 < x.len(),
        x[g] == ' ' && x[g + 1] == ' ',
        forall|i: int| 0 <= i < g ==> x[i] != ' ',
    ensures
        first_gap(x, k) == Some(g),
    decreases g - k,
{
    if k < g {
        lemma_gap_at(x, k + 1, g);
    }
}

/// md5sum reads back what it prints: the line printed for the sum of some
/// bytes under a file name, read as a list of sums, is one entry holding
/// that sum and that name (for a name without a line break that does not
/// end in a carriage return).
pub proof fn lemma_sum_line_read_back(data: Seq<u8>, file: Seq<char>)
    requires
        forall|i: int| 0 <= i < file.len() ==> file[i] != '\n',
        file.len() > 0 ==> file.last() != '\r',
    ensures
        entries_of(lines(hex_bytes(md5_of(data)) + "  "@ + file + "\n"@)) == seq![(hex_bytes(md5_of(data)), file)],
{
    reveal_strlit("  ");
    reveal_strlit("\n");
    let h = hex_bytes(md5_of(data));
    lemma_hex_bytes_chars(md5_of(data));
    let x = h + "  "@ + file;
    assert forall|i: int| 0 <= i < x.len() implies x[i] != '\n' && (i < h.len() ==> x[i] != ' ') by {
        if i < h.len() {
            assert(x[i] == h[i]);
            assert(is_digit_or_lower(h[i]));
        } else if i >= h.len() + 2 {
            assert(x[i] == file[i - h.len() - 2]);
        }
    }
    let s = x + "\n"@;
    lemma_find_char_after(x, "\n"@, '\n');
    assert(find_char("\n"@, '\n') == Some(0int));
    assert(s.take(x.len() as int) =~= x);
    assert(s.skip(x.len() as int + 1) =~= Seq::<char>::empty());
    if file.len() > 0 {
        assert(x.last() == file.last());
    }
    assert(strip_cr(x) == x);
    assert(find_char(s, '\n') == Some(x.len() as int));
    assert(lines(Seq::<char>::empty()) =~= Seq::<Seq<char>>::empty());
    assert(lines(s) == seq![strip_cr(s.take(x.len() as int))] + lines(s.skip(x.len() as int + 1)));
    assert(lines(s) =~= seq![x]);
    lemma_gap_at(x, 0, h.len() as int);
    assert(x.take(h.len() as int) =~= h);
    assert(x.skip(h.len() as int + 2) =~= file);
    assert(check_entry(x) == Some((h, file)));
    assert(seq![x].drop_last() =~= Seq::<Seq<char>>::empty());
    assert(entries_of(Seq::<Seq<char>>::empty()) =~= Seq::<(Seq<char>, Seq<char>)>::empty());
    assert(entries_of(seq![x]) =~= seq![(h, file)]);
}


/// Reading a list of sums goes line by line: the entries of two runs of
/// lines are those of the first run, then those of the second; a line
/// gives one entry where it holds two spaces and none where it does not.
pub proof fn lemma_entries_line_by_line(a: Seq<Seq<char>>, b: Seq<Seq<char>>)
    ensures
        entries_of(a + b) == entries_of(a) + entries_of(b),
        forall|l: Seq<char>|
            #[trigger] entries_of(seq![l]) == match check_entry(l) {
                Some(e) => seq![e],
                None => Seq::<(Seq<char>, Seq<char>)>::empty(),
            },
    decreases b.len(),
{
    assert forall|l: Seq<char>|
        #[trigger] entries_of(seq![l]) == match check_entry(l) {
            Some(e) => seq![e],
            None => Seq::<(Seq<char>, Seq<char>)>::empty(),
        } by {
        assert(seq![l].drop_last() =~= Seq::<Seq<char>>::empty());
        assert(entries_of(Seq::<Seq<char>>::empty()) =~= Seq::<(Seq<char>, Seq<char>)>::empty());
        assert(seq![l].last() == l);
    }
    if b.len() == 0 {
        assert(a + b =~= a);
        assert(entries_of(a) + entries_of(b) =~= entries_of(a));
    } else {
        lemma_entries_line_by_line(a, b.drop_last());
        assert((a + b).drop_last() =~= a + b.drop_last());
        assert((a + b).last() == b.last());
        match check_entry(b.last()) {
            Some(e) => {
                assert(entries_of(a) + entries_of(b.drop_last()).push(e) =~= (entries_of(a) + entries_of(
                    b.drop_last(),
                )).push(e));
            },
            None => {},
        }
    }
}

/// The number of entries of a list of sums is the number of its lines
/// that hold two spaces.
pub proof fn lemma_entries_count(ls: Seq<Seq<char>>)
    ensures
        entries_of(ls).len() == ls.filter(|l: Seq<char>| check_entry(l) is Some).len(),
    decreases ls.len(),
{
    reveal_with_fuel(Seq::filter, 2);
    if ls.len() > 0 {
        lemma_entries_count(ls.drop_last());
    }
}

} // verus!
