//! hexdump: its options, the bytes it shows, and its two layouts: the
//! canonical one (offset, sixteen hex bytes, the printable characters)
//! and the default one (offset and little-endian 16-bit words).
use vstd::prelude::*;
use crate::num::{fmt_hex_padded, hex, pad_left, parse_dec, parse_dec_exec};
use crate::text::{chars_of_all, eq_lit, push_all, push_str, slice_bytes, starts_with, starts_with_lit, string_of, views};

verus! {

/// The options of an invocation.
pub struct HexdumpArgs {
    pub canonical: bool,
    pub length: Option<usize>,
    pub skip: usize,
    pub files: Vec<String>,
}

pub struct ArgsView {
    pub canonical: bool,
    pub length: Option<usize>,
    pub skip: usize,
    pub files: Seq<Seq<char>>,
}

impl View for HexdumpArgs {
    type V = ArgsView;

    open spec fn view(&self) -> ArgsView {
        ArgsView {
            canonical: self.canonical,
            length: self.length,
            skip: self.skip,
            files: views(self.files@),
        }
    }
}

pub open spec fn args_start() -> ArgsView {
    ArgsView { canonical: false, length: None, skip: 0, files: seq![] }
}

/// Reading the words from `i` on: `-C`, `-n LENGTH` (none where it is not
/// a number), `-s SKIP` (0 where it is not a number); words that do not
/// start with `-` are files. `None`: help was asked for.
pub open spec fn args_scan(args: Seq<Seq<char>>, i: int, st: ArgsView) -> Option<ArgsView>
    decreases args.len() - i,
{
    if i < 0 || i >= args.len() {
        Some(st)
    } else {
        let a = args[i];
        if a == "-C"@ {
            args_scan(args, i + 1, ArgsView { canonical: true, ..st })
        } else if a == "-n"@ || a == "-s"@ {
            if i + 1 < args.len() {
                let v = parse_dec(args[i + 1], usize::MAX as nat);
                let st2 = if a == "-n"@ {
                    ArgsView {
                        length: match v {
                            Some(x) => Some(x as usize),
                            None => None,
                        },
                        ..st
                    }
                } else {
                    ArgsView {
                        skip: match v {
                            Some(x) => x as usize,
                            None => 0,
                        },
                        ..st
                    }
                };
                args_scan(args, i + 2, st2)
            } else {
                Some(st)
            }
        } else if a == "-h"@ || a == "--help"@ {
            None
        } else if !starts_with(a, "-"@) {
            args_scan(args, i + 1, ArgsView { files: st.files.push(a), ..st })
        } else {
            args_scan(args, i + 1, st)
        }
    }
}

/// Reads the options of an invocation; `None` where help was asked for.
pub fn parse_args(args: &[String]) -> (r: Option<HexdumpArgs>)
    ensures
        match r {
            Some(a) => args_scan(views(args@), 0, args_start()) == Some(a@),
            None => args_scan(views(args@), 0, args_start()) is None,
        },
{
    let ghost av = views(args@);
    let cs = chars_of_all(args);
    let n = args.len();
    let mut st = HexdumpArgs { canonical: false, length: None, skip: 0, files: Vec::new() };
    assert(views(st.files@) =~= Seq::<Seq<char>>::empty());
    assert(st@ =~= args_start());
    let mut i: usize = 0;
    while i < n
        invariant
            n == args@.len(),
            cs@.len() == n,
            av == views(args@),
            forall|k: int| 0 <= k < n ==> #[trigger] cs@[k]@ == args@[k]@,
            i <= n,
            args_scan(av, i as int, st@) == args_scan(av, 0, args_start()),
        decreases n - i,
    {
        let a = cs[i].as_slice();
        assert(av[i as int] == a@);
        let is_n = eq_lit(a, "-n");
        if eq_lit(a, "-C") {
            st.canonical = true;
            i = i + 1;
        } else if is_n || eq_lit(a, "-s") {
            if i + 1 < n {
                assert(av[i + 1] == cs@[i + 1]@);
                let v = parse_dec_exec(cs[i + 1].as_slice(), usize::MAX as u64);
                if is_n {
                    st.length = match v {
                        Some(x) => Some(x as usize),
                        None => None,
                    };
                } else {
                    st.skip = match v {
                        Some(x) => x as usize,
                        None => 0,
                    };
                }
                i = i + 2;
            } else {
                i = n;
            }
        } else if eq_lit(a, "-h") || eq_lit(a, "--help") {
            return None;
        } else if !starts_with_lit(a, "-") {
            let ghost before = views(st.files@);
            st.files.push(args[i].clone());
            assert(views(st.files@) =~= before.push(a@));
            i = i + 1;
        } else {
            i = i + 1;
        }
    }
    Some(st)
}

/// The bytes shown: without the first `skip` (where `skip` is less than
/// their number), and at most `length` of them.
pub open spec fn shown_bytes(data: Seq<u8>, skip: usize, length: Option<usize>) -> Seq<u8> {
    let d = if skip > 0 && skip < data.len() {
        data.skip(skip as int)
    } else {
        data
    };
    match length {
        Some(n) => if n < d.len() {
            d.take(n as int)
        } else {
            d
        },
        None => d,
    }
}

/// The bytes shown (see `shown_bytes`).
pub fn select_bytes(data: &[u8], skip: usize, length: Option<usize>) -> (r: Vec<u8>)
    ensures
        r@ == shown_bytes(data@, skip, length),
{
    let d = if skip > 0 && skip < data.len() {
        slice_bytes(data, skip, data.len())
    } else {
        slice_bytes(data, 0, data.len())
    };
    assert(d@ =~= if skip > 0 && skip < data@.len() {
        data@.skip(skip as int)
    } else {
        data@
    });
    match length {
        Some(n) => if n < d.len() {
            let r = slice_bytes(d.as_slice(), 0, n);
            assert(r@ =~= d@.take(n as int));
            r
        } else {
            d
        },
        None => d,
    }
}

/// `b` in two lower-case hex digits.
pub open spec fn hex2(b: u8) -> Seq<char> {
    pad_left(hex(b as nat), 2, '0')
}

/// The hex cell of position `i` of a chunk: the byte and a space (three
/// spaces past the chunk's end), with one more space after the eighth.
pub open spec fn cell(c: Seq<u8>, i: int) -> Seq<char> {
    (if i < c.len() {
        hex2(c[i]) + " "@
    } else {
        "   "@
    }) + (if i == 7 {
        " "@
    } else {
        seq![]
    })
}

pub open spec fn cells(c: Seq<u8>, i: int) -> Seq<char>
    decreases 16 - i,
{
    if i >= 16 {
        seq![]
    } else {
        cell(c, i) + cells(c, i + 1)
    }
}

/// The character shown for a byte: itself where it is a graphic ASCII
/// character or a space, else `.`.
pub open spec fn shown_char(b: u8) -> char {
    if 0x20 <= b <= 0x7e {
        b as char
    } else {
        '.'
    }
}

/// A canonical line: the offset in eight hex digits, the cells, and the
/// characters between bars.
pub open spec fn canonical_line(off: nat, c: Seq<u8>) -> Seq<char> {
    pad_left(hex(off), 8, '0') + "  "@ + cells(c, 0) + " |"@ + c.map_values(
        |b: u8| shown_char(b),
    ) + "|"@
}

/// The `j`-th chunk of sixteen bytes (the last may be shorter).
pub open spec fn chunk(data: Seq<u8>, j: int) -> Seq<u8> {
    data.subrange(16 * j, if 16 * j + 16 < data.len() {
        16 * j + 16
    } else {
        data.len() as int
    })
}

pub open spec fn chunk_count(len: nat) -> nat {
    (len + 15) / 16
}

/// The canonical dump: a line per chunk, then the length in eight hex
/// digits.
pub open spec fn canonical_spec(data: Seq<u8>) -> Seq<Seq<char>> {
    Seq::new(chunk_count(data.len()), |j: int| canonical_line((16 * j) as nat, chunk(data, j)))
        + seq![pad_left(hex(data.len() as nat), 8, '0')]
}

fn hex2_exec(b: u8) -> (r: Vec<char>)
    ensures
        r@ == hex2(b),
{
    fmt_hex_padded(b as u64, 2)
}

fn canonical_line_exec(off: u64, c: &[u8]) -> (r: Vec<char>)
    requires
        c@.len() <= 16,
    ensures
        r@ == canonical_line(off as nat, c@),
{
    let mut v = fmt_hex_padded(off, 8);
    push_str(&mut v, "  ");
    let ghost head = v@;
    let mut i: usize = 0;
    while i < 16
        invariant
            i <= 16,
            c@.len() <= 16,
            v@ + cells(c@, i as int) == head + cells(c@, 0),
        decreases 16 - i,
    {
        let ghost before = v@;
        if i < c.len() {
            push_all(&mut v, hex2_exec(c[i]).as_slice());
            push_str(&mut v, " ");
        } else {
            push_str(&mut v, "   ");
        }
        if i == 7 {
            push_str(&mut v, " ");
        }
        assert(v@ =~= before + cell(c@, i as int));
        assert(cells(c@, i as int) == cell(c@, i as int) + cells(c@, i + 1));
        assert(v@ + cells(c@, i + 1) =~= before + cells(c@, i as int));
        i = i + 1;
    }
    assert(cells(c@, 16) =~= Seq::<char>::empty());
    push_str(&mut v, " |");
    let ghost mid = v@;
    let mut k: usize = 0;
    while k < c.len()
        invariant
            k <= c@.len(),
            v@ == mid + c@.take(k as int).map_values(|b: u8| shown_char(b)),
        decreases c@.len() - k,
    {
        let b = c[k];
        let ch = if 0x20 <= b && b <= 0x7e {
            b as char
        } else {
            '.'
        };
        v.push(ch);
        assert(c@.take(k + 1).map_values(|b: u8| shown_char(b)) =~= c@.take(k as int).map_values(
            |b: u8| shown_char(b),
        ).push(shown_char(b)));
        k = k + 1;
    }
    assert(c@.take(c@.len() as int) =~= c@);
    push_str(&mut v, "|");
    assert(v@ =~= canonical_line(off as nat, c@));
    v
}

/// The canonical dump of `data` (see `canonical_spec`).
pub fn canonical(data: &[u8]) -> (r: Vec<String>)
    ensures
        views(r@) == canonical_spec(data@),
{
    let len = data.len();
    let nc = len / 16 + if len % 16 == 0 {
        0
    } else {
        1
    };
    assert(nc == chunk_count(len as nat));
    let ghost f = |j: int| canonical_line((16 * j) as nat, chunk(data@, j));
    let mut out: Vec<String> = Vec::new();
    let mut j: usize = 0;
    assert(views(out@) =~= Seq::new(0, f));
    while j < nc
        invariant
            len == data@.len(),
            nc == chunk_count(len as nat),
            j <= nc,
            f == (|j: int| canonical_line((16 * j) as nat, chunk(data@, j))),
            views(out@) == Seq::new(j as nat, f),
        decreases nc - j,
    {
        assert(16 * j < len) by (nonlinear_arith)
            requires
                j < nc,
                nc == (len + 15) / 16,
        ;
        let start = 16 * j;
        let end = if len - start > 16 {
            start + 16
        } else {
            len
        };
        let c = slice_bytes(data, start, end);
        assert(c@ == chunk(data@, j as int));
        let line = canonical_line_exec(start as u64, c.as_slice());
        let ghost before = views(out@);
        out.push(string_of(line.as_slice()));
        assert(views(out@) =~= before.push(f(j as int)));
        assert(Seq::new((j + 1) as nat, f) =~= Seq::new(j as nat, f).push(f(j as int)));
        j = j + 1;
    }
    let last = fmt_hex_padded(len as u64, 8);
    let ghost before = views(out@);
    out.push(string_of(last.as_slice()));
    assert(views(out@) =~= before.push(last@));
    out
}

/// A default line: the offset in seven hex digits, then for each pair of
/// bytes a space and the second byte's hex before the first's (a lone
/// last byte: its hex and two spaces).
pub open spec fn default_line(off: nat, c: Seq<u8>) -> Seq<char> {
    pad_left(hex(off), 7, '0') + pairs(c, 0)
}

pub open spec fn pairs(c: Seq<u8>, k: int) -> Seq<char>
    decreases c.len() - k,
{
    if k < 0 || k >= c.len() {
        seq![]
    } else if k + 1 < c.len() {
        " "@ + hex2(c[k + 1]) + hex2(c[k]) + pairs(c, k + 2)
    } else {
        " "@ + hex2(c[k]) + "  "@
    }
}

/// The default dump: a line per chunk, then the length in seven hex
/// digits.
pub open spec fn default_spec(data: Seq<u8>) -> Seq<Seq<char>> {
    Seq::new(chunk_count(data.len()), |j: int| default_line((16 * j) as nat, chunk(data, j)))
        + seq![pad_left(hex(data.len() as nat), 7, '0')]
}

fn default_line_exec(off: u64, c: &[u8]) -> (r: Vec<char>)
    ensures
        r@ == default_line(off as nat, c@),
{
    let mut v = fmt_hex_padded(off, 7);
    let ghost head = v@;
    let mut k: usize = 0;
    while k < c.len()
        invariant
            k <= c@.len(),
            v@ + pairs(c@, k as int) == head + pairs(c@, 0),
        decreases c@.len() - k,
    {
        let ghost before = v@;
        if k + 1 < c.len() {
            push_str(&mut v, " ");
            push_all(&mut v, hex2_exec(c[k + 1]).as_slice());
            push_all(&mut v, hex2_exec(c[k]).as_slice());
            assert(v@ + pairs(c@, k + 2) =~= before + pairs(c@, k as int));
            k = k + 2;
        } else {
            push_str(&mut v, " ");
            push_all(&mut v, hex2_exec(c[k]).as_slice());
            push_str(&mut v, "  ");
            assert(pairs(c@, k + 1) =~= Seq::<char>::empty());
            assert(v@ + pairs(c@, k + 1) =~= before + pairs(c@, k as int));
            k = k + 1;
        }
    }
    assert(pairs(c@, k as int) =~= Seq::<char>::empty());
    v
}

/// The default dump of `data` (see `default_spec`).
pub fn default_dump(data: &[u8]) -> (r: Vec<String>)
    ensures
        views(r@) == default_spec(data@),
{
    let len = data.len();
    let nc = len / 16 + if len % 16 == 0 {
        0
    } else {
        1
    };
    assert(nc == chunk_count(len as nat));
    let ghost f = |j: int| default_line((16 * j) as nat, chunk(data@, j));
    let mut out: Vec<String> = Vec::new();
    let mut j: usize = 0;
    assert(views(out@) =~= Seq::new(0, f));
    while j < nc
        invariant
            len == data@.len(),
            nc == chunk_count(len as nat),
            j <= nc,
            f == (|j: int| default_line((16 * j) as nat, chunk(data@, j))),
            views(out@) == Seq::new(j as nat, f),
        decreases nc - j,
    {
        assert(16 * j < len) by (nonlinear_arith)
            requires
                j < nc,
                nc == (len + 15) / 16,
        ;
        let start = 16 * j;
        let end = if len - start > 16 {
            start + 16
        } else {
            len
        };
        let c = slice_bytes(data, start, end);
        assert(c@ == chunk(data@, j as int));
        let line = default_line_exec(start as u64, c.as_slice());
        let ghost before = views(out@);
        out.push(string_of(line.as_slice()));
        assert(views(out@) =~= before.push(f(j as int)));
        assert(Seq::new((j + 1) as nat, f) =~= Seq::new(j as nat, f).push(f(j as int)));
        j = j + 1;
    }
    let last = fmt_hex_padded(len as u64, 7);
    let ghost before = views(out@);
    out.push(string_of(last.as_slice()));
    assert(views(out@) =~= before.push(last@));
    out
}


/// The canonical dump has a line for each sixteen bytes (the last may be
/// shorter), then the length line: the line `j` begins with the offset of
/// its first byte, `16 * j`, in eight hex digits, and shows the bytes from
/// that offset up to sixteen more or the end; the last line is the length
/// in eight hex digits.
pub proof fn lemma_canonical_offsets(data: Seq<u8>)
    ensures
        canonical_spec(data).len() == (data.len() + 15) / 16 + 1,
        forall|j: int|
            0 <= j < (data.len() + 15) / 16 ==> {
                let end = if 16 * j + 16 < data.len() {
                    16 * j + 16
                } else {
                    data.len() as int
                };
                &&& starts_with(#[trigger] canonical_spec(data)[j], pad_left(hex((16 * j) as nat), 8, '0'))
                &&& canonical_spec(data)[j] == canonical_line((16 * j) as nat, data.subrange(16 * j, end))
            },
        canonical_spec(data).last() == pad_left(hex(data.len() as nat), 8, '0'),
{
    let n = chunk_count(data.len());
    let lines = Seq::new(n, |j: int| canonical_line((16 * j) as nat, chunk(data, j)));
    assert(canonical_spec(data) == lines + seq![pad_left(hex(data.len() as nat), 8, '0')]);
    assert forall|j: int| 0 <= j < (data.len() + 15) / 16 implies {
        let end = if 16 * j + 16 < data.len() {
            16 * j + 16
        } else {
            data.len() as int
        };
        &&& starts_with(#[trigger] canonical_spec(data)[j], pad_left(hex((16 * j) as nat), 8, '0'))
        &&& canonical_spec(data)[j] == canonical_line((16 * j) as nat, data.subrange(16 * j, end))
    } by {
        let l = canonical_spec(data)[j];
        let off = pad_left(hex((16 * j) as nat), 8, '0');
        assert(l == lines[j]);
        assert(l.take(off.len() as int) =~= off);
    }
}

} // verus!
