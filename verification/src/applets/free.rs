//! free: its options, the figures it reads from `/proc/meminfo`, and the
//! table it prints.
use vstd::prelude::*;
use crate::num::{decimal, fmt_dec, pad_left, pad_left_exec, pad_right, pad_right_exec, parse_dec, parse_dec_exec};
use crate::text::{
    chars_of, eq_chars, eq_lit, lines, lines_exec, push_all, push_str, split_once, split_once_exec,
    string_of, trim, trim_chars, views, vviews, words, words_exec,
};

verus! {

/// The options of an invocation: `-h` (sizes for humans) and the unit the
/// sizes are divided into, in kB (0: bytes).
pub struct FreeArgs {
    pub human: bool,
    pub unit_div: u64,
}

/// Reading the options from `i` on; unknown words are ignored.
pub open spec fn args_scan(args: Seq<Seq<char>>, i: int, human: bool, unit: u64) -> (bool, u64)
    decreases args.len() - i,
{
    if i < 0 || i >= args.len() {
        (human, unit)
    } else {
        let a = args[i];
        if a == "-h"@ || a == "--human-readable"@ {
            args_scan(args, i + 1, true, unit)
        } else if a == "-b"@ || a == "--bytes"@ {
            args_scan(args, i + 1, human, 0)
        } else if a == "-k"@ || a == "--kilo"@ {
            args_scan(args, i + 1, human, 1)
        } else if a == "-m"@ || a == "--mega"@ {
            args_scan(args, i + 1, human, 1024)
        } else if a == "-g"@ || a == "--giga"@ {
            args_scan(args, i + 1, human, 1048576u64)
        } else if a == "--tebi"@ || a == "-T"@ {
            args_scan(args, i + 1, human, 1073741824u64)
        } else {
            args_scan(args, i + 1, human, unit)
        }
    }
}

/// Reads the options of an invocation (see `args_scan`).
pub fn parse_args(args: &[String]) -> (r: FreeArgs)
    ensures
        args_scan(views(args@), 0, false, 1) == (r.human, r.unit_div),
{
    let ghost av = views(args@);
    let mut human = false;
    let mut unit: u64 = 1;
    let mut i: usize = 0;
    while i < args.len()
        invariant
            i <= args@.len(),
            av == views(args@),
            args_scan(av, i as int, human, unit) == args_scan(av, 0, false, 1),
        decreases args@.len() - i,
    {
        let c = chars_of(args[i].as_str());
        let a = c.as_slice();
        assert(av[i as int] == a@);
        if eq_lit(a, "-h") || eq_lit(a, "--human-readable") {
            human = true;
        } else if eq_lit(a, "-b") || eq_lit(a, "--bytes") {
            unit = 0;
        } else if eq_lit(a, "-k") || eq_lit(a, "--kilo") {
            unit = 1;
        } else if eq_lit(a, "-m") || eq_lit(a, "--mega") {
            unit = 1024;
        } else if eq_lit(a, "-g") || eq_lit(a, "--giga") {
            unit = 1024 * 1024;
        } else if eq_lit(a, "--tebi") || eq_lit(a, "-T") {
            unit = 1024 * 1024 * 1024;
        }
        i = i + 1;
    }
    FreeArgs { human, unit_div: unit }
}

/// The entry of a `/proc/meminfo` line `Key: value kB`: the trimmed key
/// and the first word of the value as a number (0 where it is none).
pub open spec fn info_entry(line: Seq<char>) -> Option<(Seq<char>, u64)> {
    match split_once(line, ':') {
        Some((k, rest)) => {
            let w = words(rest);
            let v: u64 = if w.len() > 0 {
                match parse_dec(w[0], u64::MAX as nat) {
                    Some(x) => x as u64,
                    None => 0,
                }
            } else {
                0
            };
            Some((trim(k), v))
        },
        None => None,
    }
}

pub open spec fn info_entries(ls: Seq<Seq<char>>) -> Seq<(Seq<char>, u64)>
    decreases ls.len(),
{
    if ls.len() == 0 {
        seq![]
    } else {
        match info_entry(ls.last()) {
            Some(e) => info_entries(ls.drop_last()).push(e),
            None => info_entries(ls.drop_last()),
        }
    }
}

/// The value of `key`: that of its last entry (a later line replaces an
/// earlier one), or 0.
pub open spec fn lookup(es: Seq<(Seq<char>, u64)>, key: Seq<char>) -> u64
    decreases es.len(),
{
    if es.len() == 0 {
        0
    } else if es.last().0 == key {
        es.last().1
    } else {
        lookup(es.drop_last(), key)
    }
}

/// The entries of the text of `/proc/meminfo`, in order.
pub fn meminfo(content: &str) -> (r: Vec<(String, u64)>)
    ensures
        r@.map_values(|e: (String, u64)| (e.0@, e.1)) == info_entries(lines(content@)),
{
    let ls = lines_exec(chars_of(content).as_slice());
    let ghost lv = vviews(ls@);
    let mut r: Vec<(String, u64)> = Vec::new();
    let mut i: usize = 0;
    assert(r@.map_values(|e: (String, u64)| (e.0@, e.1)) =~= info_entries(lv.take(0)));
    while i < ls.len()
        invariant
            i <= ls@.len(),
            lv == vviews(ls@),
            lv == lines(content@),
            r@.map_values(|e: (String, u64)| (e.0@, e.1)) == info_entries(lv.take(i as int)),
        decreases ls@.len() - i,
    {
        assert(lv[i as int] == ls@[i as int]@);
        assert(lv.take(i + 1).drop_last() =~= lv.take(i as int));
        let ghost before = r@.map_values(|e: (String, u64)| (e.0@, e.1));
        match split_once_exec(ls[i].as_slice(), ':') {
            Some((k, rest)) => {
                let w = words_exec(rest.as_slice());
                let v: u64 = if w.len() > 0 {
                    assert(vviews(w@)[0] == w@[0]@);
                    match parse_dec_exec(w[0].as_slice(), u64::MAX) {
                        Some(x) => x,
                        None => 0,
                    }
                } else {
                    0
                };
                let key = trim_chars(k.as_slice());
                let ghost e = (key@, v);
                r.push((string_of(key.as_slice()), v));
                assert(r@.map_values(|e: (String, u64)| (e.0@, e.1)) =~= before.push(e));
            },
            None => {},
        }
        i = i + 1;
    }
    assert(lv.take(ls@.len() as int) =~= lv);
    r
}

fn lookup_exec(es: &Vec<(String, u64)>, key: &str) -> (r: u64)
    ensures
        r == lookup(es@.map_values(|e: (String, u64)| (e.0@, e.1)), key@),
{
    let ghost ev = es@.map_values(|e: (String, u64)| (e.0@, e.1));
    let kc = chars_of(key);
    let mut i: usize = es.len();
    assert(ev.take(i as int) =~= ev);
    while i > 0
        invariant
            i <= es@.len(),
            ev == es@.map_values(|e: (String, u64)| (e.0@, e.1)),
            kc@ == key@,
            lookup(ev.take(i as int), key@) == lookup(ev, key@),
        decreases i,
    {
        assert(ev[i - 1] == (es@[i - 1].0@, es@[i - 1].1));
        assert(ev.take(i as int).drop_last() =~= ev.take(i - 1));
        if eq_chars(chars_of(es[i - 1].0.as_str()).as_slice(), kc.as_slice()) {
            return es[i - 1].1;
        }
        i = i - 1;
    }
    0
}

/// The figures of the table, in kB.
pub struct MemFigures {
    pub total: u64,
    pub used: u64,
    pub free: u64,
    pub shared: u64,
    pub buff_cache: u64,
    pub available: u64,
    pub swap_total: u64,
    pub swap_used: u64,
    pub swap_free: u64,
}

pub open spec fn sat_sub(a: int, b: int) -> int {
    if a >= b {
        a - b
    } else {
        0
    }
}

/// The figures cannot be made: a sum overflows a `u64`.
pub open spec fn figures_overflow(es: Seq<(Seq<char>, u64)>) -> bool {
    let cached = lookup(es, "Cached"@) + lookup(es, "SReclaimable"@);
    cached > u64::MAX || lookup(es, "Buffers"@) + cached > u64::MAX || lookup(es, "MemFree"@)
        + lookup(es, "Buffers"@) + cached > u64::MAX
}

/// The figures of the table: used memory is the total less the free and
/// the buffer and cache memory (nothing where they exceed it); buffer and
/// cache memory is `Buffers`, `Cached` and `SReclaimable`.
pub open spec fn figures_spec(es: Seq<(Seq<char>, u64)>, f: MemFigures) -> bool {
    let cached = lookup(es, "Cached"@) + lookup(es, "SReclaimable"@);
    let bc = lookup(es, "Buffers"@) + cached;
    &&& f.total == lookup(es, "MemTotal"@)
    &&& f.free == lookup(es, "MemFree"@)
    &&& f.available == lookup(es, "MemAvailable"@)
    &&& f.shared == lookup(es, "Shmem"@)
    &&& f.buff_cache == bc
    &&& f.used == sat_sub(lookup(es, "MemTotal"@) as int, lookup(es, "MemFree"@) + bc)
    &&& f.swap_total == lookup(es, "SwapTotal"@)
    &&& f.swap_free == lookup(es, "SwapFree"@)
    &&& f.swap_used == sat_sub(lookup(es, "SwapTotal"@) as int, lookup(es, "SwapFree"@) as int)
}

/// The figures of the table; `None` where a sum overflows.
pub fn figures(es: &Vec<(String, u64)>) -> (r: Option<MemFigures>)
    ensures
        match r {
            Some(f) => !figures_overflow(es@.map_values(|e: (String, u64)| (e.0@, e.1)))
                && figures_spec(es@.map_values(|e: (String, u64)| (e.0@, e.1)), f),
            None => figures_overflow(es@.map_values(|e: (String, u64)| (e.0@, e.1))),
        },
{
    let total = lookup_exec(es, "MemTotal");
    let free = lookup_exec(es, "MemFree");
    let avail = lookup_exec(es, "MemAvailable");
    let shared = lookup_exec(es, "Shmem");
    let buffers = lookup_exec(es, "Buffers");
    let c1 = lookup_exec(es, "Cached");
    let c2 = lookup_exec(es, "SReclaimable");
    if c1 > u64::MAX - c2 {
        return None;
    }
    let cached = c1 + c2;
    if buffers > u64::MAX - cached {
        return None;
    }
    let bc = buffers + cached;
    if free > u64::MAX - bc {
        return None;
    }
    let used = if total >= free + bc {
        total - (free + bc)
    } else {
        0
    };
    let st = lookup_exec(es, "SwapTotal");
    let sf = lookup_exec(es, "SwapFree");
    let su = if st >= sf {
        st - sf
    } else {
        0
    };
    Some(MemFigures {
        total,
        used,
        free,
        shared,
        buff_cache: bc,
        available: avail,
        swap_total: st,
        swap_used: su,
        swap_free: sf,
    })
}

/// A size in kB as printed without `-h`: in bytes (`unit` 0), else
/// divided by the unit; `None` where the bytes overflow a `u64`.
pub open spec fn size_text_spec(kb: u64, unit: u64) -> Option<Seq<char>> {
    if unit == 0 {
        if kb * 1024 > u64::MAX {
            None
        } else {
            Some(decimal((kb * 1024) as nat))
        }
    } else {
        Some(decimal((kb / unit) as nat))
    }
}

/// A size as printed without `-h` (see `size_text_spec`).
pub fn size_text(kb: u64, unit: u64) -> (r: Option<String>)
    ensures
        match r {
            Some(s) => size_text_spec(kb, unit) == Some(s@),
            None => size_text_spec(kb, unit) is None,
        },
{
    if unit == 0 {
        if kb > u64::MAX / 1024 {
            return None;
        }
        Some(string_of(fmt_dec(kb * 1024).as_slice()))
    } else {
        Some(string_of(fmt_dec(kb / unit).as_slice()))
    }
}

/// The three lines of the table, from the nine sizes as printed (total,
/// used, free, shared, buff/cache, available; swap total, used, free):
/// the label column 15 wide, the others 12, right-aligned.
pub open spec fn table_spec(s: Seq<Seq<char>>) -> Seq<Seq<char>> {
    seq![
        pad_left(seq![], 15, ' ') + " "@ + pad_left("total"@, 12, ' ') + " "@ + pad_left("used"@, 12, ' ')
            + " "@ + pad_left("free"@, 12, ' ') + " "@ + pad_left("shared"@, 12, ' ') + " "@
            + pad_left("buff/cache"@, 12, ' ') + " "@ + pad_left("available"@, 12, ' '),
        pad_right("Mem:"@, 15) + " "@ + pad_left(s[0], 12, ' ') + " "@ + pad_left(s[1], 12, ' ')
            + " "@ + pad_left(s[2], 12, ' ') + " "@ + pad_left(s[3], 12, ' ') + " "@ + pad_left(
            s[4],
            12,
            ' ',
        ) + " "@ + pad_left(s[5], 12, ' '),
        pad_right("Swap:"@, 15) + " "@ + pad_left(s[6], 12, ' ') + " "@ + pad_left(s[7], 12, ' ')
            + " "@ + pad_left(s[8], 12, ' '),
    ]
}

fn push_cell(v: &mut Vec<char>, c: &str)
    ensures
        final(v)@ == old(v)@ + " "@ + pad_left(c@, 12, ' '),
{
    push_str(v, " ");
    push_all(v, pad_left_exec(chars_of(c).as_slice(), 12, ' ').as_slice());
}

/// The three lines of the table (see `table_spec`).
pub fn table(s: &Vec<String>) -> (r: Vec<String>)
    requires
        s@.len() == 9,
    ensures
        views(r@) == table_spec(views(s@)),
{
    let ghost sv = views(s@);
    let mut h = pad_left_exec(Vec::<char>::new().as_slice(), 15, ' ');
    push_cell(&mut h, "total");
    push_cell(&mut h, "used");
    push_cell(&mut h, "free");
    push_cell(&mut h, "shared");
    push_cell(&mut h, "buff/cache");
    push_cell(&mut h, "available");
    let mut m = pad_right_exec(chars_of("Mem:").as_slice(), 15);
    push_cell(&mut m, s[0].as_str());
    push_cell(&mut m, s[1].as_str());
    push_cell(&mut m, s[2].as_str());
    push_cell(&mut m, s[3].as_str());
    push_cell(&mut m, s[4].as_str());
    push_cell(&mut m, s[5].as_str());
    let mut w = pad_right_exec(chars_of("Swap:").as_slice(), 15);
    push_cell(&mut w, s[6].as_str());
    push_cell(&mut w, s[7].as_str());
    push_cell(&mut w, s[8].as_str());
    assert(sv[0] == s@[0]@ && sv[1] == s@[1]@ && sv[2] == s@[2]@ && sv[3] == s@[3]@);
    assert(sv[4] == s@[4]@ && sv[5] == s@[5]@ && sv[6] == s@[6]@ && sv[7] == s@[7]@);
    assert(sv[8] == s@[8]@);
    let ghost ts = table_spec(sv);
    assert(h@ =~= ts[0]);
    assert(m@ =~= ts[1]);
    assert(w@ =~= ts[2]);
    let mut r: Vec<String> = Vec::new();
    r.push(string_of(h.as_slice()));
    r.push(string_of(m.as_slice()));
    r.push(string_of(w.as_slice()));
    assert(views(r@) =~= ts);
    r
}

} // verus!
