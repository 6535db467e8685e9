//! last: its options, the login records of a wtmp file, and the lines it
//! prints for them.
use vstd::prelude::*;
use crate::num::{fmt_signed, pad_left, pad_left_exec, pad_right, pad_right_exec, parse_dec, parse_dec_exec, signed_decimal};
use crate::text::{chars_of, chars_of_all, eq_lit, push_all, push_str, slice_bytes, string_of, to_string, utf8_text, views};

verus! {

/// The options of an invocation.
pub struct LastArgs {
    pub count: Option<usize>,
    pub file: String,
}

/// Reading the words from `i` on: `-n NUM` (none where it is not a
/// number), `-f FILE`; others are ignored. `None`: help was asked for.
pub open spec fn args_scan(args: Seq<Seq<char>>, i: int, count: Option<usize>, file: Seq<char>) -> Option<(Option<usize>, Seq<char>)>
    decreases args.len() - i,
{
    if i < 0 || i >= args.len() {
        Some((count, file))
    } else {
        let a = args[i];
        if a == "-n"@ || a == "-f"@ {
            if i + 1 < args.len() {
                if a == "-n"@ {
                    let c = match parse_dec(args[i + 1], usize::MAX as nat) {
                        Some(v) => Some(v as usize),
                        None => None,
                    };
                    args_scan(args, i + 2, c, file)
                } else {
                    args_scan(args, i + 2, count, args[i + 1])
                }
            } else {
                Some((count, file))
            }
        } else if a == "-h"@ || a == "--help"@ {
            None
        } else {
            args_scan(args, i + 1, count, file)
        }
    }
}

/// Reads the options of an invocation; `None` where help was asked for.
pub fn parse_args(args: &[String]) -> (r: Option<LastArgs>)
    ensures
        match r {
            Some(a) => args_scan(views(args@), 0, None, "/var/log/wtmp"@) == Some((a.count, a.file@)),
            None => args_scan(views(args@), 0, None, "/var/log/wtmp"@) is None,
        },
{
    let ghost av = views(args@);
    let cs = chars_of_all(args);
    let n = args.len();
    let mut count: Option<usize> = None;
    let mut file = to_string("/var/log/wtmp");
    let mut i: usize = 0;
    while i < n
        invariant
            n == args@.len(),
            cs@.len() == n,
            av == views(args@),
            forall|k: int| 0 <= k < n ==> #[trigger] cs@[k]@ == args@[k]@,
            i <= n,
            args_scan(av, i as int, count, file@) == args_scan(av, 0, None, "/var/log/wtmp"@),
        decreases n - i,
    {
        let a = cs[i].as_slice();
        assert(av[i as int] == a@);
        let is_n = eq_lit(a, "-n");
        if is_n || eq_lit(a, "-f") {
            if i + 1 < n {
                assert(av[i + 1] == cs@[i + 1]@);
                if is_n {
                    count = match parse_dec_exec(cs[i + 1].as_slice(), usize::MAX as u64) {
                        Some(v) => Some(v as usize),
                        None => None,
                    };
                } else {
                    file = args[i + 1].clone();
                }
                i = i + 2;
            } else {
                i = n;
            }
        } else if eq_lit(a, "-h") || eq_lit(a, "--help") {
            return None;
        } else {
            i = i + 1;
        }
    }
    Some(LastArgs { count, file })
}

/// The text of a NUL-padded field: the bytes before the first NUL (all of
/// them where there is none), as UTF-8; empty where they are not UTF-8.
pub open spec fn field_text(bytes: Seq<u8>) -> Seq<char> {
    let end = match bytes.index_of_first(0u8) {
        Some(p) => p,
        None => bytes.len() as int,
    };
    if vstd::utf8::valid_utf8(bytes.take(end)) {
        vstd::utf8::decode_utf8(bytes.take(end))
    } else {
        seq![]
    }
}

/// The text of a NUL-padded field (see `field_text`).
pub fn extract_string(bytes: &[u8]) -> (r: String)
    ensures
        r@ == field_text(bytes@),
{
    let mut p: usize = 0;
    while p < bytes.len() && bytes[p] != 0
        invariant
            p <= bytes@.len(),
            forall|k: int| 0 <= k < p ==> bytes@[k] != 0u8,
        decreases bytes@.len() - p,
    {
        p = p + 1;
    }
    proof {
        bytes@.index_of_first_ensures(0u8);
    }
    let head = slice_bytes(bytes, 0, p);
    assert(head@ =~= bytes@.take(p as int));
    match utf8_text(head.as_slice()) {
        Some(s) => s,
        None => String::new(),
    }
}

/// The size of a utmp record (x86_64 Linux).
pub const UTMP_SIZE: usize = 384;

/// A login record: user, terminal line, host, login time in seconds, and
/// whether the session is over.
pub struct UtmpEntry {
    pub user: String,
    pub line: String,
    pub host: String,
    pub tv_sec: i64,
    pub dead: bool,
}

pub struct EntryView {
    pub user: Seq<char>,
    pub line: Seq<char>,
    pub host: Seq<char>,
    pub tv_sec: i64,
    pub dead: bool,
}

impl View for UtmpEntry {
    type V = EntryView;

    open spec fn view(&self) -> EntryView {
        EntryView {
            user: self.user@,
            line: self.line@,
            host: self.host@,
            tv_sec: self.tv_sec,
            dead: self.dead,
        }
    }
}

/// The unsigned value of bytes in the machine's order (`le`: least
/// significant first).
pub open spec fn bytes_value(b: Seq<u8>, le: bool) -> nat
    decreases b.len(),
{
    if b.len() == 0 {
        0
    } else if le {
        b[0] as nat + 256 * bytes_value(b.drop_first(), le)
    } else {
        b.last() as nat + 256 * bytes_value(b.drop_last(), le)
    }
}

/// The record type at the start of a record (an `i16`).
pub open spec fn record_type(r: Seq<u8>, le: bool) -> int {
    let u = bytes_value(r.subrange(0, 2), le);
    if u >= 32768 {
        u - 65536
    } else {
        u as int
    }
}

/// The login time of a record (an `i64` at offset 340).
pub open spec fn record_time(r: Seq<u8>, le: bool) -> int {
    let u = bytes_value(r.subrange(340, 348), le);
    if u >= 0x8000_0000_0000_0000 {
        u - 0x1_0000_0000_0000_0000
    } else {
        u as int
    }
}

/// The record at `r` as a login record, where it is one: of type 7 (a
/// user process) or 8 (a dead process), with a user or a line.
pub open spec fn record_entry(r: Seq<u8>, le: bool) -> Option<EntryView> {
    let t = record_type(r, le);
    let user = field_text(r.subrange(8, 40));
    let line = field_text(r.subrange(40, 72));
    if t != 7 && t != 8 {
        None
    } else if user.len() == 0 && line.len() == 0 {
        None
    } else {
        Some(
            EntryView {
                user,
                line,
                host: field_text(r.subrange(76, 332)),
                tv_sec: record_time(r, le) as i64,
                dead: t == 8,
            },
        )
    }
}

/// The login records from record `i - 1` down to the first, at most
/// `max` of them.
pub open spec fn entries_from(data: Seq<u8>, i: int, max: nat, le: bool) -> Seq<EntryView>
    decreases i,
{
    if i <= 0 || max == 0 {
        seq![]
    } else {
        let r = data.subrange((i - 1) * 384, i * 384);
        match record_entry(r, le) {
            Some(e) => seq![e] + entries_from(data, i - 1, (max - 1) as nat, le),
            None => entries_from(data, i - 1, max, le),
        }
    }
}

/// The login records a listing shows: the most recent first, at most
/// `count` of them (at most all records where no count is given).
pub open spec fn entries_spec(data: Seq<u8>, count: Option<usize>, le: bool) -> Seq<EntryView> {
    let n = data.len() / 384;
    let max: nat = match count {
        Some(c) => c as nat,
        None => n,
    };
    entries_from(data, n as int, max, le)
}

fn bytes_value_exec(b: &[u8], le: bool) -> (r: u64)
    requires
        b@.len() <= 8,
    ensures
        r as nat == bytes_value(b@, le),
        (r as nat) < pow256(b@.len()),
{
    let n = b.len();
    let mut v: u64 = 0;
    let mut k: usize = 0;
    while k < n
        invariant
            n == b@.len() <= 8,
            k <= n,
            v as nat == if le {
                bytes_value(b@.skip(n - k), le)
            } else {
                bytes_value(b@.take(k as int), le)
            },
            v < pow256(k as nat),
        decreases n - k,
    {
        let byte = if le {
            b[n - 1 - k]
        } else {
            b[k]
        };
        proof {
            if le {
                assert(b@.skip(n - (k + 1)).drop_first() =~= b@.skip(n - k));
                assert(b@.skip(n - (k + 1))[0] == b@[n - 1 - k]);
            } else {
                assert(b@.take(k + 1).drop_last() =~= b@.take(k as int));
            }
            lemma_pow256_bound(k as nat);
            assert(v * 256 + byte < pow256((k + 1) as nat)) by (nonlinear_arith)
                requires
                    v < pow256(k as nat),
                    byte < 256,
                    pow256((k + 1) as nat) == 256 * pow256(k as nat),
            ;
        }
        v = v * 256 + byte as u64;
        k = k + 1;
    }
    assert(b@.skip(0) =~= b@);
    assert(b@.take(n as int) =~= b@);
    v
}

pub open spec fn pow256(k: nat) -> nat
    decreases k,
{
    if k == 0 {
        1
    } else {
        256 * pow256((k - 1) as nat)
    }
}

proof fn lemma_pow256_bound(k: nat)
    requires
        k < 8,
    ensures
        pow256(k + 1) <= 0x1_0000_0000_0000_0000,
        pow256(k + 1) == 256 * pow256(k),
    decreases 8 - k,
{
    if k + 1 < 8 {
        lemma_pow256_bound(k + 1);
    } else {
        reveal_with_fuel(pow256, 9);
        assert(pow256(8) == 0x1_0000_0000_0000_0000nat);
    }
}

fn time_of(v: u64) -> (r: i64)
    ensures
        r as int == if v >= 0x8000_0000_0000_0000 {
            v - 0x1_0000_0000_0000_0000
        } else {
            v as int
        },
{
    if v >= 0x8000_0000_0000_0000 {
        let d: u64 = v - 0x8000_0000_0000_0000;
        (d as i64) + i64::MIN
    } else {
        v as i64
    }
}

fn record_entry_exec(rec: &[u8], le: bool) -> (r: Option<UtmpEntry>)
    requires
        rec@.len() == 384,
    ensures
        match (r, record_entry(rec@, le)) {
            (Some(a), Some(b)) => a@ == b,
            (None, None) => true,
            _ => false,
        },
{
    let tb = slice_bytes(rec, 0, 2);
    let tu = bytes_value_exec(tb.as_slice(), le);
    proof {
        lemma_pow256_bound(0);
        lemma_pow256_bound(1);
        assert(pow256(2) == 65536);
    }
    let t: i64 = if tu >= 32768 {
        tu as i64 - 65536
    } else {
        tu as i64
    };
    if t != 7 && t != 8 {
        return None;
    }
    let user = extract_string(slice_bytes(rec, 8, 40).as_slice());
    let line = extract_string(slice_bytes(rec, 40, 72).as_slice());
    let uc = chars_of(user.as_str());
    let lc = chars_of(line.as_str());
    if uc.len() == 0 && lc.len() == 0 {
        return None;
    }
    let host = extract_string(slice_bytes(rec, 76, 332).as_slice());
    let vb = slice_bytes(rec, 340, 348);
    let v = bytes_value_exec(vb.as_slice(), le);
    let tv_sec = time_of(v);
    Some(UtmpEntry { user, line, host, tv_sec, dead: t == 8 })
}

/// The login records a listing shows (see `entries_spec`); `le`: the
/// machine stores numbers least significant byte first.
pub fn user_entries(data: &[u8], count: Option<usize>, le: bool) -> (r: Vec<UtmpEntry>)
    ensures
        r@.map_values(|e: UtmpEntry| e@) == entries_spec(data@, count, le),
{
    let dl = data.len();
    let n = dl / 384;
    let mut left: usize = match count {
        Some(c) => c,
        None => n,
    };
    let ghost full = entries_spec(data@, count, le);
    let mut out: Vec<UtmpEntry> = Vec::new();
    let mut i: usize = n;
    assert(out@.map_values(|e: UtmpEntry| e@) =~= Seq::<EntryView>::empty());
    while i > 0 && left > 0
        invariant
            dl == data@.len(),
            n == data@.len() / 384,
            i <= n,
            full == entries_spec(data@, count, le),
            out@.map_values(|e: UtmpEntry| e@) + entries_from(data@, i as int, left as nat, le)
                == full,
        decreases i,
    {
        assert((i - 1) * 384 + 384 <= data@.len()) by (nonlinear_arith)
            requires
                i <= n,
                n == data@.len() / 384,
                i >= 1,
        ;
        let off = (i - 1) * 384;
        let rec = slice_bytes(data, off, off + 384);
        assert(rec@ =~= data@.subrange((i - 1) * 384, i * 384));
        let ghost before = out@.map_values(|e: UtmpEntry| e@);
        match record_entry_exec(rec.as_slice(), le) {
            Some(e) => {
                let ghost ev = e@;
                out.push(e);
                assert(out@.map_values(|e: UtmpEntry| e@) =~= before.push(ev));
                assert(before.push(ev) + entries_from(data@, i - 1, (left - 1) as nat, le) =~= before
                    + (seq![ev] + entries_from(data@, i - 1, (left - 1) as nat, le)));
                left = left - 1;
            },
            None => {},
        }
        i = i - 1;
    }
    assert(entries_from(data@, i as int, left as nat, le) =~= Seq::<EntryView>::empty());
    out
}

/// The line printed for a login record whose time reads `time`: user,
/// line, host (where there is one) and time in columns of 10, 12, 16 and
/// 24 characters, then the state in parentheses.
pub open spec fn entry_line_spec(e: EntryView, time: Seq<char>) -> Seq<char> {
    let status = if e.dead {
        "gone"@
    } else {
        "still logged in"@
    };
    let head = pad_right(e.user, 10) + " "@ + pad_right(e.line, 12) + " "@;
    let host = if e.host.len() == 0 {
        seq![]
    } else {
        pad_right(e.host, 16) + " "@
    };
    head + host + pad_right(time, 24) + " ("@ + status + ")"@
}

/// The line printed for a login record (see `entry_line_spec`).
pub fn entry_line(e: &UtmpEntry, time: &str) -> (r: String)
    ensures
        r@ == entry_line_spec(e@, time@),
{
    let mut v = pad_right_exec(chars_of(e.user.as_str()).as_slice(), 10);
    push_str(&mut v, " ");
    push_all(&mut v, pad_right_exec(chars_of(e.line.as_str()).as_slice(), 12).as_slice());
    push_str(&mut v, " ");
    let hc = chars_of(e.host.as_str());
    if hc.len() > 0 {
        push_all(&mut v, pad_right_exec(hc.as_slice(), 16).as_slice());
        push_str(&mut v, " ");
    }
    push_all(&mut v, pad_right_exec(chars_of(time).as_slice(), 24).as_slice());
    push_str(&mut v, " (");
    if e.dead {
        push_str(&mut v, "gone");
    } else {
        push_str(&mut v, "still logged in");
    }
    push_str(&mut v, ")");
    assert(v@ =~= entry_line_spec(e@, time@));
    string_of(v.as_slice())
}

pub open spec fn day_names() -> Seq<Seq<char>> {
    seq!["Sun"@, "Mon"@, "Tue"@, "Wed"@, "Thu"@, "Fri"@, "Sat"@]
}

pub open spec fn month_names() -> Seq<Seq<char>> {
    seq![
        "Jan"@, "Feb"@, "Mar"@, "Apr"@, "May"@, "Jun"@, "Jul"@, "Aug"@, "Sep"@, "Oct"@, "Nov"@,
        "Dec"@,
    ]
}

/// The local time of a login, from the fields of the `tm` that
/// `localtime` gave (`None` where it gave none): empty for time 0, the
/// number of seconds where there is no local time, else
/// `Day Mon dd hh:mm`.
pub open spec fn time_text_spec(ts: i64, tm: Option<(usize, usize, i32, i32, i32)>) -> Seq<char> {
    if ts == 0 {
        seq![]
    } else {
        match tm {
            None => signed_decimal(ts as int),
            Some((wday, mon, mday, hour, min)) => day_names()[(wday % 7) as int] + " "@
                + month_names()[(mon % 12) as int] + " "@ + pad_left(
                signed_decimal(mday as int),
                2,
                ' ',
            ) + " "@ + pad_left(signed_decimal(hour as int), 2, '0') + ":"@ + pad_left(
                signed_decimal(min as int),
                2,
                '0',
            ),
        }
    }
}

/// The local time of a login (see `time_text_spec`).
pub fn time_text(ts: i64, tm: Option<(usize, usize, i32, i32, i32)>) -> (r: String)
    ensures
        r@ == time_text_spec(ts, tm),
{
    if ts == 0 {
        return String::new();
    }
    match tm {
        None => string_of(fmt_signed(ts).as_slice()),
        Some((wday, mon, mday, hour, min)) => {
            let days: [&str; 7] = ["Sun", "Mon", "Tue", "Wed", "Thu", "Fri", "Sat"];
            let months: [&str; 12] = [
                "Jan", "Feb", "Mar", "Apr", "May", "Jun", "Jul", "Aug", "Sep", "Oct", "Nov", "Dec",
            ];
            assert(days@.map_values(|x: &str| x@) =~= day_names());
            assert(months@.map_values(|x: &str| x@) =~= month_names());
            let d = days[wday % 7];
            let m = months[mon % 12];
            assert(days@.map_values(|x: &str| x@)[(wday % 7) as int] == d@);
            assert(months@.map_values(|x: &str| x@)[(mon % 12) as int] == m@);
            let mut v = chars_of(d);
            push_str(&mut v, " ");
            push_all(&mut v, chars_of(m).as_slice());
            push_str(&mut v, " ");
            push_all(&mut v, pad_left_exec(fmt_signed(mday as i64).as_slice(), 2, ' ').as_slice());
            push_str(&mut v, " ");
            push_all(&mut v, pad_left_exec(fmt_signed(hour as i64).as_slice(), 2, '0').as_slice());
            push_str(&mut v, ":");
            push_all(&mut v, pad_left_exec(fmt_signed(min as i64).as_slice(), 2, '0').as_slice());
            assert(v@ =~= time_text_spec(ts, tm));
            string_of(v.as_slice())
        },
    }
}

/// The closing line, after an empty line: `wtmp begins (empty)` where the
/// file holds no whole record, else `wtmp begins FILE`.
pub fn footer(file: &str, data_len: usize) -> (r: String)
    ensures
        r@ == if data_len < UTMP_SIZE {
            "wtmp begins (empty)"@
        } else {
            "wtmp begins "@ + file@
        },
{
    if data_len < UTMP_SIZE {
        to_string("wtmp begins (empty)")
    } else {
        let mut v = chars_of("wtmp begins ");
        push_all(&mut v, chars_of(file).as_slice());
        string_of(v.as_slice())
    }
}

} // verus!
