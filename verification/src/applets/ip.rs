//! ip: which object and command an invocation names, and the text shown
//! for the routing, neighbour and interface tables read from /proc.
use vstd::prelude::*;
use crate::num::{decimal, fmt_dec, parse_dec, parse_dec_exec, parse_unsigned, parse_unsigned_exec};
use crate::text::{chars_of, chars_of_all, eq_lit, skip_n, find_char, find_char_exec, lines, lines_exec, push_all, push_str, slice_chars, split_exec, split_on, string_of, trim, trim_chars, views, vviews, words, words_exec};

verus! {

/// What an ip invocation asks for.
pub enum IpCommand {
    /// No arguments: print the usage, status 1.
    Usage,
    /// `-h`, `--help` or `help`: print the usage, status 0.
    Help,
    /// An object that ip does not know, status 1.
    UnknownObject(String),
    /// `link show|list|ls` (the default): list the interfaces.
    LinkShow,
    /// `link set DEV up|down`: anything but `up` means down.
    LinkSet(String, bool),
    /// `link set` with fewer than two words after it, status 1.
    LinkSetUsage,
    UnknownLink(String),
    /// `addr show|list|ls` (the default): list interfaces and their states.
    AddrShow,
    /// `addr add` with fewer than three words after it, status 1.
    AddrAddUsage,
    /// `addr add ...`: not supported, status 1.
    AddrAddUnsupported,
    /// `addr del ...`: not supported, status 1.
    AddrDelUnsupported,
    UnknownAddr(String),
    /// `route show|list|ls` (the default): print the routing table.
    RouteShow,
    UnknownRoute(String),
    /// `neigh show|list|ls` (the default): print the ARP table.
    NeighShow,
    UnknownNeigh(String),
}

pub enum IpView {
    Usage,
    Help,
    UnknownObject(Seq<char>),
    LinkShow,
    LinkSet(Seq<char>, bool),
    LinkSetUsage,
    UnknownLink(Seq<char>),
    AddrShow,
    AddrAddUsage,
    AddrAddUnsupported,
    AddrDelUnsupported,
    UnknownAddr(Seq<char>),
    RouteShow,
    UnknownRoute(Seq<char>),
    NeighShow,
    UnknownNeigh(Seq<char>),
}

impl View for IpCommand {
    type V = IpView;

    open spec fn view(&self) -> IpView {
        match self {
            IpCommand::Usage => IpView::Usage,
            IpCommand::Help => IpView::Help,
            IpCommand::UnknownObject(s) => IpView::UnknownObject(s@),
            IpCommand::LinkShow => IpView::LinkShow,
            IpCommand::LinkSet(d, u) => IpView::LinkSet(d@, *u),
            IpCommand::LinkSetUsage => IpView::LinkSetUsage,
            IpCommand::UnknownLink(s) => IpView::UnknownLink(s@),
            IpCommand::AddrShow => IpView::AddrShow,
            IpCommand::AddrAddUsage => IpView::AddrAddUsage,
            IpCommand::AddrAddUnsupported => IpView::AddrAddUnsupported,
            IpCommand::AddrDelUnsupported => IpView::AddrDelUnsupported,
            IpCommand::UnknownAddr(s) => IpView::UnknownAddr(s@),
            IpCommand::RouteShow => IpView::RouteShow,
            IpCommand::UnknownRoute(s) => IpView::UnknownRoute(s@),
            IpCommand::NeighShow => IpView::NeighShow,
            IpCommand::UnknownNeigh(s) => IpView::UnknownNeigh(s@),
        }
    }
}

/// The command word of an object: the first word after it, or `show`.
pub open spec fn command_word(sub: Seq<Seq<char>>) -> Seq<char> {
    if sub.len() > 0 {
        sub[0]
    } else {
        "show"@
    }
}

pub open spec fn is_show(c: Seq<char>) -> bool {
    c == "show"@ || c == "list"@ || c == "ls"@
}

pub open spec fn ip_spec(args: Seq<Seq<char>>) -> IpView {
    if args.len() == 0 {
        IpView::Usage
    } else {
        let obj = args[0];
        let sub = args.skip(1);
        let cmd = command_word(sub);
        if obj == "link"@ {
            if is_show(cmd) {
                IpView::LinkShow
            } else if cmd == "set"@ {
                if sub.len() < 3 {
                    IpView::LinkSetUsage
                } else {
                    IpView::LinkSet(sub[1], sub[2] == "up"@)
                }
            } else {
                IpView::UnknownLink(cmd)
            }
        } else if obj == "addr"@ || obj == "address"@ {
            if is_show(cmd) {
                IpView::AddrShow
            } else if cmd == "add"@ {
                if sub.len() < 4 {
                    IpView::AddrAddUsage
                } else {
                    IpView::AddrAddUnsupported
                }
            } else if cmd == "del"@ {
                IpView::AddrDelUnsupported
            } else {
                IpView::UnknownAddr(cmd)
            }
        } else if obj == "route"@ || obj == "r"@ {
            if is_show(cmd) {
                IpView::RouteShow
            } else {
                IpView::UnknownRoute(cmd)
            }
        } else if obj == "neigh"@ || obj == "neighbor"@ {
            if is_show(cmd) {
                IpView::NeighShow
            } else {
                IpView::UnknownNeigh(cmd)
            }
        } else if obj == "-h"@ || obj == "--help"@ || obj == "help"@ {
            IpView::Help
        } else {
            IpView::UnknownObject(obj)
        }
    }
}

fn is_show_exec(c: &[char]) -> (r: bool)
    ensures
        r == is_show(c@),
{
    eq_lit(c, "show") || eq_lit(c, "list") || eq_lit(c, "ls")
}

/// Decides what `ip args...` does.
pub fn run(args: &[String]) -> (cmd: IpCommand)
    ensures
        cmd@ == ip_spec(views(args@)),
{
    let ghost sv = views(args@);
    if args.len() == 0 {
        return IpCommand::Usage;
    }
    let cs = chars_of_all(args);
    let ghost sub = sv.skip(1);
    assert(cs@[0]@ == sv[0]);
    let obj = cs[0].as_slice();
    let cmd: Vec<char> = if args.len() > 1 {
        assert(sub[0] == sv[1]);
        chars_of(args[1].as_str())
    } else {
        chars_of("show")
    };
    assert(cmd@ == command_word(sub));
    let c = cmd.as_slice();
    if eq_lit(obj, "link") {
        if is_show_exec(c) {
            IpCommand::LinkShow
        } else if eq_lit(c, "set") {
            if args.len() - 1 < 3 {
                IpCommand::LinkSetUsage
            } else {
                assert(sub[1] == sv[2] && sub[2] == sv[3]);
                assert(cs@[3]@ == sv[3]);
                let up = eq_lit(cs[3].as_slice(), "up");
                IpCommand::LinkSet(args[2].clone(), up)
            }
        } else {
            IpCommand::UnknownLink(string_of(c))
        }
    } else if eq_lit(obj, "addr") || eq_lit(obj, "address") {
        if is_show_exec(c) {
            IpCommand::AddrShow
        } else if eq_lit(c, "add") {
            if args.len() - 1 < 4 {
                IpCommand::AddrAddUsage
            } else {
                IpCommand::AddrAddUnsupported
            }
        } else if eq_lit(c, "del") {
            IpCommand::AddrDelUnsupported
        } else {
            IpCommand::UnknownAddr(string_of(c))
        }
    } else if eq_lit(obj, "route") || eq_lit(obj, "r") {
        if is_show_exec(c) {
            IpCommand::RouteShow
        } else {
            IpCommand::UnknownRoute(string_of(c))
        }
    } else if eq_lit(obj, "neigh") || eq_lit(obj, "neighbor") {
        if is_show_exec(c) {
            IpCommand::NeighShow
        } else {
            IpCommand::UnknownNeigh(string_of(c))
        }
    } else if eq_lit(obj, "-h") || eq_lit(obj, "--help") || eq_lit(obj, "help") {
        IpCommand::Help
    } else {
        IpCommand::UnknownObject(args[0].clone())
    }
}

// ---------------------------------------------------------------------------
// Addresses
// ---------------------------------------------------------------------------

/// `a.b.c.d` from four byte values.
pub open spec fn dotted(a: nat, b: nat, c: nat, d: nat) -> Seq<char> {
    decimal(a) + "."@ + decimal(b) + "."@ + decimal(c) + "."@ + decimal(d)
}

/// The dotted quad of a little-endian address as /proc/net/route holds it
/// (the lowest byte first), or `0.0.0.0` when `hex` (trimmed) is not a
/// hexadecimal `u32`.
pub open spec fn hex_ip_spec(hex: Seq<char>) -> Seq<char> {
    match parse_unsigned(trim(hex), 16, 0xffff_ffff) {
        Some(v) => dotted(v % 256, (v / 256) % 256, (v / 65536) % 256, (v / 16777216) % 256),
        None => "0.0.0.0"@,
    }
}

/// `dotted(a, b, c, d)`.
pub fn fmt_dotted(a: u64, b: u64, c: u64, d: u64) -> (r: Vec<char>)
    ensures
        r@ == dotted(a as nat, b as nat, c as nat, d as nat),
{
    let mut r = fmt_dec(a);
    push_str(&mut r, ".");
    let x = fmt_dec(b);
    push_all(&mut r, x.as_slice());
    push_str(&mut r, ".");
    let x = fmt_dec(c);
    push_all(&mut r, x.as_slice());
    push_str(&mut r, ".");
    let x = fmt_dec(d);
    push_all(&mut r, x.as_slice());
    r
}

/// Converts a hexadecimal little-endian address from /proc/net/route into
/// dotted-quad text.
pub fn parse_hex_ip(hex: &str) -> (r: String)
    ensures
        r@ == hex_ip_spec(hex@),
{
    let h = chars_of(hex);
    let t = trim_chars(h.as_slice());
    match parse_unsigned_exec(t.as_slice(), 16, 0xffff_ffff) {
        Some(v) => {
            let d = fmt_dotted(v % 256, (v / 256) % 256, (v / 65536) % 256, (v / 16777216) % 256);
            string_of(d.as_slice())
        },
        None => string_of(chars_of("0.0.0.0").as_slice()),
    }
}

/// The number of one bits in `n`.
pub open spec fn popcount(n: nat) -> nat
    decreases n,
{
    if n == 0 {
        0
    } else {
        (n % 2) + popcount(n / 2)
    }
}

/// `u32::count_ones`.
pub fn count_ones(n: u32) -> (r: u32)
    ensures
        r == popcount(n as nat),
        r <= 32,
{
    let mut m: u32 = n;
    let mut c: u32 = 0;
    let mut k: u32 = 0;
    assert(pow2_u32(32) == 0x1_0000_0000) by {
        reveal_with_fuel(pow2_u32, 33);
    }
    while m != 0
        invariant
            c + popcount(m as nat) == popcount(n as nat),
            c <= k,
            k <= 32,
            m < pow2_u32((32 - k) as nat),
        decreases m,
    {
        proof {
            lemma_pow2_halve(m, k);
        }
        c = c + (m % 2);
        m = m / 2;
        k = k + 1;
    }
    proof {
        if k < 32 {
            assert(c <= 32);
        }
    }
    c
}

/// 2 to the power `e`, for the bound on the bits left.
pub open spec fn pow2_u32(e: nat) -> nat
    decreases e,
{
    if e == 0 {
        1
    } else {
        2 * pow2_u32((e - 1) as nat)
    }
}

proof fn lemma_pow2_halve(m: u32, k: u32)
    requires
        m != 0,
        k <= 32,
        m < pow2_u32((32 - k) as nat),
    ensures
        k < 32,
        m / 2 < pow2_u32((32 - (k + 1)) as nat),
{
    if k == 32 {
        assert(pow2_u32(0) == 1);
    } else {
        let e = (32 - k) as nat;
        assert(pow2_u32(e) == 2 * pow2_u32((e - 1) as nat));
    }
}

/// The parts of a dotted mask that are decimal bytes (the others are
/// dropped, as `filter_map` does).
pub open spec fn mask_parts(mask: Seq<char>) -> Seq<nat> {
    split_on(mask, '.').filter_map(|p: Seq<char>| parse_dec(p, 255))
}

/// The prefix length of a dotted netmask: the number of one bits of its
/// four byte values, or 0 when the mask does not have exactly four.
pub open spec fn mask_to_prefix_spec(mask: Seq<char>) -> nat {
    let p = mask_parts(mask);
    if p.len() != 4 {
        0
    } else {
        popcount(p[0] * 16777216 + p[1] * 65536 + p[2] * 256 + p[3])
    }
}

/// The byte values among the dot-separated parts of `s`.
pub fn byte_parts(s: &[char]) -> (r: Vec<u8>)
    ensures
        r@.map_values(|b: u8| b as nat) == split_on(s@, '.').filter_map(
            |p: Seq<char>| parse_dec(p, 255),
        ),
{
    let pieces = split_exec(s, '.');
    let ghost ps = vviews(pieces@);
    let ghost f = |p: Seq<char>| parse_dec(p, 255);
    let mut r: Vec<u8> = Vec::new();
    let mut i: usize = 0;
    while i < pieces.len()
        invariant
            i <= pieces@.len(),
            ps == vviews(pieces@),
            ps == split_on(s@, '.'),
            f == (|p: Seq<char>| parse_dec(p, 255)),
            r@.map_values(|b: u8| b as nat) == ps.take(i as int).filter_map(f),
        decreases pieces@.len() - i,
    {
        let ghost before = r@.map_values(|b: u8| b as nat);
        assert(ps.take(i + 1).drop_last() =~= ps.take(i as int));
        assert(ps[i as int] == pieces@[i as int]@);
        match parse_dec_exec(pieces[i].as_slice(), 255) {
            Some(v) => {
                r.push(v as u8);
                assert(r@.map_values(|b: u8| b as nat) =~= before.push(v as nat));
            },
            None => {
                assert(r@.map_values(|b: u8| b as nat) =~= before);
            },
        }
        proof {
            lemma_filter_map_push(ps.take(i as int), ps[i as int], f);
            assert(ps.take(i + 1) =~= ps.take(i as int).push(ps[i as int]));
        }
        i = i + 1;
    }
    assert(ps.take(pieces@.len() as int) =~= ps);
    r
}

/// `filter_map` of a sequence with one more element at its end.
pub proof fn lemma_filter_map_push<A, B>(s: Seq<A>, x: A, f: spec_fn(A) -> Option<B>)
    ensures
        s.push(x).filter_map(f) == match f(x) {
            Some(y) => s.filter_map(f).push(y),
            None => s.filter_map(f),
        },
{
    reveal_with_fuel(Seq::filter_map, 2);
    assert(s.push(x).drop_last() =~= s);
}

/// Computes the prefix length of a dotted netmask (see `mask_to_prefix_spec`).
pub fn mask_to_prefix(mask: &str) -> (r: u32)
    ensures
        r == mask_to_prefix_spec(mask@),
{
    let m = chars_of(mask);
    let parts = byte_parts(m.as_slice());
    if parts.len() != 4 {
        return 0;
    }
    let ghost p = parts@.map_values(|b: u8| b as nat);
    assert(p[0] == parts@[0] && p[1] == parts@[1] && p[2] == parts@[2] && p[3] == parts@[3]);
    let val: u32 = ((parts[0] as u32) << 24) | ((parts[1] as u32) << 16) | ((parts[2] as u32) << 8)
        | parts[3] as u32;
    proof {
        let (a, b, c, d) = (parts@[0], parts@[1], parts@[2], parts@[3]);
        assert(((a as u32) << 24) | ((b as u32) << 16) | ((c as u32) << 8) | (d as u32) == a
            * 16777216 + b * 65536 + c * 256 + d) by (bit_vector);
    }
    count_ones(val)
}

// ---------------------------------------------------------------------------
// Tables from /proc
// ---------------------------------------------------------------------------

/// The interface names of /proc/net/dev: in each line after the two header
/// lines that holds a colon, the trimmed text before the first colon.
pub open spec fn dev_names(content: Seq<char>) -> Seq<Seq<char>> {
    skip_n(lines(content), 2).filter_map(
        |l: Seq<char>|
            match find_char(l, ':') {
                Some(i) => Some(trim(l.take(i))),
                None => None,
            },
    )
}

/// Reads the interface names out of /proc/net/dev text.
pub fn interface_names(content: &str) -> (r: Vec<String>)
    ensures
        views(r@) == dev_names(content@),
{
    let c = chars_of(content);
    let ls = lines_exec(c.as_slice());
    let ghost lv = vviews(ls@);
    let ghost f = |l: Seq<char>|
        match find_char(l, ':') {
            Some(i) => Some(trim(l.take(i))),
            None => None,
        };
    let mut r: Vec<String> = Vec::new();
    let mut i: usize = 2;
    if ls.len() < 2 {
        assert(views(r@) =~= Seq::<Seq<char>>::empty());
        return r;
    }
    assert(lv.skip(2).take(0) =~= Seq::<Seq<char>>::empty());
    while i < ls.len()
        invariant
            2 <= i <= ls@.len(),
            lv == vviews(ls@),
            lv == lines(content@),
            f == (|l: Seq<char>|
                match find_char(l, ':') {
                    Some(i) => Some(trim(l.take(i))),
                    None => None,
                }),
            views(r@) == lv.skip(2).take(i - 2).filter_map(f),
        decreases ls@.len() - i,
    {
        let ghost before = views(r@);
        let ghost t = lv.skip(2);
        assert(t[i - 2] == ls@[i as int]@);
        let l = ls[i].as_slice();
        match find_char_exec(l, ':') {
            Some(k) => {
                let head = slice_chars(l, 0, k);
                assert(head@ =~= l@.take(k as int));
                let name = trim_chars(head.as_slice());
                r.push(string_of(name.as_slice()));
                assert(views(r@) =~= before.push(name@));
            },
            None => {
                assert(views(r@) =~= before);
            },
        }
        proof {
            lemma_filter_map_push(t.take(i - 2), t[i - 2], f);
            assert(t.take(i - 2 + 1) =~= t.take(i - 2).push(t[i - 2]));
        }
        i = i + 1;
    }
    assert(lv.skip(2).take(ls@.len() - 2) =~= lv.skip(2));
    r
}

/// The line of the routing table for a line of /proc/net/route with at
/// least eight tab-separated fields: the default route through its gateway,
/// or the destination with its prefix length.
pub open spec fn route_line_spec(l: Seq<char>) -> Option<Seq<char>> {
    let p = split_on(l, '\t');
    if p.len() >= 8 {
        let dest = hex_ip_spec(p[1]);
        if dest == "0.0.0.0"@ {
            Some("default via "@ + hex_ip_spec(p[2]) + " dev "@ + p[0])
        } else {
            Some(dest + "/"@ + decimal(mask_to_prefix_spec(hex_ip_spec(p[7]))) + " dev "@ + p[0])
        }
    } else {
        None
    }
}

/// The line of the neighbour table for a line of /proc/net/arp with at
/// least six words: address, device, hardware address, and whether the
/// entry is complete (flags `0x2`).
pub open spec fn neigh_line_spec(l: Seq<char>) -> Option<Seq<char>> {
    let w = words(l);
    if w.len() >= 6 {
        Some(w[0] + " dev "@ + w[5] + " lladdr "@ + w[3] + " "@ + (if w[2] == "0x2"@ {
            "REACHABLE"@
        } else {
            "STALE"@
        }))
    } else {
        None
    }
}

/// The lines a table gives, its heading line skipped.
pub open spec fn table_lines(ls: Seq<Seq<char>>, route: bool) -> Seq<Seq<char>>
    decreases ls.len(),
{
    if ls.len() == 0 {
        seq![]
    } else {
        let rest = table_lines(ls.drop_last(), route);
        match if route { route_line_spec(ls.last()) } else { neigh_line_spec(ls.last()) } {
            Some(x) => rest.push(x),
            None => rest,
        }
    }
}

fn route_line(l: &[char]) -> (r: Option<Vec<char>>)
    ensures
        match (r, route_line_spec(l@)) {
            (Some(a), Some(b)) => a@ == b,
            (None, None) => true,
            _ => false,
        },
{
    let p = split_exec(l, '\t');
    if p.len() < 8 {
        return None;
    }
    let ghost pv = vviews(p@);
    assert(pv[0] == p@[0]@ && pv[1] == p@[1]@ && pv[2] == p@[2]@ && pv[7] == p@[7]@);
    let dest = parse_hex_ip(string_of(p[1].as_slice()).as_str());
    let dc = chars_of(dest.as_str());
    if eq_lit(dc.as_slice(), "0.0.0.0") {
        let mut v = chars_of("default via ");
        push_all(&mut v, chars_of(parse_hex_ip(string_of(p[2].as_slice()).as_str()).as_str()).as_slice());
        push_str(&mut v, " dev ");
        push_all(&mut v, p[0].as_slice());
        Some(v)
    } else {
        let mask = parse_hex_ip(string_of(p[7].as_slice()).as_str());
        let mut v = dc;
        push_str(&mut v, "/");
        push_all(&mut v, fmt_dec(mask_to_prefix(mask.as_str()) as u64).as_slice());
        push_str(&mut v, " dev ");
        push_all(&mut v, p[0].as_slice());
        Some(v)
    }
}

fn neigh_line(l: &[char]) -> (r: Option<Vec<char>>)
    ensures
        match (r, neigh_line_spec(l@)) {
            (Some(a), Some(b)) => a@ == b,
            (None, None) => true,
            _ => false,
        },
{
    let w = words_exec(l);
    if w.len() < 6 {
        return None;
    }
    let ghost wv = vviews(w@);
    assert(wv[0] == w@[0]@ && wv[2] == w@[2]@ && wv[3] == w@[3]@ && wv[5] == w@[5]@);
    let mut v = crate::text::copy_chars(w[0].as_slice());
    push_str(&mut v, " dev ");
    push_all(&mut v, w[5].as_slice());
    push_str(&mut v, " lladdr ");
    push_all(&mut v, w[3].as_slice());
    push_str(&mut v, " ");
    if eq_lit(w[2].as_slice(), "0x2") {
        push_str(&mut v, "REACHABLE");
    } else {
        push_str(&mut v, "STALE");
    }
    Some(v)
}

/// The lines printed for /proc/net/route (`route`) or /proc/net/arp.
pub fn table(content: &str, route: bool) -> (r: Vec<String>)
    ensures
        views(r@) == table_lines(skip_n(lines(content@), 1), route),
{
    let ls = lines_exec(chars_of(content).as_slice());
    let ghost lv = vviews(ls@);
    let mut out: Vec<String> = Vec::new();
    assert(views(out@) =~= Seq::<Seq<char>>::empty());
    if ls.len() <= 1 {
        return out;
    }
    let mut i: usize = 1;
    assert(lv.skip(1).take(0) =~= Seq::<Seq<char>>::empty());
    while i < ls.len()
        invariant
            1 <= i <= ls@.len(),
            lv == vviews(ls@),
            lv == lines(content@),
            views(out@) == table_lines(lv.skip(1).take(i - 1), route),
        decreases ls@.len() - i,
    {
        let l = ls[i].as_slice();
        assert(lv.skip(1).take(i + 1 - 1).drop_last() =~= lv.skip(1).take(i - 1));
        assert(lv.skip(1).take(i + 1 - 1).last() == l@);
        let x = if route {
            route_line(l)
        } else {
            neigh_line(l)
        };
        match x {
            Some(v) => {
                let ghost before = views(out@);
                out.push(string_of(v.as_slice()));
                assert(views(out@) =~= before.push(v@));
            },
            None => {},
        }
        i = i + 1;
    }
    assert(lv.skip(1).take(ls@.len() - 1) =~= lv.skip(1));
    out
}

/// The line of the interface list for the interface numbered `idx`.
pub fn link_line(idx: u64, iface: &str) -> (r: String)
    ensures
        r@ == decimal(idx as nat) + ": "@ + iface@ + ": <UP,BROADCAST,MULTICAST>"@,
{
    let mut v = fmt_dec(idx);
    push_str(&mut v, ": ");
    push_all(&mut v, chars_of(iface).as_slice());
    push_str(&mut v, ": <UP,BROADCAST,MULTICAST>");
    string_of(v.as_slice())
}

/// The two lines of the address list for the interface numbered `idx`:
/// its number and name, then its state (trimmed; `unknown` where it could
/// not be read).
pub fn addr_lines(idx: u64, iface: &str, operstate: Option<&str>) -> (r: (String, String))
    ensures
        r.0@ == decimal(idx as nat) + ": "@ + iface@,
        r.1@ == "    state "@ + trim(match operstate {
            Some(s) => s@,
            None => "unknown"@,
        }),
{
    let mut v = fmt_dec(idx);
    push_str(&mut v, ": ");
    push_all(&mut v, chars_of(iface).as_slice());
    let st = match operstate {
        Some(s) => chars_of(s),
        None => chars_of("unknown"),
    };
    let mut w = chars_of("    state ");
    push_all(&mut w, trim_chars(st.as_slice()).as_slice());
    (string_of(v.as_slice()), string_of(w.as_slice()))
}

} // verus!
