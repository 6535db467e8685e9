//! ipcalc: IPv4 network arithmetic.
use vstd::prelude::*;
use crate::applets::ip::{byte_parts, count_ones, dotted, fmt_dotted, popcount};
use crate::num::{
    decimal, fmt_dec, is_digit_or_lower, lemma_decimal_round_trip, lemma_radix_digit_chars, parse_dec, parse_dec_exec,
    radix_digits,
};
use crate::text::{lemma_find_char_absent, lemma_find_char_after, chars_of, chars_of_all, eq_lit, find_char, find_char_exec, push_all, slice_chars, split_on, starts_with, starts_with_lit, string_of, views};

verus! {

/// The four byte values of a dotted quad, if the dot-separated parts that
/// are decimal bytes are exactly four (other parts are skipped).
pub open spec fn ipv4_spec(s: Seq<char>) -> Option<u32> {
    let p = split_on(s, '.').filter_map(|q: Seq<char>| parse_dec(q, 255));
    if p.len() != 4 {
        None
    } else {
        Some((p[0] * 16777216 + p[1] * 65536 + p[2] * 256 + p[3]) as u32)
    }
}

/// Parses a dotted-quad IPv4 address (see `ipv4_spec`).
pub fn parse_ipv4(s: &str) -> (r: Option<u32>)
    ensures
        r == ipv4_spec(s@),
{
    let c = chars_of(s);
    parse_ipv4_chars(c.as_slice())
}

pub fn parse_ipv4_chars(s: &[char]) -> (r: Option<u32>)
    ensures
        r == ipv4_spec(s@),
{
    let parts = byte_parts(s);
    if parts.len() != 4 {
        return None;
    }
    let ghost p = parts@.map_values(|b: u8| b as nat);
    assert(p[0] == parts@[0] && p[1] == parts@[1] && p[2] == parts@[2] && p[3] == parts@[3]);
    let v: u32 = ((parts[0] as u32) << 24) | ((parts[1] as u32) << 16) | ((parts[2] as u32) << 8)
        | parts[3] as u32;
    proof {
        let (a, b, c, d) = (parts@[0], parts@[1], parts@[2], parts@[3]);
        assert(((a as u32) << 24) | ((b as u32) << 16) | ((c as u32) << 8) | (d as u32) == a
            * 16777216 + b * 65536 + c * 256 + d) by (bit_vector);
    }
    Some(v)
}

/// The dotted quad of an address, most significant byte first.
pub open spec fn ipv4_text(ip: u32) -> Seq<char> {
    dotted(
        (ip / 16777216) as nat,
        ((ip / 65536) % 256) as nat,
        ((ip / 256) % 256) as nat,
        (ip % 256) as nat,
    )
}

/// Formats an address as a dotted quad.
pub fn format_ipv4(ip: u32) -> (r: String)
    ensures
        r@ == ipv4_text(ip),
{
    let v = format_ipv4_chars(ip);
    string_of(v.as_slice())
}

pub fn format_ipv4_chars(ip: u32) -> (r: Vec<char>)
    ensures
        r@ == ipv4_text(ip),
{
    proof {
        assert((ip >> 24) & 0xff == ip / 16777216) by (bit_vector);
        assert((ip >> 16) & 0xff == (ip / 65536) % 256) by (bit_vector);
        assert((ip >> 8) & 0xff == (ip / 256) % 256) by (bit_vector);
        assert(ip & 0xff == ip % 256) by (bit_vector);
    }
    fmt_dotted(
        ((ip >> 24) & 0xff) as u64,
        ((ip >> 16) & 0xff) as u64,
        ((ip >> 8) & 0xff) as u64,
        (ip & 0xff) as u64,
    )
}

/// The netmask whose first `prefix` bits are ones.
pub open spec fn mask_spec(prefix: u32) -> u32 {
    if prefix == 0 {
        0
    } else {
        (!0u32) << ((32 - prefix) as u32)
    }
}

/// The netmask whose first `prefix` bits are ones (`prefix` above 32 makes
/// the shift overflow, which is not allowed).
pub fn prefix_to_mask(prefix: u32) -> (mask: u32)
    requires
        prefix <= 32,
    ensures
        mask == mask_spec(prefix),
{
    if prefix == 0 {
        0
    } else {
        !0u32 << (32 - prefix)
    }
}

/// The prefix length of a dotted netmask: its number of one bits, or 24
/// when it is not an address.
pub open spec fn netmask_prefix_spec(mask: Seq<char>) -> nat {
    match ipv4_spec(mask) {
        Some(v) => popcount(v as nat),
        None => 24,
    }
}

/// Computes the prefix length of a dotted netmask.
pub fn netmask_to_prefix(mask: &str) -> (r: u32)
    ensures
        r == netmask_prefix_spec(mask@),
        r <= 32,
{
    match parse_ipv4(mask) {
        Some(v) => count_ones(v),
        None => 24,
    }
}

// ---------------------------------------------------------------------------
// The command
// ---------------------------------------------------------------------------

/// What the options of an invocation set.
pub struct IpcalcOptions {
    pub show_broadcast: bool,
    pub show_network: bool,
    pub show_prefix: bool,
    pub address: String,
    pub netmask: Option<String>,
}

pub struct OptionsView {
    pub show_broadcast: bool,
    pub show_network: bool,
    pub show_prefix: bool,
    pub address: Seq<char>,
    pub netmask: Option<Seq<char>>,
}

impl View for IpcalcOptions {
    type V = OptionsView;

    open spec fn view(&self) -> OptionsView {
        OptionsView {
            show_broadcast: self.show_broadcast,
            show_network: self.show_network,
            show_prefix: self.show_prefix,
            address: self.address@,
            netmask: match self.netmask {
                Some(m) => Some(m@),
                None => None,
            },
        }
    }
}

/// What an ipcalc invocation asks for.
pub enum IpcalcRequest {
    /// `-h` or `--help`: print the usage, status 0.
    Help,
    /// No address: print the usage, status 1.
    Usage,
    /// Compute for the address text and prefix length.
    Calc { address: String, prefix: u32, show_broadcast: bool, show_network: bool, show_prefix: bool },
}

pub enum RequestView {
    Help,
    Usage,
    Calc { address: Seq<char>, prefix: u32, show_broadcast: bool, show_network: bool, show_prefix: bool },
}

impl View for IpcalcRequest {
    type V = RequestView;

    open spec fn view(&self) -> RequestView {
        match self {
            IpcalcRequest::Help => RequestView::Help,
            IpcalcRequest::Usage => RequestView::Usage,
            IpcalcRequest::Calc { address, prefix, show_broadcast, show_network, show_prefix } =>
                RequestView::Calc {
                address: address@,
                prefix: *prefix,
                show_broadcast: *show_broadcast,
                show_network: *show_network,
                show_prefix: *show_prefix,
            },
        }
    }
}

/// The options after reading `args[i..]` from the options `o`; `None`
/// when a help option comes first.
pub open spec fn scan_options(args: Seq<Seq<char>>, i: int, o: OptionsView) -> Option<OptionsView>
    decreases args.len() - i,
{
    if i < 0 || i >= args.len() {
        Some(o)
    } else {
        let a = args[i];
        if a == "-b"@ || a == "--broadcast"@ {
            scan_options(args, i + 1, OptionsView { show_broadcast: true, ..o })
        } else if a == "-n"@ || a == "--network"@ {
            scan_options(args, i + 1, OptionsView { show_network: true, ..o })
        } else if a == "-p"@ || a == "--prefix"@ {
            scan_options(args, i + 1, OptionsView { show_prefix: true, ..o })
        } else if a == "-m"@ || a == "--netmask"@ {
            if i + 1 < args.len() {
                scan_options(args, i + 2, OptionsView { netmask: Some(args[i + 1]), ..o })
            } else {
                Some(o)
            }
        } else if a == "-h"@ || a == "--help"@ {
            None
        } else if !starts_with(a, "-"@) {
            scan_options(args, i + 1, OptionsView { address: a, ..o })
        } else {
            scan_options(args, i + 1, o)
        }
    }
}

pub open spec fn initial_options() -> OptionsView {
    OptionsView {
        show_broadcast: false,
        show_network: false,
        show_prefix: false,
        address: Seq::empty(),
        netmask: None,
    }
}

/// The prefix given after `/` in the address: its decimal value, or 24 when
/// it is not a `u32`.
pub open spec fn slash_prefix(t: Seq<char>) -> u32 {
    match parse_dec(t, 0xffff_ffff) {
        Some(v) => v as u32,
        None => 24,
    }
}

pub open spec fn request_spec(args: Seq<Seq<char>>) -> RequestView {
    match scan_options(args, 0, initial_options()) {
        None => RequestView::Help,
        Some(o) => {
            if o.address.len() == 0 {
                RequestView::Usage
            } else {
                let (a, p) = match find_char(o.address, '/') {
                    Some(k) => (o.address.take(k), slash_prefix(o.address.skip(k + 1))),
                    None => match o.netmask {
                        Some(m) => (o.address, netmask_prefix_spec(m) as u32),
                        None => (o.address, 24u32),
                    },
                };
                RequestView::Calc {
                    address: a,
                    prefix: p,
                    show_broadcast: o.show_broadcast,
                    show_network: o.show_network,
                    show_prefix: o.show_prefix,
                }
            }
        },
    }
}

/// Reads the options of an ipcalc invocation; `None` when help is asked for.
fn scan(args: &[String]) -> (r: Option<IpcalcOptions>)
    ensures
        match (r, scan_options(views(args@), 0, initial_options())) {
            (Some(a), Some(b)) => a@ == b,
            (None, None) => true,
            _ => false,
        },
{
    let ghost sv = views(args@);
    let cs = chars_of_all(args);
    let mut o = IpcalcOptions {
        show_broadcast: false,
        show_network: false,
        show_prefix: false,
        address: string_of(Vec::<char>::new().as_slice()),
        netmask: None,
    };
    assert(o@.address =~= Seq::<char>::empty());
    assert(o@ == initial_options());
    let mut i: usize = 0;
    while i < args.len()
        invariant
            cs@.len() == args@.len(),
            sv == views(args@),
            forall|k: int| 0 <= k < args@.len() ==> #[trigger] cs@[k]@ == sv[k],
            scan_options(sv, i as int, o@) == scan_options(sv, 0, initial_options()),
        decreases args@.len() - i,
    {
        let a = cs[i].as_slice();
        assert(a@ == sv[i as int]);
        if eq_lit(a, "-b") || eq_lit(a, "--broadcast") {
            o.show_broadcast = true;
        } else if eq_lit(a, "-n") || eq_lit(a, "--network") {
            o.show_network = true;
        } else if eq_lit(a, "-p") || eq_lit(a, "--prefix") {
            o.show_prefix = true;
        } else if eq_lit(a, "-m") || eq_lit(a, "--netmask") {
            if i + 1 < args.len() {
                o.netmask = Some(args[i + 1].clone());
                i = i + 1;
            } else {
                return Some(o);
            }
        } else if eq_lit(a, "-h") || eq_lit(a, "--help") {
            return None;
        } else if !starts_with_lit(a, "-") {
            o.address = args[i].clone();
        }
        i = i + 1;
    }
    Some(o)
}

/// Decides what `ipcalc args...` asks for.
pub fn run(args: &[String]) -> (req: IpcalcRequest)
    ensures
        req@ == request_spec(views(args@)),
{
    let o = match scan(args) {
        None => return IpcalcRequest::Help,
        Some(o) => o,
    };
    let addr = chars_of(o.address.as_str());
    if addr.len() == 0 {
        return IpcalcRequest::Usage;
    }
    let (a, p): (Vec<char>, u32) = match find_char_exec(addr.as_slice(), '/') {
        Some(k) => {
            let head = slice_chars(addr.as_slice(), 0, k);
            let tail = slice_chars(addr.as_slice(), k + 1, addr.len());
            assert(head@ =~= addr@.take(k as int));
            assert(tail@ =~= addr@.skip(k + 1));
            let p = match parse_dec_exec(tail.as_slice(), 0xffff_ffff) {
                Some(v) => v as u32,
                None => 24,
            };
            (head, p)
        },
        None => match &o.netmask {
            Some(m) => (addr, netmask_to_prefix(m.as_str())),
            None => (addr, 24),
        },
    };
    IpcalcRequest::Calc {
        address: string_of(a.as_slice()),
        prefix: p,
        show_broadcast: o.show_broadcast,
        show_network: o.show_network,
        show_prefix: o.show_prefix,
    }
}

/// The number of usable host addresses for a prefix length.
pub open spec fn hosts_spec(prefix: u32) -> int {
    if prefix >= 31 {
        0
    } else {
        pow2((32 - prefix) as nat) - 2
    }
}

pub open spec fn pow2(e: nat) -> int
    decreases e,
{
    if e == 0 {
        1
    } else {
        2 * pow2((e - 1) as nat)
    }
}

/// The lines that ipcalc prints for address `ip` with the given prefix.
pub open spec fn report_spec(ip: u32, prefix: u32, b: bool, n: bool, p: bool) -> Seq<Seq<char>> {
    let mask = mask_spec(prefix);
    let network = ip & mask;
    let broadcast = network | !mask;
    let all = !b && !n && !p;
    let hosts = hosts_spec(prefix);
    (if all || n { seq!["NETWORK="@ + ipv4_text(network)] } else { seq![] })
        + (if all { seq!["NETMASK="@ + ipv4_text(mask)] } else { seq![] })
        + (if all || b { seq!["BROADCAST="@ + ipv4_text(broadcast)] } else { seq![] })
        + (if all || p { seq!["PREFIX="@ + decimal(prefix as nat)] } else { seq![] })
        + (if all {
        seq!["HOSTS="@ + decimal(hosts as nat)] + if hosts > 0 {
            seq![
                "MINADDR="@ + ipv4_text((network + 1) as u32),
                "MAXADDR="@ + ipv4_text((broadcast - 1) as u32),
            ]
        } else {
            seq![]
        }
    } else {
        seq![]
    })
}

fn labelled(label: &str, v: Vec<char>) -> (r: String)
    ensures
        r@ == label@ + v@,
{
    let mut s = chars_of(label);
    push_all(&mut s, v.as_slice());
    string_of(s.as_slice())
}

fn push_line(out: &mut Vec<String>, line: String)
    ensures
        views(final(out)@) == views(old(out)@).push(line@),
{
    out.push(line);
    assert(views(out@) =~= views(old(out)@).push(line@));
}

/// The output of ipcalc for a request: the report lines, or the address
/// text that is not an IPv4 address. A prefix above 32, or a prefix of 0
/// when the host count is shown, makes a shift overflow, and is not allowed.
pub fn report(address: &str, prefix: u32, b: bool, n: bool, p: bool) -> (r: Result<
    Vec<String>,
    String,
>)
    requires
        prefix <= 32,
        !b && !n && !p ==> prefix != 0,
    ensures
        match r {
            Ok(lines) => ipv4_spec(address@) matches Some(ip) && views(lines@) == report_spec(
                ip,
                prefix,
                b,
                n,
                p,
            ),
            Err(a) => ipv4_spec(address@) is None && a@ == address@,
        },
{
    let ip = match parse_ipv4(address) {
        Some(ip) => ip,
        None => return Err(crate::text::to_string(address)),
    };
    let mask = prefix_to_mask(prefix);
    let network = ip & mask;
    let broadcast = network | !mask;
    let all = !b && !n && !p;
    let mut out: Vec<String> = Vec::new();
    let ghost s1 = if all || n { seq!["NETWORK="@ + ipv4_text(network)] } else { seq![] };
    let ghost s2 = if all { seq!["NETMASK="@ + ipv4_text(mask)] } else { seq![] };
    let ghost s3 = if all || b { seq!["BROADCAST="@ + ipv4_text(broadcast)] } else { seq![] };
    let ghost s4 = if all || p { seq!["PREFIX="@ + decimal(prefix as nat)] } else { seq![] };
    if all || n {
        push_line(&mut out, labelled("NETWORK=", format_ipv4_chars(network)));
    }
    assert(views(out@) =~= s1);
    if all {
        push_line(&mut out, labelled("NETMASK=", format_ipv4_chars(mask)));
    }
    assert(views(out@) =~= s1 + s2);
    if all || b {
        push_line(&mut out, labelled("BROADCAST=", format_ipv4_chars(broadcast)));
    }
    assert(views(out@) =~= s1 + s2 + s3);
    if all || p {
        push_line(&mut out, labelled("PREFIX=", fmt_dec(prefix as u64)));
    }
    assert(views(out@) =~= s1 + s2 + s3 + s4);
    if all {
        let hosts: u32 = if prefix >= 31 {
            0
        } else {
            proof {
                lemma_pow2_shift((32 - prefix) as u32);
            }
            (1u32 << (32 - prefix)) - 2
        };
        assert(hosts == hosts_spec(prefix));
        push_line(&mut out, labelled("HOSTS=", fmt_dec(hosts as u64)));
        if hosts > 0 {
            proof {
                assert(prefix <= 30);
                lemma_network_bounds(ip, prefix);
            }
            push_line(&mut out, labelled("MINADDR=", format_ipv4_chars(network + 1)));
            push_line(&mut out, labelled("MAXADDR=", format_ipv4_chars(broadcast - 1)));
        }
    }
    assert(views(out@) =~= report_spec(ip, prefix, b, n, p));
    Ok(out)
}

proof fn lemma_pow2_shift(e: u32)
    requires
        2 <= e <= 32,
    ensures
        e < 32 ==> (1u32 << e) == pow2(e as nat),
        pow2(e as nat) >= 4,
{
    lemma_shift_is_pow2(e);
    lemma_pow2_ge(e as nat);
}

proof fn lemma_pow2_ge(e: nat)
    requires
        e >= 2,
    ensures
        pow2(e) >= 4,
    decreases e,
{
    if e > 2 {
        lemma_pow2_ge((e - 1) as nat);
    } else {
        reveal_with_fuel(pow2, 3);
    }
}

proof fn lemma_shift_is_pow2(e: u32)
    requires
        e <= 32,
    ensures
        e < 32 ==> (1u32 << e) == pow2(e as nat),
    decreases e,
{
    if e == 0 {
        assert((1u32 << 0u32) == 1) by (bit_vector);
    } else if e < 32 {
        lemma_shift_is_pow2((e - 1) as u32);
        let f = (e - 1) as u32;
        assert(f < 31 ==> (1u32 << ((f + 1) as u32)) == 2 * (1u32 << f)) by (bit_vector);
    }
}

proof fn lemma_network_bounds(ip: u32, prefix: u32)
    requires
        prefix <= 30,
    ensures
        (ip & mask_spec(prefix)) < u32::MAX,
        ((ip & mask_spec(prefix)) | !mask_spec(prefix)) > 0,
{
    if prefix == 0 {
        assert((ip & 0u32) < 0xffff_ffffu32 && ((ip & 0u32) | !0u32) > 0) by (bit_vector);
    } else {
        let sh = (32 - prefix) as u32;
        assert(2 <= sh <= 31 ==> (ip & ((!0u32) << sh)) < 0xffff_ffffu32 && ((ip & ((!0u32)
            << sh)) | !((!0u32) << sh)) > 0) by (bit_vector);
    }
}

proof fn lemma_digits_no_dot(n: nat)
    ensures
        forall|i: int| 0 <= i < decimal(n).len() ==> decimal(n)[i] != '.',
{
    lemma_radix_digit_chars(n, 10);
    assert forall|i: int| 0 <= i < decimal(n).len() implies decimal(n)[i] != '.' by {
        assert(is_digit_or_lower(radix_digits(n, 10)[i]));
    }
}

proof fn lemma_split_piece(p: Seq<char>, q: Seq<char>)
    requires
        forall|i: int| 0 <= i < p.len() ==> p[i] != '.',
    ensures
        split_on(p + "."@ + q, '.') == seq![p] + split_on(q, '.'),
{
    reveal_strlit(".");
    let s = p + "."@ + q;
    assert(s =~= p + ("."@ + q));
    lemma_find_char_after(p, "."@ + q, '.');
    assert(find_char("."@ + q, '.') == Some(0int));
    assert(s.take(p.len() as int) =~= p);
    assert(s.skip(p.len() as int + 1) =~= q);
}

/// Reading back the dotted quad of an address gives the address.
pub proof fn lemma_ipv4_round_trip(ip: u32)
    ensures
        ipv4_spec(ipv4_text(ip)) == Some(ip),
{
    let a = (ip / 16777216) as nat;
    let b = ((ip / 65536) % 256) as nat;
    let c = ((ip / 256) % 256) as nat;
    let d = (ip % 256) as nat;
    assert(ip / 16777216 <= 255) by (bit_vector);
    assert(a * 16777216 + b * 65536 + c * 256 + d == ip) by (nonlinear_arith)
        requires
            a == ip / 16777216,
            b == (ip / 65536) % 256,
            c == (ip / 256) % 256,
            d == ip % 256,
            0 <= ip <= 0xffff_ffff,
    ;
    lemma_digits_no_dot(a);
    lemma_digits_no_dot(b);
    lemma_digits_no_dot(c);
    lemma_digits_no_dot(d);
    let (da, db, dc, dd) = (decimal(a), decimal(b), decimal(c), decimal(d));
    let t = ipv4_text(ip);
    assert(t == da + "."@ + (db + "."@ + dc + "."@ + dd)) by {
        assert(da + "."@ + db + "."@ + dc + "."@ + dd =~= da + "."@ + (db + "."@ + dc + "."@ + dd));
    }
    assert(db + "."@ + dc + "."@ + dd =~= db + "."@ + (dc + "."@ + dd));
    lemma_split_piece(da, db + "."@ + dc + "."@ + dd);
    lemma_split_piece(db, dc + "."@ + dd);
    lemma_split_piece(dc, dd);
    lemma_find_char_absent(dd, '.');
    assert(split_on(dd, '.') == seq![dd]);
    let parts = split_on(t, '.');
    assert(parts =~= seq![da, db, dc, dd]);
    lemma_decimal_round_trip(a, 255);
    lemma_decimal_round_trip(b, 255);
    lemma_decimal_round_trip(c, 255);
    lemma_decimal_round_trip(d, 255);
    let f = |q: Seq<char>| parse_dec(q, 255);
    reveal_with_fuel(Seq::filter_map, 5);
    assert(parts.drop_last() =~= seq![da, db, dc]);
    assert(parts.drop_last().drop_last() =~= seq![da, db]);
    assert(parts.drop_last().drop_last().drop_last() =~= seq![da]);
    assert(parts.drop_last().drop_last().drop_last().drop_last() =~= Seq::<Seq<char>>::empty());
    assert(parts.filter_map(f) =~= seq![a, b, c, d]);
}


proof fn lemma_pow2_mono(z: nat, n: nat)
    requires
        z <= n,
    ensures
        1 <= pow2(z) <= pow2(n),
    decreases n,
{
    if n > z {
        lemma_pow2_mono(z, (n - 1) as nat);
    } else if n > 0 {
        lemma_pow2_mono((n - 1) as nat, (n - 1) as nat);
    }
}

/// The run of ones from bit `z` up to bit `n` counts `n - z` ones.
proof fn lemma_popcount_band(n: nat, z: nat)
    requires
        z <= n,
    ensures
        pow2(n) - pow2(z) >= 0,
        popcount((pow2(n) - pow2(z)) as nat) == n - z,
    decreases n,
{
    lemma_pow2_mono(z, n);
    if n == z {
        assert(popcount(0) == 0);
    } else {
        let m = (n - 1) as nat;
        let v = (pow2(n) - pow2(z)) as nat;
        if z > 0 {
            let y = (z - 1) as nat;
            lemma_popcount_band(m, y);
            let w = (pow2(m) - pow2(y)) as nat;
            assert(v == 2 * w);
            assert(v % 2 == 0 && v / 2 == w);
        } else {
            lemma_popcount_band(m, 0);
            let w = (pow2(m) - 1) as nat;
            assert(v == 2 * w + 1);
            assert(v % 2 == 1 && v / 2 == w);
        }
    }
}

/// The mask of a prefix read as a number: the top `prefix` bits set.
proof fn lemma_mask_value(prefix: u32)
    requires
        prefix <= 32,
    ensures
        mask_spec(prefix) == pow2(32) - pow2((32 - prefix) as nat),
        pow2(32) == 0x1_0000_0000,
{
    assert((1u32 << 31u32) == 0x8000_0000u32) by (bit_vector);
    lemma_shift_is_pow2(31);
    assert(pow2(32) == 0x1_0000_0000);
    if prefix > 0 {
        let z = (32 - prefix) as u32;
        lemma_shift_is_pow2(z);
        assert(z < 32u32 ==> ((!0u32) << z) + (1u32 << z) == 0x1_0000_0000int) by (bit_vector);
    }
}

/// Printing the mask of a prefix length and reading the prefix length
/// back from it gives the prefix length (`prefix_to_mask`, `format_ipv4`,
/// `netmask_to_prefix`).
pub proof fn lemma_prefix_round_trip(prefix: u32)
    requires
        prefix <= 32,
    ensures
        netmask_prefix_spec(ipv4_text(mask_spec(prefix))) == prefix,
{
    lemma_ipv4_round_trip(mask_spec(prefix));
    lemma_mask_value(prefix);
    lemma_popcount_band(32, (32 - prefix) as nat);
}

/// An address lies between the network and broadcast addresses of its
/// prefix; the network holds 2 to the power of the host bits addresses,
/// and the hosts counted are those from MINADDR to MAXADDR.
pub proof fn lemma_address_in_network(ip: u32, prefix: u32)
    requires
        prefix <= 32,
    ensures
        (ip & mask_spec(prefix)) <= ip <= ((ip & mask_spec(prefix)) | !mask_spec(prefix)),
        ((ip & mask_spec(prefix)) | !mask_spec(prefix)) - (ip & mask_spec(prefix)) + 1 == pow2(
            (32 - prefix) as nat,
        ),
        prefix <= 30 ==> hosts_spec(prefix) == (((ip & mask_spec(prefix)) | !mask_spec(prefix)) - 1)
            - ((ip & mask_spec(prefix)) + 1) + 1,
{
    lemma_mask_value(prefix);
    let m = mask_spec(prefix);
    assert(((ip & m) <= ip) && (ip <= ((ip & m) | !m)) && ((ip & m) | !m) - (ip & m) == !m) by (bit_vector);
    assert(m + !m == 0xffff_ffffint) by (bit_vector);
}

} // verus!
