//! hdparm: its options, which reports each device gets, and the lines of
//! those reports.
use vstd::prelude::*;
use crate::num::{decimal, fmt_dec, fmt_signed, signed_decimal};
use crate::text::{chars_of, chars_of_all, eq_lit, push_all, push_str, starts_with, starts_with_lit, string_of, views};

verus! {

/// What the options of an invocation set.
pub struct HdparmArgs {
    pub geometry: bool,
    pub size: bool,
    pub read_only: bool,
    pub reread: bool,
    pub devices: Vec<String>,
}

/// The devices of an invocation: its words that do not start with `-`.
pub open spec fn devices_of(args: Seq<Seq<char>>) -> Seq<Seq<char>> {
    args.filter(|a: Seq<char>| !starts_with(a, "-"@))
}

pub open spec fn has(args: Seq<Seq<char>>, w: Seq<char>) -> bool {
    exists|k: int| 0 <= k < args.len() && args[k] == w
}

/// Reads the options of an invocation.
pub fn parse_args(args: &[String]) -> (r: HdparmArgs)
    ensures
        r.geometry == has(views(args@), "-g"@),
        r.size == (has(views(args@), "--getsz"@) || has(views(args@), "--getsize64"@)),
        r.read_only == has(views(args@), "-r"@),
        r.reread == has(views(args@), "-z"@),
        views(r.devices@) == devices_of(views(args@)),
{
    let ghost av = views(args@);
    let ghost keep = |a: Seq<char>| !starts_with(a, "-"@);
    let cs = chars_of_all(args);
    let n = args.len();
    let mut st = HdparmArgs { geometry: false, size: false, read_only: false, reread: false, devices: Vec::new() };
    let mut i: usize = 0;
    assert(av.take(0).filter(keep) =~= Seq::<Seq<char>>::empty());
    assert(views(st.devices@) =~= Seq::<Seq<char>>::empty());
    while i < n
        invariant
            n == args@.len(),
            cs@.len() == n,
            av == views(args@),
            keep == (|a: Seq<char>| !starts_with(a, "-"@)),
            forall|k: int| 0 <= k < n ==> #[trigger] cs@[k]@ == args@[k]@,
            i <= n,
            st.geometry == has(av.take(i as int), "-g"@),
            st.size == (has(av.take(i as int), "--getsz"@) || has(av.take(i as int), "--getsize64"@)),
            st.read_only == has(av.take(i as int), "-r"@),
            st.reread == has(av.take(i as int), "-z"@),
            views(st.devices@) == av.take(i as int).filter(keep),
        decreases n - i,
    {
        let a = cs[i].as_slice();
        assert(av[i as int] == a@);
        let ghost t0 = av.take(i as int);
        let ghost t1 = av.take(i + 1);
        assert(t1 =~= t0.push(a@));
        assert forall|w: Seq<char>| has(t1, w) == (has(t0, w) || a@ == w) by {
            if has(t1, w) {
                let k = choose|k: int| 0 <= k < t1.len() && t1[k] == w;
                if k < t0.len() {
                    assert(t0[k] == w);
                }
            }
            if has(t0, w) {
                let k = choose|k: int| 0 <= k < t0.len() && t0[k] == w;
                assert(t1[k] == w);
            }
            if a@ == w {
                assert(t1[i as int] == w);
            }
        }
        proof {
            reveal_with_fuel(Seq::filter, 2);
            assert(t1.drop_last() =~= t0);
        }
        let ghost before = views(st.devices@);
        if eq_lit(a, "-g") {
            st.geometry = true;
        }
        if eq_lit(a, "--getsz") || eq_lit(a, "--getsize64") {
            st.size = true;
        }
        if eq_lit(a, "-r") {
            st.read_only = true;
        }
        if eq_lit(a, "-z") {
            st.reread = true;
        }
        if !starts_with_lit(a, "-") {
            st.devices.push(args[i].clone());
            assert(views(st.devices@) =~= before.push(a@));
        }
        i = i + 1;
    }
    assert(av.take(n as int) =~= av);
    st
}

/// Is the geometry report given? Where asked for, or where no report was.
pub fn shows_geometry(a: &HdparmArgs) -> (r: bool)
    ensures
        r == (a.geometry || (!a.size && !a.read_only && !a.reread)),
{
    a.geometry || (!a.size && !a.read_only && !a.reread)
}

/// The heading of a device's reports.
pub fn device_heading(dev: &str) -> (r: String)
    ensures
        r@ == "\n"@ + dev@ + ":"@,
{
    let mut v = chars_of("\n");
    push_all(&mut v, chars_of(dev).as_slice());
    push_str(&mut v, ":");
    string_of(v.as_slice())
}

/// The geometry line.
pub fn geometry_line(cylinders: u16, heads: u8, sectors: u8, start: u64) -> (r: String)
    ensures
        r@ == " geometry      = "@ + decimal(cylinders as nat) + "/"@ + decimal(heads as nat) + "/"@
            + decimal(sectors as nat) + ", start = "@ + decimal(start as nat),
{
    let mut v = chars_of(" geometry      = ");
    push_all(&mut v, fmt_dec(cylinders as u64).as_slice());
    push_str(&mut v, "/");
    push_all(&mut v, fmt_dec(heads as u64).as_slice());
    push_str(&mut v, "/");
    push_all(&mut v, fmt_dec(sectors as u64).as_slice());
    push_str(&mut v, ", start = ");
    push_all(&mut v, fmt_dec(start).as_slice());
    string_of(v.as_slice())
}

/// The sector size line.
pub fn sector_size_line(size: i32) -> (r: String)
    ensures
        r@ == " sector size   = "@ + signed_decimal(size as int) + " bytes"@,
{
    let mut v = chars_of(" sector size   = ");
    push_all(&mut v, fmt_signed(size as i64).as_slice());
    push_str(&mut v, " bytes");
    string_of(v.as_slice())
}

/// The device size line: bytes, and whole MiB.
pub fn device_size_line(bytes: u64) -> (r: String)
    ensures
        r@ == " device size   = "@ + decimal(bytes as nat) + " bytes ("@ + decimal((bytes / 1048576) as nat) + " MiB)"@,
{
    let mut v = chars_of(" device size   = ");
    push_all(&mut v, fmt_dec(bytes).as_slice());
    push_str(&mut v, " bytes (");
    push_all(&mut v, fmt_dec(bytes / 1048576).as_slice());
    push_str(&mut v, " MiB)");
    string_of(v.as_slice())
}

/// The size in 512-byte sectors.
pub fn sectors_line(bytes: u64) -> (r: String)
    ensures
        r@ == " "@ + decimal((bytes / 512) as nat),
{
    let mut v = chars_of(" ");
    push_all(&mut v, fmt_dec(bytes / 512).as_slice());
    string_of(v.as_slice())
}

/// The read-only line.
pub fn read_only_line(ro: i32) -> (r: String)
    ensures
        r@ == " readonly      = "@ + (if ro != 0 { "on"@ } else { "off"@ }),
{
    let mut v = chars_of(" readonly      = ");
    if ro != 0 {
        push_str(&mut v, "on");
    } else {
        push_str(&mut v, "off");
    }
    string_of(v.as_slice())
}

} // verus!
