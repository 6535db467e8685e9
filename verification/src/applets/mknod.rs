//! mknod: its options, the kind of node, and its device number.
use vstd::prelude::*;
use crate::num::{parse_dec, parse_dec_exec, parse_unsigned, parse_unsigned_exec};
use crate::text::{chars_of_all, eq_lit, slice_chars, starts_with, starts_with_lit, trim_prefix_all, trim_prefix_all_exec, views};

verus! {

/// An octal mode, or `0o666` where the text is not one.
pub open spec fn mode_or_default(s: Seq<char>) -> u32 {
    match parse_unsigned(s, 8, u32::MAX as nat) {
        Some(v) => v as u32,
        None => 0o666,
    }
}

/// Reading the words from `i` on: `-m MODE` (without leading `0o`s),
/// `-mMODE`; every other word is kept in order.
pub open spec fn args_scan(args: Seq<Seq<char>>, i: int, mode: u32, pos: Seq<Seq<char>>) -> (u32, Seq<Seq<char>>)
    decreases args.len() - i,
{
    if i < 0 || i >= args.len() {
        (mode, pos)
    } else {
        let a = args[i];
        if a == "-m"@ || a == "--mode"@ {
            if i + 1 < args.len() {
                args_scan(args, i + 2, mode_or_default(trim_prefix_all(args[i + 1], "0o"@)), pos)
            } else {
                (mode, pos)
            }
        } else if starts_with(a, "-m"@) {
            args_scan(args, i + 1, mode_or_default(a.skip(2)), pos)
        } else {
            args_scan(args, i + 1, mode, pos.push(a))
        }
    }
}

/// The file-type bits of a block device, a character device and a FIFO.
pub const S_IFBLK: u32 = 0o60000;
pub const S_IFCHR: u32 = 0o20000;
pub const S_IFIFO: u32 = 0o10000;

/// The device number of a major and a minor number as Linux packs them:
/// the major's low 12 bits at bit 8 and its high 20 bits at bit 44, the
/// minor's low 8 bits at bit 0 and its high 24 bits at bit 20.
pub open spec fn dev_number(major: u32, minor: u32) -> u64 {
    (((major as u64) & 0xfffu64) << 8u64) | (((major as u64) & 0xfffff000u64) << 32u64) | ((minor as u64)
        & 0xffu64) | (((minor as u64) & 0xffffff00u64) << 12u64)
}

/// Trusted: libc's `makedev` on Linux, which packs a major and a minor
/// number into a device number: the major's low 12 bits at bit 8 and its
/// high 20 bits at bit 44, the minor's low 8 bits at bit 0 and its high 24
/// bits at bit 20.
#[verifier::external_body]
pub(crate) fn makedev(major: u32, minor: u32) -> (r: u64)
    ensures
        r == dev_number(major, minor),
{
    libc::makedev(major, minor)
}

/// What mknod does.
pub enum MknodPlan {
    /// Fewer than a name and a type: print the usage and fail.
    Usage,
    /// `mknod: invalid type 'T'`, fail.
    BadType(String),
    /// `mknod: missing major/minor for type 'T'`, fail.
    MissingNumbers(String),
    /// Make the node `name` with this mode (type bits and permissions) and
    /// device number.
    Make { name: String, mode: u32, dev: u64 },
}

/// A device number as `str::parse::<u64>` reads it (0 where it is none),
/// then cut to 32 bits.
pub open spec fn dev_part(s: Seq<char>) -> u32 {
    match parse_dec(s, u64::MAX as nat) {
        Some(v) => (v % 0x1_0000_0000) as u32,
        None => 0,
    }
}

fn dev_part_exec(s: &[char]) -> (r: u32)
    ensures
        r == dev_part(s@),
{
    match parse_dec_exec(s, u64::MAX) {
        Some(v) => (v % 0x1_0000_0000) as u32,
        None => 0,
    }
}

/// What mknod does with the words of its invocation: the mode (0o666 by
/// default), then the name, the type (`b`, `c`/`u` or `p`) and, for a
/// device, its major and minor numbers.
pub fn plan(args: &[String]) -> (r: MknodPlan)
    ensures
        ({
            let (mode, pos) = args_scan(views(args@), 0, 0o666, seq![]);
            if pos.len() < 2 {
                r is Usage
            } else if !(pos[1] == "b"@ || pos[1] == "c"@ || pos[1] == "u"@ || pos[1] == "p"@) {
                r matches MknodPlan::BadType(t) && t@ == pos[1]
            } else if pos[1] != "p"@ && pos.len() < 4 {
                r matches MknodPlan::MissingNumbers(t) && t@ == pos[1]
            } else {
                r matches MknodPlan::Make { name, mode: m, dev } && name@ == pos[0] && m == (if pos[1]
                    == "b"@ {
                    S_IFBLK
                } else if pos[1] == "p"@ {
                    S_IFIFO
                } else {
                    S_IFCHR
                }) | mode && dev == (if pos[1] == "p"@ {
                    0u64
                } else {
                    dev_number(dev_part(pos[2]), dev_part(pos[3]))
                })
            }
        }),
{
    let ghost av = views(args@);
    let cs = chars_of_all(args);
    let n = args.len();
    let mut mode: u32 = 0o666;
    let mut pos: Vec<String> = Vec::new();
    assert(views(pos@) =~= Seq::<Seq<char>>::empty());
    proof {
        reveal_strlit("-m");
    }
    let mut i: usize = 0;
    while i < n
        invariant
            n == args@.len(),
            cs@.len() == n,
            av == views(args@),
            forall|k: int| 0 <= k < n ==> #[trigger] cs@[k]@ == args@[k]@,
            i <= n,
            "-m"@.len() == 2,
            args_scan(av, i as int, mode, views(pos@)) == args_scan(av, 0, 0o666, seq![]),
        decreases n - i,
    {
        let a = cs[i].as_slice();
        assert(av[i as int] == a@);
        if eq_lit(a, "-m") || eq_lit(a, "--mode") {
            if i + 1 < n {
                assert(av[i + 1] == cs@[i + 1]@);
                let t = trim_prefix_all_exec(cs[i + 1].as_slice(), "0o");
                mode = match parse_unsigned_exec(t.as_slice(), 8, 0xffff_ffff) {
                    Some(v) => v as u32,
                    None => 0o666,
                };
                i = i + 2;
            } else {
                i = n;
            }
        } else if starts_with_lit(a, "-m") {
            let rest = slice_chars(a, 2, a.len());
            assert(rest@ =~= a@.skip(2));
            mode = match parse_unsigned_exec(rest.as_slice(), 8, 0xffff_ffff) {
                Some(v) => v as u32,
                None => 0o666,
            };
            i = i + 1;
        } else {
            let ghost before = views(pos@);
            pos.push(args[i].clone());
            assert(views(pos@) =~= before.push(a@));
            i = i + 1;
        }
    }
    let ghost pv = views(pos@);
    if pos.len() < 2 {
        return MknodPlan::Usage;
    }
    assert(pv[0] == pos@[0]@ && pv[1] == pos@[1]@);
    let tc = crate::text::chars_of(pos[1].as_str());
    let t = tc.as_slice();
    let is_b = eq_lit(t, "b");
    let is_c = eq_lit(t, "c") || eq_lit(t, "u");
    let is_p = eq_lit(t, "p");
    if !is_b && !is_c && !is_p {
        return MknodPlan::BadType(pos[1].clone());
    }
    if !is_p && pos.len() < 4 {
        return MknodPlan::MissingNumbers(pos[1].clone());
    }
    let fmt = if is_b {
        S_IFBLK
    } else if is_p {
        S_IFIFO
    } else {
        S_IFCHR
    };
    let dev = if is_p {
        0u64
    } else {
        assert(pv[2] == pos@[2]@ && pv[3] == pos@[3]@);
        let major = dev_part_exec(crate::text::chars_of(pos[2].as_str()).as_slice());
        let minor = dev_part_exec(crate::text::chars_of(pos[3].as_str()).as_slice());
        makedev(major, minor)
    };
    MknodPlan::Make { name: pos[0].clone(), mode: fmt | mode, dev }
}

} // verus!
