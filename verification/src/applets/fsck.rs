//! fsck: its options, the checker it hands each device to, the type it
//! assumes, and how the statuses add up.
use vstd::prelude::*;
use crate::applets::install::opt_view;
use crate::text::{chars_of, chars_of_all, eq_lit, push_all, starts_with, starts_with_lit, string_of, to_string, views};

verus! {

/// What the options of an invocation set.
pub struct FsckArgs {
    pub auto_repair: bool,
    pub no_action: bool,
    pub verbose: bool,
    pub fstype: Option<String>,
    pub devices: Vec<String>,
}

pub struct ArgsView {
    pub auto_repair: bool,
    pub no_action: bool,
    pub verbose: bool,
    pub fstype: Option<Seq<char>>,
    pub devices: Seq<Seq<char>>,
}

impl View for FsckArgs {
    type V = ArgsView;

    open spec fn view(&self) -> ArgsView {
        ArgsView {
            auto_repair: self.auto_repair,
            no_action: self.no_action,
            verbose: self.verbose,
            fstype: opt_view(self.fstype),
            devices: views(self.devices@),
        }
    }
}

pub open spec fn scan_start() -> ArgsView {
    ArgsView { auto_repair: false, no_action: false, verbose: false, fstype: None, devices: seq![] }
}

/// Reading the words from `i` on; `None`: help was asked for. `-a`, `-p`
/// and `-y` repair, `-n` changes nothing, `-t` takes the type, words not
/// starting with `-` are the devices.
pub open spec fn scan(args: Seq<Seq<char>>, i: int, st: ArgsView) -> Option<ArgsView>
    decreases args.len() - i,
{
    if i < 0 || i >= args.len() {
        Some(st)
    } else {
        let a = args[i];
        if a == "-a"@ || a == "-p"@ || a == "-y"@ {
            scan(args, i + 1, ArgsView { auto_repair: true, ..st })
        } else if a == "-n"@ {
            scan(args, i + 1, ArgsView { no_action: true, ..st })
        } else if a == "-v"@ || a == "--verbose"@ {
            scan(args, i + 1, ArgsView { verbose: true, ..st })
        } else if a == "-t"@ {
            if i + 1 < args.len() {
                scan(args, i + 2, ArgsView { fstype: Some(args[i + 1]), ..st })
            } else {
                Some(st)
            }
        } else if a == "-h"@ || a == "--help"@ {
            None
        } else if !starts_with(a, "-"@) {
            scan(args, i + 1, ArgsView { devices: st.devices.push(a), ..st })
        } else {
            scan(args, i + 1, st)
        }
    }
}

/// Reads the options of an invocation; `None` where help was asked for.
pub fn parse_args(args: &[String]) -> (r: Option<FsckArgs>)
    ensures
        match r {
            Some(a) => scan(views(args@), 0, scan_start()) == Some(a@),
            None => scan(views(args@), 0, scan_start()) is None,
        },
{
    let ghost av = views(args@);
    let cs = chars_of_all(args);
    let n = args.len();
    let mut st = FsckArgs { auto_repair: false, no_action: false, verbose: false, fstype: None, devices: Vec::new() };
    assert(views(st.devices@) =~= Seq::<Seq<char>>::empty());
    assert(st@ =~= scan_start());
    let mut i: usize = 0;
    while i < n
        invariant
            n == args@.len(),
            cs@.len() == n,
            av == views(args@),
            forall|k: int| 0 <= k < n ==> #[trigger] cs@[k]@ == args@[k]@,
            i <= n,
            scan(av, i as int, st@) == scan(av, 0, scan_start()),
        decreases n - i,
    {
        let a = cs[i].as_slice();
        assert(av[i as int] == a@);
        if eq_lit(a, "-a") || eq_lit(a, "-p") || eq_lit(a, "-y") {
            st.auto_repair = true;
        } else if eq_lit(a, "-n") {
            st.no_action = true;
        } else if eq_lit(a, "-v") || eq_lit(a, "--verbose") {
            st.verbose = true;
        } else if eq_lit(a, "-t") {
            if i + 1 < n {
                assert(av[i + 1] == args@[i + 1]@);
                st.fstype = Some(args[i + 1].clone());
                i = i + 1;
            }
        } else if eq_lit(a, "-h") || eq_lit(a, "--help") {
            return None;
        } else if !starts_with_lit(a, "-") {
            let ghost before = views(st.devices@);
            st.devices.push(args[i].clone());
            assert(views(st.devices@) =~= before.push(a@));
        }
        i = i + 1;
    }
    Some(st)
}

/// The checker for a type: `fsck.` and the type.
pub fn helper_name(fstype: &str) -> (r: String)
    ensures
        r@ == "fsck."@ + fstype@,
{
    let mut v = chars_of("fsck.");
    push_all(&mut v, chars_of(fstype).as_slice());
    string_of(v.as_slice())
}

/// The words handed to the checker: `-p` when repairing, `-n` when
/// changing nothing, then the device.
pub fn helper_args(auto_repair: bool, no_action: bool, device: &str) -> (r: Vec<String>)
    ensures
        views(r@) == (if auto_repair { seq!["-p"@] } else { seq![] }) + (if no_action {
            seq!["-n"@]
        } else {
            seq![]
        }) + seq![device@],
{
    let mut v: Vec<String> = Vec::new();
    if auto_repair {
        v.push(to_string("-p"));
    }
    if no_action {
        v.push(to_string("-n"));
    }
    v.push(to_string(device));
    assert(views(v@) =~= (if auto_repair { seq!["-p"@] } else { seq![] }) + (if no_action {
        seq!["-n"@]
    } else {
        seq![]
    }) + seq![device@]);
    v
}

/// Does the image carry the ext2/3/4 magic number (`0xEF53`, little-endian,
/// 56 bytes into the superblock at 1024)?
pub fn has_ext_magic(data: &[u8]) -> (r: bool)
    ensures
        r == (data@.len() >= 1082 && data@[1080] == 0x53 && data@[1081] == 0xEF),
{
    data.len() >= 1082 && data[1080] == 0x53 && data[1081] == 0xEF
}

/// The type assumed for a device whose type was not given: `ext4`, whether
/// or not its superblock says so.
pub fn detect_fstype(data: Option<&[u8]>) -> (r: String)
    ensures
        r@ == "ext4"@,
{
    match data {
        Some(d) => {
            if has_ext_magic(d) {
                return to_string("ext4");
            }
        },
        None => {},
    }
    to_string("ext4")
}

/// The status of a checker that ended: its code, or 1 where it was killed.
pub fn helper_status(code: Option<i32>) -> (r: i32)
    ensures
        r == match code {
            Some(c) => c,
            None => 1i32,
        },
{
    match code {
        Some(c) => c,
        None => 1,
    }
}

/// The status so far with one more device's status: the bits of both.
pub fn add_status(acc: i32, status: i32) -> (r: i32)
    ensures
        r == if status != 0 { acc | status } else { acc },
{
    if status != 0 {
        acc | status
    } else {
        acc
    }
}

/// The line of a device that the basic check could open.
pub fn clean_line(device: &str) -> (r: String)
    ensures
        r@ == device@ + ": clean (basic check only)"@,
{
    let mut v = chars_of(device);
    push_all(&mut v, chars_of(": clean (basic check only)").as_slice());
    string_of(v.as_slice())
}

} // verus!
