//! ifconfig: which interface operations an invocation asks for.
use vstd::prelude::*;
use crate::applets::ip::dotted;
use crate::num::{fmt_hex_padded, fmt_signed, hex, pad_left, parse_i32_exec, parse_signed, signed_decimal};
use crate::text::{chars_of, chars_of_all, eq_lit, join, push_all, push_str, starts_with, starts_with_lit, string_of};

verus! {

/// One configuration operation on the named interface.
pub enum IfconfigStep {
    /// Set (`true`) or clear the UP flag (setting also sets RUNNING).
    SetFlags(bool),
    /// Assign an IPv4 address, given as text.
    SetAddress(String),
    /// Assign an IPv4 netmask, given as text.
    SetNetmask(String),
    /// Set the MTU, given as text (the executor rejects non-numbers).
    SetMtu(String),
}

/// What an ifconfig invocation does.
pub enum IfconfigPlan {
    /// No arguments: show every interface listed in /proc/net/dev.
    ShowAll,
    /// One argument: show that interface.
    Show(String),
    /// An interface followed by operations. They are carried out in order;
    /// the first one that fails ends the command with status 1, else 0.
    Configure(String, Vec<IfconfigStep>),
}

pub enum StepView {
    SetFlags(bool),
    SetAddress(Seq<char>),
    SetNetmask(Seq<char>),
    SetMtu(Seq<char>),
}

pub enum PlanView {
    ShowAll,
    Show(Seq<char>),
    Configure(Seq<char>, Seq<StepView>),
}

impl View for IfconfigStep {
    type V = StepView;

    open spec fn view(&self) -> StepView {
        match self {
            IfconfigStep::SetFlags(b) => StepView::SetFlags(*b),
            IfconfigStep::SetAddress(s) => StepView::SetAddress(s@),
            IfconfigStep::SetNetmask(s) => StepView::SetNetmask(s@),
            IfconfigStep::SetMtu(s) => StepView::SetMtu(s@),
        }
    }
}

impl View for IfconfigPlan {
    type V = PlanView;

    open spec fn view(&self) -> PlanView {
        match self {
            IfconfigPlan::ShowAll => PlanView::ShowAll,
            IfconfigPlan::Show(s) => PlanView::Show(s@),
            IfconfigPlan::Configure(s, v) => PlanView::Configure(
                s@,
                v@.map_values(|x: IfconfigStep| x@),
            ),
        }
    }
}

/// Any word that does not start with `-` is also taken as an address
/// (so after a successful `up` or `down` the word itself is tried as one).
pub open spec fn address_step(a: Seq<char>) -> Seq<StepView> {
    if !starts_with(a, "-"@) {
        seq![StepView::SetAddress(a)]
    } else {
        seq![]
    }
}

/// The operations asked for by `args[i..]`.
pub open spec fn steps_from(args: Seq<Seq<char>>, i: int) -> Seq<StepView>
    decreases args.len() - i,
{
    if i < 0 || i >= args.len() {
        seq![]
    } else {
        let a = args[i];
        if a == "up"@ {
            seq![StepView::SetFlags(true)] + address_step(a) + steps_from(args, i + 1)
        } else if a == "down"@ {
            seq![StepView::SetFlags(false)] + address_step(a) + steps_from(args, i + 1)
        } else if a == "netmask"@ {
            if i + 1 < args.len() {
                seq![StepView::SetNetmask(args[i + 1])] + steps_from(args, i + 2)
            } else {
                seq![]
            }
        } else if a == "mtu"@ {
            if i + 1 < args.len() {
                seq![StepView::SetMtu(args[i + 1])] + steps_from(args, i + 2)
            } else {
                seq![]
            }
        } else {
            address_step(a) + steps_from(args, i + 1)
        }
    }
}

pub open spec fn plan_spec(args: Seq<Seq<char>>) -> PlanView {
    if args.len() == 0 {
        PlanView::ShowAll
    } else if args.len() == 1 {
        PlanView::Show(args[0])
    } else {
        PlanView::Configure(args[0], steps_from(args, 1))
    }
}

pub open spec fn step_views(v: Seq<IfconfigStep>) -> Seq<StepView> {
    v.map_values(|x: IfconfigStep| x@)
}

fn push_step(v: &mut Vec<IfconfigStep>, s: IfconfigStep)
    ensures
        step_views(final(v)@) == step_views(old(v)@).push(s@),
{
    v.push(s);
    assert(step_views(v@) =~= step_views(old(v)@).push(s@));
}

/// Decides what `ifconfig args...` does.
pub fn run(args: &[String]) -> (plan: IfconfigPlan)
    ensures
        plan@ == plan_spec(crate::text::views(args@)),
{
    let ghost sv = crate::text::views(args@);
    if args.len() == 0 {
        return IfconfigPlan::ShowAll;
    }
    if args.len() == 1 {
        return IfconfigPlan::Show(args[0].clone());
    }
    let cs = chars_of_all(args);
    assert(crate::text::vviews(cs@) =~= sv);
    let mut steps: Vec<IfconfigStep> = Vec::new();
    let mut i: usize = 1;
    while i < args.len()
        invariant
            1 <= i,
            cs@.len() == args@.len(),
            sv == crate::text::views(args@),
            forall|k: int| 0 <= k < args@.len() ==> #[trigger] cs@[k]@ == sv[k],
            step_views(steps@) + steps_from(sv, i as int) == steps_from(sv, 1),
        decreases args@.len() + 1 - i,
    {
        let a = cs[i].as_slice();
        let ghost before = step_views(steps@);
        assert(a@ == sv[i as int]);
        let is_up = eq_lit(a, "up");
        let is_down = eq_lit(a, "down");
        if is_up || is_down {
            push_step(&mut steps, IfconfigStep::SetFlags(is_up));
            if !starts_with_lit(a, "-") {
                push_step(&mut steps, IfconfigStep::SetAddress(args[i].clone()));
            }
            assert(step_views(steps@) + steps_from(sv, i + 1) =~= before + steps_from(sv, i as int));
            i = i + 1;
        } else if eq_lit(a, "netmask") || eq_lit(a, "mtu") {
            let is_mask = eq_lit(a, "netmask");
            if i + 1 < args.len() {
                if is_mask {
                    push_step(&mut steps, IfconfigStep::SetNetmask(args[i + 1].clone()));
                } else {
                    push_step(&mut steps, IfconfigStep::SetMtu(args[i + 1].clone()));
                }
                assert(step_views(steps@) + steps_from(sv, i + 2) =~= before + steps_from(sv, i as int));
                i = i + 2;
            } else {
                assert(steps_from(sv, i as int) =~= Seq::<StepView>::empty());
                assert(steps_from(sv, i + 1) =~= Seq::<StepView>::empty());
                assert(step_views(steps@) + steps_from(sv, i + 1) =~= before + steps_from(sv, i as int));
                i = i + 1;
            }
        } else {
            if !starts_with_lit(a, "-") {
                push_step(&mut steps, IfconfigStep::SetAddress(args[i].clone()));
            }
            assert(step_views(steps@) + steps_from(sv, i + 1) =~= before + steps_from(sv, i as int));
            i = i + 1;
        }
    }
    assert(steps_from(sv, i as int) =~= Seq::<StepView>::empty());
    assert(step_views(steps@) =~= steps_from(sv, 1));
    IfconfigPlan::Configure(args[0].clone(), steps)
}

/// The flags after bringing an interface up (UP and RUNNING set) or down
/// (UP cleared).
pub fn new_flags(flags: i16, up: bool) -> (r: i16)
    ensures
        r == if up { flags | 0x41i16 } else { flags & !0x1i16 },
{
    if up {
        flags | 0x41
    } else {
        flags & !0x1
    }
}

/// The MTU given as text, as `str::parse::<i32>` reads it.
pub fn parse_mtu(s: &str) -> (r: Option<i32>)
    ensures
        r == match parse_signed(s@, 10, i32::MIN as int, i32::MAX as int) {
            Some(v) => Some(v as i32),
            None => None,
        },
{
    parse_i32_exec(chars_of(s).as_slice())
}

/// The names of the flags set, in the order UP, RUNNING, BROADCAST,
/// MULTICAST, LOOPBACK.
pub open spec fn flag_names(flags: i16) -> Seq<Seq<char>> {
    let f = flags as u32;
    (if f & 0x1 != 0 { seq!["UP"@] } else { seq![] }) + (if f & 0x40 != 0 { seq!["RUNNING"@] } else { seq![] })
        + (if f & 0x2 != 0 { seq!["BROADCAST"@] } else { seq![] }) + (if f & 0x1000 != 0 {
        seq!["MULTICAST"@]
    } else {
        seq![]
    }) + (if f & 0x8 != 0 { seq!["LOOPBACK"@] } else { seq![] })
}

/// The first line about an interface: its name, its flags as a number and
/// the names of those set.
pub fn flags_line(iface: &str, flags: i16) -> (r: String)
    ensures
        r@ == iface@ + ": flags="@ + signed_decimal(flags as int) + "<"@ + join(flag_names(flags), ","@) + ">"@,
{
    let f = flags as u32;
    let mut names: Vec<Vec<char>> = Vec::new();
    if f & 0x1 != 0 {
        names.push(chars_of("UP"));
    }
    if f & 0x40 != 0 {
        names.push(chars_of("RUNNING"));
    }
    if f & 0x2 != 0 {
        names.push(chars_of("BROADCAST"));
    }
    if f & 0x1000 != 0 {
        names.push(chars_of("MULTICAST"));
    }
    if f & 0x8 != 0 {
        names.push(chars_of("LOOPBACK"));
    }
    assert(crate::text::vviews(names@) =~= flag_names(flags));
    let mut v = chars_of(iface);
    push_str(&mut v, ": flags=");
    push_all(&mut v, fmt_signed(flags as i64).as_slice());
    push_str(&mut v, "<");
    push_all(&mut v, crate::text::join_exec(&names, ",").as_slice());
    push_str(&mut v, ">");
    string_of(v.as_slice())
}

/// The line of an interface's address, with its netmask where it has one.
pub fn inet_line(ip: u32, mask: Option<u32>) -> (r: String)
    ensures
        r@ == "        inet "@ + dotted((ip / 16777216) as nat, ((ip / 65536) % 256) as nat, ((ip / 256) % 256) as nat, (ip % 256) as nat)
            + match mask {
            Some(m) => "  netmask "@ + dotted((m / 16777216) as nat, ((m / 65536) % 256) as nat, ((m / 256) % 256) as nat, (m % 256) as nat),
            None => seq![],
        },
{
    let mut v = chars_of("        inet ");
    push_all(&mut v, crate::applets::ipcalc::format_ipv4_chars(ip).as_slice());
    match mask {
        Some(m) => {
            push_str(&mut v, "  netmask ");
            push_all(&mut v, crate::applets::ipcalc::format_ipv4_chars(m).as_slice());
        },
        None => {},
    }
    string_of(v.as_slice())
}

/// The MTU line.
pub fn mtu_line(mtu: i32) -> (r: String)
    ensures
        r@ == "        mtu "@ + signed_decimal(mtu as int),
{
    let mut v = chars_of("        mtu ");
    push_all(&mut v, fmt_signed(mtu as i64).as_slice());
    string_of(v.as_slice())
}

/// The hardware address line: the first six bytes in two-digit hexadecimal,
/// apart by colons.
pub fn ether_line(hw: &[u8]) -> (r: String)
    requires
        hw@.len() >= 6,
    ensures
        r@ == "        ether "@ + pad_left(hex(hw@[0] as nat), 2, '0') + ":"@ + pad_left(hex(hw@[1] as nat), 2, '0') + ":"@
            + pad_left(hex(hw@[2] as nat), 2, '0') + ":"@ + pad_left(hex(hw@[3] as nat), 2, '0') + ":"@
            + pad_left(hex(hw@[4] as nat), 2, '0') + ":"@ + pad_left(hex(hw@[5] as nat), 2, '0'),
{
    let mut v = chars_of("        ether ");
    push_all(&mut v, fmt_hex_padded(hw[0] as u64, 2).as_slice());
    push_str(&mut v, ":");
    push_all(&mut v, fmt_hex_padded(hw[1] as u64, 2).as_slice());
    push_str(&mut v, ":");
    push_all(&mut v, fmt_hex_padded(hw[2] as u64, 2).as_slice());
    push_str(&mut v, ":");
    push_all(&mut v, fmt_hex_padded(hw[3] as u64, 2).as_slice());
    push_str(&mut v, ":");
    push_all(&mut v, fmt_hex_padded(hw[4] as u64, 2).as_slice());
    push_str(&mut v, ":");
    push_all(&mut v, fmt_hex_padded(hw[5] as u64, 2).as_slice());
    string_of(v.as_slice())
}

} // verus!
