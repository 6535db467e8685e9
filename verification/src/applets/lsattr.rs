//! lsattr: the paths it lists and how it shows a file's attribute flags.
use vstd::prelude::*;
use crate::text::{chars_of, starts_with, starts_with_lit, string_of, to_string, views};

verus! {

/// The attribute flags shown, with their letters, in e2fsprogs' order.
pub open spec fn attr_order() -> Seq<(u32, char)> {
    seq![
        (0x00000004u32, 'S'),
        (0x00000008u32, 's'),
        (0x00000010u32, 'i'),
        (0x00000020u32, 'a'),
        (0x00000040u32, 'c'),
        (0x00000200u32, 'd'),
        (0x00000400u32, 'A'),
        (0x00000800u32, 'j'),
        (0x00001000u32, 't'),
        (0x00020000u32, 'T'),
        (0x00080000u32, 'e'),
    ]
}

/// The letters of the flags that are set, `-` for the others.
pub open spec fn flags_spec(flags: u32) -> Seq<char> {
    attr_order().map_values(|p: (u32, char)| if flags & p.0 != 0 {
        p.1
    } else {
        '-'
    })
}

/// How a file's attribute flags are shown (see `flags_spec`).
pub fn format_flags(flags: u32) -> (r: String)
    ensures
        r@ == flags_spec(flags),
{
    let order: [(u32, char); 11] = [
        (0x00000004, 'S'),
        (0x00000008, 's'),
        (0x00000010, 'i'),
        (0x00000020, 'a'),
        (0x00000040, 'c'),
        (0x00000200, 'd'),
        (0x00000400, 'A'),
        (0x00000800, 'j'),
        (0x00001000, 't'),
        (0x00020000, 'T'),
        (0x00080000, 'e'),
    ];
    assert(order@ =~= attr_order());
    let ghost f = |p: (u32, char)| if flags & p.0 != 0 {
        p.1
    } else {
        '-'
    };
    let mut v: Vec<char> = Vec::new();
    let mut k: usize = 0;
    while k < 11
        invariant
            k <= 11,
            order@ == attr_order(),
            f == (|p: (u32, char)| if flags & p.0 != 0 {
                p.1
            } else {
                '-'
            }),
            v@ == attr_order().take(k as int).map_values(f),
        decreases 11 - k,
    {
        let (bit, ch) = order[k];
        v.push(if flags & bit != 0 {
            ch
        } else {
            '-'
        });
        assert(attr_order().take(k + 1).map_values(f) =~= attr_order().take(k as int).map_values(f).push(
            f(attr_order()[k as int]),
        ));
        k = k + 1;
    }
    assert(attr_order().take(11) =~= attr_order());
    string_of(v.as_slice())
}

/// The line shown for a file.
pub fn attr_line(flags: u32, path: &str) -> (r: String)
    ensures
        r@ == flags_spec(flags) + " "@ + path@,
{
    let mut v = chars_of(format_flags(flags).as_str());
    crate::text::push_str(&mut v, " ");
    crate::text::push_all(&mut v, chars_of(path).as_slice());
    string_of(v.as_slice())
}

/// The paths listed: the words that do not start with `-`, else `.`.
pub fn paths(args: &[String]) -> (r: Vec<String>)
    ensures
        views(r@) == if views(args@).filter(|a: Seq<char>| !starts_with(a, "-"@)).len() == 0 {
            seq!["."@]
        } else {
            views(args@).filter(|a: Seq<char>| !starts_with(a, "-"@))
        },
{
    let ghost av = views(args@);
    let ghost keep = |a: Seq<char>| !starts_with(a, "-"@);
    let mut r: Vec<String> = Vec::new();
    let mut i: usize = 0;
    assert(av.take(0).filter(keep) =~= Seq::<Seq<char>>::empty());
    while i < args.len()
        invariant
            i <= args@.len(),
            av == views(args@),
            keep == (|a: Seq<char>| !starts_with(a, "-"@)),
            views(r@) == av.take(i as int).filter(keep),
        decreases args@.len() - i,
    {
        let c = chars_of(args[i].as_str());
        assert(av[i as int] == c@);
        proof {
            reveal_with_fuel(Seq::filter, 2);
            assert(av.take(i + 1).drop_last() =~= av.take(i as int));
        }
        let ghost before = views(r@);
        if !starts_with_lit(c.as_slice(), "-") {
            r.push(args[i].clone());
            assert(views(r@) =~= before.push(c@));
        }
        assert(views(r@) =~= av.take(i + 1).filter(keep));
        i = i + 1;
    }
    assert(av.take(args@.len() as int) =~= av);
    if r.len() == 0 {
        r.push(to_string("."));
        assert(views(r@) =~= seq!["."@]);
    }
    r
}

} // verus!
