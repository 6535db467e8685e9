//! ipaddr: shorthand for `ip addr show`.
use vstd::prelude::*;
use crate::applets::ip::{ip_spec, IpCommand};
use crate::text::{to_string, views};

verus! {

/// Decides what `ipaddr args...` does: exactly what
/// `ip addr show args...` does.
pub fn run(args: &[String]) -> (cmd: IpCommand)
    ensures
        cmd@ == ip_spec(seq!["addr"@, "show"@] + views(args@)),
{
    let mut new_args: Vec<String> = Vec::new();
    new_args.push(to_string("addr"));
    new_args.push(to_string("show"));
    let mut i: usize = 0;
    while i < args.len()
        invariant
            i <= args@.len(),
            views(new_args@) == seq!["addr"@, "show"@] + views(args@).take(i as int),
        decreases args@.len() - i,
    {
        let ghost before = views(new_args@);
        new_args.push(args[i].clone());
        assert(views(new_args@) =~= before.push(args@[i as int]@));
        assert(views(args@)[i as int] == args@[i as int]@);
        assert(views(args@).take(i + 1) =~= views(args@).take(i as int).push(args@[i as int]@));
        assert(views(new_args@) =~= seq!["addr"@, "show"@] + views(args@).take(i + 1));
        i = i + 1;
    }
    assert(views(args@).take(args@.len() as int) =~= views(args@));
    crate::applets::ip::run(new_args.as_slice())
}

} // verus!
