//! freeramdisk: the device it flushes.
use vstd::prelude::*;
use crate::text::{chars_of, starts_with, starts_with_lit};

verus! {

/// The device: the first word that does not start with `-`; `None` (the
/// usage is printed) where there is none.
pub fn device(args: &[String]) -> (r: Option<String>)
    ensures
        match r {
            Some(d) => exists|k: int| 0 <= k < args@.len() && args@[k]@ == d@ && !starts_with(d@, "-"@)
                && forall|j: int| 0 <= j < k ==> starts_with(#[trigger] args@[j]@, "-"@),
            None => forall|k: int| 0 <= k < args@.len() ==> starts_with(#[trigger] args@[k]@, "-"@),
        },
{
    let mut i: usize = 0;
    while i < args.len()
        invariant
            i <= args@.len(),
            forall|j: int| 0 <= j < i ==> starts_with(#[trigger] args@[j]@, "-"@),
        decreases args@.len() - i,
    {
        if !starts_with_lit(chars_of(args[i].as_str()).as_slice(), "-") {
            return Some(args[i].clone());
        }
        i = i + 1;
    }
    None
}

} // verus!
