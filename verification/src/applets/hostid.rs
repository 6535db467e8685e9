//! hostid: the host identifier as it is printed.
use vstd::prelude::*;
use crate::num::{fmt_hex_padded, hex, pad_left};
use crate::text::string_of;

verus! {

/// The host identifier (the low 32 bits of `gethostid`) in eight
/// lower-case hex digits.
pub fn hostid_text(id: u32) -> (r: String)
    ensures
        r@ == pad_left(hex(id as nat), 8, '0'),
{
    string_of(fmt_hex_padded(id as u64, 8).as_slice())
}

} // verus!
