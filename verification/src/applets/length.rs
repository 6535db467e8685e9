//! length: the length in bytes of the first argument.
use vstd::prelude::*;
use crate::num::{decimal, fmt_dec};
use crate::text::{chars_of, string_of, utf8_len, utf8_len_exec};

verus! {

/// What length prints: the number of bytes of the first argument, or 0
/// without arguments.
pub fn run(args: &[String]) -> (r: String)
    requires
        args@.len() > 0 ==> utf8_len(args@[0]@) <= u64::MAX,
    ensures
        r@ == decimal(if args@.len() == 0 {
            0
        } else {
            utf8_len(args@[0]@)
        }),
{
    if args.len() == 0 {
        return string_of(fmt_dec(0).as_slice());
    }
    match utf8_len_exec(chars_of(args[0].as_str()).as_slice()) {
        Some(n) => string_of(fmt_dec(n).as_slice()),
        None => string_of(fmt_dec(0).as_slice()),
    }
}

} // verus!
