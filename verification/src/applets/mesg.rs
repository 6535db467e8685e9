//! mesg: what it does with the terminal's mode.
use vstd::prelude::*;
use crate::text::{chars_of, eq_lit, to_string};

verus! {

/// What mesg does.
pub enum MesgAction {
    /// Print `is y` (`true`) or `is n`.
    Report(bool),
    /// Give the terminal this mode.
    SetMode(u32),
    /// `mesg: invalid argument: ARG`, fail.
    Invalid(String),
}

/// What mesg does with its first argument, the terminal's mode being
/// `mode`: without one it reports whether the group may write (bit
/// `0o020`); `y` sets that bit, `n` clears it.
pub fn action(arg: Option<&str>, mode: u32) -> (r: MesgAction)
    ensures
        match arg {
            None => r == MesgAction::Report(mode & 0o020 != 0),
            Some(a) => if a@ == "y"@ {
                r == MesgAction::SetMode(mode | 0o020)
            } else if a@ == "n"@ {
                r == MesgAction::SetMode(mode & !0o020u32)
            } else {
                r matches MesgAction::Invalid(t) && t@ == a@
            },
        },
{
    match arg {
        None => MesgAction::Report(mode & 0o020 != 0),
        Some(a) => {
            let c = chars_of(a);
            if eq_lit(c.as_slice(), "y") {
                MesgAction::SetMode(mode | 0o020)
            } else if eq_lit(c.as_slice(), "n") {
                MesgAction::SetMode(mode & !0o020u32)
            } else {
                MesgAction::Invalid(to_string(a))
            }
        },
    }
}

} // verus!
