//! logname: which source names the user.
use vstd::prelude::*;

verus! {

/// The login name: the one the system records for the terminal, else the
/// one the environment holds; `None` where neither is known.
pub fn login_name(recorded: Option<String>, from_env: Option<String>) -> (r: Option<String>)
    ensures
        r == if recorded is Some { recorded } else { from_env },
{
    match recorded {
        Some(n) => Some(n),
        None => from_env,
    }
}

} // verus!
