//! Which machines a request may name. Only the local one exists today: an
//! unknown name is a malformed request, not an unreachable machine.

use vstd::prelude::*;

use crate::text::str_eq;

verus! {

/// Whether `target` names a machine this server can act on: only `local`.
pub fn known_target(target: &str) -> (r: bool)
    ensures
        r == (target@ == "local"@),
{
    str_eq(target, "local")
}

} // verus!
