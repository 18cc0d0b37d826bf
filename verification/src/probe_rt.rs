//! What every probe shares: how it decides whether it runs with authority
//! beyond the invoking user's.
//!
//! The three kernel answers — the effective and real uids, and the effective
//! capability set — are asked for by the caller; the decision is here.

use vstd::prelude::*;

verus! {

/// Whether a probe with these credentials runs with authority beyond the
/// invoking user's: as root, setuid (effective uid differs from the real
/// one), or with any effective file capability.
pub open spec fn is_privileged(euid: u32, uid: u32, cap_effective: u64) -> bool {
    euid == 0 || euid != uid || cap_effective != 0
}

/// Whether this probe is running with authority beyond the invoking user's.
///
/// Both grant mechanisms have to be covered, and they look nothing alike:
/// setuid shows up as an effective uid differing from the real one (or as
/// root), while file capabilities leave both uids untouched and show up only
/// in the effective capability set.
pub fn privileged(euid: u32, uid: u32, cap_effective: u64) -> (r: bool)
    ensures
        r == is_privileged(euid, uid, cap_effective),
{
    euid == 0 || euid != uid || cap_effective != 0
}

/// The two 32-bit slices `capget(2)` returns for
/// `_LINUX_CAPABILITY_VERSION_3`, folded into one 64-bit word.
pub fn fold_capabilities(low: u32, high: u32) -> (r: u64)
    ensures
        r == high as int * 0x1_0000_0000 + low as int,
        r == 0 <==> (low == 0 && high == 0),
{
    let r = (high as u64) << 32 | low as u64;
    assert(((high as u64) << 32 | low as u64) == high as int * 0x1_0000_0000 + low as int) by (bit_vector);
    r
}

} // verus!
