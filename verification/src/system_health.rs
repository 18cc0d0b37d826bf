//! The `system_health` capability's integer figures: the target's own wall
//! clock, the task counts from `/proc/loadavg`, and the memory figures from
//! `/proc/meminfo`, with units normalized at the boundary.
//!
//! The load averages, uptime and the derived ratios are fractional and are
//! computed beside these, outside this library.

use vstd::prelude::*;

use crate::proc::{meminfo_bytes, meminfo_of};
use crate::text::{chars_of, parse_u32, parse_u32_chars, split_chars, split_on, views, words, words_of};
use crate::time::{rfc3339, rfc3339_in_range, rfc3339_of};

verus! {

/// The moment of a reading, as the target's own clock tells it: boot time
/// plus whole seconds of uptime.
pub open spec fn collected_at_of(btime: u64, uptime_seconds: i64) -> Option<Seq<char>> {
    let t = btime + uptime_seconds;
    if btime <= i64::MAX && i64::MIN <= t <= i64::MAX && rfc3339_in_range(t) {
        Some(rfc3339_of(t))
    } else {
        None
    }
}

/// `collected_at`: boot time plus uptime, as RFC 3339. `None` when the sum
/// does not fit or falls outside 1970 to 9999.
pub fn collected_at(btime: u64, uptime_seconds: i64) -> (r: Option<String>)
    ensures
        match r {
            Some(s) => collected_at_of(btime, uptime_seconds) == Some(s@),
            None => collected_at_of(btime, uptime_seconds) is None,
        },
{
    if btime > i64::MAX as u64 {
        return None;
    }
    let b = btime as i64;
    match b.checked_add(uptime_seconds) {
        None => None,
        Some(t) => rfc3339(t),
    }
}

/// The `runnable/total` field of `/proc/loadavg`: its fourth word, or
/// nothing when there are fewer.
pub open spec fn tasks_field(loadavg: Seq<char>) -> Seq<char> {
    if words(loadavg).len() > 3 { words(loadavg)[3] } else { Seq::empty() }
}

/// Runnable and total tasks from `/proc/loadavg`.
pub open spec fn tasks_of(loadavg: Seq<char>) -> Option<(u32, u32)> {
    let parts = split_on(tasks_field(loadavg), '/');
    match (parse_u32(parts[0]), if parts.len() > 1 { parse_u32(parts[1]) } else { None }) {
        (Some(r), Some(t)) => Some((r, t)),
        _ => None,
    }
}

/// Tasks runnable at the instant of reading, and tasks that exist.
pub fn loadavg_tasks(loadavg: &str) -> (r: Option<(u32, u32)>)
    ensures
        r == tasks_of(loadavg@),
{
    let text = chars_of(loadavg);
    let ws = words_of(&text);
    let field = if ws.len() > 3 {
        assert(views(ws@)[3] == ws@[3]@);
        crate::text::clone_chars(&ws[3])
    } else {
        Vec::new()
    };
    assert(field@ == tasks_field(loadavg@));
    let parts = split_chars(&field, '/');
    proof {
        crate::text::lemma_split_on_nonempty(field@, '/');
        assert(views(parts@)[0] == parts@[0]@);
    }
    let runnable = parse_u32_chars(&parts[0]);
    let total = if parts.len() > 1 {
        assert(views(parts@)[1] == parts@[1]@);
        parse_u32_chars(&parts[1])
    } else {
        None
    };
    match (runnable, total) {
        (Some(r), Some(t)) => Some((r, t)),
        _ => None,
    }
}

/// The memory figures `system_health` reports, in bytes.
#[derive(Clone, Copy, Debug, PartialEq, Eq, Structural)]
pub struct MemoryBytes {
    pub total_bytes: u64,
    /// The kernel's own estimate of what new work could allocate without
    /// pushing the machine into swap.
    pub available_bytes: u64,
    /// Page cache.
    pub cached_bytes: u64,
    /// Modified pages not yet written back to disk.
    pub dirty_bytes: u64,
    pub swap_total_bytes: u64,
    /// Swap in use: total less free, and never below zero.
    pub swap_used_bytes: u64,
    /// Kernel data structures that cannot be reclaimed under pressure.
    pub kernel_unreclaimable_bytes: u64,
}

pub open spec fn memory_of(meminfo: Seq<char>) -> Option<MemoryBytes> {
    match (
        meminfo_of(meminfo, "MemTotal"@),
        meminfo_of(meminfo, "MemAvailable"@),
        meminfo_of(meminfo, "SwapTotal"@),
        meminfo_of(meminfo, "SwapFree"@),
        meminfo_of(meminfo, "Cached"@),
        meminfo_of(meminfo, "Dirty"@),
        meminfo_of(meminfo, "SUnreclaim"@),
    ) {
        (Some(total), Some(available), Some(swap_total), Some(swap_free), Some(cached), Some(dirty), Some(unreclaimable)) =>
            Some(MemoryBytes {
                total_bytes: total,
                available_bytes: available,
                cached_bytes: cached,
                dirty_bytes: dirty,
                swap_total_bytes: swap_total,
                swap_used_bytes: if swap_total >= swap_free { (swap_total - swap_free) as u64 } else { 0 },
                kernel_unreclaimable_bytes: unreclaimable,
            }),
        _ => None,
    }
}

/// The memory figures from `/proc/meminfo`; `None` if any is missing, since
/// there is no partial answer worth sending.
///
/// `MemFree` is deliberately not reported: on a healthy busy machine it is
/// near zero, which makes it the most commonly misread field of the file.
pub fn memory_bytes(meminfo: &str) -> (r: Option<MemoryBytes>)
    ensures
        r == memory_of(meminfo@),
{
    let total = meminfo_bytes(meminfo, "MemTotal");
    let available = meminfo_bytes(meminfo, "MemAvailable");
    let swap_total = meminfo_bytes(meminfo, "SwapTotal");
    let swap_free = meminfo_bytes(meminfo, "SwapFree");
    let cached = meminfo_bytes(meminfo, "Cached");
    let dirty = meminfo_bytes(meminfo, "Dirty");
    let unreclaimable = meminfo_bytes(meminfo, "SUnreclaim");
    match (total, available, swap_total, swap_free, cached, dirty, unreclaimable) {
        (Some(total), Some(available), Some(swap_total), Some(swap_free), Some(cached), Some(dirty), Some(unreclaimable)) =>
            Some(MemoryBytes {
                total_bytes: total,
                available_bytes: available,
                cached_bytes: cached,
                dirty_bytes: dirty,
                swap_total_bytes: swap_total,
                swap_used_bytes: swap_total.saturating_sub(swap_free),
                kernel_unreclaimable_bytes: unreclaimable,
            }),
        _ => None,
    }
}

} // verus!
