//! The `storage_health` tool's answer: the storage probe's report, plus where
//! the probe ran from.

use vstd::prelude::*;

use crate::prologue::Location;
use crate::storage::Report;

verus! {

/// Which probe location a payload came from.
#[derive(Clone, Copy, Debug, PartialEq, Eq, Structural)]
pub enum ProbeLocation {
    /// `/opt/stethoscope`, installed by an operator.
    Installed,
    /// The server's own cache in the invoking user's home directory.
    Home,
}

pub open spec fn probe_location_of(l: Location) -> ProbeLocation {
    match l {
        Location::Installed => ProbeLocation::Installed,
        Location::Home => ProbeLocation::Home,
    }
}

/// Where a probe ran from, as the answer names it.
pub fn probe_location(l: Location) -> (p: ProbeLocation)
    ensures
        p == probe_location_of(l),
{
    match l {
        Location::Installed => ProbeLocation::Installed,
        Location::Home => ProbeLocation::Home,
    }
}

/// Filesystem capacity on a target machine.
pub struct StorageHealth {
    /// The target this was collected from.
    pub target: String,
    /// Where the probe that collected this ran from. An operator-installed
    /// probe may carry elevated authority (see `privileged`); one in the home
    /// cache never does.
    pub probe_location: ProbeLocation,
    pub report: Report,
}

/// The answer for `target`, from the report the probe at `location` printed.
pub fn storage_health(target: String, location: Location, report: Report) -> (h: StorageHealth)
    ensures
        h.target@ == target@,
        h.probe_location == probe_location_of(location),
        h.report == report,
{
    StorageHealth { target, probe_location: probe_location(location), report }
}

} // verus!
