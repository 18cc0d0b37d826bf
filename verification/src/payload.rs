//! The probes this server carries: one binary per capability and
//! architecture, each known by its SHA-256.

use vstd::prelude::*;

use crate::text::str_eq;

verus! {

/// One embedded probe.
pub struct Payload {
    /// Capability name, e.g. `storage`.
    pub capability: &'static str,
    /// Architecture it runs on, as `std::env::consts::ARCH` names it.
    pub arch: &'static str,
    /// Lowercase hex SHA-256 of `bytes`.
    pub sha256: &'static str,
    pub bytes: &'static [u8],
}

/// `stethoscope-<capability>-<sha256>`.
pub open spec fn probe_file_name(capability: Seq<char>, sha256: Seq<char>) -> Seq<char> {
    "stethoscope-"@ + capability + "-"@ + sha256
}

impl Payload {
    /// The name this probe has on disk, wherever it is found or placed.
    pub fn file_name(&self) -> (s: String)
        ensures
            s@ == probe_file_name(self.capability@, self.sha256@),
    {
        let mut s = String::from_str("stethoscope-");
        s.append(self.capability);
        s.append("-");
        s.append(self.sha256);
        s
    }
}

/// The payload of `payloads` built for `capability` on `arch`, if any.
pub open spec fn payload_for(payloads: Seq<Payload>, capability: Seq<char>, arch: Seq<char>) -> Option<int>
    decreases payloads.len(),
{
    if payloads.len() == 0 {
        None
    } else if payloads[0].capability@ == capability && payloads[0].arch@ == arch {
        Some(0)
    } else {
        match payload_for(payloads.drop_first(), capability, arch) {
            Some(i) => Some(i + 1),
            None => None,
        }
    }
}

/// The probe for `capability` on the machine this server runs on, whose
/// architecture is `arch`: the first one built for both.
pub fn for_host<'a>(payloads: &'a [Payload], capability: &str, arch: &str) -> (r: Option<&'a Payload>)
    ensures
        match payload_for(payloads@, capability@, arch@) {
            Some(i) => r == Some(&payloads@[i]),
            None => r is None,
        },
{
    let mut i: usize = 0;
    assert(payloads@.skip(0) =~= payloads@);
    while i < payloads.len()
        invariant
            i <= payloads@.len(),
            payload_for(payloads@, capability@, arch@) == match payload_for(payloads@.skip(i as int), capability@, arch@) {
                Some(j) => Some(j + i),
                None => None::<int>,
            },
        decreases payloads@.len() - i,
    {
        let ghost rest = payloads@.skip(i as int);
        proof {
            assert(rest[0] == payloads@[i as int]);
            assert(rest.drop_first() =~= payloads@.skip(i as int + 1));
        }
        if str_eq(payloads[i].capability, capability) && str_eq(payloads[i].arch, arch) {
            return Some(&payloads[i]);
        }
        i = i + 1;
    }
    None
}

/// Whether a file name is one this build would place, for any capability on
/// any architecture.
pub fn is_ours(payloads: &[Payload], file_name: &str) -> (r: bool)
    ensures
        r == exists|i: int| 0 <= i < payloads@.len()
            && #[trigger] probe_file_name(payloads@[i].capability@, payloads@[i].sha256@) == file_name@,
{
    let mut i: usize = 0;
    while i < payloads.len()
        invariant
            i <= payloads@.len(),
            forall|j: int| 0 <= j < i ==> #[trigger] probe_file_name(payloads@[j].capability@, payloads@[j].sha256@) != file_name@,
        decreases payloads@.len() - i,
    {
        let name = payloads[i].file_name();
        if str_eq(name.as_str(), file_name) {
            return true;
        }
        i = i + 1;
    }
    false
}

/// The host's probe is the first built for both the capability and the
/// architecture; when there is none, no payload is built for both.
pub proof fn lemma_payload_for_is_first_match(payloads: Seq<Payload>, capability: Seq<char>, arch: Seq<char>)
    ensures
        payload_for(payloads, capability, arch) matches Some(i) ==> 0 <= i < payloads.len()
            && payloads[i].capability@ == capability && payloads[i].arch@ == arch
            && forall|j: int| 0 <= j < i ==> !(#[trigger] payloads[j].capability@ == capability && payloads[j].arch@ == arch),
        payload_for(payloads, capability, arch) is None ==> forall|j: int| 0 <= j < payloads.len()
            ==> !(#[trigger] payloads[j].capability@ == capability && payloads[j].arch@ == arch),
    decreases payloads.len(),
{
    if payloads.len() > 0 {
        let rest = payloads.drop_first();
        lemma_payload_for_is_first_match(rest, capability, arch);
        assert forall|j: int| 1 <= j < payloads.len() implies #[trigger] payloads[j] == rest[j - 1] by {}
    }
}

} // verus!
