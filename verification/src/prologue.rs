//! The probe prologue's rules: which location a probe may be executed from,
//! and what a refusal is called.
//!
//! Collection runs a probe binary found in `/opt/stethoscope` (installed by
//! an operator) or placed in `$HOME/.stethoscope` (by this server). Whether a
//! location yields a runnable probe is decided by [`judge`], a pure function
//! over the facts gathered about the location, so the rules hold for facts
//! gathered from a local filesystem and from a remote one alike.
//!
//! What reaches the model is a location *class* and a reason category, never
//! a path.

use sha2::Digest;
use vstd::prelude::*;
use vstd::utf8::encode_utf8;

use crate::path::{copy_bytes, join_bytes, join_path};
use crate::payload::{probe_file_name, Payload};
use crate::text::{ascii_chars, ascii_string, has_prefix, str_eq};

verus! {

/// Which link of the chain a payload came from.
#[derive(Clone, Copy, PartialEq, Eq, Debug, Structural)]
pub enum Location {
    /// `/opt/stethoscope`, put there by an operator.
    Installed,
    /// `$HOME/.stethoscope`, placed by this server.
    Home,
}

pub open spec fn location_name(l: Location) -> Seq<char> {
    match l {
        Location::Installed => "installed"@,
        Location::Home => "home"@,
    }
}

impl Location {
    /// The name the payload uses for this location.
    pub fn as_str(self) -> (s: &'static str)
        ensures
            s@ == location_name(self),
    {
        match self {
            Location::Installed => "installed",
            Location::Home => "home",
        }
    }
}

/// Why a location did not yield a runnable probe. A category, never a
/// diagnostic; the detail goes to stderr.
#[derive(Clone, Copy, PartialEq, Eq, Debug, Structural)]
pub enum Reason {
    /// Nothing there. Not a refusal — the ordinary state of `/opt`.
    Absent,
    /// `$HOME` is unset or not an absolute path.
    NoHome,
    /// The directory holding the probe directory can be written by someone
    /// other than root or us, who could therefore rename it away and put their
    /// own in its place.
    UnsafeParent,
    /// The probe directory is a symlink or some other non-directory.
    NotADirectory,
    /// The directory or file is owned by someone who is neither us nor, for
    /// `/opt`, root.
    UnsafeOwner,
    /// The directory or file is writable by group or world.
    UnsafeMode,
    /// The probe's name is taken by something that is not a regular file.
    NotARegularFile,
    /// The contents do not hash to the name.
    HashMismatch,
    /// Setuid, setgid or file capabilities on a probe outside `/opt`.
    ElevatedOutsideInstalled,
    /// An elevated probe in `/opt` that is not root-owned, or is writable by
    /// group or world, or executable by world.
    ElevatedUnsafe,
    /// Found and verified, but the kernel refused to execute it.
    NotExecutable,
    /// Placement failed for lack of space or quota.
    NoSpace,
    /// Placement failed because we may not write there.
    NotWritable,
    /// Anything else the filesystem said.
    IoError,
}

pub open spec fn reason_name(r: Reason) -> Seq<char> {
    match r {
        Reason::Absent => "absent"@,
        Reason::NoHome => "no_home"@,
        Reason::UnsafeParent => "unsafe_parent"@,
        Reason::NotADirectory => "not_a_directory"@,
        Reason::UnsafeOwner => "unsafe_owner"@,
        Reason::UnsafeMode => "unsafe_mode"@,
        Reason::NotARegularFile => "not_a_regular_file"@,
        Reason::HashMismatch => "hash_mismatch"@,
        Reason::ElevatedOutsideInstalled => "elevated_outside_installed"@,
        Reason::ElevatedUnsafe => "elevated_unsafe"@,
        Reason::NotExecutable => "not_executable"@,
        Reason::NoSpace => "no_space"@,
        Reason::NotWritable => "not_writable"@,
        Reason::IoError => "io_error"@,
    }
}

impl Reason {
    /// The name the payload uses for this reason.
    pub fn as_str(self) -> (s: &'static str)
        ensures
            s@ == reason_name(self),
    {
        match self {
            Reason::Absent => "absent",
            Reason::NoHome => "no_home",
            Reason::UnsafeParent => "unsafe_parent",
            Reason::NotADirectory => "not_a_directory",
            Reason::UnsafeOwner => "unsafe_owner",
            Reason::UnsafeMode => "unsafe_mode",
            Reason::NotARegularFile => "not_a_regular_file",
            Reason::HashMismatch => "hash_mismatch",
            Reason::ElevatedOutsideInstalled => "elevated_outside_installed",
            Reason::ElevatedUnsafe => "elevated_unsafe",
            Reason::NotExecutable => "not_executable",
            Reason::NoSpace => "no_space",
            Reason::NotWritable => "not_writable",
            Reason::IoError => "io_error",
        }
    }
}

/// What kind of thing a path names, not following a symlink.
#[derive(Clone, Copy, PartialEq, Eq, Debug, Structural)]
pub enum Kind {
    Dir,
    File,
    Symlink,
    Other,
}

/// What `stat` said about one path, reduced to what the rules read.
#[derive(Clone, Copy, PartialEq, Eq, Debug, Structural)]
pub struct Meta {
    pub kind: Kind,
    pub uid: u32,
    /// Permission bits including setuid, setgid and sticky: `st_mode & 0o7777`.
    pub mode: u32,
}

#[derive(Debug)]
pub struct FileFacts {
    pub meta: Meta,
    /// A `security.capability` extended attribute is present. The hash cannot
    /// see it, so this is the only thing that tells a verified probe from a
    /// verified *and elevated* one.
    pub capability_xattr: bool,
    /// Lowercase hex SHA-256 of the contents; `None` if it is not a regular
    /// file or is implausibly large.
    pub sha256: Option<String>,
}

/// Everything the rules need about one location. `None` means absent.
#[derive(Debug)]
pub struct Facts {
    /// The directory the probe directory sits in: `/opt`, or `$HOME`.
    pub parent: Option<Meta>,
    /// The probe directory itself, not following a symlink.
    pub dir: Option<Meta>,
    /// The file named for the probe this build carries.
    pub file: Option<FileFacts>,
    /// The directory could not be searched, so nothing is known about the
    /// file.
    pub file_unknowable: bool,
}

#[derive(Clone, Copy, PartialEq, Eq, Debug, Structural)]
pub enum Finding {
    /// Safe to execute. `elevated` when setuid, setgid or file capabilities are
    /// present, which the rules admit only in `/opt`.
    Usable { elevated: bool },
    /// The location is safe and holds no probe.
    Absent,
    /// The location may not be used, for this reason.
    Refused(Reason),
}

/// Group or world may write it.
pub open spec fn others_can_write(m: Meta) -> bool {
    m.mode & 0o022 != 0
}

/// Owned by us, or — for `/opt` only — by root.
pub open spec fn owner_ok(location: Location, uid: u32, m: Meta) -> bool {
    m.uid == uid || (location == Location::Installed && m.uid == 0)
}

/// A directory that only root or we can change.
pub open spec fn parent_ok(uid: u32, m: Meta) -> bool {
    m.kind == Kind::Dir && (m.uid == uid || m.uid == 0) && !others_can_write(m)
}

/// Setuid, setgid, or file capabilities.
pub open spec fn is_elevated(f: FileFacts) -> bool {
    f.meta.mode & 0o6000 != 0 || f.capability_xattr
}

/// The verdict on a probe file in a safe directory.
pub open spec fn file_verdict(location: Location, uid: u32, file: FileFacts, sha256: Seq<char>) -> Finding {
    if file.meta.kind != Kind::File {
        Finding::Refused(Reason::NotARegularFile)
    } else if !owner_ok(location, uid, file.meta) {
        Finding::Refused(Reason::UnsafeOwner)
    } else if others_can_write(file.meta) {
        Finding::Refused(Reason::UnsafeMode)
    } else if !(file.sha256 matches Some(h) && h@ == sha256) {
        Finding::Refused(Reason::HashMismatch)
    } else if is_elevated(file) && location != Location::Installed {
        Finding::Refused(Reason::ElevatedOutsideInstalled)
    } else if is_elevated(file) && (file.meta.uid != 0 || file.meta.mode & 0o001 != 0) {
        Finding::Refused(Reason::ElevatedUnsafe)
    } else {
        Finding::Usable { elevated: is_elevated(file) }
    }
}

/// The rules, in order: the parent, then the probe directory, then the file.
///
/// A missing parent means a location that does not exist. A missing
/// `/opt/stethoscope` is absent whatever `/opt` looks like; a missing
/// `~/.stethoscope` is about to be created, so for home the parent is checked
/// first.
pub open spec fn verdict(location: Location, uid: u32, facts: Facts, sha256: Seq<char>) -> Finding {
    match facts.parent {
        None => Finding::Absent,
        Some(parent) => match facts.dir {
            None => if location == Location::Installed || parent_ok(uid, parent) {
                Finding::Absent
            } else {
                Finding::Refused(Reason::UnsafeParent)
            },
            Some(dir) => if !parent_ok(uid, parent) {
                Finding::Refused(Reason::UnsafeParent)
            } else if dir.kind != Kind::Dir {
                Finding::Refused(Reason::NotADirectory)
            } else if !owner_ok(location, uid, dir) {
                Finding::Refused(Reason::UnsafeOwner)
            } else if others_can_write(dir) {
                Finding::Refused(Reason::UnsafeMode)
            } else if facts.file_unknowable {
                Finding::Refused(Reason::IoError)
            } else {
                match facts.file {
                    None => Finding::Absent,
                    Some(file) => file_verdict(location, uid, file, sha256),
                }
            },
        },
    }
}

/// The rules, in one place. Pure: no filesystem, no clock.
///
/// A directory is safe to execute from when it is owned by root or by us and
/// writable by neither group nor world, and safe to write to when it is owned
/// by us under the same condition. Home is only ever the second kind, so root
/// ownership is admitted only for `/opt`. The same owner rule is applied to the
/// file, because a file owned by a third user in a safe directory is still
/// theirs to rewrite between our hash and our exec.
pub fn judge(location: Location, uid: u32, facts: &Facts, sha256: &str) -> (f: Finding)
    ensures
        f == verdict(location, uid, *facts, sha256@),
{
    let installed = location == Location::Installed;
    let parent = match &facts.parent {
        None => return Finding::Absent,
        Some(p) => p,
    };
    let parent_safe = parent.kind == Kind::Dir && (parent.uid == uid || parent.uid == 0)
        && parent.mode & 0o022 == 0;
    let dir = match &facts.dir {
        None => {
            return if installed || parent_safe {
                Finding::Absent
            } else {
                Finding::Refused(Reason::UnsafeParent)
            };
        },
        Some(d) => d,
    };
    if !parent_safe {
        return Finding::Refused(Reason::UnsafeParent);
    }
    if dir.kind != Kind::Dir {
        return Finding::Refused(Reason::NotADirectory);
    }
    if !(dir.uid == uid || (installed && dir.uid == 0)) {
        return Finding::Refused(Reason::UnsafeOwner);
    }
    if dir.mode & 0o022 != 0 {
        return Finding::Refused(Reason::UnsafeMode);
    }
    if facts.file_unknowable {
        return Finding::Refused(Reason::IoError);
    }
    let file = match &facts.file {
        None => return Finding::Absent,
        Some(f) => f,
    };
    if file.meta.kind != Kind::File {
        return Finding::Refused(Reason::NotARegularFile);
    }
    if !(file.meta.uid == uid || (installed && file.meta.uid == 0)) {
        return Finding::Refused(Reason::UnsafeOwner);
    }
    if file.meta.mode & 0o022 != 0 {
        return Finding::Refused(Reason::UnsafeMode);
    }
    let hash_matches = match &file.sha256 {
        Some(h) => str_eq(h.as_str(), sha256),
        None => false,
    };
    if !hash_matches {
        return Finding::Refused(Reason::HashMismatch);
    }
    let elevated = file.meta.mode & 0o6000 != 0 || file.capability_xattr;
    if elevated {
        if !installed {
            return Finding::Refused(Reason::ElevatedOutsideInstalled);
        }
        if file.meta.uid != 0 || file.meta.mode & 0o001 != 0 {
            return Finding::Refused(Reason::ElevatedUnsafe);
        }
    }
    Finding::Usable { elevated }
}


/// A probe is executed only when every level of its location is safe and
/// its contents hash to the name it was looked up by: a name is never
/// trusted.
pub proof fn lemma_usable_means_verified(location: Location, uid: u32, facts: Facts, sha256: Seq<char>)
    requires
        verdict(location, uid, facts, sha256) is Usable,
    ensures
        facts.parent matches Some(p) && parent_ok(uid, p),
        facts.dir matches Some(d) && d.kind == Kind::Dir && owner_ok(location, uid, d) && !others_can_write(d),
        !facts.file_unknowable,
        facts.file matches Some(f) && {
            &&& f.meta.kind == Kind::File
            &&& owner_ok(location, uid, f.meta)
            &&& !others_can_write(f.meta)
            &&& f.sha256 matches Some(h) && h@ == sha256
        },
{
}

/// Root ownership is admitted only for `/opt`, and so is elevation: a probe
/// usable from home is owned by us, in a directory owned by us, and runs
/// with no more authority than ours.
pub proof fn lemma_home_is_ours_alone(uid: u32, facts: Facts, sha256: Seq<char>)
    requires
        verdict(Location::Home, uid, facts, sha256) is Usable,
    ensures
        facts.dir matches Some(d) && d.uid == uid,
        facts.file matches Some(f) && f.meta.uid == uid,
        verdict(Location::Home, uid, facts, sha256) == (Finding::Usable { elevated: false }),
{
}

/// An elevated probe is used only from `/opt`, only when root owns it, and
/// only when the world can neither write nor execute it.
pub proof fn lemma_elevation_only_installed(location: Location, uid: u32, facts: Facts, sha256: Seq<char>)
    requires
        verdict(location, uid, facts, sha256) == (Finding::Usable { elevated: true }),
    ensures
        location == Location::Installed,
        facts.file matches Some(f) && {
            &&& is_elevated(f)
            &&& f.meta.uid == 0
            &&& f.meta.mode & 0o001 == 0
            &&& f.meta.mode & 0o022 == 0
        },
{
}

/// The flag the rules report is exactly what the file carries: a usable
/// probe is reported elevated precisely when it is setuid, setgid or
/// carries file capabilities.
pub proof fn lemma_elevation_is_reported(location: Location, uid: u32, facts: Facts, sha256: Seq<char>)
    requires
        verdict(location, uid, facts, sha256) is Usable,
    ensures
        facts.file matches Some(f) && verdict(location, uid, facts, sha256) == (Finding::Usable { elevated: is_elevated(f) }),
{
}

/// An unusual `/opt` does not matter when nothing is installed: a missing
/// `/opt/stethoscope` is absent whatever its parent looks like.
pub proof fn lemma_missing_install_is_absent(uid: u32, facts: Facts, sha256: Seq<char>)
    requires
        facts.dir is None,
    ensures
        verdict(Location::Installed, uid, facts, sha256) == Finding::Absent,
{
}

/// Ownership decides before readability: a safe-parented directory owned by
/// a third user is refused for its owner, whatever could or could not be
/// learned about the file inside it.
pub proof fn lemma_foreign_directory_is_refused_for_owner(location: Location, uid: u32, facts: Facts, sha256: Seq<char>)
    requires
        facts.parent matches Some(p) && parent_ok(uid, p),
        facts.dir matches Some(d) && d.kind == Kind::Dir && !owner_ok(location, uid, d),
    ensures
        verdict(location, uid, facts, sha256) == Finding::Refused(Reason::UnsafeOwner),
{
}


/// What kind of thing `stat` found, from its file-type tests; a symlink is
/// reported as a symlink whatever it points at.
pub open spec fn kind_of_type(is_symlink: bool, is_dir: bool, is_file: bool) -> Kind {
    if is_symlink {
        Kind::Symlink
    } else if is_dir {
        Kind::Dir
    } else if is_file {
        Kind::File
    } else {
        Kind::Other
    }
}

/// `stat`'s answer reduced to what the rules read: the kind, the owner, and
/// the permission bits including setuid, setgid and sticky.
pub fn meta(is_symlink: bool, is_dir: bool, is_file: bool, uid: u32, st_mode: u32) -> (m: Meta)
    ensures
        m == (Meta { kind: kind_of_type(is_symlink, is_dir, is_file), uid, mode: st_mode & 0o7777 }),
{
    let kind = if is_symlink {
        Kind::Symlink
    } else if is_dir {
        Kind::Dir
    } else if is_file {
        Kind::File
    } else {
        Kind::Other
    };
    Meta { kind, uid, mode: st_mode & 0o7777 }
}

/// Whether an errno says we were not permitted: `EACCES` or `EPERM`.
pub fn permission_error(errno: Option<i32>) -> (r: bool)
    ensures
        r == (errno == Some(13i32) || errno == Some(1i32)),
{
    match errno {
        Some(e) => e == 13 || e == 1,
        None => false,
    }
}

pub open spec fn placement_reason_of(errno: Option<i32>) -> Reason {
    match errno {
        Some(e) => if e == 28 || e == 122 {
            Reason::NoSpace
        } else if e == 13 || e == 1 || e == 30 {
            Reason::NotWritable
        } else {
            Reason::IoError
        },
        None => Reason::IoError,
    }
}

/// Why placing a probe failed: `ENOSPC` or `EDQUOT` is lack of space;
/// `EACCES`, `EPERM` or `EROFS` is not being allowed to write; anything else
/// is an I/O error.
pub fn placement_reason(errno: Option<i32>) -> (r: Reason)
    ensures
        r == placement_reason_of(errno),
{
    match errno {
        Some(e) => if e == 28 || e == 122 {
            Reason::NoSpace
        } else if e == 13 || e == 1 || e == 30 {
            Reason::NotWritable
        } else {
            Reason::IoError
        },
        None => Reason::IoError,
    }
}

/// Whether a refusal is worth an operator's attention beyond the log line:
/// a hash mismatch or an elevated probe outside `/opt` is left in place and
/// should be investigated.
pub fn is_loud(reason: Reason) -> (r: bool)
    ensures
        r == (reason == Reason::HashMismatch || reason == Reason::ElevatedOutsideInstalled),
{
    match reason {
        Reason::HashMismatch | Reason::ElevatedOutsideInstalled => true,
        _ => false,
    }
}

/// Whether a location is one whose directory listing may be looked through
/// for other probe versions: it yielded a probe, or it is an existing,
/// safe directory that merely holds none.
pub fn dir_is_safe(finding: Finding, dir_present: bool) -> (r: bool)
    ensures
        r == (finding is Usable || (finding == Finding::Absent && dir_present)),
{
    match finding {
        Finding::Usable { .. } => true,
        Finding::Absent => dir_present,
        Finding::Refused(_) => false,
    }
}

/// A lowercase hex digit.
pub open spec fn is_lower_hex(c: char) -> bool {
    ('0' <= c && c <= '9') || ('a' <= c && c <= 'f')
}

/// The text of a SHA-256 digest: exactly 64 lowercase hex digits.
pub open spec fn is_hash_text(h: Seq<char>) -> bool {
    h.len() == 64 && forall|i: int| 0 <= i < h.len() ==> is_lower_hex(#[trigger] h[i])
}

/// Whether `name` is another version of this capability's probe: it is
/// `stethoscope-<capability>-` followed by exactly 64 hex digits, and not a
/// name any payload of this build would have. Requiring the digest keeps one
/// capability from counting another's probes, as `container` would count
/// `stethoscope-container-list-…`.
pub open spec fn is_stray(payloads: Seq<Payload>, capability: Seq<char>, name: Seq<char>) -> bool {
    let prefix = "stethoscope-"@ + capability + "-"@;
    &&& has_prefix(name, prefix)
    &&& is_hash_text(name.skip(prefix.len() as int))
    &&& !exists|i: int| 0 <= i < payloads.len()
        && #[trigger] probe_file_name(payloads[i].capability@, payloads[i].sha256@) == name
}

/// Whether `s` from `start` on is the text of a digest.
fn hash_follows(s: &Vec<char>, start: usize) -> (r: bool)
    requires
        start <= s@.len(),
    ensures
        r == is_hash_text(s@.skip(start as int)),
{
    if s.len() - start != 64 {
        return false;
    }
    let mut i: usize = start;
    while i < s.len()
        invariant
            start <= i <= s@.len(),
            s@.len() - start == 64,
            forall|k: int| 0 <= k < i - start ==> is_lower_hex(#[trigger] s@.skip(start as int)[k]),
        decreases s@.len() - i,
    {
        let c = s[i];
        assert(s@.skip(start as int)[i - start] == c);
        if !(('0' <= c && c <= '9') || ('a' <= c && c <= 'f')) {
            return false;
        }
        i = i + 1;
    }
    true
}

pub open spec fn count_strays(payloads: Seq<Payload>, capability: Seq<char>, names: Seq<String>) -> nat
    decreases names.len(),
{
    if names.len() == 0 {
        0
    } else {
        count_strays(payloads, capability, names.drop_last())
            + if is_stray(payloads, capability, names.last()@) { 1nat } else { 0nat }
    }
}

/// Other versions of this probe among the names in a probe directory.
/// Nothing deletes them, but an operator should hear about them.
pub fn strays(payloads: &[Payload], capability: &str, names: &Vec<String>) -> (n: usize)
    ensures
        n == count_strays(payloads@, capability@, names@),
{
    let mut prefix_text = String::from_str("stethoscope-");
    prefix_text.append(capability);
    prefix_text.append("-");
    let prefix = crate::text::chars_of(prefix_text.as_str());
    let mut n: usize = 0;
    let mut i: usize = 0;
    while i < names.len()
        invariant
            i <= names@.len(),
            prefix@ == "stethoscope-"@ + capability@ + "-"@,
            n == count_strays(payloads@, capability@, names@.take(i as int)),
            n <= i,
        decreases names@.len() - i,
    {
        proof {
            assert(names@.take(i as int + 1).drop_last() =~= names@.take(i as int));
        }
        let name = crate::text::chars_of(names[i].as_str());
        if crate::text::starts_with(&name, &prefix) && hash_follows(&name, prefix.len())
            && !crate::payload::is_ours(payloads, names[i].as_str()) {
            n = n + 1;
        }
        i = i + 1;
    }
    assert(names@.take(names@.len() as int) =~= names@);
    n
}

/// What an operator is told about other versions of a probe.
#[derive(Clone, Copy, PartialEq, Eq, Debug, Structural)]
pub enum StrayNotice {
    /// There are none: nothing is said.
    Quiet,
    /// `/opt` holds only versions from another release, so collection falls
    /// back to home: it works, and that is why it must be loud.
    StaleInstall,
    /// Other versions sit beside the one found, or beside none in home.
    OtherVersions,
}

/// The notice for `n` other versions at `location`, where this build's own
/// probe was or was not found.
pub fn stray_notice(location: Location, n: usize, found: bool) -> (r: StrayNotice)
    ensures
        r == (if n == 0 {
            StrayNotice::Quiet
        } else if location == Location::Installed && !found {
            StrayNotice::StaleInstall
        } else {
            StrayNotice::OtherVersions
        }),
{
    if n == 0 {
        StrayNotice::Quiet
    } else if location == Location::Installed && !found {
        StrayNotice::StaleInstall
    } else {
        StrayNotice::OtherVersions
    }
}

/// `location: reason`.
pub open spec fn reason_detail(l: Location, r: Reason) -> Seq<char> {
    location_name(l) + ": "@ + reason_name(r)
}

/// The per-location reasons, separated by `, `.
pub open spec fn joined_details(rs: Seq<(Location, Reason)>) -> Seq<char>
    decreases rs.len(),
{
    if rs.len() == 0 {
        Seq::empty()
    } else if rs.len() == 1 {
        reason_detail(rs[0].0, rs[0].1)
    } else {
        joined_details(rs.drop_last()) + ", "@ + reason_detail(rs.last().0, rs.last().1)
    }
}

/// `<capability> probe on local: <category>`, followed by the per-location
/// reasons in brackets when there are any. No paths.
pub open spec fn failure_text(capability: Seq<char>, category: Seq<char>, rs: Seq<(Location, Reason)>) -> Seq<char> {
    capability + " probe on local: "@ + category + if rs.len() == 0 {
        Seq::empty()
    } else {
        " ("@ + joined_details(rs) + ")"@
    }
}

/// The model-facing failure message: a category for the call and one per
/// location, with no paths.
pub fn failure_message(capability: &str, category: &str, reasons: &[(Location, Reason)]) -> (s: String)
    ensures
        s@ == failure_text(capability@, category@, reasons@),
{
    let mut s = String::from_str(capability);
    s.append(" probe on local: ");
    s.append(category);
    if reasons.len() == 0 {
        assert(s@ =~= failure_text(capability@, category@, reasons@));
        return s;
    }
    let mut detail = String::new();
    let mut i: usize = 0;
    while i < reasons.len()
        invariant
            1 <= reasons@.len(),
            i <= reasons@.len(),
            detail@ == joined_details(reasons@.take(i as int)),
        decreases reasons@.len() - i,
    {
        let (l, r) = reasons[i];
        proof {
            assert(reasons@.take(i as int + 1).drop_last() =~= reasons@.take(i as int));
            assert(reasons@.take(i as int + 1).last() == (l, r));
        }
        if i > 0 {
            detail.append(", ");
        }
        detail.append(l.as_str());
        detail.append(": ");
        detail.append(r.as_str());
        proof {
            if i == 0 {
                assert(reasons@.take(1)[0] == (l, r));
                assert(detail@ =~= joined_details(reasons@.take(1)));
            } else {
                assert(detail@ =~= joined_details(reasons@.take(i as int + 1)));
            }
        }
        i = i + 1;
    }
    assert(reasons@.take(reasons@.len() as int) =~= reasons@);
    s.append(" (");
    s.append(detail.as_str());
    s.append(")");
    assert(s@ =~= failure_text(capability@, category@, reasons@));
    s
}

/// The largest file that is hashed. Probes are tens of kilobytes.
pub const MAX_PROBE_BYTES: u64 = 8_388_608;

/// SHA-256 of a byte sequence: what `sha2::Sha256::digest` computes.
pub uninterp spec fn sha256_digest(data: Seq<u8>) -> Seq<u8>;

/// `sha2::Sha256::digest`: the SHA-256 digest of `data`, 32 bytes long
/// (`Sha256`'s output size is `U32`). What the digest is, is left to the
/// name `sha256_digest`.
#[verifier::external_body]
fn sha256(data: &[u8]) -> (d: Vec<u8>)
    ensures
        d@ == sha256_digest(data@),
        d@.len() == 32,
{
    sha2::Sha256::digest(data).to_vec()
}

pub open spec fn hex_digit(n: int) -> char {
    if n < 10 { ((n + 48) as u8) as char } else { ((n + 87) as u8) as char }
}

/// Lowercase hex, two digits per byte.
pub open spec fn hex_text(b: Seq<u8>) -> Seq<char>
    decreases b.len(),
{
    if b.len() == 0 {
        Seq::empty()
    } else {
        hex_text(b.drop_last()) + seq![hex_digit(b.last() as int / 16), hex_digit(b.last() as int % 16)]
    }
}

fn hex_byte(n: u8) -> (c: u8)
    requires
        n < 16,
    ensures
        c < 128,
        c as char == hex_digit(n as int),
{
    if n < 10 { n + 48 } else { n + 87 }
}

/// Lowercase hex of `bytes`.
pub fn hex(bytes: &[u8]) -> (s: String)
    ensures
        s@ == hex_text(bytes@),
{
    let mut out: Vec<u8> = Vec::new();
    let mut i: usize = 0;
    while i < bytes.len()
        invariant
            i <= bytes@.len(),
            crate::text::all_ascii(out@),
            ascii_chars(out@) == hex_text(bytes@.take(i as int)),
        decreases bytes@.len() - i,
    {
        let b = bytes[i];
        let ghost before = out@;
        out.push(hex_byte(b / 16));
        out.push(hex_byte(b % 16));
        proof {
            assert(bytes@.take(i as int + 1).drop_last() =~= bytes@.take(i as int));
            assert(ascii_chars(out@) =~= ascii_chars(before) + seq![hex_digit(b as int / 16), hex_digit(b as int % 16)]);
        }
        i = i + 1;
    }
    assert(bytes@.take(bytes@.len() as int) =~= bytes@);
    ascii_string(out)
}

/// Hex text has two lowercase hex digits per byte.
proof fn lemma_hex_text(b: Seq<u8>)
    ensures
        hex_text(b).len() == 2 * b.len(),
        forall|i: int| 0 <= i < hex_text(b).len() ==> is_lower_hex(#[trigger] hex_text(b)[i]),
    decreases b.len(),
{
    if b.len() > 0 {
        lemma_hex_text(b.drop_last());
        let hi = b.last() as int / 16;
        let lo = b.last() as int % 16;
        lemma_hex_digit(hi);
        lemma_hex_digit(lo);
        let t = hex_text(b);
        let p = hex_text(b.drop_last());
        assert forall|i: int| 0 <= i < t.len() implies is_lower_hex(#[trigger] t[i]) by {
            if i < p.len() {
                assert(t[i] == p[i]);
            }
        }
    }
}

proof fn lemma_hex_digit(n: int)
    requires
        0 <= n < 16,
    ensures
        is_lower_hex(hex_digit(n)),
{
    if n < 10 {
        let b = (n + 48) as u8;
        assert(b as int == n + 48);
        assert((b as char) as int == b as int);
    } else {
        let b = (n + 87) as u8;
        assert(b as int == n + 87);
        assert((b as char) as int == b as int);
    }
}

/// The lowercase hex digest of a probe file's contents, or `None` when it
/// is larger than [`MAX_PROBE_BYTES`] and so not plausibly a probe.
pub fn content_digest(bytes: &[u8]) -> (r: Option<String>)
    ensures
        r is Some <==> bytes@.len() <= MAX_PROBE_BYTES,
        r matches Some(s) ==> s@ == hex_text(sha256_digest(bytes@)),
        r matches Some(s) ==> is_hash_text(s@),
{
    if bytes.len() as u64 <= MAX_PROBE_BYTES {
        let d = sha256(bytes);
        proof {
            lemma_hex_text(d@);
        }
        Some(hex(d.as_slice()))
    } else {
        None
    }
}


// ---------------------------------------------------------------------------
// Where a probe is
// ---------------------------------------------------------------------------

/// The directory probes are looked for in at `location`, given the
/// invoking user's home directory: `/opt/stethoscope`, or
/// `$HOME/.stethoscope`.
pub open spec fn probe_dir(location: Location, home: Seq<u8>) -> Seq<u8> {
    match location {
        Location::Installed => encode_utf8("/opt/stethoscope"@),
        Location::Home => join_path(home, encode_utf8(".stethoscope"@)),
    }
}

/// The directory probes are looked for in at `location`.
pub fn dir_of(location: Location, home: &[u8]) -> (r: Vec<u8>)
    ensures
        r@ == probe_dir(location, home@),
{
    match location {
        Location::Installed => copy_bytes("/opt/stethoscope".as_bytes()),
        Location::Home => join_bytes(home, ".stethoscope".as_bytes()),
    }
}

/// A probe that passed every rule, and where it was.
pub struct Found {
    pub path: Vec<u8>,
    pub location: Location,
    pub elevated: bool,
}

impl Found {
    /// The probe `payload` as found at `location` with the given elevation:
    /// its path is its file name in that location's directory.
    pub fn at(location: Location, home: &[u8], payload: &Payload, elevated: bool) -> (f: Found)
        ensures
            f.path@ == join_path(probe_dir(location, home@), encode_utf8(probe_file_name(payload.capability@, payload.sha256@))),
            f.location == location,
            f.elevated == elevated,
    {
        let dir = dir_of(location, home);
        let name = payload.file_name();
        let path = join_bytes(dir.as_slice(), name.as_str().as_bytes());
        Found { path, location, elevated }
    }
}

/// What a probe printed, and where it ran from.
pub struct Output {
    pub stdout: Vec<u8>,
    pub location: Location,
}

// ---------------------------------------------------------------------------
// The chain: which location to look at next, and what to do with a probe
// ---------------------------------------------------------------------------

/// Where the chain is.
#[derive(Clone, Copy, PartialEq, Eq, Debug, Structural)]
pub enum Stage {
    /// Waiting for the verdict on `/opt/stethoscope`.
    Installed,
    /// Waiting for the verdict on `$HOME/.stethoscope`.
    Home,
    /// Waiting for the embedded probe to be written into home.
    Placing,
    /// Waiting for the verdict on home after placing into it.
    Placed,
    /// Waiting for the probe from this location to run.
    Running(Location),
    /// Nothing more to do.
    Finished,
}

/// What happened since the last action.
#[derive(Clone, Copy, PartialEq, Eq, Debug, Structural)]
pub enum Event {
    /// The location the chain asked about was judged.
    Inspected(Finding),
    /// `$HOME` is unset or not an absolute path.
    HomeUnset,
    /// The probe was written into home.
    Placed,
    /// Writing the probe into home failed, with this errno.
    PlaceFailed(Option<i32>),
    /// The kernel refused to start the probe, with this errno.
    SpawnFailed(Option<i32>),
    /// The probe ran to completion; `true` when it exited successfully.
    Exited(bool),
    /// Waiting for the probe failed.
    WaitFailed,
    /// The probe did not finish before the deadline and was killed.
    TimedOut,
}

/// The category of a failed call, reported to the model.
#[derive(Clone, Copy, PartialEq, Eq, Debug, Structural)]
pub enum Failure {
    /// This build carries no probe for the capability on this architecture.
    PayloadUnavailable,
    /// No location yielded a probe that could be run.
    NoUsableProbe,
    /// The probe ran and failed.
    ProbeFailed,
    /// The probe ran past its deadline.
    TimedOut,
    /// The probe printed something that is not its report.
    MalformedOutput,
}

pub open spec fn failure_name(f: Failure) -> Seq<char> {
    match f {
        Failure::PayloadUnavailable => "payload_unavailable"@,
        Failure::NoUsableProbe => "no_usable_probe"@,
        Failure::ProbeFailed => "probe_failed"@,
        Failure::TimedOut => "timed_out"@,
        Failure::MalformedOutput => "malformed_output"@,
    }
}

impl Failure {
    pub fn as_str(self) -> (s: &'static str)
        ensures
            s@ == failure_name(self),
    {
        match self {
            Failure::PayloadUnavailable => "payload_unavailable",
            Failure::NoUsableProbe => "no_usable_probe",
            Failure::ProbeFailed => "probe_failed",
            Failure::TimedOut => "timed_out",
            Failure::MalformedOutput => "malformed_output",
        }
    }
}

/// What the caller is to do next.
#[derive(PartialEq, Eq, Debug)]
pub enum Action {
    /// Gather the facts about this location and judge them.
    Inspect(Location),
    /// Write the embedded probe into home.
    Place,
    /// Execute the probe found at this location; `true` when it is elevated.
    Spawn(Location, bool),
    /// Report this failure, with these per-location reasons.
    Fail(Failure, Vec<(Location, Reason)>),
    /// The probe from this location ran and succeeded.
    Done(Location),
}

/// The chain's state: where it is, and why each location looked at so far
/// was passed over.
pub struct Chain {
    pub stage: Stage,
    pub reasons: Vec<(Location, Reason)>,
}

/// An action as the contracts see it.
pub enum ActionView {
    Inspect(Location),
    Place,
    Spawn(Location, bool),
    Fail(Failure, Seq<(Location, Reason)>),
    Done(Location),
}

pub open spec fn action_view(a: Action) -> ActionView {
    match a {
        Action::Inspect(l) => ActionView::Inspect(l),
        Action::Place => ActionView::Place,
        Action::Spawn(l, e) => ActionView::Spawn(l, e),
        Action::Fail(f, rs) => ActionView::Fail(f, rs@),
        Action::Done(l) => ActionView::Done(l),
    }
}

/// `EACCES`, `EPERM` or `ENOEXEC`: the kernel would not execute the file,
/// which on a `noexec` mount is the only way to find out.
pub open spec fn is_noexec(errno: Option<i32>) -> bool {
    errno == Some(13i32) || errno == Some(1i32) || errno == Some(8i32)
}

/// The next stage, the reasons, and the action, after `event` in `stage`
/// with `rs` recorded so far.
pub open spec fn chain_next(stage: Stage, rs: Seq<(Location, Reason)>, event: Event) -> (Stage, Seq<(Location, Reason)>, ActionView) {
    match (stage, event) {
        (Stage::Installed, Event::Inspected(Finding::Usable { elevated })) =>
            (Stage::Running(Location::Installed), rs, ActionView::Spawn(Location::Installed, elevated)),
        (Stage::Installed, Event::Inspected(Finding::Absent)) =>
            (Stage::Home, rs.push((Location::Installed, Reason::Absent)), ActionView::Inspect(Location::Home)),
        (Stage::Installed, Event::Inspected(Finding::Refused(r))) =>
            (Stage::Home, rs.push((Location::Installed, r)), ActionView::Inspect(Location::Home)),
        (Stage::Home, Event::HomeUnset) =>
            (Stage::Finished, rs.push((Location::Home, Reason::NoHome)), ActionView::Fail(Failure::NoUsableProbe, rs.push((Location::Home, Reason::NoHome)))),
        (Stage::Home, Event::Inspected(Finding::Absent)) =>
            (Stage::Placing, rs, ActionView::Place),
        (Stage::Home, Event::Inspected(Finding::Usable { elevated })) | (Stage::Placed, Event::Inspected(Finding::Usable { elevated })) =>
            (Stage::Running(Location::Home), rs, ActionView::Spawn(Location::Home, elevated)),
        (Stage::Home, Event::Inspected(Finding::Refused(r))) | (Stage::Placed, Event::Inspected(Finding::Refused(r))) =>
            (Stage::Finished, rs.push((Location::Home, r)), ActionView::Fail(Failure::NoUsableProbe, rs.push((Location::Home, r)))),
        (Stage::Placing, Event::Placed) =>
            (Stage::Placed, rs, ActionView::Inspect(Location::Home)),
        (Stage::Placing, Event::PlaceFailed(errno)) =>
            (Stage::Finished, rs.push((Location::Home, placement_reason_of(errno))), ActionView::Fail(Failure::NoUsableProbe, rs.push((Location::Home, placement_reason_of(errno))))),
        // Written and then not there: something raced us.
        (Stage::Placed, Event::Inspected(Finding::Absent)) =>
            (Stage::Finished, rs.push((Location::Home, Reason::IoError)), ActionView::Fail(Failure::NoUsableProbe, rs.push((Location::Home, Reason::IoError)))),
        (Stage::Running(l), Event::SpawnFailed(errno)) => {
            let reason = if is_noexec(errno) { Reason::NotExecutable } else { Reason::IoError };
            if is_noexec(errno) && l == Location::Installed {
                (Stage::Home, rs.push((l, reason)), ActionView::Inspect(Location::Home))
            } else {
                (Stage::Finished, rs.push((l, reason)), ActionView::Fail(Failure::NoUsableProbe, rs.push((l, reason))))
            }
        },
        (Stage::Running(l), Event::Exited(true)) =>
            (Stage::Finished, rs, ActionView::Done(l)),
        (Stage::Running(_), Event::TimedOut) =>
            (Stage::Finished, rs, ActionView::Fail(Failure::TimedOut, Seq::empty())),
        // A probe that exited unsuccessfully or could not be waited for,
        // and any event the stage was not waiting for.
        _ => (Stage::Finished, rs, ActionView::Fail(Failure::ProbeFailed, Seq::empty())),
    }
}

fn copy_reasons(rs: &Vec<(Location, Reason)>) -> (r: Vec<(Location, Reason)>)
    ensures
        r@ == rs@,
{
    let mut r: Vec<(Location, Reason)> = Vec::new();
    let mut i: usize = 0;
    while i < rs.len()
        invariant
            i <= rs@.len(),
            r@ == rs@.take(i as int),
        decreases rs@.len() - i,
    {
        r.push(rs[i]);
        i = i + 1;
    }
    assert(r@ =~= rs@);
    r
}

impl Chain {
    /// The chain at its start. Without a probe for this capability and
    /// architecture there is nothing to look for, and the call fails at
    /// once. Otherwise `/opt` comes first, unless a probe from it could not
    /// be executed, in which case straight to home.
    pub fn start(payload_available: bool, skip_installed: bool) -> (r: (Chain, Action))
        ensures
            r.0.reasons@ == Seq::<(Location, Reason)>::empty(),
            !payload_available ==> r.0.stage == Stage::Finished
                && action_view(r.1) == ActionView::Fail(Failure::PayloadUnavailable, Seq::empty()),
            payload_available && skip_installed ==> r.0.stage == Stage::Home && r.1 == Action::Inspect(Location::Home),
            payload_available && !skip_installed ==> r.0.stage == Stage::Installed && r.1 == Action::Inspect(Location::Installed),
    {
        if !payload_available {
            let none: Vec<(Location, Reason)> = Vec::new();
            assert(none@ =~= Seq::<(Location, Reason)>::empty());
            (Chain { stage: Stage::Finished, reasons: Vec::new() }, Action::Fail(Failure::PayloadUnavailable, none))
        } else if skip_installed {
            (Chain { stage: Stage::Home, reasons: Vec::new() }, Action::Inspect(Location::Home))
        } else {
            (Chain { stage: Stage::Installed, reasons: Vec::new() }, Action::Inspect(Location::Installed))
        }
    }

    /// The next step after `event`.
    pub fn step(self, event: Event) -> (r: (Chain, Action))
        ensures
            ({
                let (stage, rs, action) = chain_next(self.stage, self.reasons@, event);
                r.0.stage == stage && r.0.reasons@ == rs && action_view(r.1) == action
            }),
    {
        let stage = self.stage;
        let mut rs = self.reasons;
        let ghost old_rs = rs@;
        match (stage, event) {
            (Stage::Installed, Event::Inspected(Finding::Usable { elevated })) => {
                (Chain { stage: Stage::Running(Location::Installed), reasons: rs }, Action::Spawn(Location::Installed, elevated))
            },
            (Stage::Installed, Event::Inspected(Finding::Absent)) => {
                rs.push((Location::Installed, Reason::Absent));
                (Chain { stage: Stage::Home, reasons: rs }, Action::Inspect(Location::Home))
            },
            (Stage::Installed, Event::Inspected(Finding::Refused(r))) => {
                rs.push((Location::Installed, r));
                (Chain { stage: Stage::Home, reasons: rs }, Action::Inspect(Location::Home))
            },
            (Stage::Home, Event::HomeUnset) => {
                rs.push((Location::Home, Reason::NoHome));
                let out = copy_reasons(&rs);
                (Chain { stage: Stage::Finished, reasons: rs }, Action::Fail(Failure::NoUsableProbe, out))
            },
            (Stage::Home, Event::Inspected(Finding::Absent)) => {
                (Chain { stage: Stage::Placing, reasons: rs }, Action::Place)
            },
            (Stage::Home, Event::Inspected(Finding::Usable { elevated }))
            | (Stage::Placed, Event::Inspected(Finding::Usable { elevated })) => {
                (Chain { stage: Stage::Running(Location::Home), reasons: rs }, Action::Spawn(Location::Home, elevated))
            },
            (Stage::Home, Event::Inspected(Finding::Refused(r)))
            | (Stage::Placed, Event::Inspected(Finding::Refused(r))) => {
                rs.push((Location::Home, r));
                let out = copy_reasons(&rs);
                (Chain { stage: Stage::Finished, reasons: rs }, Action::Fail(Failure::NoUsableProbe, out))
            },
            (Stage::Placing, Event::Placed) => {
                (Chain { stage: Stage::Placed, reasons: rs }, Action::Inspect(Location::Home))
            },
            (Stage::Placing, Event::PlaceFailed(errno)) => {
                rs.push((Location::Home, placement_reason(errno)));
                let out = copy_reasons(&rs);
                (Chain { stage: Stage::Finished, reasons: rs }, Action::Fail(Failure::NoUsableProbe, out))
            },
            (Stage::Placed, Event::Inspected(Finding::Absent)) => {
                rs.push((Location::Home, Reason::IoError));
                let out = copy_reasons(&rs);
                (Chain { stage: Stage::Finished, reasons: rs }, Action::Fail(Failure::NoUsableProbe, out))
            },
            (Stage::Running(l), Event::SpawnFailed(errno)) => {
                let noexec = match errno {
                    Some(e) => e == 13 || e == 1 || e == 8,
                    None => false,
                };
                let reason = if noexec { Reason::NotExecutable } else { Reason::IoError };
                rs.push((l, reason));
                if noexec && l == Location::Installed {
                    (Chain { stage: Stage::Home, reasons: rs }, Action::Inspect(Location::Home))
                } else {
                    let out = copy_reasons(&rs);
                    (Chain { stage: Stage::Finished, reasons: rs }, Action::Fail(Failure::NoUsableProbe, out))
                }
            },
            (Stage::Running(l), Event::Exited(true)) => {
                (Chain { stage: Stage::Finished, reasons: rs }, Action::Done(l))
            },
            (Stage::Running(_), Event::TimedOut) => {
                (Chain { stage: Stage::Finished, reasons: rs }, Action::Fail(Failure::TimedOut, Vec::new()))
            },
            _ => {
                (Chain { stage: Stage::Finished, reasons: rs }, Action::Fail(Failure::ProbeFailed, Vec::new()))
            },
        }
    }
}


/// Nothing is executed that the rules did not pass: the chain asks for a
/// probe to be spawned only on a `Usable` verdict for the location it was
/// waiting on, and carries that verdict's elevation.
pub proof fn lemma_spawn_only_after_usable(stage: Stage, rs: Seq<(Location, Reason)>, event: Event, l: Location, elevated: bool)
    requires
        chain_next(stage, rs, event).2 == ActionView::Spawn(l, elevated),
    ensures
        event == Event::Inspected(Finding::Usable { elevated }),
        l == Location::Installed <==> stage == Stage::Installed,
        l == Location::Home <==> (stage == Stage::Home || stage == Stage::Placed),
{
}

/// `/opt/stethoscope` is never written: the only write the chain asks for
/// is a placement into home, and only when home was safe and empty.
pub proof fn lemma_place_only_into_empty_home(stage: Stage, rs: Seq<(Location, Reason)>, event: Event)
    requires
        chain_next(stage, rs, event).2 is Place,
    ensures
        stage == Stage::Home,
        event == Event::Inspected(Finding::Absent),
{
}

/// Home is placed into at most once: after a placement, an empty home is a
/// failure, not a second placement.
pub proof fn lemma_placed_once(rs: Seq<(Location, Reason)>, event: Event)
    ensures
        !(chain_next(Stage::Placed, rs, event).2 is Place),
        !(chain_next(Stage::Placing, rs, event).2 is Place),
{
}

/// Why each location was passed over is never lost: each step keeps the
/// reasons recorded so far and appends at most one, and a failure for want
/// of a usable probe reports all of them.
pub proof fn lemma_reasons_accumulate(stage: Stage, rs: Seq<(Location, Reason)>, event: Event)
    ensures
        ({
            let (_, next, action) = chain_next(stage, rs, event);
            &&& next == rs || (next.len() == rs.len() + 1 && next.take(rs.len() as int) == rs)
            &&& (action matches ActionView::Fail(Failure::NoUsableProbe, reported) ==> reported == next)
        }),
{
    let (_, next, _) = chain_next(stage, rs, event);
    if next != rs {
        assert(next.take(rs.len() as int) =~= rs);
    }
}

/// A probe in `/opt` that the kernel will not execute sends the chain to
/// home, recording why; anywhere else it ends the call.
pub proof fn lemma_noexec_install_falls_through(rs: Seq<(Location, Reason)>, errno: Option<i32>)
    requires
        is_noexec(errno),
    ensures
        chain_next(Stage::Running(Location::Installed), rs, Event::SpawnFailed(errno))
            == (Stage::Home, rs.push((Location::Installed, Reason::NotExecutable)), ActionView::Inspect(Location::Home)),
        chain_next(Stage::Running(Location::Home), rs, Event::SpawnFailed(errno)).0 == Stage::Finished,
{
}

/// Once finished, the chain stays finished and asks for nothing more to be
/// run.
pub proof fn lemma_finished_is_final(rs: Seq<(Location, Reason)>, event: Event)
    ensures
        chain_next(Stage::Finished, rs, event).0 == Stage::Finished,
        !(chain_next(Stage::Finished, rs, event).2 is Spawn),
        !(chain_next(Stage::Finished, rs, event).2 is Place),
{
}

/// A location we own is usable: a safe parent (a directory of root's or
/// ours, writable by neither group nor world), a probe directory of ours
/// that neither can write, and a regular file of ours that neither can
/// write, carrying no elevation and hashing to the expected digest give a
/// usable, unelevated probe, at either location; with no file there, the
/// location is absent.
pub proof fn lemma_our_own_location_is_usable(location: Location, uid: u32, facts: Facts, sha256: Seq<char>)
    requires
        facts.parent matches Some(p) && p.kind == Kind::Dir && (p.uid == uid || p.uid == 0) && p.mode & 0o022 == 0,
        facts.dir matches Some(d) && d.kind == Kind::Dir && d.uid == uid && d.mode & 0o022 == 0,
        !facts.file_unknowable,
    ensures
        facts.file is None ==> verdict(location, uid, facts, sha256) == Finding::Absent,
        (facts.file matches Some(f) && f.meta.kind == Kind::File && f.meta.uid == uid
            && f.meta.mode & 0o022 == 0 && f.meta.mode & 0o6000 == 0 && !f.capability_xattr
            && (f.sha256 matches Some(h) && h@ == sha256))
            ==> verdict(location, uid, facts, sha256) == (Finding::Usable { elevated: false }),
{
}

/// `/opt` never ends the call: a probe there that is refused, for any
/// reason, or absent, is recorded with why and the chain goes on to home;
/// a usable one is run from `/opt` with its elevation.
pub proof fn lemma_opt_falls_through_to_home(rs: Seq<(Location, Reason)>, f: Finding)
    ensures
        f matches Finding::Refused(r) ==> chain_next(Stage::Installed, rs, Event::Inspected(f))
            == (Stage::Home, rs.push((Location::Installed, r)), ActionView::Inspect(Location::Home)),
        f == Finding::Absent ==> chain_next(Stage::Installed, rs, Event::Inspected(f))
            == (Stage::Home, rs.push((Location::Installed, Reason::Absent)), ActionView::Inspect(Location::Home)),
        f matches Finding::Usable { elevated } ==> chain_next(Stage::Installed, rs, Event::Inspected(f))
            == (Stage::Running(Location::Installed), rs, ActionView::Spawn(Location::Installed, elevated)),
        chain_next(Stage::Installed, rs, Event::Inspected(f)).0 != Stage::Finished,
{
}

/// Home is the last location: a usable probe there is run from home, an
/// empty home is placed into, and a refusal ends the call reporting every
/// location's reason, home's last.
pub proof fn lemma_home_is_the_last_location(rs: Seq<(Location, Reason)>, f: Finding)
    ensures
        f matches Finding::Usable { elevated } ==> chain_next(Stage::Home, rs, Event::Inspected(f))
            == (Stage::Running(Location::Home), rs, ActionView::Spawn(Location::Home, elevated)),
        f == Finding::Absent ==> chain_next(Stage::Home, rs, Event::Inspected(f))
            == (Stage::Placing, rs, ActionView::Place),
        f matches Finding::Refused(r) ==> chain_next(Stage::Home, rs, Event::Inspected(f))
            == (Stage::Finished, rs.push((Location::Home, r)),
                ActionView::Fail(Failure::NoUsableProbe, rs.push((Location::Home, r)))),
{
}

/// After placing, home is judged again from scratch; a failed placement
/// ends the call naming what stopped it: no space for `ENOSPC` or
/// `EDQUOT`, not writable for `EACCES`, `EPERM` or `EROFS`, an I/O error
/// otherwise.
pub proof fn lemma_placement_outcomes(rs: Seq<(Location, Reason)>, errno: Option<i32>)
    ensures
        chain_next(Stage::Placing, rs, Event::Placed) == (Stage::Placed, rs, ActionView::Inspect(Location::Home)),
        chain_next(Stage::Placing, rs, Event::PlaceFailed(errno)).0 == Stage::Finished,
        ({
            let reason = chain_next(Stage::Placing, rs, Event::PlaceFailed(errno)).1.last().1;
            &&& chain_next(Stage::Placing, rs, Event::PlaceFailed(errno)).1 == rs.push((Location::Home, reason))
            &&& chain_next(Stage::Placing, rs, Event::PlaceFailed(errno)).2
                == ActionView::Fail(Failure::NoUsableProbe, rs.push((Location::Home, reason)))
            &&& (errno == Some(28i32) || errno == Some(122i32)) ==> reason == Reason::NoSpace
            &&& (errno == Some(13i32) || errno == Some(1i32) || errno == Some(30i32)) ==> reason == Reason::NotWritable
            &&& !(errno == Some(28i32) || errno == Some(122i32) || errno == Some(13i32) || errno == Some(1i32)
                || errno == Some(30i32)) ==> reason == Reason::IoError
        }),
{
}

/// A probe that ran is done only when it exited successfully: an
/// unsuccessful exit or a failed wait is a failed probe, and one past its
/// deadline timed out; none of these blames a location.
pub proof fn lemma_run_outcomes(rs: Seq<(Location, Reason)>, l: Location)
    ensures
        chain_next(Stage::Running(l), rs, Event::Exited(true)) == (Stage::Finished, rs, ActionView::Done(l)),
        chain_next(Stage::Running(l), rs, Event::Exited(false))
            == (Stage::Finished, rs, ActionView::Fail(Failure::ProbeFailed, Seq::empty())),
        chain_next(Stage::Running(l), rs, Event::WaitFailed)
            == (Stage::Finished, rs, ActionView::Fail(Failure::ProbeFailed, Seq::empty())),
        chain_next(Stage::Running(l), rs, Event::TimedOut)
            == (Stage::Finished, rs, ActionView::Fail(Failure::TimedOut, Seq::empty())),
{
}

} // verus!
