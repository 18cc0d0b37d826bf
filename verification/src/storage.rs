//! The `storage_health` wire format, and the rule that turns one
//! `statfs(2)` answer into one row of it.

use vstd::prelude::*;

use crate::mountinfo::{raw_view, raw_views, Measured, Mounts, Raw, Statfs, ST_RDONLY};

verus! {

/// Why a discovered mountpoint could not be measured.
#[derive(Clone, Copy, Debug, PartialEq, Eq, Structural)]
pub enum Unavailable {
    /// The invoking user may not measure it.
    PermissionDenied,
    /// Unmounted between being listed and being measured.
    NotFound,
    /// The filesystem returned an I/O error.
    IoError,
    /// Measuring it timed out — usually an unreachable network mount.
    TimedOut,
    /// A dead network-filesystem handle.
    StaleHandle,
    /// Any other failure.
    Unavailable,
}

/// The category an errno falls into.
pub open spec fn unavailable_of(errno: i32) -> Unavailable {
    if errno == 1 || errno == 13 {
        Unavailable::PermissionDenied
    } else if errno == 2 {
        Unavailable::NotFound
    } else if errno == 5 {
        Unavailable::IoError
    } else if errno == 110 {
        Unavailable::TimedOut
    } else if errno == 116 {
        Unavailable::StaleHandle
    } else {
        Unavailable::Unavailable
    }
}

impl Unavailable {
    /// Errno to the vocabulary the payload uses: `EPERM` and `EACCES`,
    /// `ENOENT`, `EIO`, `ETIMEDOUT`, `ESTALE`, and everything else.
    pub fn from_errno(errno: i32) -> (u: Unavailable)
        ensures
            u == unavailable_of(errno),
    {
        match errno {
            1 | 13 => Unavailable::PermissionDenied,
            2 => Unavailable::NotFound,
            5 => Unavailable::IoError,
            110 => Unavailable::TimedOut,
            116 => Unavailable::StaleHandle,
            _ => Unavailable::Unavailable,
        }
    }
}


/// Inode capacity. Absent entirely on a filesystem with no inode concept —
/// vfat reports `f_files == 0`, and reporting that as a zero total would read
/// as "completely full" rather than "not applicable".
#[derive(Clone, Copy, Debug, PartialEq, Eq, Structural)]
pub struct Inodes {
    /// Total inodes the filesystem can hold.
    pub total: u64,
    /// Inodes not currently in use.
    pub free: u64,
}

/// Capacity for one filesystem. Block counts and the frame size ship
/// alongside the byte figures derived from them.
#[derive(Clone, Copy, Debug, PartialEq, Eq, Structural)]
pub struct Capacity {
    /// True when the filesystem is mounted read-only.
    pub read_only: bool,
    /// Size in bytes of the block the counts below are expressed in.
    pub frame_size: u64,
    /// Total blocks in the filesystem.
    pub blocks_total: u64,
    /// Blocks not in use, *including* the root-reserved pool.
    pub blocks_free: u64,
    /// Blocks an unprivileged process may actually write.
    pub blocks_available: u64,
    /// `blocks_total` × `frame_size`.
    pub total_bytes: u64,
    /// `blocks_free` × `frame_size`.
    pub free_bytes: u64,
    /// `blocks_available` × `frame_size`.
    pub available_bytes: u64,
    /// Inode capacity, absent on a filesystem with no inode concept.
    pub inodes: Option<Inodes>,
}

/// One filesystem: measured (`capacity`), or refusing to be measured
/// (`unavailable`).
#[derive(Debug)]
pub struct Filesystem {
    /// Where the filesystem is mounted.
    pub mount_point: String,
    /// The kernel's device identity, `major:minor`.
    pub device: String,
    /// Filesystem type, e.g. `ext4`.
    pub fs_type: String,
    /// Present when the filesystem was measured.
    pub capacity: Option<Capacity>,
    /// Present when it was not.
    pub unavailable: Option<Unavailable>,
}

/// The storage capability's complete response, as the probe emits it.
#[derive(Debug)]
pub struct Report {
    /// Whether collection ran with authority beyond the invoking user's.
    pub privileged: bool,
    /// True when `/proc/self/mountinfo` was larger than the probe's buffer,
    /// so rows are missing.
    pub truncated: bool,
    /// One row per mountpoint with capacity, plus one per mountpoint that
    /// refused to be measured.
    pub filesystems: Vec<Filesystem>,
}

/// The block size the counts are expressed in: `f_frsize`, or `f_bsize`
/// on a filesystem that leaves it zero.
pub open spec fn frame_size_of(s: Statfs) -> u64 {
    if s.f_frsize > 0 { s.f_frsize } else { s.f_bsize }
}

/// `a × b`, or `u64::MAX` when that does not fit.
pub open spec fn saturating_product(a: u64, b: u64) -> u64 {
    if a * b <= u64::MAX { (a * b) as u64 } else { u64::MAX }
}

/// What one `statfs(2)` answer reports.
pub open spec fn capacity_of(s: Statfs) -> Capacity {
    let frame = frame_size_of(s);
    Capacity {
        read_only: s.f_flags & ST_RDONLY != 0,
        frame_size: frame,
        blocks_total: s.f_blocks,
        blocks_free: s.f_bfree,
        blocks_available: s.f_bavail,
        total_bytes: saturating_product(s.f_blocks, frame),
        free_bytes: saturating_product(s.f_bfree, frame),
        available_bytes: saturating_product(s.f_bavail, frame),
        inodes: if s.f_files > 0 { Some(Inodes { total: s.f_files, free: s.f_ffree }) } else { None },
    }
}

fn saturating_mul(a: u64, b: u64) -> (r: u64)
    ensures
        r == saturating_product(a, b),
{
    match a.checked_mul(b) {
        Some(v) => v,
        None => u64::MAX,
    }
}

/// The capacity one `statfs(2)` answer reports.
pub fn capacity(s: &Statfs) -> (c: Capacity)
    ensures
        c == capacity_of(*s),
{
    // `statvfs(3)` expresses its block counts in `f_frsize`; prefer it, and
    // fall back for a filesystem that leaves it zero.
    let frame = if s.f_frsize > 0 { s.f_frsize } else { s.f_bsize };
    let inodes = if s.f_files > 0 {
        Some(Inodes { total: s.f_files, free: s.f_ffree })
    } else {
        None
    };
    Capacity {
        read_only: s.f_flags & ST_RDONLY != 0,
        frame_size: frame,
        blocks_total: s.f_blocks,
        blocks_free: s.f_bfree,
        blocks_available: s.f_bavail,
        total_bytes: saturating_mul(s.f_blocks, frame),
        free_bytes: saturating_mul(s.f_bfree, frame),
        available_bytes: saturating_mul(s.f_bavail, frame),
        inodes,
    }
}

pub open spec fn filesystem_view(f: Filesystem) -> (Seq<char>, Seq<char>, Seq<char>, Option<Capacity>, Option<Unavailable>) {
    (f.mount_point@, f.device@, f.fs_type@, f.capacity, f.unavailable)
}

pub open spec fn filesystem_views(v: Seq<Filesystem>) -> Seq<(Seq<char>, Seq<char>, Seq<char>, Option<Capacity>, Option<Unavailable>)> {
    v.map_values(|f: Filesystem| filesystem_view(f))
}

/// The payload rows that collected rows become: capacity for a measured
/// mountpoint, the reason for one that refused, nothing for a pseudo one.
pub open spec fn reported(rows: Seq<(Seq<char>, Seq<char>, Seq<char>, Measured)>) -> Seq<(Seq<char>, Seq<char>, Seq<char>, Option<Capacity>, Option<Unavailable>)>
    decreases rows.len(),
{
    if rows.len() == 0 {
        Seq::empty()
    } else {
        let r = reported(rows.drop_last());
        let (mp, dev, fs, m) = rows.last();
        match m {
            Measured::Capacity(s) => r.push((mp, dev, fs, Some(capacity_of(s)), None)),
            Measured::Failed(e) => r.push((mp, dev, fs, None, Some(unavailable_of(e)))),
            Measured::Pseudo => r,
        }
    }
}

/// A filesystem is read-only exactly when the read-only bit of its mount
/// flags is set, whatever other flags (`relatime`, `nosuid`, ...) are set
/// beside it.
pub proof fn lemma_read_only_is_the_rdonly_bit(s: Statfs)
    ensures
        capacity_of(s).read_only == (s.f_flags % 2 == 1),
{
    let f = s.f_flags;
    assert((f & 1u64 != 0) == (f % 2 == 1)) by (bit_vector);
}

/// The counts are the kernel's, the frame is `f_frsize` (or `f_bsize` when
/// that is zero), and each byte figure is its count times the frame, or
/// `u64::MAX` when that does not fit; inodes are reported exactly when the
/// filesystem has any.
pub proof fn lemma_capacity_figures(s: Statfs)
    ensures
        capacity_of(s).blocks_total == s.f_blocks,
        capacity_of(s).blocks_free == s.f_bfree,
        capacity_of(s).blocks_available == s.f_bavail,
        capacity_of(s).frame_size == (if s.f_frsize != 0 { s.f_frsize } else { s.f_bsize }),
        s.f_blocks * capacity_of(s).frame_size <= u64::MAX ==> capacity_of(s).total_bytes == s.f_blocks * capacity_of(s).frame_size,
        s.f_blocks * capacity_of(s).frame_size > u64::MAX ==> capacity_of(s).total_bytes == u64::MAX,
        s.f_bfree * capacity_of(s).frame_size <= u64::MAX ==> capacity_of(s).free_bytes == s.f_bfree * capacity_of(s).frame_size,
        s.f_bfree * capacity_of(s).frame_size > u64::MAX ==> capacity_of(s).free_bytes == u64::MAX,
        s.f_bavail * capacity_of(s).frame_size <= u64::MAX ==> capacity_of(s).available_bytes == s.f_bavail * capacity_of(s).frame_size,
        s.f_bavail * capacity_of(s).frame_size > u64::MAX ==> capacity_of(s).available_bytes == u64::MAX,
        capacity_of(s).inodes is Some <==> s.f_files != 0,
        capacity_of(s).inodes matches Some(i) ==> i.total == s.f_files && i.free == s.f_ffree,
{
}

/// Every reported filesystem is either measured or refusing, never both
/// and never neither; a refusal always says why.
pub proof fn lemma_measured_or_unavailable(rows: Seq<(Seq<char>, Seq<char>, Seq<char>, Measured)>)
    ensures
        forall|i: int| 0 <= i < reported(rows).len() ==>
            (#[trigger] reported(rows)[i]).3 is Some != reported(rows)[i].4 is Some,
    decreases rows.len(),
{
    if rows.len() > 0 {
        lemma_measured_or_unavailable(rows.drop_last());
    }
}

/// Build the storage report from the collected rows.
pub fn collect_report(mounts: Mounts, privileged: bool) -> (report: Report)
    ensures
        report.privileged == privileged,
        report.truncated == mounts.truncated,
        filesystem_views(report.filesystems@) == reported(raw_views(mounts.rows@)),
{
    let truncated = mounts.truncated;
    let ghost all = raw_views(mounts.rows@);
    let mut rows = mounts.rows;
    let mut rev: Vec<Raw> = Vec::new();
    // Reverse once so rows can be taken from the back in order.
    while rows.len() > 0
        invariant
            raw_views(rows@) + raw_views(rev@).reverse() == all,
        decreases rows@.len(),
    {
        let ghost before_rows = rows@;
        let ghost before_rev = rev@;
        let r = rows.pop().unwrap();
        rev.push(r);
        proof {
            assert(raw_views(before_rows) =~= raw_views(rows@).push(raw_view(r)));
            assert(raw_views(rev@).reverse() =~= seq![raw_view(r)] + raw_views(before_rev).reverse());
            assert(raw_views(rows@) + raw_views(rev@).reverse() =~= all);
        }
    }
    let mut filesystems: Vec<Filesystem> = Vec::new();
    let ghost n = all.len();
    assert(raw_views(rev@).reverse() =~= all);
    while rev.len() > 0
        invariant
            raw_views(rev@).len() <= n,
            n == all.len(),
            raw_views(rev@).reverse() == all.skip(n - raw_views(rev@).len()),
            filesystem_views(filesystems@) == reported(all.take(n - raw_views(rev@).len())),
        decreases rev@.len(),
    {
        let ghost before_rev = rev@;
        let ghost k = n - raw_views(rev@).len();
        let row = rev.pop().unwrap();
        proof {
            assert(raw_views(before_rev) =~= raw_views(rev@).push(raw_view(row)));
            assert(raw_views(before_rev).reverse() =~= seq![raw_view(row)] + raw_views(rev@).reverse());
            assert(raw_views(rev@).reverse() =~= raw_views(before_rev).reverse().drop_first());
            assert(raw_views(before_rev).reverse()[0] == raw_view(row));
            assert(all[k] == raw_view(row));
            assert(all.take(k + 1).drop_last() =~= all.take(k));
            assert(raw_views(rev@).reverse() =~= all.skip(k + 1));
        }
        let ghost old_fs = filesystems@;
        let (capacity, unavailable) = match row.measured {
            Measured::Capacity(s) => (Some(capacity(&s)), None),
            Measured::Failed(e) => (None, Some(Unavailable::from_errno(e))),
            Measured::Pseudo => continue,
        };
        let fs = Filesystem {
            mount_point: row.mount_point,
            device: row.device,
            fs_type: row.fs_type,
            capacity,
            unavailable,
        };
        filesystems.push(fs);
        proof {
            assert(filesystem_views(filesystems@) =~= filesystem_views(old_fs).push(filesystem_view(fs)));
        }
    }
    assert(all.take(n as int) =~= all);
    Report { privileged, truncated, filesystems }
}

} // verus!
