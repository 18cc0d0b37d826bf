use stethoscope::mountinfo::{
    as_string, collect, measure, mount_entries, run, unescape, Measured, MountEntry, Mounts, Statfs,
    ST_RDONLY,
};
use stethoscope::prologue::Location;
use stethoscope::storage::{capacity, collect_report, Capacity, Inodes, Unavailable};
use stethoscope::storage_health::{probe_location, storage_health, ProbeLocation};

const MOUNTINFO: &[u8] = b"22 1 8:1 / / rw,relatime shared:1 - ext4 /dev/sda1 rw,errors=remount-ro\n\
23 22 0:21 / /proc rw,nosuid - proc proc rw\n\
24 22 8:17 / /mnt/my\\040disk rw shared:2 - vfat /dev/sdb1 rw\n\
\n\
a line without a separator\n\
25 22 0:45 / /srv/nfs rw - nfs4 server:/export rw\n";

fn statfs(blocks: u64, frsize: u64, bsize: u64, files: u64, flags: u64) -> Statfs {
    Statfs {
        f_type: 0xef53,
        f_bsize: bsize,
        f_blocks: blocks,
        f_bfree: blocks / 2,
        f_bavail: blocks / 4,
        f_files: files,
        f_ffree: files / 3,
        f_fsid: 0,
        f_namelen: 255,
        f_frsize: frsize,
        f_flags: flags,
    }
}

fn entry(mp: &[u8], dev: &[u8], fs: &[u8]) -> (Vec<u8>, Vec<u8>, Vec<u8>) {
    (mp.to_vec(), dev.to_vec(), fs.to_vec())
}

fn view(e: &MountEntry) -> (Vec<u8>, Vec<u8>, Vec<u8>) {
    (e.mount_point.clone(), e.device.clone(), e.fs_type.clone())
}

#[test]
fn mountinfo_gives_mountpoint_device_and_type_per_line() {
    let entries: Vec<_> = mount_entries(MOUNTINFO).iter().map(view).collect();
    assert_eq!(
        entries,
        vec![
            entry(b"/", b"8:1", b"ext4"),
            entry(b"/proc", b"0:21", b"proc"),
            entry(b"/mnt/my disk", b"8:17", b"vfat"),
            entry(b"/srv/nfs", b"0:45", b"nfs4"),
        ]
    );
    assert!(mount_entries(b"").is_empty());
    // Too few fields before the separator, or nothing after it.
    assert!(mount_entries(b"1 2 - ext4\n").is_empty());
    assert!(mount_entries(b"1 2 3:4 / /x rw -\n").is_empty());
}

#[test]
fn the_mount_source_is_never_read() {
    let a = mount_entries(b"25 22 0:45 / /srv rw - nfs4 10.0.0.7:/secret rw\n");
    let b = mount_entries(b"25 22 0:45 / /srv rw - nfs4 other rw\n");
    let c = mount_entries(b"25 22 0:45 / /srv rw - nfs4\n");
    assert_eq!(a.len(), 1);
    assert_eq!(view(&a[0]), view(&b[0]));
    assert_eq!(view(&a[0]), view(&c[0]));
}

#[test]
fn octal_escapes_are_unescaped() {
    assert_eq!(unescape(b"/mnt/my\\040disk"), b"/mnt/my disk".to_vec());
    assert_eq!(unescape(b"a\\011b\\012c\\134d"), b"a\tb\nc\\d".to_vec());
    assert_eq!(unescape(b"\\04"), b"\\04".to_vec());
    assert_eq!(unescape(b"\\08x"), b"\\08x".to_vec());
    assert_eq!(unescape(b"\\0401"), b" 1".to_vec());
    assert_eq!(unescape(b""), Vec::<u8>::new());
}

#[test]
fn fields_that_are_not_utf8_become_empty() {
    assert_eq!(as_string(b"ext4"), "ext4");
    assert_eq!(as_string(b"caf\xc3\xa9"), "caf\u{e9}");
    assert_eq!(as_string(b"\xff\xfe"), "");
}

#[test]
fn a_statfs_answer_is_capacity_pseudo_or_a_failure() {
    let s = statfs(100, 4096, 4096, 10, 0);
    assert_eq!(measure(Ok(s)), Measured::Capacity(s));
    assert_eq!(measure(Ok(statfs(0, 4096, 4096, 0, 0))), Measured::Pseudo);
    assert_eq!(measure(Err(13)), Measured::Failed(13));
}

#[test]
fn pseudo_filesystems_are_dropped_and_failures_kept() {
    let s = statfs(1000, 4096, 4096, 64, 0);
    let measured = vec![
        Measured::Capacity(s),
        Measured::Pseudo,
        Measured::Failed(13),
        Measured::Failed(116),
    ];
    let rows = collect(mount_entries(MOUNTINFO), measured);
    let got: Vec<_> = rows
        .iter()
        .map(|r| (r.mount_point.as_str(), r.device.as_str(), r.fs_type.as_str(), r.measured))
        .collect();
    assert_eq!(
        got,
        vec![
            ("/", "8:1", "ext4", Measured::Capacity(s)),
            ("/mnt/my disk", "8:17", "vfat", Measured::Failed(13)),
            ("/srv/nfs", "0:45", "nfs4", Measured::Failed(116)),
        ]
    );
}

#[test]
fn a_full_buffer_is_reported_as_truncated() {
    let buf = b"22 1 8:1 / / rw - ext4 /dev/sda1 rw\n23 22 0:21 / /proc rw - proc proc rw\n";
    let s = statfs(10, 512, 512, 0, 0);
    let m = run(buf, buf.len(), vec![Measured::Capacity(s), Measured::Pseudo]);
    assert!(m.truncated);
    assert_eq!(m.rows.len(), 1);
    assert_eq!(m.rows[0].mount_point, "/");
    // Only the first line was read: the second mount is missing.
    let first = buf.iter().position(|&c| c == b'\n').unwrap() + 1;
    let m = run(buf, first, vec![Measured::Failed(2)]);
    assert!(!m.truncated);
    assert_eq!(m.rows.len(), 1);
    assert_eq!(m.rows[0].measured, Measured::Failed(2));
}

#[test]
fn errnos_map_to_the_payload_vocabulary() {
    assert_eq!(Unavailable::from_errno(1), Unavailable::PermissionDenied);
    assert_eq!(Unavailable::from_errno(13), Unavailable::PermissionDenied);
    assert_eq!(Unavailable::from_errno(2), Unavailable::NotFound);
    assert_eq!(Unavailable::from_errno(5), Unavailable::IoError);
    assert_eq!(Unavailable::from_errno(110), Unavailable::TimedOut);
    assert_eq!(Unavailable::from_errno(116), Unavailable::StaleHandle);
    assert_eq!(Unavailable::from_errno(22), Unavailable::Unavailable);
}

#[test]
fn capacity_is_counts_times_the_frame_size() {
    let c = capacity(&statfs(1000, 4096, 1024, 64, ST_RDONLY));
    assert_eq!(
        c,
        Capacity {
            read_only: true,
            frame_size: 4096,
            blocks_total: 1000,
            blocks_free: 500,
            blocks_available: 250,
            total_bytes: 4_096_000,
            free_bytes: 2_048_000,
            available_bytes: 1_024_000,
            inodes: Some(Inodes { total: 64, free: 21 }),
        }
    );
    // No f_frsize: the block size stands in. No inodes: none reported.
    let c = capacity(&statfs(8, 0, 512, 0, 0));
    assert_eq!(c.frame_size, 512);
    assert_eq!(c.total_bytes, 4096);
    assert!(!c.read_only);
    assert_eq!(c.inodes, None);
    // Byte figures saturate rather than wrap.
    let c = capacity(&statfs(u64::MAX, 2, 2, 0, 0));
    assert_eq!(c.total_bytes, u64::MAX);
    assert_eq!(c.blocks_total, u64::MAX);
}

#[test]
fn the_report_has_one_row_per_measured_or_refusing_mount() {
    let s = statfs(1000, 4096, 4096, 64, 0);
    let rows = collect(
        mount_entries(MOUNTINFO),
        vec![Measured::Capacity(s), Measured::Pseudo, Measured::Failed(13), Measured::Failed(116)],
    );
    let report = collect_report(Mounts { rows, truncated: true }, false);
    assert!(!report.privileged);
    assert!(report.truncated);
    assert_eq!(report.filesystems.len(), 3);
    assert_eq!(report.filesystems[0].mount_point, "/");
    assert_eq!(report.filesystems[0].device, "8:1");
    assert_eq!(report.filesystems[0].fs_type, "ext4");
    assert_eq!(report.filesystems[0].capacity, Some(capacity(&s)));
    assert_eq!(report.filesystems[0].unavailable, None);
    assert_eq!(report.filesystems[1].mount_point, "/mnt/my disk");
    assert_eq!(report.filesystems[1].capacity, None);
    assert_eq!(report.filesystems[1].unavailable, Some(Unavailable::PermissionDenied));
    assert_eq!(report.filesystems[2].unavailable, Some(Unavailable::StaleHandle));
    let empty = collect_report(Mounts { rows: vec![], truncated: false }, true);
    assert!(empty.privileged);
    assert!(empty.filesystems.is_empty());
}

#[test]
fn the_answer_says_where_the_probe_ran() {
    assert_eq!(probe_location(Location::Installed), ProbeLocation::Installed);
    assert_eq!(probe_location(Location::Home), ProbeLocation::Home);
    let report = collect_report(Mounts { rows: vec![], truncated: false }, false);
    let h = storage_health("local".to_string(), Location::Home, report);
    assert_eq!(h.target, "local");
    assert_eq!(h.probe_location, ProbeLocation::Home);
    assert!(h.report.filesystems.is_empty());
}

#[test]
fn unescaping_undoes_what_mountinfo_prints() {
    assert_eq!(unescape(b"/tmp/my\\040disk"), b"/tmp/my disk".to_vec());
    assert_eq!(unescape(b"/a\\011b\\012c\\134d\\040e"), b"/a\tb\nc\\d e".to_vec());
    assert_eq!(unescape(b"/plain/path-with_no.backslash"), b"/plain/path-with_no.backslash".to_vec());
}
