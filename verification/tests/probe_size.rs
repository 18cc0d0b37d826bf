use stethoscope::mountinfo::Statfs;
use stethoscope::probe_size::{
    collect, emit, field, mount_lines, run, Out, Raw, MAX_MOUNTS, MOUNTINFO_CAP, PATH_CAP,
};

fn statfs(blocks: u64, bsize: u64) -> Statfs {
    Statfs {
        f_type: 0xef53,
        f_bsize: bsize,
        f_blocks: blocks,
        f_bfree: blocks / 2,
        f_bavail: blocks / 4,
        f_files: 64,
        f_ffree: 21,
        f_fsid: 0,
        f_namelen: 255,
        f_frsize: bsize,
        f_flags: 0,
    }
}

fn text(out: &Out) -> String {
    String::from_utf8(out.bytes().to_vec()).unwrap()
}

#[test]
fn the_writer_cuts_at_its_capacity() {
    let mut out = Out::new(5);
    out.raw(b"abc");
    assert_eq!(out.bytes(), b"abc");
    out.raw(b"defg");
    assert_eq!(out.bytes(), b"abcde");
    out.raw(b"h");
    assert_eq!(out.bytes(), b"abcde");
    let mut out = Out::new(0);
    out.raw(b"x");
    assert!(out.bytes().is_empty());
}

#[test]
fn strings_are_escaped_per_rfc_8259() {
    let mut out = Out::new(1024);
    out.string("plain");
    assert_eq!(text(&out), "\"plain\"");
    let mut out = Out::new(1024);
    out.string("a\"b\\c\u{8}\u{c}\n\r\t\u{1}\u{1f} \u{e9}");
    assert_eq!(text(&out), "\"a\\\"b\\\\c\\b\\f\\n\\r\\t\\u0001\\u001f \u{e9}\"");
    let mut out = Out::new(4);
    out.string("abcdef");
    assert_eq!(text(&out), "\"abc");
}

#[test]
fn numbers_are_plain_decimal() {
    for (v, s) in [(0u64, "0"), (7, "7"), (10, "10"), (4096000, "4096000"), (u64::MAX, "18446744073709551615")] {
        let mut out = Out::new(64);
        out.u64(v);
        assert_eq!(text(&out), s);
        assert_eq!(text(&out).parse::<u64>().unwrap(), v);
    }
    let mut out = Out::new(64);
    out.field_u64(b"total", 42);
    assert_eq!(text(&out), ",\"total\":42");
}

#[test]
fn the_document_lists_every_filesystem() {
    let rows = [
        Raw {
            mount_point: "/".to_string(),
            source: "/dev/sda1".to_string(),
            fs_type: "ext4".to_string(),
            stat: statfs(1000, 4096),
        },
        Raw {
            mount_point: "/my disk".to_string(),
            source: "x\"y".to_string(),
            fs_type: "vfat".to_string(),
            stat: statfs(8, 512),
        },
    ];
    let mut out = Out::new(4096);
    emit(&mut out, &rows[..1]);
    assert_eq!(
        text(&out),
        "{\"filesystems\":[{\"mount_point\":\"/\",\"source\":\"/dev/sda1\",\"fs_type\":\"ext4\",\
\"total_bytes\":4096000,\"available_bytes\":1024000,\"used_bytes\":2048000,\
\"total_inodes\":64,\"available_inodes\":21}]}\n"
    );
    let mut out = Out::new(4096);
    emit(&mut out, &rows);
    let t = text(&out);
    assert!(t.starts_with("{\"filesystems\":[{\"mount_point\":\"/\""));
    assert!(t.contains("21},{\"mount_point\":\"/my disk\",\"source\":\"x\\\"y\","));
    assert!(t.ends_with("\"total_inodes\":64,\"available_inodes\":21}]}\n"));
    let mut out = Out::new(4096);
    emit(&mut out, &[]);
    assert_eq!(text(&out), "{\"filesystems\":[]}\n");
    let mut out = Out::new(10);
    emit(&mut out, &rows);
    assert_eq!(text(&out), "{\"filesyst");
}

#[test]
fn fields_are_runs_between_spaces() {
    assert_eq!(field(b"  a  bb c ", 0), Some(b"a".to_vec()));
    assert_eq!(field(b"  a  bb c ", 1), Some(b"bb".to_vec()));
    assert_eq!(field(b"  a  bb c ", 2), Some(b"c".to_vec()));
    assert_eq!(field(b"  a  bb c ", 3), None);
    assert_eq!(field(b"", 0), None);
}

#[test]
fn the_probe_reports_measured_mounts_up_to_its_limit() {
    let buf = b"22 1 8:1 / / rw - ext4 /dev/sda1 rw\n\
23 22 0:21 / /proc rw - proc proc rw\n\
24 22 8:17 / /mnt/a\\040b rw - vfat /dev/sdb1 rw\n\
25 22 0:45 / /srv rw - nfs4\n\
26 22 0:46 / /x rw - tmpfs tmpfs rw\n";
    let lines = mount_lines(buf);
    assert_eq!(lines.len(), 4);
    assert_eq!(lines[2].mount_point, b"/mnt/a\\040b".to_vec());
    assert_eq!(lines[2].source, b"/dev/sdb1".to_vec());
    assert_eq!(lines[3].fs_type, b"tmpfs".to_vec());

    let stats = vec![Some(statfs(10, 512)), Some(statfs(0, 512)), None, Some(statfs(3, 512))];
    let rows = collect(mount_lines(buf), stats.clone(), MAX_MOUNTS);
    let got: Vec<_> = rows.iter().map(|r| (r.mount_point.as_str(), r.source.as_str(), r.fs_type.as_str())).collect();
    assert_eq!(got, vec![("/", "/dev/sda1", "ext4"), ("/x", "tmpfs", "tmpfs")]);
    let rows = collect(mount_lines(buf), stats.clone(), 1);
    assert_eq!(rows.len(), 1);
    assert_eq!(rows[0].mount_point, "/");
    let rows = run(buf, buf.len(), stats, 0);
    assert!(rows.is_empty());

    let mut long = b"1 1 0:1 / /".to_vec();
    long.extend(std::iter::repeat(b'a').take(PATH_CAP));
    long.extend_from_slice(b" rw - ext4 src rw\n");
    let rows = run(&long, long.len(), vec![Some(statfs(10, 512))], MAX_MOUNTS);
    assert!(rows.is_empty());
    assert!(MOUNTINFO_CAP > 0);
}
