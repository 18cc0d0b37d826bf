use stethoscope::system_info::{collect, field, Utsname};

fn raw(s: &[u8]) -> [u8; 65] {
    let mut r = [0u8; 65];
    r[..s.len()].copy_from_slice(s);
    r
}

#[test]
fn a_field_ends_at_its_nul() {
    assert_eq!(field(&raw(b"host-1")), "host-1");
    assert_eq!(field(&raw(b"")), "");
    assert_eq!(field(&[b'a'; 65]), "a".repeat(65));
    assert_eq!(field(&raw(b"ab\xffcd")), "ab\u{fffd}cd");
}

#[test]
fn the_report_is_nodename_release_and_machine() {
    let u = Utsname {
        sysname: raw(b"Linux"),
        nodename: raw(b"box"),
        release: raw(b"6.8.0-45-generic"),
        version: raw(b"#45-Ubuntu SMP"),
        machine: raw(b"x86_64"),
        domainname: raw(b"(none)"),
    };
    let r = collect(&u, true);
    assert_eq!(r.hostname, "box");
    assert_eq!(r.kernel_release, "6.8.0-45-generic");
    assert_eq!(r.os, "linux");
    assert_eq!(r.arch, "x86_64");
    assert!(r.privileged);
}
