use stethoscope::release::{
    host_triple, inherited_rustflags, leaked_path, remap_flag, remaps, starts_with, triple_arch,
};

#[test]
fn a_build_path_anywhere_in_the_binary_is_found() {
    let rules = vec![
        (b"/home/someone".to_vec(), "/home"),
        (b"/work/repo".to_vec(), "/build"),
    ];
    let clean = b"\x7fELF\0/cargo/registry/src/tokio/src/lib.rs\0/build/src/main.rs";
    assert_eq!(leaked_path(clean, &rules), None);

    let mut leaked = clean.to_vec();
    leaked.extend_from_slice(b"\0/home/someone/.cargo/registry/src/x.rs");
    assert_eq!(leaked_path(&leaked, &rules), Some(&b"/home/someone".to_vec()));

    let mut leaked = b"/work/repo/src/main.rs".to_vec();
    leaked.extend_from_slice(clean);
    assert_eq!(leaked_path(&leaked, &rules), Some(&b"/work/repo".to_vec()));
}

#[test]
fn the_first_rule_that_leaks_is_named() {
    let rules = vec![(b"/a".to_vec(), "/x"), (b"/b".to_vec(), "/y")];
    assert_eq!(leaked_path(b"../b/../a", &rules), Some(&b"/a".to_vec()));
    assert_eq!(leaked_path(b"/b", &rules), Some(&b"/b".to_vec()));
    assert_eq!(leaked_path(b"/", &rules), None);
    assert_eq!(leaked_path(b"", &rules), None);
    assert_eq!(leaked_path(b"/a", &[]), None);
}

#[test]
fn inherited_rustflags_prefer_the_encoded_form() {
    assert_eq!(
        inherited_rustflags(Some("-C\x1fopt-level=3\x1f\x1f--cfg x"), Some("-D warnings")),
        vec!["-C".to_string(), "opt-level=3".to_string(), "--cfg x".to_string()]
    );
    assert_eq!(
        inherited_rustflags(None, Some("  -D warnings\t-C  debuginfo=0 ")),
        vec!["-D".to_string(), "warnings".to_string(), "-C".to_string(), "debuginfo=0".to_string()]
    );
    assert!(inherited_rustflags(None, None).is_empty());
    assert!(inherited_rustflags(Some(""), Some("-D warnings")).is_empty());
}

#[test]
fn remap_flags_name_both_sides() {
    assert_eq!(remap_flag(b"/home/me", "/home"), "--remap-path-prefix=/home/me=/home");
    assert_eq!(remap_flag(b"/a\xffb", "/x"), "--remap-path-prefix=/a\u{fffd}b=/x");
}

#[test]
fn starts_with_compares_whole_components() {
    assert!(starts_with(b"/work/repo/target", b"/work/repo"));
    assert!(starts_with(b"/work/repo", b"/work/repo/"));
    assert!(starts_with(b"/work//repo/./target", b"/work/repo"));
    assert!(!starts_with(b"/work/repository", b"/work/repo"));
    assert!(!starts_with(b"target", b"/work/repo"));
    assert!(starts_with(b"./target", b"."));
    assert!(!starts_with(b"target", b"."));
    assert!(starts_with(b"/anything", b"/"));
    assert!(starts_with(b"a/b", b""));
}

#[test]
fn remaps_go_from_specific_to_general() {
    let rules = remaps(Some(b"/home/me".to_vec()), None, None, b"/home/me/src/repo", b"/home/me/src/repo/target").unwrap();
    assert_eq!(
        rules,
        vec![
            (b"/home/me".to_vec(), "/home"),
            (b"/home/me/.cargo".to_vec(), "/cargo"),
            (b"/home/me/.rustup".to_vec(), "/rustup"),
            (b"/home/me/src/repo".to_vec(), "/build"),
        ]
    );
    let rules = remaps(
        Some(b"/home/me/".to_vec()),
        Some(b"/opt/cargo".to_vec()),
        Some(b"/opt/rustup".to_vec()),
        b"/w",
        b"/tmp/t",
    )
    .unwrap();
    assert_eq!(rules[1], (b"/opt/cargo".to_vec(), "/cargo"));
    assert_eq!(rules[2], (b"/opt/rustup".to_vec(), "/rustup"));
    assert_eq!(rules[4], (b"/tmp/t".to_vec(), "/build/target"));
    assert_eq!(rules.len(), 5);
    assert_eq!(remaps(None, None, None, b"/w", b"/w/target"), Err("HOME is unset or not an absolute path"));
    assert_eq!(remaps(Some(b"/".to_vec()), None, None, b"/w", b"/w/target"), Err("HOME is unset or not an absolute path"));
    assert_eq!(remaps(Some(b"me".to_vec()), None, None, b"/w", b"/w/target"), Err("HOME is unset or not an absolute path"));
}

#[test]
fn the_host_triple_is_read_from_rustc_output() {
    let out = b"rustc 1.90.0 (abc 2025-01-01)\nbinary: rustc\nhost: x86_64-unknown-linux-gnu\nrelease: 1.90.0\n";
    assert_eq!(host_triple(out).unwrap(), "x86_64-unknown-linux-gnu");
    assert_eq!(host_triple(b"host: aarch64-apple-darwin\r\n").unwrap(), "aarch64-apple-darwin");
    assert_eq!(host_triple(b"binary: rustc\nhosts: x\n"), Err("rustc -vV reported no host triple"));
    assert_eq!(host_triple(b""), Err("rustc -vV reported no host triple"));
    assert_eq!(triple_arch("x86_64-unknown-linux-gnu"), "x86_64");
    assert_eq!(triple_arch("wasm32"), "wasm32");
}
