use stethoscope::payload::{for_host, is_ours, Payload};
use stethoscope::target::known_target;

static PAYLOADS: [Payload; 3] = [
    Payload { capability: "storage", arch: "x86_64", sha256: "aaaa", bytes: b"one" },
    Payload { capability: "storage", arch: "aarch64", sha256: "bbbb", bytes: b"two" },
    Payload { capability: "system-health", arch: "x86_64", sha256: "cccc", bytes: b"three" },
];

#[test]
fn a_probe_is_named_for_its_capability_and_hash() {
    assert_eq!(PAYLOADS[0].file_name(), "stethoscope-storage-aaaa");
    assert_eq!(PAYLOADS[2].file_name(), "stethoscope-system-health-cccc");
}

#[test]
fn the_host_gets_the_probe_built_for_it() {
    assert_eq!(for_host(&PAYLOADS, "storage", "aarch64").unwrap().sha256, "bbbb");
    assert_eq!(for_host(&PAYLOADS, "storage", "x86_64").unwrap().sha256, "aaaa");
    assert!(for_host(&PAYLOADS, "system-health", "aarch64").is_none());
    assert!(for_host(&PAYLOADS, "system-info", "x86_64").is_none());
    assert!(for_host(&[], "storage", "x86_64").is_none());
}

#[test]
fn only_names_this_build_would_place_are_ours() {
    assert!(is_ours(&PAYLOADS, "stethoscope-storage-bbbb"));
    assert!(is_ours(&PAYLOADS, "stethoscope-system-health-cccc"));
    assert!(!is_ours(&PAYLOADS, "stethoscope-storage-cccc"));
    assert!(!is_ours(&PAYLOADS, "stethoscope-storage-aaaa.tmp"));
    assert!(!is_ours(&[], "stethoscope-storage-aaaa"));
}

#[test]
fn only_the_local_target_exists() {
    assert!(known_target("local"));
    assert!(!known_target("Local"));
    assert!(!known_target("remote-1"));
    assert!(!known_target(""));
}
