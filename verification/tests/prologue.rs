use stethoscope::payload::Payload;
use stethoscope::prologue::{
    content_digest, dir_is_safe, dir_of, failure_message, hex, is_loud, judge, meta,
    permission_error, placement_reason, stray_notice, strays, Action, Chain, Event, Facts, FileFacts, Failure,
    Finding, Found, Kind, Location, Meta, Reason, Stage, StrayNotice, MAX_PROBE_BYTES,
};

const ME: u32 = 1000;
const OTHER: u32 = 1001;
const HASH: &str = "abc123";

fn dir(uid: u32, mode: u32) -> Option<Meta> {
    Some(Meta { kind: Kind::Dir, uid, mode })
}

fn file(uid: u32, mode: u32, sha256: &str, xattr: bool) -> Option<FileFacts> {
    Some(FileFacts {
        meta: Meta { kind: Kind::File, uid, mode },
        capability_xattr: xattr,
        sha256: Some(sha256.into()),
    })
}

fn home(parent: Option<Meta>, d: Option<Meta>, f: Option<FileFacts>) -> Finding {
    judge(
        Location::Home,
        ME,
        &Facts { parent, dir: d, file: f, file_unknowable: false },
        HASH,
    )
}

fn installed(d: Option<Meta>, f: Option<FileFacts>) -> Finding {
    judge(
        Location::Installed,
        ME,
        &Facts { parent: dir(0, 0o755), dir: d, file: f, file_unknowable: false },
        HASH,
    )
}

fn refused(r: Reason) -> Finding {
    Finding::Refused(r)
}

#[test]
fn the_ordinary_cases() {
    let ok = Finding::Usable { elevated: false };
    assert_eq!(home(dir(ME, 0o755), dir(ME, 0o700), file(ME, 0o700, HASH, false)), ok);
    assert_eq!(installed(dir(0, 0o755), file(0, 0o755, HASH, false)), ok);
    assert_eq!(installed(None, None), Finding::Absent);
    assert_eq!(home(dir(ME, 0o700), None, None), Finding::Absent);
    assert_eq!(home(dir(ME, 0o700), dir(ME, 0o700), None), Finding::Absent);
}

#[test]
fn a_symlink_is_not_a_directory_whatever_it_points_at() {
    let link = Some(Meta { kind: Kind::Symlink, uid: ME, mode: 0o777 });
    assert_eq!(home(dir(ME, 0o700), link, None), refused(Reason::NotADirectory));
    let link = Some(FileFacts {
        meta: Meta { kind: Kind::Symlink, uid: ME, mode: 0o777 },
        capability_xattr: false,
        sha256: None,
    });
    assert_eq!(home(dir(ME, 0o700), dir(ME, 0o700), link), refused(Reason::NotARegularFile));
}

#[test]
fn a_third_users_directory_is_refused_even_when_not_group_or_world_writable() {
    assert_eq!(
        installed(dir(OTHER, 0o755), file(0, 0o755, HASH, false)),
        refused(Reason::UnsafeOwner)
    );
    assert_eq!(home(dir(ME, 0o700), dir(OTHER, 0o700), None), refused(Reason::UnsafeOwner));
}

#[test]
fn root_ownership_is_admitted_only_for_opt() {
    assert_eq!(home(dir(ME, 0o700), dir(0, 0o755), None), refused(Reason::UnsafeOwner));
    assert_eq!(installed(dir(0, 0o755), None), Finding::Absent);
}

#[test]
fn group_or_world_writable_is_refused_at_every_level() {
    assert_eq!(home(dir(ME, 0o775), dir(ME, 0o700), None), refused(Reason::UnsafeParent));
    assert_eq!(home(dir(ME, 0o700), dir(ME, 0o770), None), refused(Reason::UnsafeMode));
    assert_eq!(
        home(dir(ME, 0o700), dir(ME, 0o700), file(ME, 0o702, HASH, false)),
        refused(Reason::UnsafeMode)
    );
    assert_eq!(installed(dir(0, 0o775), None), refused(Reason::UnsafeMode));
}

#[test]
fn an_unusual_opt_does_not_matter_when_nothing_is_installed() {
    let nobody = Some(Meta { kind: Kind::Dir, uid: 65534, mode: 0o755 });
    let facts = Facts { parent: nobody, dir: None, file: None, file_unknowable: false };
    assert_eq!(judge(Location::Installed, ME, &facts, HASH), Finding::Absent);
    let facts = Facts {
        parent: nobody,
        dir: dir(0, 0o755),
        file: file(0, 0o755, HASH, false),
        file_unknowable: false,
    };
    assert_eq!(judge(Location::Installed, ME, &facts, HASH), refused(Reason::UnsafeParent));
    assert_eq!(home(dir(ME, 0o775), None, None), refused(Reason::UnsafeParent));
}

#[test]
fn a_third_users_unreadable_directory_or_file_is_refused_for_ownership_not_io() {
    let facts = Facts {
        parent: dir(ME, 0o700),
        dir: dir(OTHER, 0o700),
        file: None,
        file_unknowable: true,
    };
    assert_eq!(judge(Location::Home, ME, &facts, HASH), refused(Reason::UnsafeOwner));
    let unreadable = Some(FileFacts {
        meta: Meta { kind: Kind::File, uid: OTHER, mode: 0o700 },
        capability_xattr: false,
        sha256: None,
    });
    assert_eq!(home(dir(ME, 0o700), dir(ME, 0o700), unreadable), refused(Reason::UnsafeOwner));
    let facts = Facts {
        parent: dir(ME, 0o700),
        dir: dir(ME, 0o000),
        file: None,
        file_unknowable: true,
    };
    assert_eq!(judge(Location::Home, ME, &facts, HASH), refused(Reason::IoError));
}

#[test]
fn a_parent_owned_by_a_third_user_is_refused() {
    assert_eq!(home(dir(OTHER, 0o755), dir(ME, 0o700), None), refused(Reason::UnsafeParent));
}

#[test]
fn a_file_owned_by_a_third_user_is_refused_even_with_the_right_hash() {
    assert_eq!(
        installed(dir(0, 0o755), file(OTHER, 0o755, HASH, false)),
        refused(Reason::UnsafeOwner)
    );
}

#[test]
fn a_name_is_never_trusted() {
    assert_eq!(
        home(dir(ME, 0o700), dir(ME, 0o700), file(ME, 0o700, "planted", false)),
        refused(Reason::HashMismatch)
    );
    let unhashable = Some(FileFacts {
        meta: Meta { kind: Kind::File, uid: ME, mode: 0o700 },
        capability_xattr: false,
        sha256: None,
    });
    assert_eq!(home(dir(ME, 0o700), dir(ME, 0o700), unhashable), refused(Reason::HashMismatch));
}

#[test]
fn elevation_is_refused_outside_opt_even_when_the_hash_matches() {
    assert_eq!(
        home(dir(ME, 0o700), dir(ME, 0o700), file(ME, 0o4700, HASH, false)),
        refused(Reason::ElevatedOutsideInstalled)
    );
    assert_eq!(
        home(dir(ME, 0o700), dir(ME, 0o700), file(ME, 0o700, HASH, true)),
        refused(Reason::ElevatedOutsideInstalled)
    );
}

#[test]
fn elevation_in_opt_needs_root_ownership_and_no_world_access() {
    assert_eq!(
        installed(dir(0, 0o755), file(0, 0o750, HASH, true)),
        Finding::Usable { elevated: true }
    );
    assert_eq!(
        installed(dir(0, 0o755), file(0, 0o4750, HASH, false)),
        Finding::Usable { elevated: true }
    );
    assert_eq!(installed(dir(0, 0o755), file(0, 0o755, HASH, true)), refused(Reason::ElevatedUnsafe));
    assert_eq!(
        installed(dir(0, 0o755), file(ME, 0o4750, HASH, false)),
        refused(Reason::ElevatedUnsafe)
    );
}

#[test]
fn a_missing_parent_is_an_absent_location() {
    let facts = Facts { parent: None, dir: dir(ME, 0o700), file: None, file_unknowable: false };
    assert_eq!(judge(Location::Home, ME, &facts, HASH), Finding::Absent);
    assert_eq!(judge(Location::Installed, ME, &facts, HASH), Finding::Absent);
}

#[test]
fn setgid_counts_as_elevation() {
    assert_eq!(
        home(dir(ME, 0o700), dir(ME, 0o700), file(ME, 0o2700, HASH, false)),
        refused(Reason::ElevatedOutsideInstalled)
    );
    assert_eq!(
        installed(dir(0, 0o755), file(0, 0o2750, HASH, false)),
        Finding::Usable { elevated: true }
    );
}

#[test]
fn names_on_the_wire() {
    assert_eq!(Location::Installed.as_str(), "installed");
    assert_eq!(Location::Home.as_str(), "home");
    let all = [
        (Reason::Absent, "absent"),
        (Reason::NoHome, "no_home"),
        (Reason::UnsafeParent, "unsafe_parent"),
        (Reason::NotADirectory, "not_a_directory"),
        (Reason::UnsafeOwner, "unsafe_owner"),
        (Reason::UnsafeMode, "unsafe_mode"),
        (Reason::NotARegularFile, "not_a_regular_file"),
        (Reason::HashMismatch, "hash_mismatch"),
        (Reason::ElevatedOutsideInstalled, "elevated_outside_installed"),
        (Reason::ElevatedUnsafe, "elevated_unsafe"),
        (Reason::NotExecutable, "not_executable"),
        (Reason::NoSpace, "no_space"),
        (Reason::NotWritable, "not_writable"),
        (Reason::IoError, "io_error"),
    ];
    for (r, name) in all {
        assert_eq!(r.as_str(), name);
    }
    assert_eq!(Failure::NoUsableProbe.as_str(), "no_usable_probe");
    assert_eq!(Failure::ProbeFailed.as_str(), "probe_failed");
    assert_eq!(Failure::TimedOut.as_str(), "timed_out");
    assert_eq!(Failure::PayloadUnavailable.as_str(), "payload_unavailable");
    assert_eq!(Failure::MalformedOutput.as_str(), "malformed_output");
}

#[test]
fn stat_reduces_to_kind_owner_and_permission_bits() {
    assert_eq!(
        meta(false, true, false, 7, 0o40755),
        Meta { kind: Kind::Dir, uid: 7, mode: 0o755 }
    );
    assert_eq!(
        meta(false, false, true, 0, 0o104750),
        Meta { kind: Kind::File, uid: 0, mode: 0o4750 }
    );
    assert_eq!(meta(true, false, false, 1, 0o120777).kind, Kind::Symlink);
    assert_eq!(meta(false, false, false, 1, 0o10644).kind, Kind::Other);
}

#[test]
fn errno_classification() {
    assert!(permission_error(Some(13)));
    assert!(permission_error(Some(1)));
    assert!(!permission_error(Some(2)));
    assert!(!permission_error(None));
    assert_eq!(placement_reason(Some(28)), Reason::NoSpace);
    assert_eq!(placement_reason(Some(122)), Reason::NoSpace);
    assert_eq!(placement_reason(Some(13)), Reason::NotWritable);
    assert_eq!(placement_reason(Some(1)), Reason::NotWritable);
    assert_eq!(placement_reason(Some(30)), Reason::NotWritable);
    assert_eq!(placement_reason(Some(5)), Reason::IoError);
    assert_eq!(placement_reason(None), Reason::IoError);
}

#[test]
fn refusals_worth_investigating_and_listable_directories() {
    assert!(is_loud(Reason::HashMismatch));
    assert!(is_loud(Reason::ElevatedOutsideInstalled));
    assert!(!is_loud(Reason::UnsafeMode));
    assert!(dir_is_safe(Finding::Usable { elevated: false }, true));
    assert!(dir_is_safe(Finding::Absent, true));
    assert!(!dir_is_safe(Finding::Absent, false));
    assert!(!dir_is_safe(Finding::Refused(Reason::UnsafeMode), true));
}

#[test]
fn the_failure_message_names_categories_and_never_paths() {
    assert_eq!(
        failure_message("storage", "payload_unavailable", &[]),
        "storage probe on local: payload_unavailable"
    );
    assert_eq!(
        failure_message(
            "storage",
            "no_usable_probe",
            &[(Location::Installed, Reason::Absent), (Location::Home, Reason::NoSpace)]
        ),
        "storage probe on local: no_usable_probe (installed: absent, home: no_space)"
    );
    assert_eq!(
        failure_message("system-health", "timed_out", &[(Location::Home, Reason::IoError)]),
        "system-health probe on local: timed_out (home: io_error)"
    );
}

#[test]
fn digests_are_lowercase_hex_sha256() {
    assert_eq!(hex(&[0x00, 0x0f, 0xa0, 0xff]), "000fa0ff");
    assert_eq!(hex(&[]), "");
    assert_eq!(
        content_digest(b"abc").unwrap(),
        "ba7816bf8f01cfea414140de5dae2223b00361a396177a9cb410ff61f20015ad"
    );
    assert_eq!(
        content_digest(b"").unwrap(),
        "e3b0c44298fc1c149afbf4c8996fb92427ae41e4649b934ca495991b7852b855"
    );
    let d = content_digest(b"any probe").unwrap();
    assert_eq!(d.len(), 64);
    assert!(d.chars().all(|c| c.is_ascii_digit() || ('a'..='f').contains(&c)));
    let big = vec![0u8; MAX_PROBE_BYTES as usize + 1];
    assert!(content_digest(&big).is_none());
}

const A: &str = "aaaaaaaaaaaaaaaaaaaaaaaaaaaaaaaaaaaaaaaaaaaaaaaaaaaaaaaaaaaaaaaa";
const B: &str = "0123456789abcdef0123456789abcdef0123456789abcdef0123456789abcdef";

static PAYLOADS: [Payload; 2] = [
    Payload { capability: "storage", arch: "x86_64", sha256: A, bytes: b"one" },
    Payload { capability: "storage", arch: "aarch64", sha256: B, bytes: b"two" },
];

#[test]
fn other_versions_of_a_probe_are_strays() {
    let c = "c".repeat(64);
    let d = "d".repeat(64);
    let names = vec![
        format!("stethoscope-storage-{A}"),
        format!("stethoscope-storage-{B}"),
        format!("stethoscope-storage-{c}"),
        format!("stethoscope-storage-{d}"),
        format!("stethoscope-system-health-{c}"),
        "notes.txt".to_string(),
    ];
    assert_eq!(strays(&PAYLOADS, "storage", &names), 2);
    assert_eq!(strays(&PAYLOADS, "system-health", &names), 1);
    assert_eq!(strays(&PAYLOADS, "storage", &Vec::new()), 0);
}

#[test]
fn only_a_full_digest_after_the_prefix_makes_a_stray() {
    let c = "c".repeat(64);
    let names = vec![
        // Another capability whose name extends this one's.
        format!("stethoscope-container-list-{c}"),
        "stethoscope-container-list-x".to_string(),
        // Too short, too long, not lowercase hex.
        format!("stethoscope-container-{}", "c".repeat(63)),
        format!("stethoscope-container-{}", "c".repeat(65)),
        format!("stethoscope-container-{}", "C".repeat(64)),
        format!("stethoscope-container-{}", "g".repeat(64)),
        format!("stethoscope-container-{c}.tmp-42"),
    ];
    assert_eq!(strays(&[], "container", &names), 0);
    assert_eq!(strays(&[], "container-list", &names), 1);
    assert_eq!(strays(&[], "container", &[format!("stethoscope-container-{c}")].to_vec()), 1);
}

#[test]
fn a_stale_install_is_loud() {
    assert_eq!(stray_notice(Location::Installed, 0, false), StrayNotice::Quiet);
    assert_eq!(stray_notice(Location::Installed, 2, false), StrayNotice::StaleInstall);
    assert_eq!(stray_notice(Location::Installed, 2, true), StrayNotice::OtherVersions);
    assert_eq!(stray_notice(Location::Home, 1, false), StrayNotice::OtherVersions);
}

#[test]
fn a_found_probe_is_its_file_name_in_its_location() {
    assert_eq!(dir_of(Location::Installed, b"/home/u"), b"/opt/stethoscope".to_vec());
    assert_eq!(dir_of(Location::Home, b"/home/u"), b"/home/u/.stethoscope".to_vec());
    assert_eq!(dir_of(Location::Home, b"/"), b"/.stethoscope".to_vec());
    assert_eq!(dir_of(Location::Home, b"/home/\xff"), b"/home/\xff/.stethoscope".to_vec());
    let f = Found::at(Location::Home, b"/home/u/", &PAYLOADS[0], false);
    assert_eq!(f.path, format!("/home/u/.stethoscope/stethoscope-storage-{A}").into_bytes());
    assert_eq!(f.location, Location::Home);
    assert!(!f.elevated);
    let f = Found::at(Location::Installed, b"/home/u", &PAYLOADS[1], true);
    assert_eq!(f.path, format!("/opt/stethoscope/stethoscope-storage-{B}").into_bytes());
    assert!(f.elevated);
}

#[test]
fn without_a_payload_the_chain_fails_at_once() {
    let (c, a) = Chain::start(false, false);
    assert_eq!(a, Action::Fail(Failure::PayloadUnavailable, vec![]));
    assert_eq!(c.stage, Stage::Finished);
    let (_, a) = Chain::start(false, true);
    assert_eq!(a, Action::Fail(Failure::PayloadUnavailable, vec![]));
}

#[test]
fn the_chain_prefers_opt_then_home_then_placing() {
    let (c, a) = Chain::start(true, false);
    assert_eq!(a, Action::Inspect(Location::Installed));
    let (c, a) = c.step(Event::Inspected(Finding::Absent));
    assert_eq!(a, Action::Inspect(Location::Home));
    let (c, a) = c.step(Event::Inspected(Finding::Absent));
    assert_eq!(a, Action::Place);
    let (c, a) = c.step(Event::Placed);
    assert_eq!(a, Action::Inspect(Location::Home));
    let (c, a) = c.step(Event::Inspected(Finding::Usable { elevated: false }));
    assert_eq!(a, Action::Spawn(Location::Home, false));
    let (c, a) = c.step(Event::Exited(true));
    assert_eq!(a, Action::Done(Location::Home));
    assert_eq!(c.stage, Stage::Finished);
    assert_eq!(c.reasons, vec![(Location::Installed, Reason::Absent)]);
}

#[test]
fn a_usable_install_runs_elevated_and_a_noexec_one_falls_through() {
    let (c, a) = Chain::start(true, false);
    assert_eq!(a, Action::Inspect(Location::Installed));
    let (c, a) = c.step(Event::Inspected(Finding::Usable { elevated: true }));
    assert_eq!(a, Action::Spawn(Location::Installed, true));
    let (c, a) = c.step(Event::SpawnFailed(Some(13)));
    assert_eq!(a, Action::Inspect(Location::Home));
    let (c, a) = c.step(Event::HomeUnset);
    assert_eq!(
        a,
        Action::Fail(
            Failure::NoUsableProbe,
            vec![(Location::Installed, Reason::NotExecutable), (Location::Home, Reason::NoHome)]
        )
    );
    assert_eq!(c.stage, Stage::Finished);

    let (c, _) = Chain::start(true, true);
    assert_eq!(c.stage, Stage::Home);
    let (c, a) = c.step(Event::Inspected(Finding::Usable { elevated: false }));
    assert_eq!(a, Action::Spawn(Location::Home, false));
    let (_, a) = c.step(Event::SpawnFailed(Some(8)));
    assert_eq!(
        a,
        Action::Fail(Failure::NoUsableProbe, vec![(Location::Home, Reason::NotExecutable)])
    );
}

#[test]
fn the_chain_reports_every_failure_it_can_meet() {
    let (c, _) = Chain::start(true, true);
    let (c, _) = c.step(Event::Inspected(Finding::Absent));
    let (_, a) = c.step(Event::PlaceFailed(Some(28)));
    assert_eq!(a, Action::Fail(Failure::NoUsableProbe, vec![(Location::Home, Reason::NoSpace)]));

    let (c, _) = Chain::start(true, true);
    let (_, a) = c.step(Event::Inspected(Finding::Refused(Reason::HashMismatch)));
    assert_eq!(
        a,
        Action::Fail(Failure::NoUsableProbe, vec![(Location::Home, Reason::HashMismatch)])
    );

    let (c, _) = Chain::start(true, true);
    let (c, _) = c.step(Event::Inspected(Finding::Absent));
    let (c, _) = c.step(Event::Placed);
    let (_, a) = c.step(Event::Inspected(Finding::Absent));
    assert_eq!(a, Action::Fail(Failure::NoUsableProbe, vec![(Location::Home, Reason::IoError)]));

    let (c, _) = Chain::start(true, true);
    let (c, _) = c.step(Event::Inspected(Finding::Usable { elevated: false }));
    let (_, a) = c.step(Event::TimedOut);
    assert_eq!(a, Action::Fail(Failure::TimedOut, vec![]));

    let (c, _) = Chain::start(true, true);
    let (c, _) = c.step(Event::Inspected(Finding::Usable { elevated: false }));
    let (_, a) = c.step(Event::Exited(false));
    assert_eq!(a, Action::Fail(Failure::ProbeFailed, vec![]));

    let (c, _) = Chain::start(true, true);
    let (c, _) = c.step(Event::Inspected(Finding::Usable { elevated: false }));
    let (c, a) = c.step(Event::WaitFailed);
    assert_eq!(a, Action::Fail(Failure::ProbeFailed, vec![]));
    let (c, a) = c.step(Event::Placed);
    assert_eq!(a, Action::Fail(Failure::ProbeFailed, vec![]));
    assert_eq!(c.stage, Stage::Finished);

    let (c, _) = Chain::start(true, false);
    let (c, _) = c.step(Event::Inspected(Finding::Usable { elevated: false }));
    let (_, a) = c.step(Event::SpawnFailed(Some(2)));
    assert_eq!(a, Action::Fail(Failure::NoUsableProbe, vec![(Location::Installed, Reason::IoError)]));
}
