use stethoscope::guard::{check, check_dir, Denied};

fn allowed(path: &str) {
    assert_eq!(check(path), Ok(()), "should be ALLOWED: {path}");
}

fn denied(path: &str) {
    assert!(check(path).is_err(), "should be DENIED: {path}");
}

#[test]
fn allows_every_path_the_tools_actually_read() {
    for p in [
        "/proc/self/mountinfo",
        "/proc/uptime",
        "/proc/stat",
        "/proc/loadavg",
        "/proc/meminfo",
        "/proc/pressure/cpu",
        "/proc/pressure/memory",
        "/proc/pressure/io",
        "/proc/sys/kernel/hostname",
        "/proc/sys/kernel/osrelease",
    ] {
        allowed(p);
    }
}

#[test]
fn allows_per_process_comm_and_cgroup_files() {
    allowed("/proc/1/comm");
    allowed("/proc/4242/comm");
    allowed("/sys/fs/cgroup/system.slice/some-container.scope/cpu.stat");
    allowed("/sys/fs/cgroup/system.slice/some-container.scope/memory.events");
    allowed("/sys/fs/cgroup/user.slice/user-1000.slice/cgroup.procs");
}

#[test]
fn denies_environ_and_cmdline() {
    denied("/proc/1/environ");
    denied("/proc/1/cmdline");
    denied("/proc/self/environ");
    denied("/proc/self/cmdline");
    denied("/proc/1/task/1/environ");
}

#[test]
fn denies_traversal_and_malformed_paths() {
    denied("/proc/self/../1/environ");
    denied("/proc/1/./environ");
    denied("/proc//1/environ");
    denied("/proc/1/root/proc/1/environ");
    denied("/sys/fs/cgroup/../../proc/1/environ");
    denied("proc/1/environ");
    denied("./environ");
    denied("");
}

#[test]
fn denies_paths_outside_the_substrate() {
    denied("/tmp/looks-harmless");
    denied("/home/someone/link-to-environ");
    denied("/etc/shadow");
}

#[test]
fn denies_other_sensitive_per_process_files() {
    for f in ["maps", "mem", "fd", "fdinfo", "auxv", "io", "smaps", "stack"] {
        denied(&format!("/proc/1/{f}"));
    }
    denied("/proc/kcore");
}

#[test]
fn denies_unused_but_harmless_per_process_files() {
    denied("/proc/1/status");
    denied("/proc/1/stat");
    denied("/proc/1/limits");
}

#[test]
fn denies_unknown_cgroup_files() {
    denied("/sys/fs/cgroup/system.slice/x.scope/cgroup.subtree_control");
    denied("/sys/fs/cgroup/system.slice/x.scope/memory.numa_stat");
}

#[test]
fn decides_without_touching_the_filesystem() {
    let absent = "/proc/pressure/cpu";
    allowed(absent);
    denied("/proc/pressure/definitely-not-a-real-file");
}

#[test]
fn listing_is_confined_to_the_cgroup_tree() {
    assert_eq!(check_dir("/sys/fs/cgroup"), Ok(()));
    assert_eq!(check_dir("/sys/fs/cgroup/system.slice"), Ok(()));
    assert_eq!(
        check_dir("/sys/fs/cgroup/kubepods.slice/kubepods-besteffort.slice"),
        Ok(())
    );
    for p in [
        "/proc",
        "/proc/1",
        "/",
        "/etc",
        "/home",
        "/sys/fs",
        "/sys/fs/cgroupsomething",
        "/sys/fs/cgroup/../../proc/1",
        "sys/fs/cgroup",
    ] {
        assert!(check_dir(p).is_err(), "should not be listable: {p}");
    }
}

#[test]
fn listing_a_directory_does_not_make_its_files_readable() {
    assert_eq!(check_dir("/sys/fs/cgroup/system.slice/x.scope"), Ok(()));
    assert!(check("/sys/fs/cgroup/system.slice/x.scope/cgroup.subtree_control").is_err());
    assert_eq!(
        check("/sys/fs/cgroup/system.slice/x.scope/memory.current"),
        Ok(())
    );
}

#[test]
fn each_refusal_names_its_reason() {
    assert_eq!(check("proc/1/comm"), Err(Denied::NotAbsolute));
    assert_eq!(check(""), Err(Denied::NotAbsolute));
    assert_eq!(check("/proc/self/../1/comm"), Err(Denied::BadComponent));
    assert_eq!(check("/proc//uptime"), Err(Denied::BadComponent));
    assert_eq!(check("/proc/uptime/"), Err(Denied::BadComponent));
    assert_eq!(check("/proc/1/environ"), Err(Denied::Forbidden));
    assert_eq!(check("/sys/fs/cgroup/x/kcore"), Err(Denied::Forbidden));
    assert_eq!(check("/proc/1/status"), Err(Denied::NotAllowed));
    assert_eq!(check("/proc/abc/comm"), Err(Denied::NotAllowed));
    assert_eq!(check("/sys/fs/cgroup/cpu.stat"), Ok(()));
    assert_eq!(check_dir("/sys/fs/cgroup/./x"), Err(Denied::BadComponent));
    assert_eq!(check_dir("/proc"), Err(Denied::NotAllowed));
    assert_eq!(check_dir("sys"), Err(Denied::NotAbsolute));
}

#[test]
fn refusals_have_operator_messages() {
    assert_eq!(Denied::NotAbsolute.message(), "not an absolute path");
    assert_eq!(
        Denied::BadComponent.message(),
        "contains an empty, '.' or '..' component"
    );
    assert_eq!(
        Denied::Forbidden.message(),
        "names a file the server must never read"
    );
    assert_eq!(Denied::NotAllowed.message(), "not a path this server reads");
}
