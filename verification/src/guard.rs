//! The read guard: the one place that decides which paths may be read as
//! collected data, and which directories may be listed.
//!
//! The control is an **allowlist**, not a denylist: a path is readable only
//! when it has one of three known shapes. [`forbidden_names`] exists
//! underneath it only so that widening the allowlist carelessly still fails
//! closed.
//!
//! Paths are judged *lexically*, without touching the filesystem: an empty,
//! `.` or `..` component is refused outright rather than resolved.

use vstd::prelude::*;

use crate::text::{all_digits, chars_eq, chars_of, split_chars, split_on, starts_with, views};

verus! {

/// Why a path was refused. Reported to the operator, never to the model.
#[derive(Clone, Copy, Debug, PartialEq, Eq, Structural)]
pub enum Denied {
    /// Not an absolute path.
    NotAbsolute,
    /// Contained an empty, `.` or `..` component.
    BadComponent,
    /// Named a file this server must never read.
    Forbidden,
    /// Not a path shape this server reads.
    NotAllowed,
}

pub open spec fn denied_message(d: Denied) -> Seq<char> {
    match d {
        Denied::NotAbsolute => "not an absolute path"@,
        Denied::BadComponent => "contains an empty, '.' or '..' component"@,
        Denied::Forbidden => "names a file the server must never read"@,
        Denied::NotAllowed => "not a path this server reads"@,
    }
}

impl Denied {
    /// The operator-facing description of the refusal.
    pub fn message(&self) -> (s: &'static str)
        ensures
            s@ == denied_message(*self),
    {
        match self {
            Denied::NotAbsolute => "not an absolute path",
            Denied::BadComponent => "contains an empty, '.' or '..' component",
            Denied::Forbidden => "names a file the server must never read",
            Denied::NotAllowed => "not a path this server reads",
        }
    }
}

/// Files this server reads at a fixed, known path.
pub open spec fn exact_paths() -> Seq<Seq<char>> {
    seq![
        "/proc/self/mountinfo"@,
        "/proc/uptime"@,
        "/proc/stat"@,
        "/proc/loadavg"@,
        "/proc/meminfo"@,
        "/proc/pressure/cpu"@,
        "/proc/pressure/memory"@,
        "/proc/pressure/io"@,
        "/proc/sys/kernel/hostname"@,
        "/proc/sys/kernel/osrelease"@,
    ]
}

/// Basenames readable anywhere beneath the cgroup hierarchy.
pub open spec fn cgroup_files() -> Seq<Seq<char>> {
    seq![
        "cpu.stat"@,
        "cpu.max"@,
        "cpu.weight"@,
        "cpu.pressure"@,
        "memory.current"@,
        "memory.max"@,
        "memory.high"@,
        "memory.events"@,
        "memory.swap.current"@,
        "memory.pressure"@,
        "io.stat"@,
        "io.max"@,
        "io.pressure"@,
        "pids.current"@,
        "pids.max"@,
        "cgroup.procs"@,
    ]
}

/// Names that are never a legitimate read, checked before the allowlist.
pub open spec fn forbidden_names() -> Seq<Seq<char>> {
    seq![
        "environ"@,
        "cmdline"@,
        "mem"@,
        "maps"@,
        "smaps"@,
        "stack"@,
        "syscall"@,
        "auxv"@,
        "personality"@,
        "kcore"@,
    ]
}

/// The one directory tree this server may enumerate.
pub open spec fn listable_root() -> Seq<char> {
    "/sys/fs/cgroup"@
}

pub open spec fn is_bad_component(c: Seq<char>) -> bool {
    c.len() == 0 || c == "."@ || c == ".."@
}

/// The components of an absolute path, refusing anything malformed.
pub open spec fn path_components(p: Seq<char>) -> Result<Seq<Seq<char>>, Denied> {
    if !(p.len() > 0 && p[0] == '/') {
        Err(Denied::NotAbsolute)
    } else if exists|i: int| 0 <= i < split_on(p.drop_first(), '/').len() && is_bad_component(#[trigger] split_on(p.drop_first(), '/')[i]) {
        Err(Denied::BadComponent)
    } else {
        Ok(split_on(p.drop_first(), '/'))
    }
}

/// `/proc/<pid>/comm`, the only per-process file this server may read.
pub open spec fn is_per_process_comm(parts: Seq<Seq<char>>) -> bool {
    parts.len() == 3 && parts[0] == "proc"@ && all_digits(parts[1]) && parts[2] == "comm"@
}

/// A known file anywhere beneath `/sys/fs/cgroup`.
pub open spec fn is_cgroup_file(parts: Seq<Seq<char>>) -> bool {
    parts.len() >= 4 && parts[0] == "sys"@ && parts[1] == "fs"@ && parts[2] == "cgroup"@
        && cgroup_files().contains(parts.last())
}

/// Whether `p` may be opened.
pub open spec fn check_path(p: Seq<char>) -> Result<(), Denied> {
    match path_components(p) {
        Err(e) => Err(e),
        Ok(parts) => if forbidden_names().contains(parts.last()) {
            Err(Denied::Forbidden)
        } else if exact_paths().contains(p) || is_per_process_comm(parts) || is_cgroup_file(parts) {
            Ok(())
        } else {
            Err(Denied::NotAllowed)
        },
    }
}

/// Whether `p` is the cgroup root or a path beneath it.
pub open spec fn under_listable_root(p: Seq<char>) -> bool {
    let root = listable_root();
    root.len() <= p.len() && p.take(root.len() as int) == root && (p.len() == root.len() || p[root.len() as int] == '/')
}

/// Whether `p` may be enumerated as a directory.
pub open spec fn check_dir_path(p: Seq<char>) -> Result<(), Denied> {
    match path_components(p) {
        Err(e) => Err(e),
        Ok(_) => if under_listable_root(p) { Ok(()) } else { Err(Denied::NotAllowed) },
    }
}

/// The character vectors of a list of string literals' worth of names.
fn names_of(names: &[&str]) -> (r: Vec<Vec<char>>)
    ensures
        views(r@) == names@.map_values(|s: &str| s@),
{
    let mut r: Vec<Vec<char>> = Vec::new();
    let mut i: usize = 0;
    while i < names.len()
        invariant
            i <= names@.len(),
            views(r@) == names@.take(i as int).map_values(|s: &str| s@),
        decreases names@.len() - i,
    {
        let ghost old_r = r@;
        r.push(chars_of(names[i]));
        proof {
            assert(views(r@) =~= views(old_r).push(names@[i as int]@));
            assert(names@.take(i as int + 1).map_values(|s: &str| s@) =~= names@.take(i as int).map_values(|s: &str| s@).push(names@[i as int]@));
        }
        i = i + 1;
    }
    assert(names@.take(names@.len() as int) =~= names@);
    r
}

/// Whether `x` is one of `list`.
fn contains_chars(list: &Vec<Vec<char>>, x: &Vec<char>) -> (r: bool)
    ensures
        r == views(list@).contains(x@),
{
    let mut i: usize = 0;
    while i < list.len()
        invariant
            i <= list@.len(),
            forall|j: int| 0 <= j < i ==> list@[j]@ != x@,
        decreases list@.len() - i,
    {
        if chars_eq(&list[i], x) {
            assert(views(list@)[i as int] == x@);
            return true;
        }
        i = i + 1;
    }
    proof {
        if views(list@).contains(x@) {
            let j = choose|j: int| 0 <= j < views(list@).len() && views(list@)[j] == x@;
            assert(list@[j]@ == x@);
        }
    }
    false
}

fn exact_list() -> (r: Vec<Vec<char>>)
    ensures
        views(r@) == exact_paths(),
{
    let names = [
        "/proc/self/mountinfo",
        "/proc/uptime",
        "/proc/stat",
        "/proc/loadavg",
        "/proc/meminfo",
        "/proc/pressure/cpu",
        "/proc/pressure/memory",
        "/proc/pressure/io",
        "/proc/sys/kernel/hostname",
        "/proc/sys/kernel/osrelease",
    ];
    let r = names_of(&names);
    assert(views(r@) =~= exact_paths());
    r
}

fn cgroup_list() -> (r: Vec<Vec<char>>)
    ensures
        views(r@) == cgroup_files(),
{
    let names = [
        "cpu.stat",
        "cpu.max",
        "cpu.weight",
        "cpu.pressure",
        "memory.current",
        "memory.max",
        "memory.high",
        "memory.events",
        "memory.swap.current",
        "memory.pressure",
        "io.stat",
        "io.max",
        "io.pressure",
        "pids.current",
        "pids.max",
        "cgroup.procs",
    ];
    let r = names_of(&names);
    assert(views(r@) =~= cgroup_files());
    r
}

fn forbidden_list() -> (r: Vec<Vec<char>>)
    ensures
        views(r@) == forbidden_names(),
{
    let names = [
        "environ",
        "cmdline",
        "mem",
        "maps",
        "smaps",
        "stack",
        "syscall",
        "auxv",
        "personality",
        "kcore",
    ];
    let r = names_of(&names);
    assert(views(r@) =~= forbidden_names());
    r
}


/// Split an absolute path into components, rejecting anything malformed.
///
/// Empty, `.` and `..` components are refused rather than resolved: the
/// server's paths never contain them, so their appearance is either a bug or
/// an attempt to get around this module.
fn components(path: &Vec<char>) -> (r: Result<Vec<Vec<char>>, Denied>)
    ensures
        match (r, path_components(path@)) {
            (Ok(v), Ok(parts)) => views(v@) == parts,
            (Err(e), Err(f)) => e == f,
            _ => false,
        },
{
    if !(path.len() > 0 && path[0] == '/') {
        return Err(Denied::NotAbsolute);
    }
    let rest = crate::text::skip_chars(path, 1);
    assert(rest@ == path@.drop_first());
    let parts = split_chars(&rest, '/');
    let dot = chars_of(".");
    let dotdot = chars_of("..");
    let mut i: usize = 0;
    while i < parts.len()
        invariant
            i <= parts@.len(),
            path@.len() > 0 && path@[0] == '/',
            views(parts@) == split_on(path@.drop_first(), '/'),
            dot@ == "."@,
            dotdot@ == ".."@,
            forall|j: int| 0 <= j < i ==> !is_bad_component(#[trigger] views(parts@)[j]),
        decreases parts@.len() - i,
    {
        let c = &parts[i];
        assert(views(parts@)[i as int] == c@);
        if c.len() == 0 || chars_eq(c, &dot) || chars_eq(c, &dotdot) {
            proof {
                let sp = split_on(path@.drop_first(), '/');
                assert(0 <= i < sp.len());
                assert(is_bad_component(sp[i as int]));
                assert(path@.len() > 0 && path@[0] == '/');
                assert(path_components(path@) == Err::<Seq<Seq<char>>, Denied>(Denied::BadComponent));
            }
            return Err(Denied::BadComponent);
        }
        i = i + 1;
    }
    Ok(parts)
}

/// Decide whether this server may enumerate `path` as a directory.
///
/// Listing is a separate capability from reading, and a far narrower one:
/// [`check`] admits files in several places, this admits directories in
/// exactly one tree. Discovering a path here does not make it readable.
pub fn check_dir(path: &str) -> (r: Result<(), Denied>)
    ensures
        r == check_dir_path(path@),
{
    let p = chars_of(path);
    match components(&p) {
        Err(e) => return Err(e),
        Ok(_) => {},
    }
    let root = chars_of("/sys/fs/cgroup");
    if starts_with(&p, &root) && (p.len() == root.len() || p[root.len()] == '/') {
        Ok(())
    } else {
        Err(Denied::NotAllowed)
    }
}

/// Decide whether this server may open `path`.
pub fn check(path: &str) -> (r: Result<(), Denied>)
    ensures
        r == check_path(path@),
{
    let p = chars_of(path);
    let parts = match components(&p) {
        Err(e) => return Err(e),
        Ok(parts) => parts,
    };
    proof {
        crate::text::lemma_split_on_nonempty(path@.drop_first(), '/');
    }
    let base = &parts[parts.len() - 1];
    assert(views(parts@).last() == base@);
    if contains_chars(&forbidden_list(), base) {
        return Err(Denied::Forbidden);
    }
    if contains_chars(&exact_list(), &p) {
        return Ok(());
    }
    if parts.len() == 3 {
        assert(views(parts@)[0] == parts@[0]@);
        assert(views(parts@)[1] == parts@[1]@);
        assert(views(parts@)[2] == parts@[2]@);
        if chars_eq(&parts[0], &chars_of("proc")) && all_ascii_digits(&parts[1])
            && chars_eq(&parts[2], &chars_of("comm")) {
            return Ok(());
        }
    }
    if parts.len() >= 4 {
        assert(views(parts@)[0] == parts@[0]@);
        assert(views(parts@)[1] == parts@[1]@);
        assert(views(parts@)[2] == parts@[2]@);
        if chars_eq(&parts[0], &chars_of("sys")) && chars_eq(&parts[1], &chars_of("fs"))
            && chars_eq(&parts[2], &chars_of("cgroup")) && contains_chars(&cgroup_list(), base) {
            return Ok(());
        }
    }
    Err(Denied::NotAllowed)
}

/// Whether every character is an ASCII digit.
fn all_ascii_digits(s: &Vec<char>) -> (r: bool)
    ensures
        r == all_digits(s@),
{
    let mut i: usize = 0;
    while i < s.len()
        invariant
            i <= s@.len(),
            forall|j: int| 0 <= j < i ==> '0' <= #[trigger] s@[j] <= '9',
        decreases s@.len() - i,
    {
        if !('0' <= s[i] && s[i] <= '9') {
            return false;
        }
        i = i + 1;
    }
    true
}


/// Every path the guard admits is absolute, has no empty, `.` or `..`
/// component, does not end in a forbidden name, and has one of the three
/// allowed shapes: a fixed path, `/proc/<pid>/comm`, or a known cgroup file.
pub proof fn lemma_allowed_paths_are_well_formed(p: Seq<char>)
    requires
        check_path(p) == Ok::<(), Denied>(()),
    ensures
        p.len() > 0 && p[0] == '/',
        forall|i: int| 0 <= i < split_on(p.drop_first(), '/').len() ==> !is_bad_component(#[trigger] split_on(p.drop_first(), '/')[i]),
        !forbidden_names().contains(split_on(p.drop_first(), '/').last()),
        exact_paths().contains(p) || is_per_process_comm(split_on(p.drop_first(), '/')) || is_cgroup_file(split_on(p.drop_first(), '/')),
{
}

/// Listing is confined to the cgroup tree: every directory the guard lets
/// be enumerated is `/sys/fs/cgroup` or lies beneath it, with no component
/// that could climb back out.
pub proof fn lemma_listing_is_confined(p: Seq<char>)
    requires
        check_dir_path(p) == Ok::<(), Denied>(()),
    ensures
        under_listable_root(p),
        p.len() > 0 && p[0] == '/',
        forall|i: int| 0 <= i < split_on(p.drop_first(), '/').len() ==> !is_bad_component(#[trigger] split_on(p.drop_first(), '/')[i]),
{
}

/// The pieces after the last `/` of `a + "/" + b`, when `b` holds none,
/// are `b`.
proof fn lemma_last_piece(a: Seq<char>, b: Seq<char>)
    requires
        forall|i: int| 0 <= i < b.len() ==> b[i] != '/',
    ensures
        split_on(a + seq!['/'] + b, '/').last() == b,
    decreases b.len(),
{
    let s = a + seq!['/'] + b;
    if b.len() == 0 {
        assert(s.drop_last() =~= a);
        assert(s =~= a + seq!['/']);
    } else {
        lemma_last_piece(a, b.drop_last());
        assert(s.drop_last() =~= a + seq!['/'] + b.drop_last());
        crate::text::lemma_split_on_nonempty(s.drop_last(), '/');
        assert(b.drop_last().push(b.last()) =~= b);
    }
}

/// A name is not forbidden when its length and first two characters differ
/// from those of every forbidden name.
proof fn lemma_not_forbidden(b: Seq<char>)
    requires
        b.len() >= 2,
        !(b.len() == 7 && b[0] == 'e' && b[1] == 'n'),
        !(b.len() == 7 && b[0] == 'c' && b[1] == 'm'),
        !(b.len() == 3 && b[0] == 'm' && b[1] == 'e'),
        !(b.len() == 4 && b[0] == 'm' && b[1] == 'a'),
        !(b.len() == 5 && b[0] == 's' && b[1] == 'm'),
        !(b.len() == 5 && b[0] == 's' && b[1] == 't'),
        !(b.len() == 7 && b[0] == 's' && b[1] == 'y'),
        !(b.len() == 4 && b[0] == 'a' && b[1] == 'u'),
        !(b.len() == 11 && b[0] == 'p' && b[1] == 'e'),
        !(b.len() == 5 && b[0] == 'k' && b[1] == 'c'),
    ensures
        !forbidden_names().contains(b),
{
    reveal_strlit("environ");
    reveal_strlit("cmdline");
    reveal_strlit("mem");
    reveal_strlit("maps");
    reveal_strlit("smaps");
    reveal_strlit("stack");
    reveal_strlit("syscall");
    reveal_strlit("auxv");
    reveal_strlit("personality");
    reveal_strlit("kcore");
    assert forall|i: int| 0 <= i < forbidden_names().len() implies #[trigger] forbidden_names()[i] != b by {
        let f = forbidden_names()[i];
        assert(f.len() != b.len() || f[0] != b[0] || f[1] != b[1]);
    }
}

/// A fixed path's last component, when it is `base` below `dir`.
proof fn lemma_exact_base(p: Seq<char>, dir: Seq<char>, base: Seq<char>)
    requires
        p.drop_first() == dir + seq!['/'] + base,
        forall|i: int| 0 <= i < base.len() ==> base[i] != '/',
    ensures
        split_on(p.drop_first(), '/').last() == base,
{
    lemma_last_piece(dir, base);
}

/// No known cgroup file is forbidden.
proof fn lemma_cgroup_files_not_forbidden()
    ensures
        forall|i: int| 0 <= i < cgroup_files().len() ==> !forbidden_names().contains(#[trigger] cgroup_files()[i]),
{
    reveal_strlit("cpu.stat");
    reveal_strlit("cpu.max");
    reveal_strlit("cpu.weight");
    reveal_strlit("cpu.pressure");
    reveal_strlit("memory.current");
    reveal_strlit("memory.max");
    reveal_strlit("memory.high");
    reveal_strlit("memory.events");
    reveal_strlit("memory.swap.current");
    reveal_strlit("memory.pressure");
    reveal_strlit("io.stat");
    reveal_strlit("io.max");
    reveal_strlit("io.pressure");
    reveal_strlit("pids.current");
    reveal_strlit("pids.max");
    reveal_strlit("cgroup.procs");
    assert forall|i: int| 0 <= i < cgroup_files().len() implies !forbidden_names().contains(#[trigger] cgroup_files()[i]) by {
        lemma_not_forbidden(cgroup_files()[i]);
    }
}

/// The forbidden names are a backstop, redundant by construction: no path
/// of an allowed shape (a fixed path, `/proc/<pid>/comm`, or a known cgroup
/// file) ends in a forbidden name, so the allowlist alone already refuses
/// every forbidden file.
pub proof fn lemma_forbidden_names_are_a_backstop(p: Seq<char>)
    requires
        path_components(p) is Ok,
    ensures
        ({
            let parts = split_on(p.drop_first(), '/');
            exact_paths().contains(p) || is_per_process_comm(parts) || is_cgroup_file(parts)
                ==> !forbidden_names().contains(parts.last())
        }),
{
    let parts = split_on(p.drop_first(), '/');
    if is_per_process_comm(parts) {
        reveal_strlit("comm");
        lemma_not_forbidden("comm"@);
    } else if is_cgroup_file(parts) {
        lemma_cgroup_files_not_forbidden();
    } else if exact_paths().contains(p) {
        lemma_exact_paths_not_forbidden(p);
    }
}

/// No fixed path ends in a forbidden name.
proof fn lemma_exact_paths_not_forbidden(p: Seq<char>)
    requires
        exact_paths().contains(p),
    ensures
        !forbidden_names().contains(split_on(p.drop_first(), '/').last()),
{
    let k = choose|k: int| 0 <= k < exact_paths().len() && exact_paths()[k] == p;
    if k == 0 {
        reveal_strlit("/proc/self/mountinfo");
        reveal_strlit("proc/self");
        reveal_strlit("mountinfo");
        assert(p.drop_first() =~= "proc/self"@ + seq!['/'] + "mountinfo"@);
        lemma_exact_base(p, "proc/self"@, "mountinfo"@);
        lemma_not_forbidden("mountinfo"@);
    } else if k == 1 {
        reveal_strlit("/proc/uptime");
        reveal_strlit("proc");
        reveal_strlit("uptime");
        assert(p.drop_first() =~= "proc"@ + seq!['/'] + "uptime"@);
        lemma_exact_base(p, "proc"@, "uptime"@);
        lemma_not_forbidden("uptime"@);
    } else if k == 2 {
        reveal_strlit("/proc/stat");
        reveal_strlit("proc");
        reveal_strlit("stat");
        assert(p.drop_first() =~= "proc"@ + seq!['/'] + "stat"@);
        lemma_exact_base(p, "proc"@, "stat"@);
        lemma_not_forbidden("stat"@);
    } else if k == 3 {
        reveal_strlit("/proc/loadavg");
        reveal_strlit("proc");
        reveal_strlit("loadavg");
        assert(p.drop_first() =~= "proc"@ + seq!['/'] + "loadavg"@);
        lemma_exact_base(p, "proc"@, "loadavg"@);
        lemma_not_forbidden("loadavg"@);
    } else if k == 4 {
        reveal_strlit("/proc/meminfo");
        reveal_strlit("proc");
        reveal_strlit("meminfo");
        assert(p.drop_first() =~= "proc"@ + seq!['/'] + "meminfo"@);
        lemma_exact_base(p, "proc"@, "meminfo"@);
        lemma_not_forbidden("meminfo"@);
    } else if k == 5 {
        reveal_strlit("/proc/pressure/cpu");
        reveal_strlit("proc/pressure");
        reveal_strlit("cpu");
        assert(p.drop_first() =~= "proc/pressure"@ + seq!['/'] + "cpu"@);
        lemma_exact_base(p, "proc/pressure"@, "cpu"@);
        lemma_not_forbidden("cpu"@);
    } else if k == 6 {
        reveal_strlit("/proc/pressure/memory");
        reveal_strlit("proc/pressure");
        reveal_strlit("memory");
        assert(p.drop_first() =~= "proc/pressure"@ + seq!['/'] + "memory"@);
        lemma_exact_base(p, "proc/pressure"@, "memory"@);
        lemma_not_forbidden("memory"@);
    } else if k == 7 {
        reveal_strlit("/proc/pressure/io");
        reveal_strlit("proc/pressure");
        reveal_strlit("io");
        assert(p.drop_first() =~= "proc/pressure"@ + seq!['/'] + "io"@);
        lemma_exact_base(p, "proc/pressure"@, "io"@);
        lemma_not_forbidden("io"@);
    } else if k == 8 {
        reveal_strlit("/proc/sys/kernel/hostname");
        reveal_strlit("proc/sys/kernel");
        reveal_strlit("hostname");
        assert(p.drop_first() =~= "proc/sys/kernel"@ + seq!['/'] + "hostname"@);
        lemma_exact_base(p, "proc/sys/kernel"@, "hostname"@);
        lemma_not_forbidden("hostname"@);
    } else {
        reveal_strlit("/proc/sys/kernel/osrelease");
        reveal_strlit("proc/sys/kernel");
        reveal_strlit("osrelease");
        assert(p.drop_first() =~= "proc/sys/kernel"@ + seq!['/'] + "osrelease"@);
        lemma_exact_base(p, "proc/sys/kernel"@, "osrelease"@);
        lemma_not_forbidden("osrelease"@);
    }
}

/// Splitting `a`, a separator and `c` splits `a` and `c` apart.
proof fn lemma_split_append(a: Seq<char>, c: Seq<char>)
    ensures
        split_on(a + seq!['/'] + c, '/') == split_on(a, '/') + split_on(c, '/'),
    decreases c.len(),
{
    let s = a + seq!['/'] + c;
    crate::text::lemma_split_on_nonempty(a, '/');
    if c.len() == 0 {
        assert(s.drop_last() =~= a);
        assert(split_on(s, '/') =~= split_on(a, '/') + split_on(c, '/'));
    } else {
        lemma_split_append(a, c.drop_last());
        assert(s.drop_last() =~= a + seq!['/'] + c.drop_last());
        crate::text::lemma_split_on_nonempty(c.drop_last(), '/');
        let r1 = split_on(a, '/');
        let r2 = split_on(c.drop_last(), '/');
        if c.last() == '/' {
            assert(split_on(s, '/') =~= r1 + r2.push(Seq::empty()));
        } else {
            assert(split_on(s, '/') =~= r1 + r2.update(r2.len() - 1, r2.last().push(c.last())));
        }
    }
}

/// A name with no separator splits into itself.
proof fn lemma_split_single(b: Seq<char>)
    requires
        forall|i: int| 0 <= i < b.len() ==> b[i] != '/',
    ensures
        split_on(b, '/') == seq![b],
    decreases b.len(),
{
    if b.len() > 0 {
        lemma_split_single(b.drop_last());
        assert(b.drop_last().push(b.last()) =~= b);
        assert(split_on(b, '/') =~= seq![b]);
    } else {
        assert(b =~= Seq::<char>::empty());
    }
}

/// The components of a listable directory begin `sys`, `fs`, `cgroup`.
proof fn lemma_listable_components(d: Seq<char>)
    requires
        under_listable_root(d),
    ensures
        split_on(d.drop_first(), '/').len() >= 3,
        split_on(d.drop_first(), '/')[0] == "sys"@,
        split_on(d.drop_first(), '/')[1] == "fs"@,
        split_on(d.drop_first(), '/')[2] == "cgroup"@,
{
    reveal_strlit("/sys/fs/cgroup");
    reveal_strlit("sys");
    reveal_strlit("fs");
    reveal_strlit("cgroup");
    let root = "sys/fs/cgroup"@;
    reveal_strlit("sys/fs/cgroup");
    assert(root =~= "sys"@ + seq!['/'] + ("fs"@ + seq!['/'] + "cgroup"@));
    lemma_split_append("sys"@, "fs"@ + seq!['/'] + "cgroup"@);
    lemma_split_append("fs"@, "cgroup"@);
    lemma_split_single("sys"@);
    lemma_split_single("fs"@);
    lemma_split_single("cgroup"@);
    assert(split_on(root, '/') =~= seq!["sys"@, "fs"@, "cgroup"@]);
    let full = listable_root();
    assert(full.len() == 14);
    assert forall|i: int| 0 <= i < 13 implies #[trigger] d.drop_first()[i] == root[i] by {
        assert(d.take(14)[i + 1] == d[i + 1]);
        assert(full[i + 1] == root[i]);
    }
    if d.len() == 14 {
        assert(d.drop_first() =~= root);
    } else {
        assert(d[14] == '/');
        let rest = d.skip(15);
        assert(d.drop_first() =~= root + seq!['/'] + rest);
        lemma_split_append(root, rest);
    }
}

/// No fixed path lies under `/sys`.
proof fn lemma_exact_paths_are_under_proc()
    ensures
        forall|i: int| 0 <= i < exact_paths().len() ==> (#[trigger] exact_paths()[i]).len() > 1 && exact_paths()[i][1] == 'p',
{
    reveal_strlit("/proc/self/mountinfo");
    reveal_strlit("/proc/uptime");
    reveal_strlit("/proc/stat");
    reveal_strlit("/proc/loadavg");
    reveal_strlit("/proc/meminfo");
    reveal_strlit("/proc/pressure/cpu");
    reveal_strlit("/proc/pressure/memory");
    reveal_strlit("/proc/pressure/io");
    reveal_strlit("/proc/sys/kernel/hostname");
    reveal_strlit("/proc/sys/kernel/osrelease");
}

/// Being able to list a directory never makes a file in it readable: a
/// name directly inside a listable directory may be read exactly when it is
/// one of the known cgroup files.
pub proof fn lemma_listing_grants_no_reads(d: Seq<char>, b: Seq<char>)
    requires
        check_dir_path(d) == Ok::<(), Denied>(()),
        b.len() > 0,
        forall|i: int| 0 <= i < b.len() ==> b[i] != '/',
        b != "."@,
        b != ".."@,
    ensures
        check_path(d + seq!['/'] + b) == Ok::<(), Denied>(()) <==> cgroup_files().contains(b),
{
    let p = d + seq!['/'] + b;
    let dparts = split_on(d.drop_first(), '/');
    assert(p.drop_first() =~= d.drop_first() + seq!['/'] + b);
    lemma_split_append(d.drop_first(), b);
    lemma_split_single(b);
    let parts = split_on(p.drop_first(), '/');
    assert(parts =~= dparts.push(b));
    lemma_listable_components(d);
    assert(p[0] == '/');
    assert forall|i: int| 0 <= i < parts.len() implies !is_bad_component(#[trigger] parts[i]) by {
        if i < dparts.len() {
            assert(parts[i] == dparts[i]);
        }
    }
    assert(path_components(p) == Ok::<Seq<Seq<char>>, Denied>(parts));
    assert(parts.last() == b);
    reveal_strlit("sys");
    reveal_strlit("proc");
    assert(parts[0] != "proc"@);
    lemma_exact_paths_are_under_proc();
    reveal_strlit("/sys/fs/cgroup");
    assert(d.take(14)[1] == d[1]);
    assert(p[1] == d[1]);
    assert(p[1] == 's');
    assert(!exact_paths().contains(p));
    lemma_cgroup_files_not_forbidden();
    if cgroup_files().contains(b) {
        let k = choose|k: int| 0 <= k < cgroup_files().len() && cgroup_files()[k] == b;
        assert(!forbidden_names().contains(cgroup_files()[k]));
        assert(is_cgroup_file(parts));
    }
}

/// `/proc/<pid>/comm` is readable for every pid, however many digits it has.
pub proof fn lemma_every_comm_is_readable(pid: Seq<char>)
    requires
        pid.len() > 0,
        forall|i: int| 0 <= i < pid.len() ==> '0' <= #[trigger] pid[i] <= '9',
    ensures
        check_path("/proc/"@ + pid + "/comm"@) == Ok::<(), Denied>(()),
{
    reveal_strlit("/proc/");
    reveal_strlit("/comm");
    reveal_strlit("proc");
    reveal_strlit("comm");
    reveal_strlit(".");
    reveal_strlit("..");
    let p = "/proc/"@ + pid + "/comm"@;
    assert forall|i: int| 0 <= i < pid.len() implies pid[i] != '/' by {}
    assert forall|i: int| 0 <= i < "comm"@.len() implies "comm"@[i] != '/' by {}
    assert forall|i: int| 0 <= i < "proc"@.len() implies "proc"@[i] != '/' by {}
    assert(p.drop_first() =~= ("proc"@ + seq!['/'] + pid) + seq!['/'] + "comm"@);
    lemma_split_append("proc"@ + seq!['/'] + pid, "comm"@);
    lemma_split_append("proc"@, pid);
    lemma_split_single("proc"@);
    lemma_split_single(pid);
    lemma_split_single("comm"@);
    let parts = split_on(p.drop_first(), '/');
    assert(parts =~= seq!["proc"@, pid, "comm"@]);
    assert(pid != "."@ && pid != ".."@) by {
        assert(pid[0] != '.');
    }
    assert forall|i: int| 0 <= i < parts.len() implies !is_bad_component(#[trigger] parts[i]) by {}
    assert(p[0] == '/');
    assert(path_components(p) == Ok::<Seq<Seq<char>>, Denied>(parts));
    lemma_not_forbidden("comm"@);
    assert(is_per_process_comm(parts));
}

/// Listing reaches the whole cgroup tree: the root is listable, and so is
/// every directory beneath a listable one, at any depth.
pub proof fn lemma_cgroup_tree_is_listable(d: Seq<char>, c: Seq<char>)
    requires
        check_dir_path(d) == Ok::<(), Denied>(()),
        c.len() > 0,
        forall|i: int| 0 <= i < c.len() ==> c[i] != '/',
        c != "."@,
        c != ".."@,
    ensures
        check_dir_path("/sys/fs/cgroup"@) == Ok::<(), Denied>(()),
        check_dir_path(d + seq!['/'] + c) == Ok::<(), Denied>(()),
{
    let p = d + seq!['/'] + c;
    let dparts = split_on(d.drop_first(), '/');
    assert(p.drop_first() =~= d.drop_first() + seq!['/'] + c);
    lemma_split_append(d.drop_first(), c);
    lemma_split_single(c);
    let parts = split_on(p.drop_first(), '/');
    assert(parts =~= dparts.push(c));
    assert forall|i: int| 0 <= i < parts.len() implies !is_bad_component(#[trigger] parts[i]) by {
        if i < dparts.len() {
            assert(parts[i] == dparts[i]);
        }
    }
    assert(p[0] == '/');
    let root = listable_root();
    assert(p.take(root.len() as int) =~= d.take(root.len() as int));
    if d.len() > root.len() {
        assert(p[root.len() as int] == d[root.len() as int]);
    }
    // The root itself.
    reveal_strlit("/sys/fs/cgroup");
    reveal_strlit("sys/fs/cgroup");
    reveal_strlit("sys");
    reveal_strlit("fs");
    reveal_strlit("cgroup");
    reveal_strlit(".");
    reveal_strlit("..");
    let r = "/sys/fs/cgroup"@;
    assert(r.drop_first() =~= "sys"@ + seq!['/'] + ("fs"@ + seq!['/'] + "cgroup"@));
    lemma_split_append("sys"@, "fs"@ + seq!['/'] + "cgroup"@);
    lemma_split_append("fs"@, "cgroup"@);
    lemma_split_single("sys"@);
    lemma_split_single("fs"@);
    lemma_split_single("cgroup"@);
    let rparts = split_on(r.drop_first(), '/');
    assert(rparts =~= seq!["sys"@, "fs"@, "cgroup"@]);
    assert forall|i: int| 0 <= i < rparts.len() implies !is_bad_component(#[trigger] rparts[i]) by {}
    assert(r.take(r.len() as int) =~= r);
}

/// A forbidden name is refused as such wherever it appears as the last
/// component of a well-formed path, even inside an allowed tree.
pub proof fn lemma_forbidden_names_are_refused(p: Seq<char>, i: int)
    requires
        path_components(p) is Ok,
        0 <= i < forbidden_names().len(),
        split_on(p.drop_first(), '/').last() == forbidden_names()[i],
    ensures
        check_path(p) == Err::<(), Denied>(Denied::Forbidden),
{
}

} // verus!
