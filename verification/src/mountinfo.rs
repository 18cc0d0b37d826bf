//! The storage capability's collection: parse `/proc/self/mountinfo` into
//! one entry per mountpoint, then report each measured mountpoint as
//! capacity or as unavailable, and drop the pure pseudo filesystems.
//!
//! * identity is `major:minor`; **the mount source never leaves this file**,
//!   because it carries device paths and network addresses,
//! * `f_blocks > 0` is the filter for "has capacity to report",
//! * a mount that refuses `statfs` is reported, not dropped.
//!
//! Measuring a mountpoint is a system call, so it happens between
//! [`mount_entries`] and [`collect`]: the caller measures each entry's path
//! and hands the answers back.

use vstd::prelude::*;
use vstd::utf8::{decode_utf8, valid_utf8};

use crate::text::{split_on, utf8_string};

verus! {

/// The kernel's `struct statfs`: every field but the spare words at its end.
#[derive(Clone, Copy, Debug, PartialEq, Eq, Structural)]
pub struct Statfs {
    pub f_type: u64,
    pub f_bsize: u64,
    pub f_blocks: u64,
    pub f_bfree: u64,
    pub f_bavail: u64,
    pub f_files: u64,
    pub f_ffree: u64,
    pub f_fsid: u64,
    pub f_namelen: u64,
    pub f_frsize: u64,
    pub f_flags: u64,
}

/// `ST_RDONLY`, as reported in `f_flags`.
pub const ST_RDONLY: u64 = 1;

/// What `statfs(2)` said about one mountpoint.
#[derive(Clone, Copy, Debug, PartialEq, Eq, Structural)]
pub enum Measured {
    /// Capacity was read and the filesystem reports blocks.
    Capacity(Statfs),
    /// Capacity was read and the filesystem reports none — a pure pseudo
    /// filesystem. Dropped from the payload entirely.
    Pseudo,
    /// The call failed. Carries the errno so the row can say why.
    Failed(i32),
}

/// What one `statfs(2)` call means: its answer, or the errno it failed with.
pub open spec fn measured_of(result: Result<Statfs, i32>) -> Measured {
    match result {
        Ok(s) => if s.f_blocks == 0 { Measured::Pseudo } else { Measured::Capacity(s) },
        Err(e) => Measured::Failed(e),
    }
}

/// Classify one `statfs(2)` answer.
pub fn measure(result: Result<Statfs, i32>) -> (m: Measured)
    ensures
        m == measured_of(result),
{
    match result {
        Ok(s) => if s.f_blocks == 0 { Measured::Pseudo } else { Measured::Capacity(s) },
        Err(e) => Measured::Failed(e),
    }
}

/// One mountpoint as collected, before it is put on the wire.
#[derive(Debug)]
pub struct Raw {
    pub mount_point: String,
    pub device: String,
    pub fs_type: String,
    pub measured: Measured,
}

pub struct Mounts {
    pub rows: Vec<Raw>,
    /// True when mountinfo did not fit in the buffer, so the last line read
    /// may be partial and later mounts are missing.
    pub truncated: bool,
}

/// One mountinfo line's worth of what is kept: the unescaped mountpoint
/// path, the `major:minor` device, and the filesystem type.
#[derive(Debug)]
pub struct MountEntry {
    pub mount_point: Vec<u8>,
    pub device: Vec<u8>,
    pub fs_type: Vec<u8>,
}

pub open spec fn entry_view(e: MountEntry) -> (Seq<u8>, Seq<u8>, Seq<u8>) {
    (e.mount_point@, e.device@, e.fs_type@)
}

pub open spec fn byte_views(v: Seq<Vec<u8>>) -> Seq<Seq<u8>> {
    v.map_values(|x: Vec<u8>| x@)
}

/// The fields of a mountinfo line: the runs of bytes between spaces.
pub open spec fn fields(s: Seq<u8>) -> Seq<Seq<u8>>
    decreases s.len(),
{
    if s.len() == 0 {
        Seq::empty()
    } else {
        let w = fields(s.drop_last());
        if s.last() == 32 {
            w
        } else if s.len() >= 2 && s[s.len() - 2] != 32 {
            w.update(w.len() - 1, w.last().push(s.last()))
        } else {
            w.push(seq![s.last()])
        }
    }
}

/// The fields of `line`.
pub(crate) fn fields_of(line: &[u8]) -> (r: Vec<Vec<u8>>)
    ensures
        byte_views(r@) == fields(line@),
{
    let mut done: Vec<Vec<u8>> = Vec::new();
    let mut cur: Vec<u8> = Vec::new();
    let mut i: usize = 0;
    while i < line.len()
        invariant
            i <= line@.len(),
            i > 0 && line@[i - 1] != 32 ==> cur@.len() > 0 && byte_views(done@).push(cur@) == fields(line@.take(i as int)),
            !(i > 0 && line@[i - 1] != 32) ==> cur@.len() == 0 && byte_views(done@) == fields(line@.take(i as int)),
        decreases line@.len() - i,
    {
        let c = line[i];
        let ghost prefix = line@.take(i as int + 1);
        proof {
            assert(prefix.drop_last() =~= line@.take(i as int));
            assert(prefix.last() == c);
        }
        if c == 32 {
            if cur.len() > 0 {
                done.push(cur);
                cur = Vec::new();
            }
        } else {
            let ghost old_cur = cur@;
            cur.push(c);
            proof {
                if i > 0 && line@[i - 1] != 32 {
                    assert(prefix[prefix.len() - 2] == line@[i - 1]);
                    let w = fields(line@.take(i as int));
                    assert(w == byte_views(done@).push(old_cur));
                    let lhs = byte_views(done@).push(cur@);
                    let rhs = w.update(w.len() - 1, w.last().push(c));
                    assert(fields(prefix) == rhs);
                    assert forall|k: int| 0 <= k < lhs.len() implies lhs[k] == rhs[k] by {
                        if k < done@.len() {
                            assert(lhs[k] == byte_views(done@)[k]);
                            assert(w[k] == byte_views(done@).push(old_cur)[k]);
                        }
                    }
                    assert(lhs =~= rhs);
                } else {
                    if i > 0 {
                        assert(prefix[prefix.len() - 2] == line@[i - 1]);
                    }
                    assert(cur@ =~= seq![c]);
                    assert(fields(prefix) == fields(line@.take(i as int)).push(seq![c]));
                    assert(byte_views(done@).push(cur@) =~= fields(prefix));
                }
            }
        }
        i = i + 1;
    }
    assert(line@.take(line@.len() as int) =~= line@);
    if cur.len() > 0 {
        done.push(cur);
    }
    done
}

/// The index of the first field that is exactly `-`, after which the
/// filesystem type and the mount source sit.
pub open spec fn separator_index(fs: Seq<Seq<u8>>) -> Option<int>
    decreases fs.len(),
{
    if fs.len() == 0 {
        None
    } else {
        match separator_index(fs.drop_last()) {
            Some(i) => Some(i),
            None => if fs.last() == seq![45u8] { Some(fs.len() - 1) } else { None },
        }
    }
}

/// Index of the `-` separator field.
pub(crate) fn separator(fs: &Vec<Vec<u8>>) -> (r: Option<usize>)
    ensures
        match r {
            Some(i) => separator_index(byte_views(fs@)) == Some(i as int) && i < fs@.len(),
            None => separator_index(byte_views(fs@)) is None,
        },
{
    let mut i: usize = 0;
    while i < fs.len()
        invariant
            i <= fs@.len(),
            separator_index(byte_views(fs@).take(i as int)) is None,
        decreases fs@.len() - i,
    {
        let f = &fs[i];
        proof {
            assert(byte_views(fs@).take(i as int + 1).drop_last() =~= byte_views(fs@).take(i as int));
            assert(byte_views(fs@)[i as int] == f@);
        }
        if f.len() == 1 && f[0] == 45 {
            proof {
                assert(f@ =~= seq![45u8]);
                lemma_separator_index_prefix(byte_views(fs@), i as int + 1);
            }
            return Some(i);
        }
        proof {
            assert(f@ != seq![45u8]);
        }
        i = i + 1;
    }
    assert(byte_views(fs@).take(fs@.len() as int) =~= byte_views(fs@));
    None
}

/// A separator found in a prefix is the separator of the whole.
proof fn lemma_separator_index_prefix(fs: Seq<Seq<u8>>, n: int)
    requires
        0 <= n <= fs.len(),
        separator_index(fs.take(n)) is Some,
    ensures
        separator_index(fs) == separator_index(fs.take(n)),
    decreases fs.len() - n,
{
    if n < fs.len() {
        assert(fs.take(n + 1).drop_last() =~= fs.take(n));
        lemma_separator_index_prefix(fs, n + 1);
    } else {
        assert(fs.take(n) =~= fs);
    }
}

/// The separator of the whole is the separator of the prefix that ends
/// with it.
proof fn lemma_separator_index_of_prefix(fs: Seq<Seq<u8>>, s: int)
    requires
        separator_index(fs) == Some(s),
    ensures
        0 <= s < fs.len(),
        separator_index(fs.take(s + 1)) == Some(s),
    decreases fs.len(),
{
    if fs.len() > 0 {
        match separator_index(fs.drop_last()) {
            Some(i) => {
                lemma_separator_index_of_prefix(fs.drop_last(), s);
                assert(fs.drop_last().take(s + 1) =~= fs.take(s + 1));
            },
            None => {
                assert(fs.take(s + 1) =~= fs);
            },
        }
    }
}

pub open spec fn is_octal_digit(b: u8) -> bool {
    48 <= b <= 55
}

/// mountinfo's octal escape `\ooo`, read as a byte. A value past `\377`
/// wraps to eight bits.
pub open spec fn octal_byte(a: u8, b: u8, c: u8) -> u8 {
    (((a - 48) * 64 + (b - 48) * 8 + (c - 48)) % 256) as u8
}

/// mountinfo octal-escapes space, tab, newline and backslash in the paths it
/// prints; this is the path with every `\ooo` replaced by the byte it names.
pub open spec fn unescaped(b: Seq<u8>) -> Seq<u8>
    decreases b.len(),
{
    if b.len() == 0 {
        Seq::empty()
    } else if b[0] == 92 && 3 < b.len() && is_octal_digit(b[1]) && is_octal_digit(b[2]) && is_octal_digit(b[3]) {
        seq![octal_byte(b[1], b[2], b[3])] + unescaped(b.skip(4))
    } else {
        seq![b[0]] + unescaped(b.skip(1))
    }
}

/// `statfs` needs the real bytes, so a mountpoint under `/mnt/my disk` is
/// unreachable without this.
pub fn unescape(b: &[u8]) -> (out: Vec<u8>)
    ensures
        out@ == unescaped(b@),
{
    let mut out: Vec<u8> = Vec::new();
    let mut i: usize = 0;
    assert(b@.skip(0) =~= b@);
    assert(out@ + unescaped(b@.skip(0)) =~= unescaped(b@));
    while i < b.len()
        invariant
            i <= b@.len(),
            out@ + unescaped(b@.skip(i as int)) == unescaped(b@),
        decreases b@.len() - i,
    {
        let ghost rest = b@.skip(i as int);
        if b[i] == 92 && b.len() - i > 3 && 48 <= b[i + 1] && b[i + 1] <= 55 && 48 <= b[i + 2]
            && b[i + 2] <= 55 && 48 <= b[i + 3] && b[i + 3] <= 55 {
            let v = ((b[i + 1] - 48) as u32 * 64 + (b[i + 2] - 48) as u32 * 8 + (b[i + 3] - 48) as u32) % 256;
            out.push(v as u8);
            proof {
                assert(rest[0] == 92 && 3 < rest.len());
                assert(rest.skip(4) =~= b@.skip(i as int + 4));
                assert(unescaped(rest) == seq![octal_byte(rest[1], rest[2], rest[3])] + unescaped(rest.skip(4)));
                assert(out@ + unescaped(b@.skip(i as int + 4)) =~= unescaped(b@));
            }
            i = i + 4;
        } else {
            out.push(b[i]);
            proof {
                assert(rest.skip(1) =~= b@.skip(i as int + 1));
                assert(unescaped(rest) == seq![rest[0]] + unescaped(rest.skip(1)));
                assert(out@ + unescaped(b@.skip(i as int + 1)) =~= unescaped(b@));
            }
            i = i + 1;
        }
    }
    assert(b@.skip(i as int) =~= Seq::<u8>::empty());
    assert(out@ =~= unescaped(b@));
    out
}

/// How mountinfo prints one byte of a path: space, tab, newline and
/// backslash as a backslash and three octal digits, every other byte as
/// itself.
pub open spec fn escaped_path_byte(c: u8) -> Seq<u8> {
    if c == 32 {
        seq![92u8, 48u8, 52u8, 48u8]
    } else if c == 9 {
        seq![92u8, 48u8, 49u8, 49u8]
    } else if c == 10 {
        seq![92u8, 48u8, 49u8, 50u8]
    } else if c == 92 {
        seq![92u8, 49u8, 51u8, 52u8]
    } else {
        seq![c]
    }
}

/// A path as mountinfo prints it.
pub open spec fn escaped_path(p: Seq<u8>) -> Seq<u8>
    decreases p.len(),
{
    if p.len() == 0 {
        Seq::empty()
    } else {
        escaped_path_byte(p[0]) + escaped_path(p.drop_first())
    }
}

/// Unescaping undoes mountinfo's escaping: a mount at `/tmp/my disk`,
/// printed `/tmp/my\040disk`, is measured at `/tmp/my disk`.
pub proof fn lemma_unescape_undoes_escaping(p: Seq<u8>)
    ensures
        unescaped(escaped_path(p)) == p,
    decreases p.len(),
{
    if p.len() > 0 {
        lemma_unescape_undoes_escaping(p.drop_first());
        let c = p[0];
        let e = escaped_path(p);
        let rest = escaped_path(p.drop_first());
        assert(e == escaped_path_byte(c) + rest);
        if c == 32 || c == 9 || c == 10 || c == 92 {
            assert(e.skip(4) =~= rest);
        } else {
            assert(e.skip(1) =~= rest);
        }
        assert(p =~= seq![c] + p.drop_first());
    }
}

/// A path with no backslash comes through unescaping unchanged.
pub proof fn lemma_unescape_keeps_plain_paths(b: Seq<u8>)
    requires
        forall|i: int| 0 <= i < b.len() ==> b[i] != 92,
    ensures
        unescaped(b) == b,
    decreases b.len(),
{
    if b.len() > 0 {
        lemma_unescape_keeps_plain_paths(b.skip(1));
        assert(b =~= seq![b[0]] + b.skip(1));
    }
}

/// The text of a field: its bytes as UTF-8, or empty when they are not.
pub open spec fn text_of(b: Seq<u8>) -> Seq<char> {
    if valid_utf8(b) { decode_utf8(b) } else { Seq::empty() }
}

/// A field as a string; a field that is not UTF-8 becomes empty.
pub fn as_string(b: &[u8]) -> (s: String)
    ensures
        s@ == text_of(b@),
{
    let mut v: Vec<u8> = Vec::new();
    let mut i: usize = 0;
    while i < b.len()
        invariant
            i <= b@.len(),
            v@ == b@.take(i as int),
        decreases b@.len() - i,
    {
        v.push(b[i]);
        i = i + 1;
    }
    assert(v@ =~= b@);
    match utf8_string(v) {
        Some(s) => s,
        None => String::new(),
    }
}


/// `s` split on `sep`.
pub(crate) fn split_bytes(s: &[u8], sep: u8) -> (r: Vec<Vec<u8>>)
    ensures
        byte_views(r@) == split_on(s@, sep),
{
    let mut done: Vec<Vec<u8>> = Vec::new();
    let mut cur: Vec<u8> = Vec::new();
    let mut i: usize = 0;
    while i < s.len()
        invariant
            i <= s@.len(),
            byte_views(done@).push(cur@) == split_on(s@.take(i as int), sep),
        decreases s@.len() - i,
    {
        let c = s[i];
        proof {
            assert(s@.take(i as int + 1).drop_last() =~= s@.take(i as int));
            crate::text::lemma_split_on_nonempty(s@.take(i as int), sep);
        }
        if c == sep {
            done.push(cur);
            cur = Vec::new();
            proof {
                assert(byte_views(done@).push(cur@) =~= split_on(s@.take(i as int + 1), sep));
            }
        } else {
            cur.push(c);
            proof {
                assert(byte_views(done@).push(cur@) =~= split_on(s@.take(i as int + 1), sep));
            }
        }
        i = i + 1;
    }
    assert(s@.take(s@.len() as int) =~= s@);
    done.push(cur);
    done
}

/// What one mountinfo line contributes: its unescaped mountpoint (field 4),
/// its device (field 2) and its filesystem type (the field after `-`). A
/// line without all three contributes nothing. The mount source, after the
/// type, is never read.
pub open spec fn entry_of_line(line: Seq<u8>) -> Option<(Seq<u8>, Seq<u8>, Seq<u8>)> {
    if line.len() == 0 {
        None
    } else {
        let f = fields(line);
        match separator_index(f) {
            None => None,
            Some(sep) => if 4 < f.len() && sep + 1 < f.len() {
                Some((unescaped(f[4]), f[2], f[sep + 1]))
            } else {
                None
            },
        }
    }
}

pub open spec fn entries_of(ls: Seq<Seq<u8>>) -> Seq<(Seq<u8>, Seq<u8>, Seq<u8>)>
    decreases ls.len(),
{
    if ls.len() == 0 {
        Seq::empty()
    } else {
        let r = entries_of(ls.drop_last());
        match entry_of_line(ls.last()) {
            Some(e) => r.push(e),
            None => r,
        }
    }
}

/// The entries of a mountinfo buffer, one per usable line, in order.
pub open spec fn mountinfo_entries(buf: Seq<u8>) -> Seq<(Seq<u8>, Seq<u8>, Seq<u8>)> {
    entries_of(split_on(buf, 10u8))
}

fn entry_of(line: &Vec<u8>) -> (r: Option<MountEntry>)
    ensures
        match r {
            Some(e) => entry_of_line(line@) == Some(entry_view(e)),
            None => entry_of_line(line@) is None,
        },
{
    if line.len() == 0 {
        return None;
    }
    let f = fields_of(line.as_slice());
    let sep = match separator(&f) {
        None => return None,
        Some(s) => s,
    };
    if 4 < f.len() && sep + 1 < f.len() {
        proof {
            assert(byte_views(f@)[4] == f@[4]@);
            assert(byte_views(f@)[2] == f@[2]@);
            assert(byte_views(f@)[sep + 1] == f@[sep + 1]@);
        }
        let mount_point = unescape(f[4].as_slice());
        let device = copy_bytes(&f[2]);
        let fs_type = copy_bytes(&f[sep + 1]);
        Some(MountEntry { mount_point, device, fs_type })
    } else {
        None
    }
}

fn copy_bytes(v: &Vec<u8>) -> (r: Vec<u8>)
    ensures
        r@ == v@,
{
    let mut r: Vec<u8> = Vec::new();
    let mut i: usize = 0;
    while i < v.len()
        invariant
            i <= v@.len(),
            r@ == v@.take(i as int),
        decreases v@.len() - i,
    {
        r.push(v[i]);
        i = i + 1;
    }
    assert(r@ =~= v@);
    r
}

pub open spec fn entry_views(v: Seq<MountEntry>) -> Seq<(Seq<u8>, Seq<u8>, Seq<u8>)> {
    v.map_values(|e: MountEntry| entry_view(e))
}

/// Parse mountinfo: one entry per line that names a mountpoint, a device
/// and a filesystem type.
pub fn mount_entries(buf: &[u8]) -> (r: Vec<MountEntry>)
    ensures
        entry_views(r@) == mountinfo_entries(buf@),
{
    let ls = split_bytes(buf, 10);
    let mut r: Vec<MountEntry> = Vec::new();
    let mut i: usize = 0;
    while i < ls.len()
        invariant
            i <= ls@.len(),
            entry_views(r@) == entries_of(byte_views(ls@).take(i as int)),
        decreases ls@.len() - i,
    {
        proof {
            assert(byte_views(ls@).take(i as int + 1).drop_last() =~= byte_views(ls@).take(i as int));
            assert(byte_views(ls@)[i as int] == ls@[i as int]@);
        }
        let ghost old_r = r@;
        match entry_of(&ls[i]) {
            Some(e) => {
                r.push(e);
                proof {
                    assert(entry_views(r@) =~= entry_views(old_r).push(entry_view(e)));
                }
            },
            None => {},
        }
        i = i + 1;
    }
    assert(byte_views(ls@).take(ls@.len() as int) =~= byte_views(ls@));
    r
}

pub open spec fn raw_view(r: Raw) -> (Seq<char>, Seq<char>, Seq<char>, Measured) {
    (r.mount_point@, r.device@, r.fs_type@, r.measured)
}

pub open spec fn raw_views(v: Seq<Raw>) -> Seq<(Seq<char>, Seq<char>, Seq<char>, Measured)> {
    v.map_values(|r: Raw| raw_view(r))
}

/// The rows that entries and their measurements make: every entry that is
/// not a pure pseudo filesystem, with its fields as text.
pub open spec fn collected(es: Seq<(Seq<u8>, Seq<u8>, Seq<u8>)>, ms: Seq<Measured>) -> Seq<(Seq<char>, Seq<char>, Seq<char>, Measured)>
    decreases es.len(),
{
    if es.len() == 0 || ms.len() == 0 {
        Seq::empty()
    } else {
        let r = collected(es.drop_last(), ms.drop_last());
        if ms.last() is Pseudo {
            r
        } else {
            r.push((text_of(es.last().0), text_of(es.last().1), text_of(es.last().2), ms.last()))
        }
    }
}

/// Pair each entry with what measuring its mountpoint said, dropping the
/// pure pseudo filesystems.
pub fn collect(entries: Vec<MountEntry>, measured: Vec<Measured>) -> (rows: Vec<Raw>)
    requires
        entries@.len() == measured@.len(),
    ensures
        raw_views(rows@) == collected(entry_views(entries@), measured@),
{
    let mut rows: Vec<Raw> = Vec::new();
    let mut i: usize = 0;
    while i < entries.len()
        invariant
            i <= entries@.len(),
            entries@.len() == measured@.len(),
            raw_views(rows@) == collected(entry_views(entries@).take(i as int), measured@.take(i as int)),
        decreases entries@.len() - i,
    {
        let e = &entries[i];
        let m = measured[i];
        proof {
            assert(entry_views(entries@).take(i as int + 1).drop_last() =~= entry_views(entries@).take(i as int));
            assert(measured@.take(i as int + 1).drop_last() =~= measured@.take(i as int));
            assert(entry_views(entries@)[i as int] == entry_view(*e));
        }
        match m {
            Measured::Pseudo => {},
            _ => {
                let ghost old_rows = rows@;
                let row = Raw {
                    mount_point: as_string(e.mount_point.as_slice()),
                    device: as_string(e.device.as_slice()),
                    fs_type: as_string(e.fs_type.as_slice()),
                    measured: m,
                };
                rows.push(row);
                proof {
                    assert(raw_views(rows@) =~= raw_views(old_rows).push(raw_view(row)));
                }
            },
        }
        i = i + 1;
    }
    assert(entry_views(entries@).take(entries@.len() as int) =~= entry_views(entries@));
    assert(measured@.take(measured@.len() as int) =~= measured@);
    rows
}

/// The mount source never leaves this module: two lines whose fields agree
/// up to the filesystem type give the same entry, whatever follows the
/// type, the mount source among it. A line whose separator comes before
/// field 4 is malformed; its field 4 lies past the type, and is read.
pub proof fn lemma_mount_source_is_never_read(l1: Seq<u8>, l2: Seq<u8>, sep: int)
    requires
        separator_index(fields(l1)) == Some(sep),
        sep >= 3,
        sep + 2 <= fields(l1).len(),
        sep + 2 <= fields(l2).len(),
        fields(l1).take(sep + 2) == fields(l2).take(sep + 2),
    ensures
        entry_of_line(l1) == entry_of_line(l2),
{
    let f1 = fields(l1);
    let f2 = fields(l2);
    lemma_separator_index_of_prefix(f1, sep);
    assert(f2.take(sep + 1) =~= f1.take(sep + 1)) by {
        assert forall|k: int| 0 <= k < sep + 1 implies f2[k] == f1[k] by {
            assert(f1.take(sep + 2)[k] == f2.take(sep + 2)[k]);
        }
    }
    lemma_separator_index_prefix(f2, sep + 1);
    assert(f1[4] == f1.take(sep + 2)[4]);
    assert(f2[4] == f2.take(sep + 2)[4]);
    assert(f1[2] == f1.take(sep + 2)[2]);
    assert(f2[2] == f2.take(sep + 2)[2]);
    assert(f1[sep + 1] == f1.take(sep + 2)[sep + 1]);
    assert(f2[sep + 1] == f2.take(sep + 2)[sep + 1]);
    if l1.len() == 0 {
        assert(f1.len() == 0);
    }
    if l2.len() == 0 {
        assert(f2.len() == 0);
    }
}

/// Read mountinfo's first `n` bytes out of `buf` into rows, given what
/// measuring each entry's mountpoint said. A full buffer means mountinfo may
/// not have fit, so the result says it may be truncated.
pub fn run(buf: &[u8], n: usize, measured: Vec<Measured>) -> (m: Mounts)
    requires
        n <= buf@.len(),
        measured@.len() == mountinfo_entries(buf@.take(n as int)).len(),
    ensures
        raw_views(m.rows@) == collected(mountinfo_entries(buf@.take(n as int)), measured@),
        m.truncated == (n == buf@.len()),
{
    let read = &buf[0..n];
    assert(read@ =~= buf@.take(n as int));
    let entries = mount_entries(read);
    proof {
        assert(entries@.len() == entry_views(entries@).len());
    }
    let rows = collect(entries, measured);
    Mounts { rows, truncated: n == buf.len() }
}

/// The rows keep exactly the measurements that are not pure pseudo
/// filesystems, in mountinfo's order: a mount that refuses `statfs` is
/// reported, and one that reports no blocks is not.
pub proof fn lemma_rows_are_the_measured_mounts(es: Seq<(Seq<u8>, Seq<u8>, Seq<u8>)>, ms: Seq<Measured>)
    requires
        es.len() == ms.len(),
    ensures
        collected(es, ms).map_values(|r: (Seq<char>, Seq<char>, Seq<char>, Measured)| r.3)
            == ms.filter(|m: Measured| !(m is Pseudo)),
    decreases es.len(),
{
    reveal(Seq::filter);
    if es.len() > 0 {
        lemma_rows_are_the_measured_mounts(es.drop_last(), ms.drop_last());
        let r = collected(es.drop_last(), ms.drop_last());
        if !(ms.last() is Pseudo) {
            let row = (text_of(es.last().0), text_of(es.last().1), text_of(es.last().2), ms.last());
            assert(r.push(row).map_values(|r: (Seq<char>, Seq<char>, Seq<char>, Measured)| r.3)
                =~= r.map_values(|r: (Seq<char>, Seq<char>, Seq<char>, Measured)| r.3).push(ms.last()));
        }
    } else {
        assert(collected(es, ms).map_values(|r: (Seq<char>, Seq<char>, Seq<char>, Measured)| r.3) =~= Seq::<Measured>::empty());
    }
}

} // verus!
