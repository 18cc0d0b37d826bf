//! The hand-written JSON of the storage probe that measures what a
//! serializer costs: a bump writer over a buffer of fixed capacity, and the
//! mount collection it writes out.
//!
//! The writer never fails and never grows: what does not fit is dropped, so
//! its output is always the text that was written, cut at its capacity.

use vstd::prelude::*;
use vstd::utf8::encode_utf8;

use crate::mountinfo::{
    as_string, byte_views, fields, fields_of, separator, separator_index, split_bytes, text_of, Statfs,
};
use crate::text::{all_digits, ascii_chars, digits_value, parse_u64, split_on};

verus! {

/// `s`, cut to at most `cap` bytes.
pub open spec fn cut(s: Seq<u8>, cap: nat) -> Seq<u8> {
    if s.len() <= cap { s } else { s.take(cap as int) }
}

/// Writing in pieces is writing the whole: cutting after each piece gives
/// what cutting once after all of them gives.
pub proof fn lemma_cut_append(w: Seq<u8>, a: Seq<u8>, b: Seq<u8>, cap: nat)
    requires
        w.len() <= cap,
    ensures
        cut(cut(w + a, cap) + b, cap) == cut(w + (a + b), cap),
{
    assert(w + (a + b) =~= (w + a) + b);
    if (w + a).len() > cap {
        assert(((w + a).take(cap as int) + b).take(cap as int) =~= ((w + a) + b).take(cap as int));
    }
}

/// The lowercase hex digit for `d`, below 16.
pub open spec fn hex_digit(d: u8) -> u8 {
    if d < 10 { (48 + d) as u8 } else { (87 + d) as u8 }
}

/// How JSON writes byte `c` inside a string (RFC 8259): the quote and the
/// backslash escaped, the control characters by their short escape or as
/// `\u00XX`, and every other byte as itself.
pub open spec fn escaped_byte(c: u8) -> Seq<u8> {
    if c == 34 {
        seq![92u8, 34u8]
    } else if c == 92 {
        seq![92u8, 92u8]
    } else if c == 8 {
        seq![92u8, 98u8]
    } else if c == 12 {
        seq![92u8, 102u8]
    } else if c == 10 {
        seq![92u8, 110u8]
    } else if c == 13 {
        seq![92u8, 114u8]
    } else if c == 9 {
        seq![92u8, 116u8]
    } else if c <= 31 {
        seq![92u8, 117u8, 48u8, 48u8, hex_digit(c / 16), hex_digit(c % 16)]
    } else {
        seq![c]
    }
}

/// The bytes of a JSON string's contents, each escaped.
pub open spec fn escaped(b: Seq<u8>) -> Seq<u8>
    decreases b.len(),
{
    if b.len() == 0 {
        Seq::empty()
    } else {
        escaped(b.drop_last()) + escaped_byte(b.last())
    }
}

/// `b` as a JSON string: quoted and escaped.
pub open spec fn json_string(b: Seq<u8>) -> Seq<u8> {
    seq![34u8] + escaped(b) + seq![34u8]
}

/// The decimal digits of `v`, without leading zeros.
pub open spec fn decimal(v: nat) -> Seq<u8>
    decreases v,
{
    if v < 10 {
        seq![(48 + v) as u8]
    } else {
        decimal(v / 10).push((48 + v % 10) as u8)
    }
}

proof fn lemma_decimal_digits(v: nat)
    ensures
        decimal(v).len() > 0,
        all_digits(ascii_chars(decimal(v))),
        digits_value(ascii_chars(decimal(v))) == v,
    decreases v,
{
    let d = ascii_chars(decimal(v));
    let b: u8 = (48 + v % 10) as u8;
    assert(b as int == 48 + v % 10);
    assert((b as char) as int == b as int);
    if v >= 10 {
        lemma_decimal_digits(v / 10);
        let p = ascii_chars(decimal(v / 10));
        assert(d.drop_last() =~= p);
        assert(d.last() == b as char);
        assert(digits_value(d) == digits_value(d.drop_last()) * 10 + (d.last() as int - 48));
        assert(v == (v / 10) * 10 + v % 10);
        assert(all_digits(d)) by {
            assert forall|i: int| 0 <= i < d.len() implies '0' <= #[trigger] d[i] <= '9' by {
                if i < d.len() - 1 {
                    assert(d[i] == p[i]);
                }
            }
        }
    } else {
        assert(d =~= seq![b as char]);
        assert(d.drop_last() =~= Seq::<char>::empty());
        assert(digits_value(d) == digits_value(d.drop_last()) * 10 + (d.last() as int - 48));
    }
}

/// A number the writer writes is read back by `str::parse::<u64>` as the
/// same number.
pub proof fn lemma_decimal_round_trip(v: u64)
    ensures
        parse_u64(ascii_chars(decimal(v as nat))) == Some(v),
{
    lemma_decimal_digits(v as nat);
    let d = ascii_chars(decimal(v as nat));
    assert('0' <= d[0] <= '9');
}

/// `,"name":v`: one more numeric member of an object.
pub open spec fn member(name: Seq<u8>, v: nat) -> Seq<u8> {
    encode_utf8(",\""@) + name + encode_utf8("\":"@) + decimal(v)
}

fn hex(d: u8) -> (h: u8)
    requires
        d < 16,
    ensures
        h == hex_digit(d),
{
    if d < 10 { 48 + d } else { 87 + d }
}

/// How JSON writes `c` inside a string.
fn escape(c: u8) -> (r: Vec<u8>)
    ensures
        r@ == escaped_byte(c),
{
    let r = if c == 34 {
        vec![92u8, 34u8]
    } else if c == 92 {
        vec![92u8, 92u8]
    } else if c == 8 {
        vec![92u8, 98u8]
    } else if c == 12 {
        vec![92u8, 102u8]
    } else if c == 10 {
        vec![92u8, 110u8]
    } else if c == 13 {
        vec![92u8, 114u8]
    } else if c == 9 {
        vec![92u8, 116u8]
    } else if c <= 31 {
        vec![92u8, 117u8, 48u8, 48u8, hex(c / 16), hex(c % 16)]
    } else {
        vec![c]
    };
    assert(r@ =~= escaped_byte(c));
    r
}

/// The decimal digits of `v`.
fn decimal_digits(v: u64) -> (r: Vec<u8>)
    ensures
        r@ == decimal(v as nat),
    decreases v,
{
    if v < 10 {
        let r = vec![48u8 + v as u8];
        assert(r@ =~= decimal(v as nat));
        r
    } else {
        let mut r = decimal_digits(v / 10);
        r.push(48u8 + (v % 10) as u8);
        r
    }
}

/// A bump writer over a buffer of `cap` bytes.
pub struct Out {
    pub written: Vec<u8>,
    pub cap: usize,
}

impl Out {
    pub open spec fn wf(&self) -> bool {
        self.written@.len() <= self.cap
    }

    /// An empty writer with room for `cap` bytes.
    pub fn new(cap: usize) -> (out: Out)
        ensures
            out.wf(),
            out.written@ == Seq::<u8>::empty(),
            out.cap == cap,
    {
        Out { written: Vec::new(), cap }
    }

    /// What has been written.
    pub fn bytes(&self) -> (b: &[u8])
        ensures
            b@ == self.written@,
    {
        self.written.as_slice()
    }

    /// Append `s`, or as much of it as still fits.
    pub fn raw(&mut self, s: &[u8])
        requires
            old(self).wf(),
        ensures
            final(self).wf(),
            final(self).cap == old(self).cap,
            final(self).written@ == cut(old(self).written@ + s@, old(self).cap as nat),
    {
        let room = self.cap - self.written.len();
        let n = if s.len() <= room { s.len() } else { room };
        let ghost w = self.written@;
        let mut i: usize = 0;
        while i < n
            invariant
                self.cap == old(self).cap,
                w == old(self).written@,
                n == (if s@.len() <= self.cap - w.len() { s@.len() } else { (self.cap - w.len()) as nat }),
                w.len() + n <= self.cap,
                i <= n,
                self.written@ == w + s@.take(i as int),
            decreases n - i,
        {
            self.written.push(s[i]);
            i = i + 1;
            assert(self.written@ =~= w + s@.take(i as int));
        }
        proof {
            if (w + s@).len() <= self.cap {
                assert(s@.take(n as int) =~= s@);
            } else {
                assert((w + s@).take(self.cap as int) =~= w + s@.take(n as int));
            }
        }
    }
    /// Append `s` as a JSON string.
    pub fn string(&mut self, s: &str)
        requires
            old(self).wf(),
        ensures
            final(self).wf(),
            final(self).cap == old(self).cap,
            final(self).written@ == cut(old(self).written@ + json_string(encode_utf8(s@)), old(self).cap as nat),
    {
        let b = s.as_bytes();
        let ghost w = self.written@;
        let ghost cap = self.cap as nat;
        let quote = [34u8];
        assert(quote@ =~= seq![34u8]);
        self.raw(&quote);
        assert(seq![34u8] + escaped(b@.take(0)) =~= seq![34u8]);
        let mut i: usize = 0;
        while i < b.len()
            invariant
                self.wf(),
                self.cap == cap,
                w.len() <= cap,
                quote@ == seq![34u8],
                i <= b@.len(),
                self.written@ == cut(w + (seq![34u8] + escaped(b@.take(i as int))), cap),
            decreases b@.len() - i,
        {
            let e = escape(b[i]);
            proof {
                lemma_cut_append(w, seq![34u8] + escaped(b@.take(i as int)), e@, cap);
                assert(b@.take(i as int + 1).drop_last() =~= b@.take(i as int));
                assert(seq![34u8] + escaped(b@.take(i as int)) + e@ =~= seq![34u8] + escaped(b@.take(i as int + 1)));
            }
            self.raw(e.as_slice());
            i = i + 1;
        }
        proof {
            assert(b@.take(b@.len() as int) =~= b@);
            lemma_cut_append(w, seq![34u8] + escaped(b@), seq![34u8], cap);
            assert(seq![34u8] + escaped(b@) + seq![34u8] == json_string(b@));
        }
        self.raw(&quote);
    }

    /// Append `v` in decimal.
    pub fn u64(&mut self, v: u64)
        requires
            old(self).wf(),
        ensures
            final(self).wf(),
            final(self).cap == old(self).cap,
            final(self).written@ == cut(old(self).written@ + decimal(v as nat), old(self).cap as nat),
    {
        let d = decimal_digits(v);
        self.raw(d.as_slice());
    }

    /// Append `,"name":v`.
    pub fn field_u64(&mut self, name: &[u8], v: u64)
        requires
            old(self).wf(),
        ensures
            final(self).wf(),
            final(self).cap == old(self).cap,
            final(self).written@ == cut(old(self).written@ + member(name@, v as nat), old(self).cap as nat),
    {
        let ghost w = self.written@;
        let ghost cap = self.cap as nat;
        let lead = ",\"".as_bytes();
        let colon = "\":".as_bytes();
        self.raw(lead);
        proof { lemma_cut_append(w, lead@, name@, cap); }
        self.raw(name);
        proof { lemma_cut_append(w, lead@ + name@, colon@, cap); }
        self.raw(colon);
        proof {
            lemma_cut_append(w, lead@ + name@ + colon@, decimal(v as nat), cap);
            assert(lead@ + name@ + colon@ + decimal(v as nat) == member(name@, v as nat));
        }
        self.u64(v);
    }
}

/// One filesystem as collected, before it is put on the wire.
pub struct Raw {
    pub mount_point: String,
    pub source: String,
    pub fs_type: String,
    pub stat: Statfs,
}

/// The byte counts the object for `s` carries fit in 64 bits, and no more
/// blocks are free than there are.
pub open spec fn fits(s: Statfs) -> bool {
    &&& s.f_blocks * s.f_bsize <= u64::MAX
    &&& s.f_bavail * s.f_bsize <= u64::MAX
    &&& s.f_bfree <= s.f_blocks
}

/// The JSON object for one filesystem.
pub open spec fn entry_json(e: Raw) -> Seq<u8> {
    encode_utf8("{\"mount_point\":"@) + json_string(encode_utf8(e.mount_point@))
        + encode_utf8(",\"source\":"@) + json_string(encode_utf8(e.source@))
        + encode_utf8(",\"fs_type\":"@) + json_string(encode_utf8(e.fs_type@))
        + member(encode_utf8("total_bytes"@), (e.stat.f_blocks * e.stat.f_bsize) as nat)
        + member(encode_utf8("available_bytes"@), (e.stat.f_bavail * e.stat.f_bsize) as nat)
        + member(encode_utf8("used_bytes"@), ((e.stat.f_blocks - e.stat.f_bfree) * e.stat.f_bsize) as nat)
        + member(encode_utf8("total_inodes"@), e.stat.f_files as nat)
        + member(encode_utf8("available_inodes"@), e.stat.f_ffree as nat)
        + encode_utf8("}"@)
}

/// The objects for `es`, separated by commas.
pub open spec fn objects(es: Seq<Raw>) -> Seq<u8>
    decreases es.len(),
{
    if es.len() == 0 {
        Seq::empty()
    } else if es.len() == 1 {
        entry_json(es[0])
    } else {
        objects(es.drop_last()) + seq![44u8] + entry_json(es.last())
    }
}

/// The whole document: `{"filesystems":[...]}` and a newline.
pub open spec fn document(es: Seq<Raw>) -> Seq<u8> {
    encode_utf8("{\"filesystems\":["@) + objects(es) + encode_utf8("]}\n"@)
}

fn write_entry(out: &mut Out, e: &Raw)
    requires
        old(out).wf(),
        fits(e.stat),
    ensures
        final(out).wf(),
        final(out).cap == old(out).cap,
        final(out).written@ == cut(old(out).written@ + entry_json(*e), old(out).cap as nat),
{
    let ghost w = out.written@;
    let ghost cap = out.cap as nat;
    let st = e.stat;
    let total = st.f_blocks * st.f_bsize;
    let available = st.f_bavail * st.f_bsize;
    assert((st.f_blocks - st.f_bfree) * st.f_bsize <= st.f_blocks * st.f_bsize) by (nonlinear_arith)
        requires
            st.f_bfree <= st.f_blocks,
    ;
    let used = (st.f_blocks - st.f_bfree) * st.f_bsize;

    let p = "{\"mount_point\":".as_bytes();
    out.raw(p);
    let ghost mut acc = p@;
    proof { lemma_cut_append(w, acc, json_string(encode_utf8(e.mount_point@)), cap); acc = acc + json_string(encode_utf8(e.mount_point@)); }
    out.string(e.mount_point.as_str());
    let p = ",\"source\":".as_bytes();
    proof { lemma_cut_append(w, acc, p@, cap); acc = acc + p@; }
    out.raw(p);
    proof { lemma_cut_append(w, acc, json_string(encode_utf8(e.source@)), cap); acc = acc + json_string(encode_utf8(e.source@)); }
    out.string(e.source.as_str());
    let p = ",\"fs_type\":".as_bytes();
    proof { lemma_cut_append(w, acc, p@, cap); acc = acc + p@; }
    out.raw(p);
    proof { lemma_cut_append(w, acc, json_string(encode_utf8(e.fs_type@)), cap); acc = acc + json_string(encode_utf8(e.fs_type@)); }
    out.string(e.fs_type.as_str());
    let n = "total_bytes".as_bytes();
    proof { lemma_cut_append(w, acc, member(n@, total as nat), cap); acc = acc + member(n@, total as nat); }
    out.field_u64(n, total);
    let n = "available_bytes".as_bytes();
    proof { lemma_cut_append(w, acc, member(n@, available as nat), cap); acc = acc + member(n@, available as nat); }
    out.field_u64(n, available);
    let n = "used_bytes".as_bytes();
    proof { lemma_cut_append(w, acc, member(n@, used as nat), cap); acc = acc + member(n@, used as nat); }
    out.field_u64(n, used);
    let n = "total_inodes".as_bytes();
    proof { lemma_cut_append(w, acc, member(n@, st.f_files as nat), cap); acc = acc + member(n@, st.f_files as nat); }
    out.field_u64(n, st.f_files);
    let n = "available_inodes".as_bytes();
    proof { lemma_cut_append(w, acc, member(n@, st.f_ffree as nat), cap); acc = acc + member(n@, st.f_ffree as nat); }
    out.field_u64(n, st.f_ffree);
    let p = "}".as_bytes();
    proof {
        lemma_cut_append(w, acc, p@, cap);
        acc = acc + p@;
        assert(acc == entry_json(*e));
    }
    out.raw(p);
}

/// Write the document for `entries`.
pub fn emit(out: &mut Out, entries: &[Raw])
    requires
        old(out).wf(),
        forall|i: int| 0 <= i < entries@.len() ==> fits(#[trigger] entries@[i].stat),
    ensures
        final(out).wf(),
        final(out).cap == old(out).cap,
        final(out).written@ == cut(old(out).written@ + document(entries@), old(out).cap as nat),
{
    let ghost w = out.written@;
    let ghost cap = out.cap as nat;
    let lead = "{\"filesystems\":[".as_bytes();
    out.raw(lead);
    assert(lead@ + objects(entries@.take(0)) =~= lead@);
    let mut i: usize = 0;
    while i < entries.len()
        invariant
            out.wf(),
            out.cap == cap,
            w.len() <= cap,
            i <= entries@.len(),
            forall|k: int| 0 <= k < entries@.len() ==> fits(#[trigger] entries@[k].stat),
            out.written@ == cut(w + (lead@ + objects(entries@.take(i as int))), cap),
        decreases entries@.len() - i,
    {
        let ghost acc = lead@ + objects(entries@.take(i as int));
        let ghost e = entries@[i as int];
        proof {
            assert(entries@.take(i as int + 1).drop_last() =~= entries@.take(i as int));
            assert(entries@.take(i as int + 1).last() == e);
        }
        if i > 0 {
            let comma = [44u8];
            assert(comma@ =~= seq![44u8]);
            proof { lemma_cut_append(w, acc, seq![44u8], cap); }
            out.raw(&comma);
            proof {
                lemma_cut_append(w, acc + seq![44u8], entry_json(e), cap);
                assert(acc + seq![44u8] + entry_json(e) =~= lead@ + objects(entries@.take(i as int + 1)));
            }
        } else {
            proof {
                lemma_cut_append(w, acc, entry_json(e), cap);
                assert(acc + entry_json(e) =~= lead@ + objects(entries@.take(i as int + 1)));
            }
        }
        write_entry(out, &entries[i]);
        i = i + 1;
    }
    let tail = "]}\n".as_bytes();
    proof {
        assert(entries@.take(entries@.len() as int) =~= entries@);
        lemma_cut_append(w, lead@ + objects(entries@), tail@, cap);
    }
    out.raw(tail);
}

/// How much of mountinfo the probe reads.
pub const MOUNTINFO_CAP: usize = 65536;

/// How many filesystems the probe reports at most.
pub const MAX_MOUNTS: usize = 256;

/// A mountpoint this long or longer does not fit the probe's path buffer
/// with its terminating NUL, and is skipped.
pub const PATH_CAP: usize = 4096;

/// What one mountinfo line offers: its mountpoint as written (field 4), its
/// filesystem type and its mount source (the two fields after `-`).
#[derive(Debug)]
pub struct MountLine {
    pub mount_point: Vec<u8>,
    pub fs_type: Vec<u8>,
    pub source: Vec<u8>,
}

pub open spec fn line_view(l: MountLine) -> (Seq<u8>, Seq<u8>, Seq<u8>) {
    (l.mount_point@, l.fs_type@, l.source@)
}

pub open spec fn line_views(v: Seq<MountLine>) -> Seq<(Seq<u8>, Seq<u8>, Seq<u8>)> {
    v.map_values(|l: MountLine| line_view(l))
}

/// What a line offers, if it has a separator, a field 4, and two fields
/// after the separator.
pub open spec fn offer_of_line(line: Seq<u8>) -> Option<(Seq<u8>, Seq<u8>, Seq<u8>)> {
    if line.len() == 0 {
        None
    } else {
        let f = fields(line);
        match separator_index(f) {
            None => None,
            Some(sep) => if 4 < f.len() && sep + 2 < f.len() {
                Some((f[4], f[sep + 1], f[sep + 2]))
            } else {
                None
            },
        }
    }
}

pub open spec fn offers_of(ls: Seq<Seq<u8>>) -> Seq<(Seq<u8>, Seq<u8>, Seq<u8>)>
    decreases ls.len(),
{
    if ls.len() == 0 {
        Seq::empty()
    } else {
        let r = offers_of(ls.drop_last());
        match offer_of_line(ls.last()) {
            Some(o) => r.push(o),
            None => r,
        }
    }
}

/// What the lines of a mountinfo buffer offer, in order.
pub open spec fn mount_offers(buf: Seq<u8>) -> Seq<(Seq<u8>, Seq<u8>, Seq<u8>)> {
    offers_of(split_on(buf, 10u8))
}

fn copy(v: &Vec<u8>) -> (r: Vec<u8>)
    ensures
        r@ == v@,
{
    let mut r: Vec<u8> = Vec::new();
    let mut i: usize = 0;
    while i < v.len()
        invariant
            i <= v@.len(),
            r@ == v@.take(i as int),
        decreases v@.len() - i,
    {
        r.push(v[i]);
        i = i + 1;
    }
    assert(r@ =~= v@);
    r
}

/// Field `want` of `line`, counting the runs of bytes between spaces from 0.
pub fn field(line: &[u8], want: usize) -> (r: Option<Vec<u8>>)
    ensures
        match r {
            Some(f) => want < fields(line@).len() && f@ == fields(line@)[want as int],
            None => want >= fields(line@).len(),
        },
{
    let f = fields_of(line);
    if want < f.len() {
        proof { assert(byte_views(f@)[want as int] == f@[want as int]@); }
        Some(copy(&f[want]))
    } else {
        None
    }
}

fn offer_of(line: &Vec<u8>) -> (r: Option<MountLine>)
    ensures
        match r {
            Some(o) => offer_of_line(line@) == Some(line_view(o)),
            None => offer_of_line(line@) is None,
        },
{
    if line.len() == 0 {
        return None;
    }
    let f = fields_of(line.as_slice());
    let sep = match separator(&f) {
        None => return None,
        Some(s) => s,
    };
    if 4 < f.len() && sep < f.len() - 2 {
        proof {
            assert(byte_views(f@)[4] == f@[4]@);
            assert(byte_views(f@)[sep + 1] == f@[sep + 1]@);
            assert(byte_views(f@)[sep + 2] == f@[sep + 2]@);
        }
        Some(MountLine { mount_point: copy(&f[4]), fs_type: copy(&f[sep + 1]), source: copy(&f[sep + 2]) })
    } else {
        None
    }
}

/// The lines of mountinfo that name a mountpoint, a type and a source.
pub fn mount_lines(buf: &[u8]) -> (r: Vec<MountLine>)
    ensures
        line_views(r@) == mount_offers(buf@),
{
    let ls = split_bytes(buf, 10);
    let mut r: Vec<MountLine> = Vec::new();
    let mut i: usize = 0;
    while i < ls.len()
        invariant
            i <= ls@.len(),
            line_views(r@) == offers_of(byte_views(ls@).take(i as int)),
        decreases ls@.len() - i,
    {
        proof {
            assert(byte_views(ls@).take(i as int + 1).drop_last() =~= byte_views(ls@).take(i as int));
            assert(byte_views(ls@)[i as int] == ls@[i as int]@);
        }
        let ghost before = r@;
        match offer_of(&ls[i]) {
            Some(o) => {
                r.push(o);
                proof { assert(line_views(r@) =~= line_views(before).push(line_view(o))); }
            },
            None => {},
        }
        i = i + 1;
    }
    assert(byte_views(ls@).take(ls@.len() as int) =~= byte_views(ls@));
    r
}

pub open spec fn raw_view(r: Raw) -> (Seq<char>, Seq<char>, Seq<char>, Statfs) {
    (r.mount_point@, r.source@, r.fs_type@, r.stat)
}

pub open spec fn raw_views(v: Seq<Raw>) -> Seq<(Seq<char>, Seq<char>, Seq<char>, Statfs)> {
    v.map_values(|r: Raw| raw_view(r))
}

/// The filesystems the probe reports, given what each offered line's
/// `statfs(2)` said (`None` where it failed): at most `max` of them, skipping
/// a mountpoint too long for the path buffer, one that could not be
/// measured, and one that reports no blocks.
pub open spec fn reported_rows(ls: Seq<(Seq<u8>, Seq<u8>, Seq<u8>)>, stats: Seq<Option<Statfs>>, max: nat) -> Seq<(Seq<char>, Seq<char>, Seq<char>, Statfs)>
    decreases ls.len(),
{
    if ls.len() == 0 || stats.len() == 0 {
        Seq::empty()
    } else {
        let r = reported_rows(ls.drop_last(), stats.drop_last(), max);
        let (mp, fs_type, source) = ls.last();
        if r.len() >= max || mp.len() >= PATH_CAP {
            r
        } else {
            match stats.last() {
                Some(s) => if s.f_blocks == 0 { r } else { r.push((text_of(mp), text_of(source), text_of(fs_type), s)) },
                None => r,
            }
        }
    }
}

/// The report never holds more than `max` filesystems, and each of them has
/// blocks.
pub proof fn lemma_reported_rows_bounded(ls: Seq<(Seq<u8>, Seq<u8>, Seq<u8>)>, stats: Seq<Option<Statfs>>, max: nat)
    ensures
        reported_rows(ls, stats, max).len() <= max,
        forall|i: int| 0 <= i < reported_rows(ls, stats, max).len() ==> #[trigger] reported_rows(ls, stats, max)[i].3.f_blocks > 0,
    decreases ls.len(),
{
    if ls.len() > 0 && stats.len() > 0 {
        lemma_reported_rows_bounded(ls.drop_last(), stats.drop_last(), max);
    }
}

/// The filesystems to report: each offered line with what `statfs(2)` said
/// about its mountpoint, at most `max` of them.
pub fn collect(lines: Vec<MountLine>, stats: Vec<Option<Statfs>>, max: usize) -> (rows: Vec<Raw>)
    requires
        lines@.len() == stats@.len(),
    ensures
        raw_views(rows@) == reported_rows(line_views(lines@), stats@, max as nat),
        rows@.len() <= max,
{
    let mut rows: Vec<Raw> = Vec::new();
    let mut i: usize = 0;
    while i < lines.len()
        invariant
            i <= lines@.len(),
            lines@.len() == stats@.len(),
            raw_views(rows@) == reported_rows(line_views(lines@).take(i as int), stats@.take(i as int), max as nat),
        decreases lines@.len() - i,
    {
        let l = &lines[i];
        proof {
            assert(line_views(lines@).take(i as int + 1).drop_last() =~= line_views(lines@).take(i as int));
            assert(stats@.take(i as int + 1).drop_last() =~= stats@.take(i as int));
            assert(line_views(lines@)[i as int] == line_view(*l));
            assert(raw_views(rows@).len() == rows@.len());
        }
        if rows.len() < max && l.mount_point.len() < PATH_CAP {
            match stats[i] {
                Some(s) => {
                    if s.f_blocks != 0 {
                        let ghost before = rows@;
                        let row = Raw {
                            mount_point: as_string(l.mount_point.as_slice()),
                            source: as_string(l.source.as_slice()),
                            fs_type: as_string(l.fs_type.as_slice()),
                            stat: s,
                        };
                        rows.push(row);
                        proof { assert(raw_views(rows@) =~= raw_views(before).push(raw_view(row))); }
                    }
                },
                None => {},
            }
        }
        i = i + 1;
    }
    proof {
        assert(line_views(lines@).take(lines@.len() as int) =~= line_views(lines@));
        assert(stats@.take(stats@.len() as int) =~= stats@);
        lemma_reported_rows_bounded(line_views(lines@), stats@, max as nat);
        assert(raw_views(rows@).len() == rows@.len());
    }
    rows
}

/// The report from the first `n` bytes of `buf`, where mountinfo was read,
/// given what `statfs(2)` said about each offered line's mountpoint.
pub fn run(buf: &[u8], n: usize, stats: Vec<Option<Statfs>>, max: usize) -> (rows: Vec<Raw>)
    requires
        n <= buf@.len(),
        stats@.len() == mount_offers(buf@.take(n as int)).len(),
    ensures
        raw_views(rows@) == reported_rows(mount_offers(buf@.take(n as int)), stats@, max as nat),
        rows@.len() <= max,
{
    let read = &buf[0..n];
    assert(read@ =~= buf@.take(n as int));
    let lines = mount_lines(read);
    assert(lines@.len() == line_views(lines@).len());
    collect(lines, stats, max)
}

} // verus!
