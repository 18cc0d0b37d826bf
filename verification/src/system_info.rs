//! The `system_info` capability: basic identity of a machine, as the
//! kernel's `uname(2)` reports it.

use vstd::prelude::*;
use vstd::utf8::{decode_utf8, valid_utf8};

verus! {

/// The kernel's `struct utsname`: six NUL-terminated fields of 65 bytes.
pub struct Utsname {
    pub sysname: [u8; 65],
    pub nodename: [u8; 65],
    pub release: [u8; 65],
    pub version: [u8; 65],
    pub machine: [u8; 65],
    pub domainname: [u8; 65],
}

/// Basic identity of a machine. The field set is deliberately small.
pub struct Report {
    /// The machine's hostname, as the kernel holds it (`uname -n`).
    pub hostname: String,
    /// The running kernel's release string (`uname -r`).
    pub kernel_release: String,
    /// The operating system. Always `linux`.
    pub os: String,
    /// The CPU architecture, as the kernel names it (`uname -m`).
    pub arch: String,
    /// Whether collection ran with authority beyond the invoking user's.
    pub privileged: bool,
}

/// What `String::from_utf8_lossy` makes of `bytes`.
pub uninterp spec fn lossy_text(bytes: Seq<u8>) -> Seq<char>;

/// `String::from_utf8_lossy`, owned: the bytes as text, with every invalid
/// sequence replaced by U+FFFD. Its documentation says valid UTF-8 comes
/// back as exactly the text it encodes; what stands in for invalid input is
/// left to the name `lossy_text`.
#[verifier::external_body]
pub(crate) fn lossy_string(bytes: &[u8]) -> (s: String)
    ensures
        s@ == lossy_text(bytes@),
        valid_utf8(bytes@) ==> s@ == decode_utf8(bytes@),
{
    String::from_utf8_lossy(bytes).into_owned()
}

/// The bytes of `b` before its first NUL, or all of them when it has none.
pub open spec fn until_nul(b: Seq<u8>) -> Seq<u8>
    decreases b.len(),
{
    if b.len() == 0 {
        b
    } else if b[0] == 0 {
        Seq::empty()
    } else {
        seq![b[0]] + until_nul(b.drop_first())
    }
}

proof fn lemma_until_nul_take(b: Seq<u8>, i: int)
    requires
        0 <= i <= b.len(),
        forall|k: int| 0 <= k < i ==> b[k] != 0,
        i == b.len() || b[i] == 0,
    ensures
        until_nul(b) == b.take(i),
    decreases b.len(),
{
    if b.len() > 0 && i > 0 {
        lemma_until_nul_take(b.drop_first(), i - 1);
        assert(b.take(i) =~= seq![b[0]] + b.drop_first().take(i - 1));
    } else if b.len() > 0 {
        assert(b.take(i) =~= Seq::<u8>::empty());
    }
}

/// A NUL-terminated `utsname` field as a string.
pub fn field(raw: &[u8; 65]) -> (s: String)
    ensures
        s@ == lossy_text(until_nul(raw@)),
        valid_utf8(until_nul(raw@)) ==> s@ == decode_utf8(until_nul(raw@)),
{
    let b = raw.as_slice();
    let mut len: usize = 0;
    while len < b.len() && b[len] != 0
        invariant
            len <= b@.len(),
            forall|k: int| 0 <= k < len ==> b@[k] != 0,
        decreases b@.len() - len,
    {
        len = len + 1;
    }
    proof {
        lemma_until_nul_take(b@, len as int);
    }
    let head = &b[0..len];
    assert(head@ =~= b@.take(len as int));
    lossy_string(head)
}

/// The report from one `uname(2)` answer.
pub fn collect(u: &Utsname, privileged: bool) -> (r: Report)
    ensures
        r.hostname@ == lossy_text(until_nul(u.nodename@)),
        r.kernel_release@ == lossy_text(until_nul(u.release@)),
        r.os@ == "linux"@,
        r.arch@ == lossy_text(until_nul(u.machine@)),
        r.privileged == privileged,
        valid_utf8(until_nul(u.nodename@)) ==> r.hostname@ == decode_utf8(until_nul(u.nodename@)),
        valid_utf8(until_nul(u.release@)) ==> r.kernel_release@ == decode_utf8(until_nul(u.release@)),
        valid_utf8(until_nul(u.machine@)) ==> r.arch@ == decode_utf8(until_nul(u.machine@)),
{
    Report {
        hostname: field(&u.nodename),
        kernel_release: field(&u.release),
        os: String::from_str("linux"),
        arch: field(&u.machine),
        privileged,
    }
}

} // verus!
