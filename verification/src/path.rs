//! Unix paths as the kernel takes them: bytes, not text.

use vstd::prelude::*;

verus! {

/// A Unix path is absolute when it starts with `/`.
pub open spec fn is_absolute(p: Seq<u8>) -> bool {
    p.len() > 0 && p[0] == 47
}

/// `dir` with the relative `name` appended as `Path::join` does: a `/`
/// between them unless `dir` is empty or already ends in one.
pub open spec fn join_path(dir: Seq<u8>, name: Seq<u8>) -> Seq<u8> {
    if dir.len() == 0 || dir.last() == 47 { dir + name } else { dir.push(47u8) + name }
}

/// A copy of `b`.
pub fn copy_bytes(b: &[u8]) -> (r: Vec<u8>)
    ensures
        r@ == b@,
{
    let mut r: Vec<u8> = Vec::new();
    let mut i: usize = 0;
    while i < b.len()
        invariant
            i <= b@.len(),
            r@ == b@.take(i as int),
        decreases b@.len() - i,
    {
        r.push(b[i]);
        i = i + 1;
    }
    assert(r@ =~= b@);
    r
}

/// `dir` joined with the relative `name`.
pub fn join_bytes(dir: &[u8], name: &[u8]) -> (r: Vec<u8>)
    ensures
        r@ == join_path(dir@, name@),
{
    let mut r = copy_bytes(dir);
    if !(dir.len() == 0 || dir[dir.len() - 1] == 47) {
        r.push(47);
    }
    let mut i: usize = 0;
    let ghost start = r@;
    while i < name.len()
        invariant
            i <= name@.len(),
            r@ == start + name@.take(i as int),
        decreases name@.len() - i,
    {
        r.push(name[i]);
        i = i + 1;
    }
    assert(name@.take(name@.len() as int) =~= name@);
    r
}

} // verus!
