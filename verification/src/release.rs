//! The release check: a binary fit to publish names no path of the machine
//! that built it.

use vstd::prelude::*;

use vstd::utf8::encode_utf8;

use crate::mountinfo::{byte_views, split_bytes};
use crate::path::{copy_bytes, is_absolute, join_bytes, join_path};
use crate::system_info::{lossy_string, lossy_text};
use crate::text::{
    chars_of, find_prefixed_index, find_stripped, lines, lines_of, skip_chars, split_chars, split_on,
    string_of, views, words, words_of,
};

verus! {

/// `needle` occurs somewhere in `bytes`.
pub open spec fn occurs_in(bytes: Seq<u8>, needle: Seq<u8>) -> bool {
    exists|i: int| 0 <= i && i + needle.len() <= bytes.len() && #[trigger] bytes.subrange(i, i + needle.len()) == needle
}

/// The index of the first rule whose path occurs in `bytes`.
pub open spec fn first_leak(bytes: Seq<u8>, rules: Seq<(Vec<u8>, &str)>) -> Option<int>
    decreases rules.len(),
{
    if rules.len() == 0 {
        None
    } else if occurs_in(bytes, rules[0].0@) {
        Some(0)
    } else {
        match first_leak(bytes, rules.drop_first()) {
            Some(i) => Some(i + 1),
            None => None,
        }
    }
}

/// The check fails closed: it finds nothing exactly when no rule's path
/// occurs anywhere in the bytes, and what it finds is the first rule whose
/// path does.
pub proof fn lemma_first_leak_is_first(bytes: Seq<u8>, rules: Seq<(Vec<u8>, &str)>)
    ensures
        first_leak(bytes, rules) is None <==> forall|i: int| 0 <= i < rules.len() ==> !occurs_in(bytes, #[trigger] rules[i].0@),
        first_leak(bytes, rules) matches Some(k) ==> 0 <= k < rules.len() && occurs_in(bytes, rules[k].0@)
            && forall|i: int| 0 <= i < k ==> !occurs_in(bytes, #[trigger] rules[i].0@),
    decreases rules.len(),
{
    if rules.len() > 0 {
        let rest = rules.drop_first();
        lemma_first_leak_is_first(bytes, rest);
        assert forall|i: int| 1 <= i < rules.len() implies #[trigger] rules[i] == rest[i - 1] by {}
        if !occurs_in(bytes, rules[0].0@) {
            if first_leak(bytes, rest) is None {
                assert forall|i: int| 0 <= i < rules.len() implies !occurs_in(bytes, #[trigger] rules[i].0@) by {
                    if i > 0 {
                        assert(rules[i] == rest[i - 1]);
                    }
                }
            } else {
                let k = first_leak(bytes, rest).unwrap();
                assert(rules[k + 1] == rest[k]);
                assert forall|i: int| 0 <= i < k + 1 implies !occurs_in(bytes, #[trigger] rules[i].0@) by {
                    if i > 0 {
                        assert(rules[i] == rest[i - 1]);
                    }
                }
            }
        }
    }
}

/// Whether `needle` occurs in `bytes`.
fn occurs(bytes: &[u8], needle: &Vec<u8>) -> (r: bool)
    requires
        needle@.len() > 0,
    ensures
        r == occurs_in(bytes@, needle@),
{
    if needle.len() > bytes.len() {
        return false;
    }
    let mut i: usize = 0;
    let last = bytes.len() - needle.len();
    while i <= last
        invariant
            bytes@.len() <= usize::MAX,
            needle@.len() <= bytes@.len(),
            needle@.len() > 0,
            last == bytes@.len() - needle@.len(),
            i <= last + 1,
            forall|k: int| 0 <= k < i ==> #[trigger] bytes@.subrange(k, k + needle@.len()) != needle@,
        decreases bytes@.len() - i,
    {
        let mut j: usize = 0;
        let mut same = true;
        while j < needle.len()
            invariant
                bytes@.len() <= usize::MAX,
                i <= last,
                last == bytes@.len() - needle@.len(),
                i + needle@.len() <= bytes@.len(),
                needle@.len() > 0,
                j <= needle@.len(),
                same == forall|m: int| 0 <= m < j ==> bytes@[i + m] == needle@[m],
            decreases needle@.len() - j,
        {
            if bytes[i + j] != needle[j] {
                same = false;
            }
            j = j + 1;
        }
        if same {
            assert(bytes@.subrange(i as int, i + needle@.len()) =~= needle@);
            return true;
        }
        proof {
            let m = choose|m: int| 0 <= m < needle@.len() && bytes@[i + m] != needle@[m];
            assert(bytes@.subrange(i as int, i + needle@.len())[m] != needle@[m]);
        }
        i = i + 1;
    }
    proof {
        if occurs_in(bytes@, needle@) {
            let k = choose|k: int| 0 <= k && k + needle@.len() <= bytes@.len() && #[trigger] bytes@.subrange(k, k + needle@.len()) == needle@;
            assert(k < i);
        }
    }
    false
}

/// The first remapped-away path still present in `bytes`, if any. Every
/// rule's path is non-empty.
pub fn leaked_path<'a>(bytes: &[u8], rules: &'a [(Vec<u8>, &str)]) -> (r: Option<&'a Vec<u8>>)
    requires
        forall|i: int| 0 <= i < rules@.len() ==> #[trigger] rules@[i].0@.len() > 0,
    ensures
        match first_leak(bytes@, rules@) {
            Some(i) => r == Some(&rules@[i].0),
            None => r is None,
        },
{
    let mut i: usize = 0;
    assert(rules@.skip(0) =~= rules@);
    while i < rules.len()
        invariant
            i <= rules@.len(),
            forall|k: int| 0 <= k < rules@.len() ==> #[trigger] rules@[k].0@.len() > 0,
            first_leak(bytes@, rules@) == match first_leak(bytes@, rules@.skip(i as int)) {
                Some(j) => Some(j + i),
                None => None::<int>,
            },
        decreases rules@.len() - i,
    {
        let ghost rest = rules@.skip(i as int);
        proof {
            assert(rest[0] == rules@[i as int]);
            assert(rest.drop_first() =~= rules@.skip(i as int + 1));
        }
        if occurs(bytes, &rules[i].0) {
            return Some(&rules[i].0);
        }
        i = i + 1;
    }
    None
}

/// The views of a sequence of strings.
pub open spec fn string_views(v: Seq<String>) -> Seq<Seq<char>> {
    v.map_values(|s: String| s@)
}

/// The pieces that are not empty, in order.
pub open spec fn nonempty_pieces(ps: Seq<Seq<char>>) -> Seq<Seq<char>>
    decreases ps.len(),
{
    if ps.len() == 0 {
        ps
    } else {
        let r = nonempty_pieces(ps.drop_last());
        if ps.last().len() > 0 { r.push(ps.last()) } else { r }
    }
}

/// The rustflags a build already carries: `CARGO_ENCODED_RUSTFLAGS` split
/// on the unit separator, empty pieces dropped; or else `RUSTFLAGS` split
/// on white space; or else none.
pub open spec fn rustflags_of(encoded: Option<Seq<char>>, plain: Option<Seq<char>>) -> Seq<Seq<char>> {
    match encoded {
        Some(e) => nonempty_pieces(split_on(e, '\u{1f}')),
        None => match plain {
            Some(p) => words(p),
            None => Seq::empty(),
        },
    }
}

/// The rustflags a release build inherits, given the values of
/// `CARGO_ENCODED_RUSTFLAGS` and `RUSTFLAGS` where they are set, so that it
/// adds to them rather than silently discarding them.
pub fn inherited_rustflags(encoded: Option<&str>, plain: Option<&str>) -> (r: Vec<String>)
    ensures
        string_views(r@) == rustflags_of(
            match encoded { Some(e) => Some(e@), None => None },
            match plain { Some(p) => Some(p@), None => None },
        ),
{
    let mut r: Vec<String> = Vec::new();
    match encoded {
        Some(e) => {
            let ps = split_chars(&chars_of(e), '\u{1f}');
            let mut i: usize = 0;
            while i < ps.len()
                invariant
                    i <= ps@.len(),
                    string_views(r@) == nonempty_pieces(views(ps@).take(i as int)),
                decreases ps@.len() - i,
            {
                proof {
                    assert(views(ps@).take(i as int + 1).drop_last() =~= views(ps@).take(i as int));
                    assert(views(ps@)[i as int] == ps@[i as int]@);
                }
                if ps[i].len() > 0 {
                    let ghost before = r@;
                    r.push(string_of(&ps[i]));
                    proof { assert(string_views(r@) =~= string_views(before).push(ps@[i as int]@)); }
                }
                i = i + 1;
            }
            assert(views(ps@).take(ps@.len() as int) =~= views(ps@));
        },
        None => match plain {
            Some(p) => {
                let ws = words_of(&chars_of(p));
                let mut i: usize = 0;
                while i < ws.len()
                    invariant
                        i <= ws@.len(),
                        string_views(r@) == views(ws@).take(i as int),
                    decreases ws@.len() - i,
                {
                    let ghost before = r@;
                    r.push(string_of(&ws[i]));
                    proof {
                        assert(string_views(r@) =~= string_views(before).push(ws@[i as int]@));
                        assert(views(ws@).take(i as int + 1) =~= views(ws@).take(i as int).push(ws@[i as int]@));
                    }
                    i = i + 1;
                }
                assert(views(ws@).take(ws@.len() as int) =~= views(ws@));
            },
            None => {
                assert(string_views(r@) =~= Seq::<Seq<char>>::empty());
            },
        },
    }
    r
}

/// `--remap-path-prefix=<from>=<to>`, with `from` shown as `Path::display`
/// shows it: as UTF-8, lossily.
pub fn remap_flag(from: &[u8], to: &str) -> (s: String)
    ensures
        s@ == "--remap-path-prefix="@ + lossy_text(from@) + "="@ + to@,
{
    let mut s = String::from_str("--remap-path-prefix=");
    let shown = lossy_string(from);
    s.append(shown.as_str());
    s.append("=");
    s.append(to);
    s
}

/// The runs between separators that name something: not empty, not `.`.
pub open spec fn normal_components(parts: Seq<Seq<u8>>) -> Seq<Seq<u8>>
    decreases parts.len(),
{
    if parts.len() == 0 {
        parts
    } else {
        let r = normal_components(parts.drop_last());
        let c = parts.last();
        if c.len() > 0 && c != seq![46u8] { r.push(c) } else { r }
    }
}

/// What `Path::components` yields on Unix, each as bytes: `/` for the root
/// directory, `.` for a current-directory component that leads a relative
/// path, then every other component.
pub open spec fn path_components(p: Seq<u8>) -> Seq<Seq<u8>> {
    let normal = normal_components(split_on(p, 47u8));
    if is_absolute(p) {
        seq![seq![47u8]] + normal
    } else if p.len() > 0 && p[0] == 46 && (p.len() == 1 || p[1] == 47) {
        seq![seq![46u8]] + normal
    } else {
        normal
    }
}

/// `Path::starts_with`: `base`'s components lead `p`'s, whole components
/// only.
pub open spec fn path_starts_with(p: Seq<u8>, base: Seq<u8>) -> bool {
    let a = path_components(p);
    let b = path_components(base);
    b.len() <= a.len() && a.take(b.len() as int) == b
}

/// The prefixes a release build remaps, and what to: `$HOME` first, so
/// that anything beneath it can override it, then `$CARGO_HOME` and
/// `$RUSTUP_HOME` (beneath home by default), the workspace root, and the
/// target directory when it lies outside the root. `None` when home is not
/// an absolute path longer than `/`.
pub open spec fn remaps_of(
    home: Option<Seq<u8>>,
    cargo_home: Option<Seq<u8>>,
    rustup_home: Option<Seq<u8>>,
    root: Seq<u8>,
    target_dir: Seq<u8>,
) -> Option<Seq<(Seq<u8>, Seq<char>)>> {
    match home {
        None => None,
        Some(h) => if !(is_absolute(h) && h.len() > 1) {
            None
        } else {
            let cargo = match cargo_home { Some(c) => c, None => join_path(h, encode_utf8(".cargo"@)) };
            let rustup = match rustup_home { Some(r) => r, None => join_path(h, encode_utf8(".rustup"@)) };
            let rules = seq![(h, "/home"@), (cargo, "/cargo"@), (rustup, "/rustup"@), (root, "/build"@)];
            Some(if path_starts_with(target_dir, root) { rules } else { rules.push((target_dir, "/build/target"@)) })
        },
    }
}

pub open spec fn rule_views(v: Seq<(Vec<u8>, &str)>) -> Seq<(Seq<u8>, Seq<char>)> {
    v.map_values(|r: (Vec<u8>, &str)| (r.0@, r.1@))
}

fn bytes_eq(a: &Vec<u8>, b: &Vec<u8>) -> (r: bool)
    ensures
        r == (a@ == b@),
{
    if a.len() != b.len() {
        return false;
    }
    let mut i: usize = 0;
    while i < a.len()
        invariant
            i <= a@.len(),
            a@.len() == b@.len(),
            forall|k: int| 0 <= k < i ==> a@[k] == b@[k],
        decreases a@.len() - i,
    {
        if a[i] != b[i] {
            return false;
        }
        i = i + 1;
    }
    assert(a@ =~= b@);
    true
}

fn components(p: &[u8]) -> (r: Vec<Vec<u8>>)
    ensures
        byte_views(r@) == path_components(p@),
{
    let parts = split_bytes(p, 47);
    let mut r: Vec<Vec<u8>> = Vec::new();
    if p.len() > 0 && p[0] == 47 {
        let root = vec![47u8];
        assert(root@ =~= seq![47u8]);
        r.push(root);
        assert(byte_views(r@) =~= seq![seq![47u8]]);
    } else if p.len() > 0 && p[0] == 46 && (p.len() == 1 || p[1] == 47) {
        let cur = vec![46u8];
        assert(cur@ =~= seq![46u8]);
        r.push(cur);
        assert(byte_views(r@) =~= seq![seq![46u8]]);
    } else {
        assert(byte_views(r@) =~= Seq::<Seq<u8>>::empty());
    }
    let ghost lead = byte_views(r@);
    assert(lead == if is_absolute(p@) {
        seq![seq![47u8]]
    } else if p@.len() > 0 && p@[0] == 46 && (p@.len() == 1 || p@[1] == 47) {
        seq![seq![46u8]]
    } else {
        Seq::<Seq<u8>>::empty()
    });
    assert(lead + normal_components(byte_views(parts@).take(0)) =~= lead);
    let mut i: usize = 0;
    while i < parts.len()
        invariant
            i <= parts@.len(),
            byte_views(r@) == lead + normal_components(byte_views(parts@).take(i as int)),
        decreases parts@.len() - i,
    {
        proof {
            assert(byte_views(parts@).take(i as int + 1).drop_last() =~= byte_views(parts@).take(i as int));
            assert(byte_views(parts@)[i as int] == parts@[i as int]@);
        }
        let c = &parts[i];
        let dot = c.len() == 1 && c[0] == 46;
        proof {
            if c@ == seq![46u8] {
                assert(c@.len() == 1 && c@[0] == 46);
            }
            if c@.len() == 1 && c@[0] == 46 {
                assert(c@ =~= seq![46u8]);
            }
        }
        if c.len() > 0 && !dot {
            let ghost before = r@;
            r.push(copy_bytes(c.as_slice()));
            proof { assert(byte_views(r@) =~= byte_views(before).push(c@)); }
        }
        i = i + 1;
    }
    assert(byte_views(parts@).take(parts@.len() as int) =~= byte_views(parts@));
    r
}

/// `Path::starts_with` on Unix paths given as bytes.
pub fn starts_with(p: &[u8], base: &[u8]) -> (r: bool)
    ensures
        r == path_starts_with(p@, base@),
{
    let a = components(p);
    let b = components(base);
    if b.len() > a.len() {
        return false;
    }
    let mut i: usize = 0;
    while i < b.len()
        invariant
            i <= b@.len(),
            b@.len() <= a@.len(),
            byte_views(a@) == path_components(p@),
            byte_views(b@) == path_components(base@),
            forall|k: int| 0 <= k < i ==> #[trigger] byte_views(a@)[k] == byte_views(b@)[k],
        decreases b@.len() - i,
    {
        proof {
            assert(byte_views(a@)[i as int] == a@[i as int]@);
            assert(byte_views(b@)[i as int] == b@[i as int]@);
        }
        if !bytes_eq(&a[i], &b[i]) {
            proof {
                let t = byte_views(a@).take(b@.len() as int);
                assert(t[i as int] == byte_views(a@)[i as int]);
                assert(t[i as int] != byte_views(b@)[i as int]);
                assert(t != byte_views(b@));
            }
            return false;
        }
        i = i + 1;
    }
    assert(byte_views(a@).take(b@.len() as int) =~= byte_views(b@));
    true
}

/// The remap rules for a release build, given `$HOME`, `$CARGO_HOME` and
/// `$RUSTUP_HOME` where they are set, the workspace root and the target
/// directory. Fails when home is unset, relative, or `/`.
pub fn remaps(
    home: Option<Vec<u8>>,
    cargo_home: Option<Vec<u8>>,
    rustup_home: Option<Vec<u8>>,
    root: &[u8],
    target_dir: &[u8],
) -> (r: Result<Vec<(Vec<u8>, &'static str)>, &'static str>)
    ensures
        ({
            let expected = remaps_of(
                match home { Some(h) => Some(h@), None => None },
                match cargo_home { Some(c) => Some(c@), None => None },
                match rustup_home { Some(c) => Some(c@), None => None },
                root@,
                target_dir@,
            );
            match r {
                Ok(rules) => expected == Some(rule_views(rules@)),
                Err(e) => expected is None && e@ == "HOME is unset or not an absolute path"@,
            }
        }),
{
    let h = match home {
        Some(h) => h,
        None => return Err("HOME is unset or not an absolute path"),
    };
    if !(h.len() > 1 && h[0] == 47) {
        return Err("HOME is unset or not an absolute path");
    }
    let cargo = match cargo_home {
        Some(c) => c,
        None => join_bytes(h.as_slice(), ".cargo".as_bytes()),
    };
    let rustup = match rustup_home {
        Some(c) => c,
        None => join_bytes(h.as_slice(), ".rustup".as_bytes()),
    };
    let beneath = starts_with(target_dir, root);
    let mut rules: Vec<(Vec<u8>, &'static str)> = Vec::new();
    rules.push((h, "/home"));
    rules.push((cargo, "/cargo"));
    rules.push((rustup, "/rustup"));
    rules.push((copy_bytes(root), "/build"));
    if !beneath {
        rules.push((copy_bytes(target_dir), "/build/target"));
    }
    assert(rule_views(rules@) =~= remaps_of(
        Some(h@),
        match cargo_home { Some(c) => Some(c@), None => None },
        match rustup_home { Some(c) => Some(c@), None => None },
        root@,
        target_dir@,
    ).unwrap());
    Ok(rules)
}

/// The host triple in what `rustc -vV` printed, read as text lossily: the
/// rest of the first line that starts `host: `.
pub open spec fn host_triple_of(stdout: Seq<u8>) -> Option<Seq<char>> {
    find_stripped(lines(lossy_text(stdout)), "host: "@)
}

/// The host triple from the output of `rustc -vV`.
pub fn host_triple(stdout: &[u8]) -> (r: Result<String, &'static str>)
    ensures
        match host_triple_of(stdout@) {
            Some(t) => r matches Ok(s) && s@ == t,
            None => r matches Err(e) && e@ == "rustc -vV reported no host triple"@,
        },
{
    let text = lossy_string(stdout);
    let ls = lines_of(&chars_of(text.as_str()));
    let prefix = chars_of("host: ");
    match find_prefixed_index(&ls, &prefix) {
        None => Err("rustc -vV reported no host triple"),
        Some(i) => {
            let rest = skip_chars(&ls[i], prefix.len());
            Ok(string_of(&rest))
        },
    }
}

/// The architecture a target triple names: the part before its first `-`.
pub open spec fn arch_of(triple: Seq<char>) -> Seq<char> {
    split_on(triple, '-')[0]
}

/// The architecture of a target triple, as the staging directory is named.
pub fn triple_arch(triple: &str) -> (r: String)
    ensures
        r@ == arch_of(triple@),
{
    let parts = split_chars(&chars_of(triple), '-');
    proof {
        crate::text::lemma_split_on_nonempty(triple@, '-');
        assert(views(parts@)[0] == parts@[0]@);
    }
    string_of(&parts[0])
}

} // verus!
