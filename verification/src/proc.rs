//! Parsers for the kernel virtual-file formats a probe reads.
//!
//! This module knows how those files are *shaped*; it does not know what any
//! tool wants to say about them. Every parser takes the file's text and
//! returns `Option`: what a `None` becomes is the caller's concern.

use vstd::prelude::*;

use crate::text::{
    chars_of, find_prefixed, find_prefixed_index, find_stripped, lines, lines_of, parse_u64,
    parse_u64_chars, skip_chars, views, words, words_of,
};

verus! {

/// A per-CPU line of `/proc/stat`: `cpu` followed by a digit.
pub open spec fn is_cpu_line(l: Seq<char>) -> bool {
    l.len() >= 4 && l[0] == 'c' && l[1] == 'p' && l[2] == 'u' && '0' <= l[3] <= '9'
}

/// How many of `ls` are per-CPU lines.
pub open spec fn count_cpu_lines(ls: Seq<Seq<char>>) -> nat
    decreases ls.len(),
{
    if ls.len() == 0 {
        0
    } else {
        count_cpu_lines(ls.drop_last()) + if is_cpu_line(ls.last()) { 1nat } else { 0nat }
    }
}

/// Count the per-CPU lines in `/proc/stat` — `cpu0`, `cpu1`, … — skipping the
/// leading `cpu` aggregate line.
pub fn count_cpus(stat: &str) -> (n: u32)
    ensures
        n == count_cpu_lines(lines(stat@)) as u32,
{
    let text = chars_of(stat);
    let ls = lines_of(&text);
    let mut count: usize = 0;
    let mut i: usize = 0;
    while i < ls.len()
        invariant
            i <= ls@.len(),
            count == count_cpu_lines(views(ls@).take(i as int)),
            count <= i,
        decreases ls@.len() - i,
    {
        let l = &ls[i];
        proof {
            assert(views(ls@).take(i as int + 1).drop_last() =~= views(ls@).take(i as int));
            assert(views(ls@)[i as int] == l@);
        }
        if l.len() >= 4 && l[0] == 'c' && l[1] == 'p' && l[2] == 'u' && '0' <= l[3] && l[3] <= '9' {
            count = count + 1;
        }
        i = i + 1;
    }
    assert(views(ls@).take(ls@.len() as int) =~= views(ls@));
    count as u32
}

/// What `/proc/stat` says about boot time: the first `btime ` line's first
/// word, as a `u64`.
pub open spec fn btime_of(stat: Seq<char>) -> Option<u64> {
    match find_stripped(lines(stat), "btime "@) {
        None => None,
        Some(rest) => if words(rest).len() == 0 { None } else { parse_u64(words(rest)[0]) },
    }
}

/// The first word of `s` as a `u64`.
fn first_word_u64(s: &Vec<char>) -> (r: Option<u64>)
    ensures
        r == (if words(s@).len() == 0 { None } else { parse_u64(words(s@)[0]) }),
{
    let ws = words_of(s);
    if ws.len() == 0 {
        return None;
    }
    assert(views(ws@)[0] == ws@[0]@);
    parse_u64_chars(&ws[0])
}

/// Boot time from `/proc/stat`, as seconds since the Unix epoch.
///
/// Adding `/proc/uptime` to this gives the target's own idea of the current
/// wall-clock time, from files already being read.
pub fn stat_btime(stat: &str) -> (r: Option<u64>)
    ensures
        r == btime_of(stat@),
{
    let text = chars_of(stat);
    let ls = lines_of(&text);
    let prefix = chars_of("btime ");
    match find_prefixed_index(&ls, &prefix) {
        None => None,
        Some(i) => {
            let rest = skip_chars(&ls[i], prefix.len());
            first_word_u64(&rest)
        },
    }
}

/// What `/proc/meminfo` says about `key`, in bytes: the first line that
/// starts with `key` and a colon, its first word read as KiB.
pub open spec fn meminfo_of(meminfo: Seq<char>, key: Seq<char>) -> Option<u64> {
    match find_stripped(lines(meminfo), key.push(':')) {
        None => None,
        Some(rest) => if words(rest).len() == 0 {
            None
        } else {
            match parse_u64(words(rest)[0]) {
                None => None,
                Some(kib) => if kib * 1024 <= u64::MAX { Some((kib * 1024) as u64) } else { None },
            }
        },
    }
}

/// Pull one `/proc/meminfo` field, converting to bytes.
///
/// The file labels its values `kB` but reports KiB. Correcting that here,
/// once, is the whole point: the alternative is every consumer downstream
/// re-learning the same footgun.
pub fn meminfo_bytes(meminfo: &str, key: &str) -> (r: Option<u64>)
    ensures
        r == meminfo_of(meminfo@, key@),
{
    let text = chars_of(meminfo);
    let ls = lines_of(&text);
    let mut prefix = chars_of(key);
    prefix.push(':');
    match find_prefixed_index(&ls, &prefix) {
        None => None,
        Some(i) => {
            let rest = skip_chars(&ls[i], prefix.len());
            match first_word_u64(&rest) {
                None => None,
                Some(kib) => kib.checked_mul(1024),
            }
        },
    }
}

/// The token of a pressure-stall file that follows `key` on the first line
/// that starts with `line`.
pub open spec fn psi_token_of(text: Seq<char>, line: Seq<char>, key: Seq<char>) -> Option<Seq<char>> {
    match find_prefixed(lines(text), line) {
        None => None,
        Some(l) => find_stripped(words(l), key),
    }
}

/// A pressure-stall file is two lines, `some` and `full`, each of the form
/// `some avg10=0.00 avg60=0.00 avg300=0.00 total=1714525`.
///
/// `line` selects which of the two ("some " or "full "), `key` which token
/// ("avg10=", "total=").
pub fn psi_token(text: &str, line: &str, key: &str) -> (r: Option<Vec<char>>)
    ensures
        match r {
            Some(t) => psi_token_of(text@, line@, key@) == Some(t@),
            None => psi_token_of(text@, line@, key@) is None,
        },
{
    let chars = chars_of(text);
    let ls = lines_of(&chars);
    let l = match find_prefixed_index(&ls, &chars_of(line)) {
        None => return None,
        Some(i) => i,
    };
    let ws = words_of(&ls[l]);
    let k = chars_of(key);
    match find_prefixed_index(&ws, &k) {
        None => None,
        Some(j) => Some(skip_chars(&ws[j], k.len())),
    }
}

/// Cumulative stall microseconds since boot for one of the two lines.
pub fn psi_total(text: &str, line: &str) -> (r: Option<u64>)
    ensures
        r == (match psi_token_of(text@, line@, "total="@) {
            Some(t) => parse_u64(t),
            None => None,
        }),
{
    match psi_token(text, line, "total=") {
        Some(t) => parse_u64_chars(&t),
        None => None,
    }
}

} // verus!
