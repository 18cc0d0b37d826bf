//! Text as the parsers see it: the characters of a string, the lines and
//! whitespace-separated words the standard library would give, and ASCII
//! bytes turned back into strings.

use vstd::prelude::*;
use vstd::utf8::*;

verus! {

/// The characters an ASCII byte sequence stands for.
pub open spec fn ascii_chars(bytes: Seq<u8>) -> Seq<char> {
    Seq::new(bytes.len(), |i: int| bytes[i] as char)
}

pub open spec fn all_ascii(bytes: Seq<u8>) -> bool {
    forall|i: int| 0 <= i < bytes.len() ==> #[trigger] bytes[i] < 128
}

/// ASCII bytes are valid UTF-8, and decode to one character per byte.
pub proof fn lemma_ascii_decodes(bytes: Seq<u8>)
    requires
        all_ascii(bytes),
    ensures
        valid_utf8(bytes),
        decode_utf8(bytes) == ascii_chars(bytes),
{
    let chars = ascii_chars(bytes);
    assert(is_ascii_chars(chars)) by {
        assert forall|i: int| 0 <= i < chars.len() implies '\0' <= #[trigger] chars[i] <= '\u{7f}' by {
            assert(bytes[i] < 128);
        }
    }
    is_ascii_chars_encode_utf8(chars);
    assert forall|i: int| 0 <= i < bytes.len() implies #[trigger] encode_utf8(chars)[i] == bytes[i] by {
        let b = bytes[i];
        assert(chars[i] == b as char);
        assert((b as char) as u8 == b);
    }
    assert(encode_utf8(chars) =~= bytes);
    encode_utf8_valid_utf8(chars);
    encode_utf8_decode_utf8(chars);
}

/// `String::from_utf8`: the bytes as a string when they are valid UTF-8.
/// The standard library documents that it succeeds exactly on valid UTF-8
/// and that the string then holds those bytes; `valid_utf8` and
/// `decode_utf8` are vstd's statement of the encoding.
#[verifier::external_body]
pub(crate) fn utf8_string(bytes: Vec<u8>) -> (r: Option<String>)
    ensures
        r is Some <==> valid_utf8(bytes@),
        r matches Some(s) ==> s@ == decode_utf8(bytes@),
{
    String::from_utf8(bytes).ok()
}

/// `String::from_iter` over characters: the string holding exactly
/// `chars`, in order, as `FromIterator<char> for String` documents.
#[verifier::external_body]
pub(crate) fn string_of(chars: &Vec<char>) -> (s: String)
    ensures
        s@ == chars@,
{
    chars.iter().collect()
}

/// A string made of ASCII bytes.
pub fn ascii_string(bytes: Vec<u8>) -> (s: String)
    requires
        all_ascii(bytes@),
    ensures
        s@ == ascii_chars(bytes@),
{
    proof {
        lemma_ascii_decodes(bytes@);
    }
    let ghost b = bytes@;
    match utf8_string(bytes) {
        Some(s) => s,
        None => {
            proof {
                assert(false);
            }
            String::new()
        },
    }
}


/// Whether two strings hold the same characters.
pub fn str_eq(a: &str, b: &str) -> (r: bool)
    ensures
        r == (a@ == b@),
{
    let x = a.as_bytes();
    let y = b.as_bytes();
    proof {
        encode_utf8_decode_utf8(a@);
        encode_utf8_decode_utf8(b@);
    }
    if x.len() != y.len() {
        return false;
    }
    let mut i: usize = 0;
    while i < x.len()
        invariant
            i <= x@.len(),
            x@.len() == y@.len(),
            x@ == encode_utf8(a@),
            y@ == encode_utf8(b@),
            forall|j: int| 0 <= j < i ==> x@[j] == y@[j],
        decreases x@.len() - i,
    {
        if x[i] != y[i] {
            return false;
        }
        i = i + 1;
    }
    assert(x@ =~= y@);
    true
}


/// The characters of a string, in order.
pub fn chars_of(s: &str) -> (v: Vec<char>)
    ensures
        v@ == s@,
{
    broadcast use vstd::string::axiom_spec_iter;
    let mut v: Vec<char> = Vec::new();
    for c in it: s.chars()
        invariant
            v@ == it.seq().take(it.index() as int),
            it.seq() == s@,
    {
        v.push(c);
    }
    v
}


/// The pieces of `s` between occurrences of `sep`, as `str::split` gives
/// them: `n` separators make `n + 1` pieces, empty ones included.
pub open spec fn split_on<A>(s: Seq<A>, sep: A) -> Seq<Seq<A>>
    decreases s.len(),
{
    if s.len() == 0 {
        seq![Seq::empty()]
    } else {
        let r = split_on(s.drop_last(), sep);
        if s.last() == sep {
            r.push(Seq::empty())
        } else {
            r.update(r.len() - 1, r.last().push(s.last()))
        }
    }
}

/// Splitting always yields at least one piece, the empty sequence too.
pub(crate) proof fn lemma_split_on_nonempty<A>(s: Seq<A>, sep: A)
    ensures
        split_on(s, sep).len() >= 1,
    decreases s.len(),
{
    if s.len() > 0 {
        lemma_split_on_nonempty(s.drop_last(), sep);
    }
}

/// The views of a sequence of character vectors.
pub open spec fn views(v: Seq<Vec<char>>) -> Seq<Seq<char>> {
    v.map_values(|x: Vec<char>| x@)
}

/// `s` split on `sep`.
pub fn split_chars(s: &Vec<char>, sep: char) -> (r: Vec<Vec<char>>)
    ensures
        views(r@) == split_on(s@, sep),
{
    let mut done: Vec<Vec<char>> = Vec::new();
    let mut cur: Vec<char> = Vec::new();
    let mut i: usize = 0;
    while i < s.len()
        invariant
            i <= s@.len(),
            views(done@).push(cur@) == split_on(s@.take(i as int), sep),
        decreases s@.len() - i,
    {
        let c = s[i];
        proof {
            assert(s@.take(i as int + 1).drop_last() =~= s@.take(i as int));
            lemma_split_on_nonempty(s@.take(i as int), sep);
        }
        if c == sep {
            done.push(cur);
            cur = Vec::new();
            proof {
                assert(views(done@).push(cur@) =~= split_on(s@.take(i as int + 1), sep));
            }
        } else {
            let ghost old_done = done@;
            cur.push(c);
            proof {
                assert(views(done@).push(cur@) =~= split_on(s@.take(i as int + 1), sep));
            }
        }
        i = i + 1;
    }
    assert(s@.take(s@.len() as int) =~= s@);
    done.push(cur);
    done
}

/// One trailing carriage return removed, as `str::lines` does for a line
/// that ended in `\r\n`.
pub open spec fn strip_cr(line: Seq<char>) -> Seq<char> {
    if line.len() > 0 && line.last() == '\r' { line.drop_last() } else { line }
}

/// The lines of `s` as `str::lines` gives them: split at `\n`, with a final
/// empty piece dropped, and a `\r` before each `\n` removed.
pub open spec fn lines(s: Seq<char>) -> Seq<Seq<char>> {
    let parts = split_on(s, '\n');
    let ended = parts.take(parts.len() - 1).map_values(|l: Seq<char>| strip_cr(l));
    if parts.last().len() == 0 { ended } else { ended.push(parts.last()) }
}

/// A copy of a character vector.
pub fn clone_chars(v: &Vec<char>) -> (r: Vec<char>)
    ensures
        r@ == v@,
{
    let r = v.clone();
    assert(r@ =~= v@);
    r
}

fn strip_cr_vec(line: Vec<char>) -> (r: Vec<char>)
    ensures
        r@ == strip_cr(line@),
{
    let mut line = line;
    if line.len() > 0 && line[line.len() - 1] == '\r' {
        line.pop();
    }
    line
}

/// The lines of `s`.
pub fn lines_of(s: &Vec<char>) -> (r: Vec<Vec<char>>)
    ensures
        views(r@) == lines(s@),
{
    let parts = split_chars(s, '\n');
    proof {
        lemma_split_on_nonempty(s@, '\n');
    }
    let n = parts.len();
    let mut r: Vec<Vec<char>> = Vec::new();
    let mut i: usize = 0;
    while i + 1 < n
        invariant
            n == parts@.len(),
            n >= 1,
            i < n,
            views(parts@) == split_on(s@, '\n'),
            views(r@) == split_on(s@, '\n').take(i as int).map_values(|l: Seq<char>| strip_cr(l)),
        decreases n - i,
    {
        let ghost old_r = r@;
        proof {
            assert(views(parts@)[i as int] == parts@[i as int]@);
        }
        let line = strip_cr_vec(clone_chars(&parts[i]));
        r.push(line);
        proof {
            assert(views(r@) =~= views(old_r).push(line@));
            assert(views(r@) =~= split_on(s@, '\n').take(i as int + 1).map_values(|l: Seq<char>| strip_cr(l)));
        }
        i = i + 1;
    }
    let last = clone_chars(&parts[n - 1]);
    proof {
        assert(views(parts@)[n as int - 1] == parts@[n as int - 1]@);
    }
    if last.len() > 0 {
        let ghost old_r = r@;
        r.push(last);
        assert(views(r@) =~= views(old_r).push(last@));
        proof {
            assert(views(r@) =~= lines(s@));
        }
    }
    r
}


/// Unicode `White_Space`, which is what `char::is_whitespace` tests.
pub open spec fn is_white_space(c: char) -> bool {
    ||| '\t' <= c <= '\r'
    ||| c == ' '
    ||| c == '\u{85}'
    ||| c == '\u{a0}'
    ||| c == '\u{1680}'
    ||| '\u{2000}' <= c <= '\u{200a}'
    ||| c == '\u{2028}'
    ||| c == '\u{2029}'
    ||| c == '\u{202f}'
    ||| c == '\u{205f}'
    ||| c == '\u{3000}'
}

/// Whether `c` is white space.
pub fn is_whitespace(c: char) -> (r: bool)
    ensures
        r == is_white_space(c),
{
    ('\t' <= c && c <= '\r') || c == ' ' || c == '\u{85}' || c == '\u{a0}' || c == '\u{1680}'
        || ('\u{2000}' <= c && c <= '\u{200a}') || c == '\u{2028}' || c == '\u{2029}'
        || c == '\u{202f}' || c == '\u{205f}' || c == '\u{3000}'
}

/// The maximal runs of non-white-space characters, as
/// `str::split_whitespace` gives them.
pub open spec fn words(s: Seq<char>) -> Seq<Seq<char>>
    decreases s.len(),
{
    if s.len() == 0 {
        Seq::empty()
    } else {
        let w = words(s.drop_last());
        if is_white_space(s.last()) {
            w
        } else if s.len() >= 2 && !is_white_space(s[s.len() - 2]) {
            w.update(w.len() - 1, w.last().push(s.last()))
        } else {
            w.push(seq![s.last()])
        }
    }
}

proof fn lemma_words_nonempty_after_word_char(s: Seq<char>)
    requires
        s.len() >= 1,
        !is_white_space(s.last()),
    ensures
        words(s).len() >= 1,
    decreases s.len(),
{
    if s.len() >= 2 && !is_white_space(s[s.len() - 2]) {
        assert(s.drop_last().last() == s[s.len() - 2]);
        lemma_words_nonempty_after_word_char(s.drop_last());
    }
}

/// The whitespace-separated words of `s`.
pub fn words_of(s: &Vec<char>) -> (r: Vec<Vec<char>>)
    ensures
        views(r@) == words(s@),
{
    let mut done: Vec<Vec<char>> = Vec::new();
    let mut cur: Vec<char> = Vec::new();
    let mut i: usize = 0;
    while i < s.len()
        invariant
            i <= s@.len(),
            i > 0 && !is_white_space(s@[i - 1]) ==> cur@.len() > 0 && views(done@).push(cur@) == words(s@.take(i as int)),
            !(i > 0 && !is_white_space(s@[i - 1])) ==> cur@.len() == 0 && views(done@) == words(s@.take(i as int)),
        decreases s@.len() - i,
    {
        let c = s[i];
        let ghost prefix = s@.take(i as int + 1);
        proof {
            assert(prefix.drop_last() =~= s@.take(i as int));
        }
        if is_whitespace(c) {
            if cur.len() > 0 {
                done.push(cur);
                cur = Vec::new();
            }
        } else {
            let ghost old_cur = cur@;
            cur.push(c);
            proof {
                assert(prefix.last() == c);
                if i > 0 && !is_white_space(s@[i - 1]) {
                    assert(prefix[prefix.len() - 2] == s@[i - 1]);
                    let w = words(s@.take(i as int));
                    assert(w == views(done@).push(old_cur));
                    assert(words(prefix) == w.update(w.len() - 1, w.last().push(c)));
                    assert(cur@ == old_cur.push(c));
                    assert(w.last() == old_cur);
                    assert(w.len() - 1 == done@.len());
                    let lhs = views(done@).push(cur@);
                    let rhs = w.update(w.len() - 1, w.last().push(c));
                    assert forall|k: int| 0 <= k < lhs.len() implies lhs[k] == rhs[k] by {
                        if k < done@.len() {
                            assert(lhs[k] == views(done@)[k]);
                            assert(rhs[k] == w[k]);
                            assert(w[k] == views(done@).push(old_cur)[k]);
                        }
                    }
                    assert(lhs =~= rhs);
                } else {
                    if i > 0 {
                        assert(prefix[prefix.len() - 2] == s@[i - 1]);
                    }
                    assert(cur@ =~= seq![c]);
                    assert(words(prefix) == words(s@.take(i as int)).push(seq![c]));
                    assert(views(done@).push(cur@) =~= words(prefix));
                }
            }
        }
        i = i + 1;
    }
    assert(s@.take(s@.len() as int) =~= s@);
    if cur.len() > 0 {
        done.push(cur);
    }
    done
}

/// Whether `s` consists of ASCII digits only.
pub open spec fn all_digits(s: Seq<char>) -> bool {
    forall|i: int| 0 <= i < s.len() ==> '0' <= #[trigger] s[i] <= '9'
}

/// The number a string of decimal digits writes.
pub open spec fn digits_value(s: Seq<char>) -> int
    decreases s.len(),
{
    if s.len() == 0 {
        0
    } else {
        digits_value(s.drop_last()) * 10 + (s.last() as int - 48)
    }
}

/// The digits `str::parse` reads for an unsigned integer: everything after
/// an optional leading `+`.
pub open spec fn unsigned_digits(s: Seq<char>) -> Seq<char> {
    if s.len() > 0 && s[0] == '+' { s.drop_first() } else { s }
}

/// What `str::parse::<u64>` returns: the value of a non-empty run of
/// decimal digits, optionally preceded by `+`, when it fits.
pub open spec fn parse_u64(s: Seq<char>) -> Option<u64> {
    let d = unsigned_digits(s);
    if d.len() > 0 && all_digits(d) && digits_value(d) <= u64::MAX {
        Some(digits_value(d) as u64)
    } else {
        None
    }
}

/// What `str::parse::<u32>` returns.
pub open spec fn parse_u32(s: Seq<char>) -> Option<u32> {
    let d = unsigned_digits(s);
    if d.len() > 0 && all_digits(d) && digits_value(d) <= u32::MAX {
        Some(digits_value(d) as u32)
    } else {
        None
    }
}

proof fn lemma_digits_value_grows(s: Seq<char>, i: int)
    requires
        all_digits(s),
        0 <= i <= s.len(),
    ensures
        0 <= digits_value(s.take(i)) <= digits_value(s),
    decreases s.len() - i,
{
    if i < s.len() {
        lemma_digits_value_grows(s, i + 1);
        assert(s.take(i + 1).drop_last() =~= s.take(i));
    } else {
        assert(s.take(i) =~= s);
    }
    lemma_digits_value_nonneg(s.take(i));
}

proof fn lemma_digits_value_nonneg(s: Seq<char>)
    requires
        all_digits(s),
    ensures
        digits_value(s) >= 0,
    decreases s.len(),
{
    if s.len() > 0 {
        assert(all_digits(s.drop_last()));
        lemma_digits_value_nonneg(s.drop_last());
    }
}

/// The value of the decimal digits in `s[start..]`, if they are all digits,
/// there is at least one, and the value is at most `max`.
fn digits_upto(s: &Vec<char>, start: usize, max: u64) -> (r: Option<u64>)
    requires
        start <= s@.len(),
        max >= 9,
    ensures
        ({
            let d = s@.skip(start as int);
            r == if d.len() > 0 && all_digits(d) && digits_value(d) <= max {
                Some(digits_value(d) as u64)
            } else {
                None
            }
        }),
{
    let ghost d = s@.skip(start as int);
    if start >= s.len() {
        return None;
    }
    let mut v: u64 = 0;
    let mut i: usize = start;
    while i < s.len()
        invariant
            start <= i <= s@.len(),
            d == s@.skip(start as int),
            all_digits(s@.subrange(start as int, i as int)),
            v as int == digits_value(s@.subrange(start as int, i as int)),
            v <= max,
            max >= 9,
        decreases s@.len() - i,
    {
        let c = s[i];
        let ghost pre = s@.subrange(start as int, i as int + 1);
        proof {
            assert(pre.drop_last() =~= s@.subrange(start as int, i as int));
        }
        if !('0' <= c && c <= '9') {
            proof {
                assert(d[i - start] == c);
            }
            return None;
        }
        let digit = (c as u32 - 48) as u64;
        assert(all_digits(pre));
        if v > (max - digit) / 10 {
            proof {
                assert(digits_value(pre) > max) by (nonlinear_arith)
                    requires
                        digits_value(pre) == v * 10 + digit,
                        v > (max - digit) / 10,
                        digit <= 9,
                        digit <= max || v * 10 + digit > max,
                ;
                assert(pre =~= d.take(i - start + 1));
                if all_digits(d) {
                    lemma_digits_value_grows(d, i - start + 1);
                }
            }
            return None;
        }
        proof {
            assert(v * 10 + digit <= max) by (nonlinear_arith)
                requires
                    v <= (max - digit) / 10,
                    digit <= max,
            ;
        }
        v = v * 10 + digit;
        i = i + 1;
    }
    assert(s@.subrange(start as int, s@.len() as int) =~= d);
    Some(v)
}

/// `str::parse::<u64>` on the characters of `s`.
pub fn parse_u64_chars(s: &Vec<char>) -> (r: Option<u64>)
    ensures
        r == parse_u64(s@),
{
    let start: usize = if s.len() > 0 && s[0] == '+' { 1 } else { 0 };
    assert(s@.skip(start as int) =~= unsigned_digits(s@));
    digits_upto(s, start, u64::MAX)
}

/// `str::parse::<u32>` on the characters of `s`.
pub fn parse_u32_chars(s: &Vec<char>) -> (r: Option<u32>)
    ensures
        r == parse_u32(s@),
{
    let start: usize = if s.len() > 0 && s[0] == '+' { 1 } else { 0 };
    assert(s@.skip(start as int) =~= unsigned_digits(s@));
    proof {
        if all_digits(unsigned_digits(s@)) {
            lemma_digits_value_nonneg(unsigned_digits(s@));
        }
    }
    let max: u64 = 4_294_967_295;
    assert(max == u32::MAX);
    match digits_upto(s, start, max) {
        Some(v) => {
            Some(v as u32)
        },
        None => None,
    }
}

/// Whether two character vectors are equal.
pub fn chars_eq(a: &Vec<char>, b: &Vec<char>) -> (r: bool)
    ensures
        r == (a@ == b@),
{
    if a.len() != b.len() {
        return false;
    }
    let mut i: usize = 0;
    while i < a.len()
        invariant
            i <= a@.len(),
            a@.len() == b@.len(),
            forall|j: int| 0 <= j < i ==> a@[j] == b@[j],
        decreases a@.len() - i,
    {
        if a[i] != b[i] {
            return false;
        }
        i = i + 1;
    }
    assert(a@ =~= b@);
    true
}

/// Whether `s` begins with `prefix`.
pub fn starts_with(s: &Vec<char>, prefix: &Vec<char>) -> (r: bool)
    ensures
        r == (prefix@.len() <= s@.len() && s@.take(prefix@.len() as int) == prefix@),
{
    if prefix.len() > s.len() {
        return false;
    }
    let mut i: usize = 0;
    while i < prefix.len()
        invariant
            i <= prefix@.len() <= s@.len(),
            forall|j: int| 0 <= j < i ==> s@[j] == prefix@[j],
        decreases prefix@.len() - i,
    {
        if s[i] != prefix[i] {
            assert(s@.take(prefix@.len() as int)[i as int] != prefix@[i as int]);
            return false;
        }
        i = i + 1;
    }
    assert(s@.take(prefix@.len() as int) =~= prefix@);
    true
}

/// `s[from..]`.
pub fn skip_chars(s: &Vec<char>, from: usize) -> (r: Vec<char>)
    requires
        from <= s@.len(),
    ensures
        r@ == s@.skip(from as int),
{
    let mut r: Vec<char> = Vec::new();
    let mut i = from;
    while i < s.len()
        invariant
            from <= i <= s@.len(),
            r@ == s@.subrange(from as int, i as int),
        decreases s@.len() - i,
    {
        r.push(s[i]);
        i = i + 1;
    }
    r
}


/// `s` begins with `p`.
pub open spec fn has_prefix(s: Seq<char>, p: Seq<char>) -> bool {
    p.len() <= s.len() && s.take(p.len() as int) == p
}

/// The first of `ls` that begins with `p`.
pub open spec fn find_prefixed(ls: Seq<Seq<char>>, p: Seq<char>) -> Option<Seq<char>>
    decreases ls.len(),
{
    if ls.len() == 0 {
        None
    } else if has_prefix(ls[0], p) {
        Some(ls[0])
    } else {
        find_prefixed(ls.drop_first(), p)
    }
}

/// The index of the first of `ls` that begins with `p`.
pub fn find_prefixed_index(ls: &Vec<Vec<char>>, p: &Vec<char>) -> (r: Option<usize>)
    ensures
        match r {
            Some(i) => i < ls@.len() && has_prefix(ls@[i as int]@, p@) && find_prefixed(views(ls@), p@) == Some(ls@[i as int]@),
            None => find_prefixed(views(ls@), p@) is None,
        },
{
    let mut i: usize = 0;
    assert(views(ls@).skip(0) =~= views(ls@));
    while i < ls.len()
        invariant
            i <= ls@.len(),
            find_prefixed(views(ls@), p@) == find_prefixed(views(ls@).skip(i as int), p@),
        decreases ls@.len() - i,
    {
        let ghost rest = views(ls@).skip(i as int);
        proof {
            assert(rest[0] == ls@[i as int]@);
            assert(rest.drop_first() =~= views(ls@).skip(i as int + 1));
        }
        if starts_with(&ls[i], p) {
            return Some(i);
        }
        i = i + 1;
    }
    proof {
        assert(views(ls@).skip(i as int).len() == 0);
    }
    None
}

/// The first of `ws` that begins with `p`, with `p` removed.
pub open spec fn find_stripped(ws: Seq<Seq<char>>, p: Seq<char>) -> Option<Seq<char>> {
    match find_prefixed(ws, p) {
        Some(w) => Some(w.skip(p.len() as int)),
        None => None,
    }
}

} // verus!
