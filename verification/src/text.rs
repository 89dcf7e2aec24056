//! Bytes and text: delimiter scans over byte slices, and the passage between
//! UTF-8 bytes and strings.

use vstd::prelude::*;
use vstd::string::*;
use vstd::utf8::*;

verus! {

pub const NEWLINE: u8 = 10;

pub const SPACE: u8 = 32;

pub const QUOTE: u8 = 34;

pub const COMMA: u8 = 44;

pub const COLON: u8 = 58;

pub const LESS_THAN: u8 = 60;

pub const GREATER_THAN: u8 = 62;

pub const OPEN_BRACKET: u8 = 91;

pub const CLOSE_BRACKET: u8 = 93;

/// The first index at or after `from` whose byte is `a` or `b`, or the length
/// of `s` where no such index exists.
pub open spec fn find_either(s: Seq<u8>, from: int, a: u8, b: u8) -> int
    decreases s.len() - from,
{
    if from < 0 || from >= s.len() {
        s.len() as int
    } else if s[from] == a || s[from] == b {
        from
    } else {
        find_either(s, from + 1, a, b)
    }
}

/// The first index at or after `from` whose byte is `b`, or the length of `s`.
pub open spec fn find_byte(s: Seq<u8>, from: int, b: u8) -> int {
    find_either(s, from, b, b)
}

/// The first index at or after `from` whose byte differs from `b`, or the
/// length of `s`.
pub open spec fn find_not(s: Seq<u8>, from: int, b: u8) -> int
    decreases s.len() - from,
{
    if from < 0 || from >= s.len() {
        s.len() as int
    } else if s[from] != b {
        from
    } else {
        find_not(s, from + 1, b)
    }
}

/// What `find_either` returns, said without recursion: nothing between `from`
/// and the result is a delimiter, and the result is one unless it is the end.
pub proof fn lemma_find_either(s: Seq<u8>, from: int, a: u8, b: u8)
    requires
        0 <= from,
    ensures
        find_either(s, from, a, b) <= s.len(),
        from <= s.len() ==> from <= find_either(s, from, a, b),
        forall|j: int| from <= j < find_either(s, from, a, b) ==> s[j] != a && s[j] != b,
        find_either(s, from, a, b) < s.len() ==> {
            ||| s[find_either(s, from, a, b)] == a
            ||| s[find_either(s, from, a, b)] == b
        },
    decreases s.len() - from,
{
    if from < s.len() && !(s[from] == a || s[from] == b) {
        lemma_find_either(s, from + 1, a, b);
    }
}

/// An index that holds a delimiter, with none before it back to `from`, is
/// what `find_either` returns.
pub proof fn lemma_find_either_is(s: Seq<u8>, from: int, a: u8, b: u8, at: int)
    requires
        0 <= from <= at <= s.len(),
        forall|j: int| from <= j < at ==> s[j] != a && s[j] != b,
        at < s.len() ==> s[at] == a || s[at] == b,
    ensures
        find_either(s, from, a, b) == at,
    decreases at - from,
{
    if from < at {
        lemma_find_either_is(s, from + 1, a, b, at);
    }
}

/// A scan inside the tail `s[start..]` finds the same byte as a scan in `s`.
pub proof fn lemma_find_byte_in_tail(s: Seq<u8>, start: int, b: u8)
    requires
        0 <= start <= s.len(),
    ensures
        find_byte(s.subrange(start, s.len() as int), 0, b) + start == find_byte(s, start, b),
{
    let tail = s.subrange(start, s.len() as int);
    lemma_find_either(s, start, b, b);
    let at = find_byte(s, start, b);
    assert forall|j: int| 0 <= j < at - start implies tail[j] != b by {
        assert(tail[j] == s[j + start]);
    }
    lemma_find_either_is(tail, 0, b, b, at - start);
}

/// A scan in a prefix that reaches past the byte found finds it too.
pub proof fn lemma_find_byte_in_prefix(s: Seq<u8>, end: int, b: u8)
    requires
        0 <= end <= s.len(),
        find_byte(s, 0, b) < end,
    ensures
        find_byte(s.subrange(0, end), 0, b) == find_byte(s, 0, b),
{
    lemma_find_either(s, 0, b, b);
    lemma_find_either_is(s.subrange(0, end), 0, b, b, find_byte(s, 0, b));
}

/// The last index from `from` up to, but not with, `to` whose byte is `b`, or
/// `from - 1` where there is none.
pub open spec fn find_last(s: Seq<u8>, from: int, to: int, b: u8) -> int
    decreases to - from,
{
    if to <= from {
        from - 1
    } else if s[to - 1] == b {
        to - 1
    } else {
        find_last(s, from, to - 1, b)
    }
}

/// What `find_last` returns, said without recursion: the index found holds
/// `b`, and nothing after it up to `to` does.
pub proof fn lemma_find_last(s: Seq<u8>, from: int, to: int, b: u8)
    requires
        from <= to,
    ensures
        from - 1 <= find_last(s, from, to, b) < to,
        find_last(s, from, to, b) >= from ==> s[find_last(s, from, to, b)] == b,
        forall|j: int| find_last(s, from, to, b) < j < to ==> s[j] != b,
    decreases to - from,
{
    if from < to && s[to - 1] != b {
        lemma_find_last(s, from, to - 1, b);
    }
}

/// Scans forward from `from` to the first byte that is `a` or `b`.
pub fn scan_either(bytes: &[u8], from: usize, a: u8, b: u8) -> (at: usize)
    ensures
        at == find_either(bytes@, from as int, a, b),
        at <= bytes@.len(),
{
    let len = bytes.len();
    if from >= len {
        return len;
    }
    let mut i: usize = from;
    while i < len && bytes[i] != a && bytes[i] != b
        invariant
            from <= i <= len,
            len == bytes@.len(),
            find_either(bytes@, i as int, a, b) == find_either(bytes@, from as int, a, b),
        decreases len - i,
    {
        i += 1;
    }
    i
}

/// Scans forward from `from` to the first byte that is `b`.
pub fn scan_byte(bytes: &[u8], from: usize, b: u8) -> (at: usize)
    ensures
        at == find_byte(bytes@, from as int, b),
        at <= bytes@.len(),
{
    scan_either(bytes, from, b, b)
}

/// Scans forward from `from` over a run of `b`.
pub fn scan_past(bytes: &[u8], from: usize, b: u8) -> (at: usize)
    ensures
        at == find_not(bytes@, from as int, b),
        at <= bytes@.len(),
{
    let len = bytes.len();
    if from >= len {
        return len;
    }
    let mut i: usize = from;
    while i < len && bytes[i] == b
        invariant
            from <= i <= len,
            len == bytes@.len(),
            find_not(bytes@, i as int, b) == find_not(bytes@, from as int, b),
        decreases len - i,
    {
        i += 1;
    }
    i
}

/// Scans backward from `to` down to `from` for the last byte that is `b`.
pub fn scan_back(bytes: &[u8], from: usize, to: usize, b: u8) -> (at: Option<usize>)
    requires
        from <= to <= bytes@.len(),
    ensures
        match at {
            Some(i) => from <= i < to && i == find_last(bytes@, from as int, to as int, b),
            None => find_last(bytes@, from as int, to as int, b) == from - 1,
        },
{
    let mut i: usize = to;
    while i > from
        invariant
            from <= i <= to,
            to <= bytes@.len(),
            find_last(bytes@, from as int, i as int, b) == find_last(
                bytes@,
                from as int,
                to as int,
                b,
            ),
        decreases i - from,
    {
        if bytes[i - 1] == b {
            return Some(i - 1);
        }
        i -= 1;
    }
    None
}

/// `core::str::Utf8Error`, which is carried through and never looked into.
#[verifier::external_type_specification]
#[verifier::external_body]
pub struct ExUtf8Error(core::str::Utf8Error);

/// `core::str::from_utf8`: succeeds exactly on well-formed UTF-8, and the
/// string it returns is made of the bytes it was given.
pub assume_specification[ core::str::from_utf8 ](v: &[u8]) -> (r: Result<
    &str,
    core::str::Utf8Error,
>)
    ensures
        r is Ok <==> valid_utf8(v@),
        r matches Ok(s) ==> s.spec_bytes() == v@,
;

/// `String::push`: the character is added at the end.
pub assume_specification[ String::push ](s: &mut String, ch: char)
    ensures
        final(s)@ == old(s)@.push(ch),
;

/// The text that `bytes` encode, where they are well-formed UTF-8.
pub open spec fn text_in(bytes: Seq<u8>) -> Option<Seq<char>> {
    if valid_utf8(bytes) {
        Some(decode_utf8(bytes))
    } else {
        None
    }
}

/// The characters that ASCII bytes stand for, byte by byte.
pub open spec fn ascii_text(bytes: Seq<u8>) -> Seq<char> {
    Seq::new(bytes.len(), |i: int| bytes[i] as char)
}

/// Bytes below 128 are well-formed UTF-8, and encode one character each.
pub proof fn lemma_ascii_text(bytes: Seq<u8>)
    requires
        forall|i: int| 0 <= i < bytes.len() ==> bytes[i] < 128,
    ensures
        text_in(bytes) == Some(ascii_text(bytes)),
{
    let chars = ascii_text(bytes);
    assert(is_ascii_chars(chars));
    is_ascii_chars_encode_utf8(chars);
    assert(encode_utf8(chars) =~= bytes);
    encode_utf8_valid_utf8(chars);
    encode_utf8_decode_utf8(chars);
}

/// Well-formed UTF-8 may be cut at any ASCII byte: what stands before the
/// byte and what stands after it are well-formed too.
pub proof fn lemma_cut_at_ascii(bytes: Seq<u8>, at: int)
    requires
        valid_utf8(bytes),
        0 <= at < bytes.len(),
        bytes[at] < 128,
    ensures
        valid_utf8(bytes.subrange(0, at)),
        valid_utf8(bytes.subrange(at + 1, bytes.len() as int)),
{
    is_char_boundary_iff_not_is_continuation_byte(bytes, at);
    valid_utf8_split(bytes, at);
    let tail = bytes.subrange(at, bytes.len() as int);
    assert(tail[0] == bytes[at]);
    assert(pop_first_scalar(tail) =~= bytes.subrange(at + 1, bytes.len() as int));
}

/// In well-formed UTF-8, a stretch that starts at the start or after an ASCII
/// byte, and ends at the end or before an ASCII byte, is well-formed.
pub proof fn lemma_text_between(bytes: Seq<u8>, from: int, to: int)
    requires
        valid_utf8(bytes),
        0 <= from <= to <= bytes.len(),
        from > 0 ==> bytes[from - 1] < 128,
        to < bytes.len() ==> bytes[to] < 128,
    ensures
        text_in(bytes.subrange(from, to)) is Some,
{
    let upto = bytes.subrange(0, to);
    if to < bytes.len() {
        lemma_cut_at_ascii(bytes, to);
    } else {
        assert(upto =~= bytes);
    }
    if from > 0 {
        assert(upto[from - 1] == bytes[from - 1]);
        lemma_cut_at_ascii(upto, from - 1);
        assert(upto.subrange(from, to) =~= bytes.subrange(from, to));
    } else {
        assert(upto =~= bytes.subrange(from, to));
    }
}

/// Decodes a run of bytes as UTF-8.
pub fn decode(bytes: &[u8]) -> (r: Option<&str>)
    ensures
        match r {
            Some(s) => text_in(bytes@) == Some(s@),
            None => text_in(bytes@) is None,
        },
{
    match core::str::from_utf8(bytes) {
        Ok(s) => {
            proof {
                encode_utf8_decode_utf8(s@);
            }
            Some(s)
        },
        Err(_) => None,
    }
}

/// The characters of `s`, one by one.
pub fn chars_of(s: &str) -> (v: Vec<char>)
    ensures
        v@ == s@,
{
    let mut v: Vec<char> = Vec::new();
    for c in it: s.chars()
        invariant
            it.seq() == s@,
            v@ == s@.take(it.index()),
    {
        v.push(c);
    }
    assert(v@ == s@);
    v
}

/// Whether two strings hold the same characters.
pub fn same_text(a: &str, b: &str) -> (r: bool)
    ensures
        r == (a@ == b@),
{
    let x = chars_of(a);
    let y = chars_of(b);
    if x.len() != y.len() {
        return false;
    }
    let mut i: usize = 0;
    while i < x.len()
        invariant
            i <= x.len(),
            x.len() == y.len(),
            x@ == a@,
            y@ == b@,
            forall|j: int| 0 <= j < i ==> x@[j] == y@[j],
        decreases x.len() - i,
    {
        if x[i] != y[i] {
            return false;
        }
        i += 1;
    }
    assert(x@ == y@);
    true
}

/// `s` ends with the characters of `suffix`.
pub open spec fn ends_with(s: Seq<char>, suffix: Seq<char>) -> bool {
    &&& suffix.len() <= s.len()
    &&& s.subrange(s.len() - suffix.len(), s.len() as int) == suffix
}

/// Whether `s` ends with `suffix`.
pub fn has_suffix(s: &Vec<char>, suffix: &str) -> (r: bool)
    ensures
        r == ends_with(s@, suffix@),
{
    let t = chars_of(suffix);
    if t.len() > s.len() {
        return false;
    }
    let base = s.len() - t.len();
    let mut i: usize = 0;
    while i < t.len()
        invariant
            i <= t.len(),
            base + t.len() == s.len(),
            t@ == suffix@,
            forall|j: int| 0 <= j < i ==> s@[base + j] == t@[j],
        decreases t.len() - i,
    {
        if s[base + i] != t[i] {
            proof {
                let tail = s@.subrange(s@.len() - t@.len(), s@.len() as int);
                assert(tail[i as int] == s@[base + i]);
            }
            return false;
        }
        i += 1;
    }
    assert(s@.subrange(s@.len() - t@.len(), s@.len() as int) == t@);
    true
}

/// Whether `c` occurs in `s`.
pub fn has_char(s: &Vec<char>, c: char) -> (r: bool)
    ensures
        r == s@.contains(c),
{
    let mut i: usize = 0;
    while i < s.len()
        invariant
            i <= s.len(),
            forall|j: int| 0 <= j < i ==> s@[j] != c,
        decreases s.len() - i,
    {
        if s[i] == c {
            return true;
        }
        i += 1;
    }
    false
}

} // verus!
