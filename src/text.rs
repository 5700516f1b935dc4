//! Byte-level text helpers: UTF-8 decoding, ASCII lowercasing, whitespace
//! trimming, comparison and appending.
use vstd::prelude::*;
use vstd::utf8::{decode_utf8, encode_utf8, valid_utf8};

verus! {

broadcast use {vstd::utf8::encode_utf8_decode_utf8, vstd::utf8::encode_utf8_valid_utf8};

pub const HT: u8 = 0x09;

/// The whitespace that header values are trimmed of.
pub open spec fn is_ws(c: u8) -> bool {
    c == 0x20 || c == HT
}

pub open spec fn lower_byte(c: u8) -> u8 {
    if 0x41 <= c <= 0x5a {
        (c + 0x20) as u8
    } else {
        c
    }
}

/// `b` with each ASCII upper-case letter replaced by its lower-case form.
pub open spec fn lower(b: Seq<u8>) -> Seq<u8> {
    b.map_values(|c: u8| lower_byte(c))
}

/// The first index at or after `lo` whose byte is not whitespace, or `b.len()`.
pub open spec fn skip_ws(b: Seq<u8>, lo: int) -> int
    decreases b.len() - lo,
{
    if lo < 0 || lo >= b.len() {
        b.len() as int
    } else if is_ws(b[lo]) {
        skip_ws(b, lo + 1)
    } else {
        lo
    }
}

/// The end of `b[lo..hi]` once trailing whitespace is dropped.
pub open spec fn back_ws(b: Seq<u8>, lo: int, hi: int) -> int
    decreases hi - lo,
{
    if hi <= lo || hi > b.len() {
        hi
    } else if is_ws(b[hi - 1]) {
        back_ws(b, lo, hi - 1)
    } else {
        hi
    }
}

/// `b` without leading and trailing spaces and tabs.
pub open spec fn trim(b: Seq<u8>) -> Seq<u8> {
    let lo = skip_ws(b, 0);
    b.subrange(lo, back_ws(b, lo, b.len() as int))
}

pub open spec fn is_ws_char(c: char) -> bool {
    c == ' ' || c == '\t'
}

pub open spec fn lower_char(c: char) -> char {
    if 'A' <= c <= 'Z' {
        ((c as u32) + 32) as char
    } else {
        c
    }
}

/// `s` with each ASCII upper-case letter replaced by its lower-case form.
pub open spec fn lower_chars(s: Seq<char>) -> Seq<char> {
    s.map_values(|c: char| lower_char(c))
}

/// Lowercasing twice is lowercasing once.
pub proof fn lemma_lower_chars_idempotent(s: Seq<char>)
    ensures
        lower_chars(lower_chars(s)) == lower_chars(s),
{
    assert forall|i: int| 0 <= i < s.len() implies lower_char(lower_char(s[i])) == lower_char(s[i]) by {
        let c = s[i];
        if 'A' <= c <= 'Z' {
            assert(((c as u32) + 32) as char as u32 == (c as u32) + 32);
        }
    }
    assert(lower_chars(lower_chars(s)) =~= lower_chars(s));
}

/// `s` without its leading spaces and tabs.
pub open spec fn trim_start(s: Seq<char>) -> Seq<char>
    decreases s.len(),
{
    if s.len() > 0 && is_ws_char(s[0]) {
        trim_start(s.drop_first())
    } else {
        s
    }
}

/// `s` without its trailing spaces and tabs.
pub open spec fn trim_end(s: Seq<char>) -> Seq<char>
    decreases s.len(),
{
    if s.len() > 0 && is_ws_char(s.last()) {
        trim_end(s.drop_last())
    } else {
        s
    }
}

/// `s` without leading and trailing spaces and tabs.
pub open spec fn trim_chars(s: Seq<char>) -> Seq<char> {
    trim_end(trim_start(s))
}

/// `s` neither starts nor ends with a space or tab.
pub open spec fn trimmed(s: Seq<char>) -> bool {
    s.len() > 0 ==> !is_ws_char(s[0]) && !is_ws_char(s.last())
}

proof fn lemma_trim_start(s: Seq<char>)
    ensures
        trim_start(s).len() > 0 ==> !is_ws_char(trim_start(s)[0]),
    decreases s.len(),
{
    if s.len() > 0 && is_ws_char(s[0]) {
        lemma_trim_start(s.drop_first());
    }
}

proof fn lemma_trim_end(s: Seq<char>)
    ensures
        trim_end(s).len() <= s.len(),
        trim_end(s) == s.take(trim_end(s).len() as int),
        trim_end(s).len() > 0 ==> !is_ws_char(trim_end(s).last()),
    decreases s.len(),
{
    if s.len() > 0 && is_ws_char(s.last()) {
        lemma_trim_end(s.drop_last());
        assert(s.drop_last().take(trim_end(s).len() as int) =~= s.take(trim_end(s).len() as int));
    } else {
        assert(s.take(s.len() as int) =~= s);
    }
}

/// What `trim_chars` gives neither starts nor ends with a space or tab.
pub proof fn lemma_trim_chars_trimmed(s: Seq<char>)
    ensures
        trimmed(trim_chars(s)),
{
    let t = trim_start(s);
    lemma_trim_start(s);
    lemma_trim_end(t);
    let u = trim_end(t);
    if u.len() > 0 {
        assert(u[0] == t[0]);
    }
}

/// Trimming twice is trimming once.
pub proof fn lemma_trim_chars_idempotent(s: Seq<char>)
    ensures
        trim_chars(trim_chars(s)) == trim_chars(s),
{
    let t = trim_chars(s);
    lemma_trim_chars_trimmed(s);
    assert(trim_start(t) == t);
    assert(trim_end(t) == t);
}

/// Relies on str::to_ascii_lowercase: `A` to `Z` become `a` to `z`, and every
/// other character stays as it is.
#[verifier::external_body]
pub(crate) fn ascii_lowercase(s: &str) -> (r: String)
    ensures
        r@ == lower_chars(s@),
{
    s.to_ascii_lowercase()
}

/// `s` without leading and trailing spaces and tabs.
pub fn trim_string(s: &String) -> (r: String)
    ensures
        r@ == trim_chars(s@),
{
    let t = s.as_str();
    let ghost v = s@;
    assert(t@ == v);
    let n = t.unicode_len();
    let mut lo: usize = 0;
    assert(v.skip(0) =~= v);
    loop
        invariant
            t@ == v,
            lo <= n == v.len(),
            trim_start(v) == trim_start(v.skip(lo as int)),
        ensures
            t@ == v,
            lo <= n == v.len(),
            trim_start(v) == v.skip(lo as int),
        decreases n - lo,
    {
        if lo >= n {
            assert(v.skip(lo as int).len() == 0);
            assert(trim_start(v.skip(lo as int)) == v.skip(lo as int));
            break;
        }
        let c = t.get_char(lo);
        assert(v.skip(lo as int)[0] == c);
        if c != ' ' && c != '\t' {
            assert(trim_start(v.skip(lo as int)) == v.skip(lo as int));
            break;
        }
        assert(v.skip(lo as int).drop_first() =~= v.skip(lo + 1));
        lo = lo + 1;
    }
    assert(trim_start(v) == v.skip(lo as int));
    let mut hi: usize = n;
    assert(v.skip(lo as int) =~= v.subrange(lo as int, n as int));
    loop
        invariant
            t@ == v,
            lo <= hi <= n == v.len(),
            trim_end(v.skip(lo as int)) == trim_end(v.subrange(lo as int, hi as int)),
        ensures
            lo <= hi <= n == v.len(),
            trim_end(v.skip(lo as int)) == v.subrange(lo as int, hi as int),
        decreases hi - lo,
    {
        if hi <= lo {
            assert(trim_end(v.subrange(lo as int, hi as int)) == v.subrange(lo as int, hi as int));
            break;
        }
        let c = t.get_char(hi - 1);
        assert(v.subrange(lo as int, hi as int).last() == c);
        if c != ' ' && c != '\t' {
            assert(trim_end(v.subrange(lo as int, hi as int)) == v.subrange(lo as int, hi as int));
            break;
        }
        assert(v.subrange(lo as int, hi as int).drop_last() =~= v.subrange(lo as int, hi - 1));
        hi = hi - 1;
    }
    t.substring_char(lo, hi).to_string()
}

/// Relies on std::str::from_utf8: it succeeds exactly on valid UTF-8, and the
/// string then holds the characters that the bytes encode.
#[verifier::external_body]
pub(crate) fn utf8_string(b: &[u8]) -> (r: Option<String>)
    ensures
        r.is_some() == valid_utf8(b@),
        r matches Some(s) ==> s@ == decode_utf8(b@),
{
    std::str::from_utf8(b).ok().map(|s| s.to_string())
}

/// The UTF-8 encoding of `s`.
pub fn string_bytes(s: &String) -> (r: &[u8])
    ensures
        r@ == encode_utf8(s@),
{
    s.as_str().as_bytes()
}

/// Whether two byte sequences are equal.
pub fn bytes_eq(a: &[u8], b: &[u8]) -> (r: bool)
    ensures
        r == (a@ == b@),
{
    if a.len() != b.len() {
        return false;
    }
    let mut i: usize = 0;
    while i < a.len()
        invariant
            a@.len() == b@.len(),
            i <= a@.len(),
            forall|j: int| 0 <= j < i ==> a@[j] == b@[j],
        decreases a@.len() - i,
    {
        if a[i] != b[i] {
            return false;
        }
        i = i + 1;
    }
    assert(a@ =~= b@);
    true
}

/// Appends the bytes of `b` to `out`.
pub fn push_bytes(out: &mut Vec<u8>, b: &[u8])
    ensures
        final(out)@ == old(out)@ + b@,
{
    let ghost start = out@;
    let mut i: usize = 0;
    while i < b.len()
        invariant
            i <= b@.len(),
            out@ == start + b@.take(i as int),
        decreases b@.len() - i,
    {
        out.push(b[i]);
        i = i + 1;
        assert(out@ =~= start + b@.take(i as int));
    }
    assert(b@.take(b@.len() as int) =~= b@);
}

/// The bytes of `b` with ASCII letters lowercased.
pub fn lowercase_bytes(b: &[u8]) -> (r: Vec<u8>)
    ensures
        r@ == lower(b@),
{
    let mut out: Vec<u8> = Vec::new();
    let mut i: usize = 0;
    while i < b.len()
        invariant
            i <= b@.len(),
            out@ =~= lower(b@.take(i as int)),
        decreases b@.len() - i,
    {
        let c = b[i];
        let l = if 0x41 <= c && c <= 0x5a {
            c + 0x20
        } else {
            c
        };
        out.push(l);
        i = i + 1;
        assert(out@ =~= lower(b@.take(i as int)));
    }
    assert(b@.take(b@.len() as int) =~= b@);
    out
}

/// The bounds `(lo, hi)` of `b` without its leading and trailing whitespace.
pub fn trim_bounds(b: &[u8]) -> (r: (usize, usize))
    ensures
        r.0 <= r.1 <= b@.len(),
        r.0 == skip_ws(b@, 0),
        r.1 == back_ws(b@, r.0 as int, b@.len() as int),
        b@.subrange(r.0 as int, r.1 as int) == trim(b@),
{
    let mut lo: usize = 0;
    while lo < b.len() && (b[lo] == 0x20 || b[lo] == HT)
        invariant
            lo <= b@.len(),
            skip_ws(b@, 0) == skip_ws(b@, lo as int),
        decreases b@.len() - lo,
    {
        lo = lo + 1;
    }
    let mut hi: usize = b.len();
    while hi > lo && (b[hi - 1] == 0x20 || b[hi - 1] == HT)
        invariant
            lo <= hi <= b@.len(),
            back_ws(b@, lo as int, b@.len() as int) == back_ws(b@, lo as int, hi as int),
        decreases hi - lo,
    {
        hi = hi - 1;
    }
    (lo, hi)
}

} // verus!
