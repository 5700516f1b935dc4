//! How a message's body is framed, and the scanners that follow a body as it
//! is relayed.
use vstd::prelude::*;
use vstd::utf8::encode_utf8;
use vstd::slice::slice_subrange;
use crate::scan::{find_byte, find_byte_from, lemma_find_byte};
use crate::text::{lower_chars, lower, trim, lowercase_bytes, trim_bounds, bytes_eq, string_bytes};
use crate::message::{HeaderEntry, Headers, lookup};

verus! {

pub const COMMA: u8 = 0x2c;

/// How the rest of a message's body is delimited.
#[derive(Debug, Clone, Copy, PartialEq, Eq, Structural)]
pub enum BodyFraming {
    /// `Transfer-Encoding: chunked`: relayed up to `\r\n\r\n`.
    Chunked,
    /// `Content-Length`: this many bytes in all.
    Length(u64),
    /// Neither header.
    Unframed,
}

/// Why a message's body framing is rejected.
#[derive(Debug, Clone, Copy, PartialEq, Eq, Structural)]
pub enum FramingError {
    /// Both `Content-Length` and `Transfer-Encoding` are present.
    Conflict,
    /// `Content-Length` is not a decimal number that fits in 64 bits.
    InvalidLength,
}

/// `chunked` in ASCII.
pub open spec fn chunked_token() -> Seq<u8> {
    seq![99u8, 104, 117, 110, 107, 101, 100]
}

/// The value of the decimal digits `b`.
pub open spec fn digits_value(b: Seq<u8>) -> nat
    decreases b.len(),
{
    if b.len() == 0 {
        0
    } else {
        digits_value(b.drop_last()) * 10 + (b.last() - 0x30) as nat
    }
}

/// The number written by `b`: one or more decimal digits whose value fits in
/// a `u64`.
pub open spec fn decimal_value(b: Seq<u8>) -> Option<u64> {
    if b.len() > 0 && (forall|i: int| 0 <= i < b.len() ==> 0x30 <= #[trigger] b[i] <= 0x39)
        && digits_value(b) <= u64::MAX {
        Some(digits_value(b) as u64)
    } else {
        None
    }
}

/// Whether an element of the comma-separated list `b`, from the one that
/// starts at `lo` on, is `chunked` once trimmed and lowercased.
pub open spec fn chunked_from(b: Seq<u8>, lo: int) -> bool
    decreases b.len() - lo,
{
    if lo < 0 || lo > b.len() {
        false
    } else {
        let hi = find_byte(b, COMMA, lo);
        if trim(lower(b.subrange(lo, hi))) == chunked_token() {
            true
        } else if lo <= hi < b.len() {
            chunked_from(b, hi + 1)
        } else {
            false
        }
    }
}

/// Whether the `Transfer-Encoding` value `b` lists `chunked`, in any case.
pub open spec fn is_chunked(b: Seq<u8>) -> bool {
    chunked_from(b, 0)
}

/// The framing that the headers `h` give a body.
pub open spec fn framing_of(h: Seq<HeaderEntry>) -> Result<BodyFraming, FramingError> {
    let cl = lookup(h, lower_chars("content-length"@));
    let te = lookup(h, lower_chars("transfer-encoding"@));
    if cl.is_some() && te.is_some() {
        Err(FramingError::Conflict)
    } else if te.is_some() && is_chunked(encode_utf8(te.unwrap())) {
        Ok(BodyFraming::Chunked)
    } else if cl.is_some() {
        match decimal_value(encode_utf8(cl.unwrap())) {
            Some(n) => Ok(BodyFraming::Length(n)),
            None => Err(FramingError::InvalidLength),
        }
    } else {
        Ok(BodyFraming::Unframed)
    }
}

/// The number written by the decimal digits `b`, if it fits in a `u64`.
pub fn parse_decimal(b: &[u8]) -> (r: Option<u64>)
    ensures
        r == decimal_value(b@),
{
    if b.len() == 0 {
        return None;
    }
    let mut v: u64 = 0;
    let mut i: usize = 0;
    while i < b.len()
        invariant
            0 < b@.len(),
            i <= b@.len(),
            v == digits_value(b@.take(i as int)),
            forall|j: int| 0 <= j < i ==> 0x30 <= #[trigger] b@[j] <= 0x39,
        decreases b@.len() - i,
    {
        let c = b[i];
        assert(b@.take(i + 1).drop_last() =~= b@.take(i as int));
        if c < 0x30 || c > 0x39 {
            return None;
        }
        if v > (u64::MAX - (c - 0x30) as u64) / 10 {
            proof {
                lemma_digits_value_grows(b@, i as int + 1);
            }
            return None;
        }
        v = v * 10 + (c - 0x30) as u64;
        i = i + 1;
    }
    assert(b@.take(b@.len() as int) =~= b@);
    Some(v)
}

/// A longer run of digits never has a smaller value.
proof fn lemma_digits_value_grows(b: Seq<u8>, n: int)
    requires
        0 <= n <= b.len(),
    ensures
        digits_value(b.take(n)) <= digits_value(b),
    decreases b.len() - n,
{
    if n < b.len() {
        lemma_digits_value_grows(b, n + 1);
        assert(b.take(n + 1).drop_last() =~= b.take(n));
        assert(b.take(b.len() as int) =~= b);
    } else {
        assert(b.take(n) =~= b);
    }
}

/// Whether the `Transfer-Encoding` value `b` lists `chunked`.
pub fn chunked_listed(b: &[u8]) -> (r: bool)
    ensures
        r == is_chunked(b@),
{
    let chunked: Vec<u8> = vec![99u8, 104, 117, 110, 107, 101, 100];
    let n = b.len();
    let mut lo: usize = 0;
    loop
        invariant
            lo <= n == b@.len(),
            chunked@ == chunked_token(),
            is_chunked(b@) == chunked_from(b@, lo as int),
        decreases n - lo,
    {
        let hi = find_byte_from(b, COMMA, lo);
        proof {
            lemma_find_byte(b@, COMMA, lo as int);
        }
        let low = lowercase_bytes(slice_subrange(b, lo, hi));
        let (s, e) = trim_bounds(low.as_slice());
        if bytes_eq(slice_subrange(low.as_slice(), s, e), chunked.as_slice()) {
            return true;
        }
        if hi >= n {
            return false;
        }
        lo = hi + 1;
    }
}

impl Headers {
    /// The framing these headers give a body.
    pub fn body_framing(&self) -> (r: Result<BodyFraming, FramingError>)
        ensures
            r == framing_of(self@),
    {
        let cl = self.get("content-length");
        let te = self.get("transfer-encoding");
        if cl.is_some() && te.is_some() {
            return Err(FramingError::Conflict);
        }
        if let Some(t) = te {
            if chunked_listed(string_bytes(t)) {
                return Ok(BodyFraming::Chunked);
            }
        }
        match cl {
            Some(c) => match parse_decimal(string_bytes(c)) {
                Some(n) => Ok(BodyFraming::Length(n)),
                None => Err(FramingError::InvalidLength),
            },
            None => Ok(BodyFraming::Unframed),
        }
    }
}

} // verus!
