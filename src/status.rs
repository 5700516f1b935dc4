//! Status codes, read and named through the `http` crate.
use vstd::prelude::*;
use vstd::utf8::encode_utf8;
use crate::parse::status_of;

verus! {

#[verifier::external_type_specification]
#[verifier::external_body]
pub struct ExInvalidStatusCode(http::status::InvalidStatusCode);

/// The reason phrase that the `http` crate gives for `code`, if it knows one.
pub uninterp spec fn canonical_reason_of(code: u16) -> Option<Seq<char>>;

/// Relies on http::StatusCode::from_bytes: it accepts exactly three ASCII
/// digits, the first not `0`, and gives the number they write.
#[verifier::external_body]
pub(crate) fn status_from_bytes(b: &[u8]) -> (r: Result<u16, http::status::InvalidStatusCode>)
    ensures
        match r {
            Ok(c) => status_of(b@) == Some(c),
            Err(_) => status_of(b@).is_none(),
        },
{
    http::StatusCode::from_bytes(b).map(|s| s.as_u16())
}

/// Relies on http::StatusCode::canonical_reason: the registered reason phrase
/// of `code`, which depends on the code alone. Every phrase in its table is
/// made of letters, spaces, hyphens, apostrophes and slashes, so holds no `\r`.
#[verifier::external_body]
pub(crate) fn canonical_reason(code: u16) -> (r: Option<&'static str>)
    ensures
        match r {
            Some(s) => canonical_reason_of(code) == Some(s@),
            None => canonical_reason_of(code).is_none(),
        },
        r matches Some(s) ==> forall|i: int|
            0 <= i < encode_utf8(s@).len() ==> #[trigger] encode_utf8(s@)[i] != 0x0du8,
{
    http::StatusCode::from_u16(code).ok().and_then(|s| s.canonical_reason())
}

} // verus!
