//! Writing requests and responses in their wire form.
use vstd::prelude::*;
use vstd::utf8::encode_utf8;
use crate::scan::{CR, LF, SP};
use crate::parse::COLON;
use crate::text::{push_bytes, string_bytes};
use crate::status::{canonical_reason, canonical_reason_of};
use crate::parse::{parse_request, parse_response};
use crate::laws::{wf_request, wf_response, normalized, lemma_request_round_trip, lemma_response_round_trip};
use crate::message::{
    HeaderEntry, Headers, Request, RequestView, Response, ResponseView, method_token,
    version_token, method_bytes, version_bytes,
};

verus! {

pub open spec fn crlf() -> Seq<u8> {
    seq![CR, LF]
}

/// `name: value\r\n`.
pub open spec fn header_line_bytes(e: HeaderEntry) -> Seq<u8> {
    encode_utf8(e.0) + seq![COLON, SP] + encode_utf8(e.1) + crlf()
}

/// The header lines of `h`, in order.
pub open spec fn header_block(h: Seq<HeaderEntry>) -> Seq<u8>
    decreases h.len(),
{
    if h.len() == 0 {
        Seq::empty()
    } else {
        header_line_bytes(h[0]) + header_block(h.drop_first())
    }
}

/// The decimal digits of `n`.
pub open spec fn decimal(n: nat) -> Seq<u8>
    decreases n,
{
    if n < 10 {
        seq![(0x30 + n) as u8]
    } else {
        decimal(n / 10).push((0x30 + n % 10) as u8)
    }
}

/// The wire form of a request: request line, header lines, empty line.
pub open spec fn request_bytes(r: RequestView) -> Seq<u8> {
    method_token(r.method) + seq![SP] + encode_utf8(r.path) + seq![SP] + version_token(r.version)
        + crlf() + header_block(r.headers) + crlf()
}

/// The wire form of a response with the given reason phrase: status line,
/// header lines, empty line.
pub open spec fn response_bytes(r: ResponseView, reason: Seq<u8>) -> Seq<u8> {
    version_token(r.version) + seq![SP] + decimal(r.status as nat) + seq![SP] + reason + crlf()
        + header_block(r.headers) + crlf()
}

/// `Unknown Reason`, the phrase for codes without a registered one.
pub open spec fn unknown_reason() -> Seq<u8> {
    seq![85u8, 110, 107, 110, 111, 119, 110, 32, 82, 101, 97, 115, 111, 110]
}

/// The reason phrase written for `code`.
pub open spec fn reason_phrase(code: u16) -> Seq<u8> {
    match canonical_reason_of(code) {
        Some(s) => encode_utf8(s),
        None => unknown_reason(),
    }
}

proof fn lemma_header_block_push(h: Seq<HeaderEntry>, e: HeaderEntry)
    ensures
        header_block(h.push(e)) == header_block(h) + header_line_bytes(e),
    decreases h.len(),
{
    if h.len() == 0 {
        let t = h.push(e);
        assert(t.drop_first() =~= Seq::<HeaderEntry>::empty());
        assert(header_block(t.drop_first()) == Seq::<u8>::empty());
        assert(t[0] == e);
        assert(header_line_bytes(e) + Seq::<u8>::empty() =~= header_line_bytes(e));
        assert(Seq::<u8>::empty() + header_line_bytes(e) =~= header_line_bytes(e));
    } else {
        let t = h.push(e);
        assert(t.drop_first() =~= h.drop_first().push(e));
        assert(t[0] == h[0]);
        lemma_header_block_push(h.drop_first(), e);
        assert(header_block(t) =~= header_block(h) + header_line_bytes(e));
    }
}

fn push_crlf(out: &mut Vec<u8>)
    ensures
        final(out)@ == old(out)@ + crlf(),
{
    out.push(CR);
    out.push(LF);
    assert(final(out)@ =~= old(out)@ + crlf());
}

/// Appends the decimal digits of `n` to `out`.
fn push_decimal(out: &mut Vec<u8>, n: u16)
    ensures
        final(out)@ == old(out)@ + decimal(n as nat),
    decreases n,
{
    if n >= 10 {
        push_decimal(out, n / 10);
    }
    out.push((0x30 + n % 10) as u8);
    assert(final(out)@ =~= old(out)@ + decimal(n as nat));
}

/// Appends the header lines of `h` to `out`.
fn push_headers(out: &mut Vec<u8>, h: &Headers)
    ensures
        final(out)@ == old(out)@ + header_block(h@),
{
    let ghost start = out@;
    let mut i: usize = 0;
    while i < h.entries.len()
        invariant
            i <= h@.len(),
            out@ == start + header_block(h@.take(i as int)),
        decreases h@.len() - i,
    {
        let ghost before = out@;
        push_bytes(out, string_bytes(&h.entries[i].0));
        out.push(COLON);
        out.push(SP);
        push_bytes(out, string_bytes(&h.entries[i].1));
        push_crlf(out);
        proof {
            assert(h@.take(i + 1) =~= h@.take(i as int).push(h@[i as int]));
            lemma_header_block_push(h@.take(i as int), h@[i as int]);
            assert(out@ =~= before + header_line_bytes(h@[i as int]));
        }
        i = i + 1;
    }
    assert(h@.take(h@.len() as int) =~= h@);
}

impl Request {
    /// The wire form of the request, up to and including the empty line that
    /// ends its header block.
    pub fn into_bytes(&self) -> (r: Vec<u8>)
        ensures
            r@ == request_bytes(self@),
            wf_request(self@) ==> forall|extra: Seq<u8>|
                #[trigger] parse_request(r@ + extra) == Ok::<_, crate::message::HTTPParseError>(
                    (RequestView { headers: normalized(self@.headers), ..self@ }, extra),
                ),
    {
        let mut out: Vec<u8> = Vec::new();
        push_bytes(&mut out, method_bytes(self.method).as_slice());
        out.push(SP);
        push_bytes(&mut out, string_bytes(&self.path));
        out.push(SP);
        push_bytes(&mut out, version_bytes(self.version).as_slice());
        push_crlf(&mut out);
        push_headers(&mut out, &self.headers);
        push_crlf(&mut out);
        assert(out@ =~= request_bytes(self@));
        proof {
            if wf_request(self@) {
                assert forall|extra: Seq<u8>|
                    #[trigger] parse_request(out@ + extra) == Ok::<_, crate::message::HTTPParseError>(
                        (RequestView { headers: normalized(self@.headers), ..self@ }, extra),
                    ) by {
                    lemma_request_round_trip(self@, extra);
                }
            }
        }
        out
    }
}

impl Response {
    /// The wire form of the response with `reason` as its reason phrase, up to
    /// and including the empty line that ends its header block.
    pub fn into_bytes_with_reason(&self, reason: &[u8]) -> (r: Vec<u8>)
        ensures
            r@ == response_bytes(self@, reason@),
    {
        let mut out: Vec<u8> = Vec::new();
        push_bytes(&mut out, version_bytes(self.version).as_slice());
        out.push(SP);
        push_decimal(&mut out, self.status);
        out.push(SP);
        push_bytes(&mut out, reason);
        push_crlf(&mut out);
        push_headers(&mut out, &self.headers);
        push_crlf(&mut out);
        assert(out@ =~= response_bytes(self@, reason@));
        out
    }

    /// The wire form of the response, with the registered reason phrase of
    /// its status, or `Unknown Reason`.
    pub fn into_bytes(&self) -> (r: Vec<u8>)
        ensures
            r@ == response_bytes(self@, reason_phrase(self.status)),
            wf_response(self@) ==> forall|extra: Seq<u8>|
                #[trigger] parse_response(r@ + extra) == Ok::<_, crate::message::HTTPParseError>(
                    (ResponseView { headers: normalized(self@.headers), ..self@ }, extra),
                ),
    {
        let r = match canonical_reason(self.status) {
            Some(s) => self.into_bytes_with_reason(s.as_bytes()),
            None => {
                let unknown: Vec<u8> = vec![85u8, 110, 107, 110, 111, 119, 110, 32, 82, 101, 97, 115, 111, 110];
                self.into_bytes_with_reason(unknown.as_slice())
            },
        };
        proof {
            let reason = reason_phrase(self.status);
            assert(forall|i: int| 0 <= i < reason.len() ==> #[trigger] reason[i] != 0x0du8);
            if wf_response(self@) {
                assert forall|extra: Seq<u8>|
                    #[trigger] parse_response(r@ + extra) == Ok::<_, crate::message::HTTPParseError>(
                        (ResponseView { headers: normalized(self@.headers), ..self@ }, extra),
                    ) by {
                    lemma_response_round_trip(self@, reason, extra);
                }
            }
        }
        r
    }
}

} // verus!
