//! Laws that relate the parser and the serializer.
use vstd::prelude::*;
use vstd::utf8::{encode_utf8, is_ascii_chars, is_ascii_chars_encode_utf8};
use crate::scan::{CR, LF, SP, crlf_at, lemma_find_byte_at, lemma_find_crlf_at};
use crate::text::{lower_chars, trim_chars, trim_start, trim_end, lemma_lower_chars_idempotent,
    lemma_trim_chars_idempotent,
};
use crate::message::{
    HeaderEntry, RequestView, ResponseView, insert_header, key_index, lemma_key_index, headers_wf,
    lemma_method_token, lemma_version_token, method_token, unique_keys, version_token,
};
use crate::parse::{
    COLON, SLASH, header_line, headers_from, parse_request, parse_response, status_of,
};
use crate::wire::{crlf, decimal, header_block, header_line_bytes, request_bytes, response_bytes};

verus! {

broadcast use {vstd::utf8::encode_utf8_decode_utf8, vstd::utf8::encode_utf8_valid_utf8};

/// A header entry that can be written and read back: its name holds no
/// `\r`, `\n` or `:`, and its value holds no `\r` or `\n`.
pub open spec fn wf_header(e: HeaderEntry) -> bool {
    let k = encode_utf8(e.0);
    let v = encode_utf8(e.1);
    &&& forall|i: int| 0 <= i < k.len() ==> #[trigger] k[i] != CR && k[i] != LF && k[i] != COLON
    &&& forall|i: int| 0 <= i < v.len() ==> #[trigger] v[i] != CR && v[i] != LF
}

/// Header entries that can be written and read back, with names distinct
/// ignoring ASCII case.
pub open spec fn wf_headers(h: Seq<HeaderEntry>) -> bool {
    &&& forall|i: int| 0 <= i < h.len() ==> wf_header(#[trigger] h[i])
    &&& forall|i: int, j: int|
        0 <= i < j < h.len() ==> lower_chars(#[trigger] h[i].0) != lower_chars(#[trigger] h[j].0)
}

/// The entries of `h` as they are stored once read: names lower-cased,
/// values trimmed.
pub open spec fn normalized(h: Seq<HeaderEntry>) -> Seq<HeaderEntry> {
    h.map_values(|e: HeaderEntry| (lower_chars(e.0), trim_chars(e.1)))
}

/// A well-formed request: its path starts with `/` and holds no space, and
/// its headers are well-formed.
pub open spec fn wf_request(r: RequestView) -> bool {
    let p = encode_utf8(r.path);
    &&& p.len() > 0
    &&& p[0] == SLASH
    &&& forall|i: int| 0 <= i < p.len() ==> #[trigger] p[i] != SP
    &&& wf_headers(r.headers)
}

/// A well-formed response: its status is in 100..=999 and its headers are
/// well-formed.
pub open spec fn wf_response(r: ResponseView) -> bool {
    &&& 100 <= r.status <= 999
    &&& wf_headers(r.headers)
}

/// Entries kept by `Headers` are already normalized.
pub proof fn lemma_normalized_stored(h: Seq<HeaderEntry>)
    requires
        headers_wf(h),
    ensures
        normalized(h) == h,
{
    assert forall|i: int| 0 <= i < h.len() implies #[trigger] normalized(h)[i] == h[i] by {
        assert(lower_chars(h[i].0) == h[i].0);
        let v = h[i].1;
        assert(trim_start(v) == v);
        assert(trim_end(v) == v);
    }
    assert(normalized(h) =~= h);
}

proof fn lemma_encode_concat(a: Seq<char>, b: Seq<char>)
    ensures
        encode_utf8(a + b) == encode_utf8(a) + encode_utf8(b),
    decreases a.len(),
{
    if a.len() == 0 {
        assert(a + b =~= b);
        assert(encode_utf8(a) + encode_utf8(b) =~= encode_utf8(b));
    } else {
        assert((a + b).drop_first() =~= a.drop_first() + b);
        assert((a + b)[0] == a[0]);
        lemma_encode_concat(a.drop_first(), b);
        assert(encode_utf8(a + b) =~= encode_utf8(a) + encode_utf8(b));
    }
}

proof fn lemma_header_line_round_trip(e: HeaderEntry, rest: Seq<u8>)
    requires
        wf_header(e),
    ensures
        header_line(header_line_bytes(e) + rest) == Ok::<_, crate::message::HTTPParseError>(
            (e.0, trim_chars(e.1), rest),
        ),
        (header_line_bytes(e) + rest).len() >= 4 + rest.len(),
        !((header_line_bytes(e) + rest)[0] == CR && (header_line_bytes(e) + rest)[1] == LF),
{
    let k = encode_utf8(e.0);
    let v = encode_utf8(e.1);
    let n = k.len() as int;
    let m = v.len() as int;
    let b = header_line_bytes(e) + rest;
    assert(b =~= k + seq![COLON, SP] + v + seq![CR, LF] + rest);
    assert(forall|j: int| 0 <= j < n ==> b[j] == k[j]);
    assert(forall|j: int| n + 2 <= j < n + 2 + m ==> b[j] == v[j - n - 2]);
    assert(b[n] == COLON && b[n + 1] == SP && b[n + 2 + m] == CR && b[n + 3 + m] == LF);
    assert forall|j: int| 0 <= j < n + 2 + m implies !crlf_at(b, j) by {
        if j < n {
            assert(b[j] == k[j]);
        } else if j >= n + 2 {
            assert(b[j] == v[j - n - 2]);
        }
    }
    lemma_find_crlf_at(b, 0, n + 2 + m);
    lemma_find_byte_at(b, COLON, 0, n);
    assert(b.take(n) =~= k);
    let sp = seq![' '];
    assert(is_ascii_chars(sp));
    is_ascii_chars_encode_utf8(sp);
    assert(encode_utf8(sp) =~= seq![SP]);
    lemma_encode_concat(sp, e.1);
    assert(b.subrange(n + 1, n + 2 + m) =~= encode_utf8(sp + e.1));
    assert(b.skip(n + 2 + m + 2) =~= rest);
    assert((sp + e.1).drop_first() =~= e.1);
    assert(trim_start(sp + e.1) == trim_start(e.1));
}

proof fn lemma_headers_round_trip(h: Seq<HeaderEntry>, acc: Seq<HeaderEntry>, tail: Seq<u8>)
    requires
        forall|i: int| 0 <= i < h.len() ==> wf_header(#[trigger] h[i]),
        forall|i: int| 0 <= i < acc.len() ==> lower_chars(#[trigger] acc[i].0) == acc[i].0,
        unique_keys(acc + normalized(h)),
    ensures
        headers_from(header_block(h) + crlf() + tail, acc) == Ok::<_, crate::message::HTTPParseError>(
            (acc + normalized(h), tail),
        ),
    decreases h.len(),
{
    let b = header_block(h) + crlf() + tail;
    if h.len() == 0 {
        assert(b =~= crlf() + tail);
        assert(b.skip(2) =~= tail);
        assert(acc + normalized(h) =~= acc);
    } else {
        let e = h[0];
        let ne = (lower_chars(e.0), trim_chars(e.1));
        let nh = normalized(h);
        let rest = header_block(h.drop_first()) + crlf() + tail;
        assert(b =~= header_line_bytes(e) + rest);
        lemma_header_line_round_trip(e, rest);
        assert(nh[0] == ne);
        lemma_lower_chars_idempotent(e.0);
        lemma_trim_chars_idempotent(e.1);
        lemma_key_index(acc, ne.0, 0);
        let i = key_index(acc, ne.0, 0);
        if i < acc.len() {
            assert(lower_chars(acc[i].0) == acc[i].0);
            assert((acc + nh)[i] == acc[i]);
            assert((acc + nh)[acc.len() as int] == ne);
            assert(false);
        }
        assert(insert_header(acc, ne.0, ne.1) == acc.push(ne));
        assert(normalized(h.drop_first()) =~= nh.drop_first());
        assert(acc.push(ne) + normalized(h.drop_first()) =~= acc + nh);
        lemma_headers_round_trip(h.drop_first(), acc.push(ne), tail);
    }
}

proof fn lemma_headers_block_round_trip(h: Seq<HeaderEntry>, tail: Seq<u8>)
    requires
        wf_headers(h),
    ensures
        headers_from(header_block(h) + crlf() + tail, Seq::empty()) == Ok::<
            _,
            crate::message::HTTPParseError,
        >((normalized(h), tail)),
{
    let nh = normalized(h);
    assert(Seq::<HeaderEntry>::empty() + nh =~= nh);
    assert forall|i: int, j: int| 0 <= i < j < nh.len() implies #[trigger] nh[i].0 != #[trigger] nh[j].0 by {
        assert(nh[i].0 == lower_chars(h[i].0));
        assert(nh[j].0 == lower_chars(h[j].0));
    }
    lemma_headers_round_trip(h, Seq::empty(), tail);
}

/// Parsing the wire form of a well-formed request, followed by any bytes,
/// gives back its method, path and version, its headers with names
/// lower-cased and values trimmed, and exactly those bytes.
#[verifier::rlimit(40)]
pub proof fn lemma_request_round_trip(r: RequestView, extra: Seq<u8>)
    requires
        wf_request(r),
    ensures
        parse_request(request_bytes(r) + extra) == Ok::<_, crate::message::HTTPParseError>(
            (RequestView { headers: normalized(r.headers), ..r }, extra),
        ),
{
    let mt = method_token(r.method);
    let p = encode_utf8(r.path);
    let vt = version_token(r.version);
    let hb = header_block(r.headers);
    lemma_method_token(r.method);
    lemma_version_token(r.version);
    let b = request_bytes(r) + extra;
    let b1 = p + seq![SP] + vt + crlf() + hb + crlf() + extra;
    let b2 = vt + crlf() + hb + crlf() + extra;
    let b3 = hb + crlf() + extra;
    assert(crate::parse::method_step(b) == Ok::<_, crate::message::HTTPParseError>((r.method, b1)))
        by {
        assert(b =~= mt + seq![SP] + b1);
        assert(forall|j: int| 0 <= j < mt.len() ==> b[j] == mt[j]);
        lemma_find_byte_at(b, SP, 0, mt.len() as int);
        assert(b.take(mt.len() as int) =~= mt);
        assert(b.skip(mt.len() + 1 as int) =~= b1);
    }
    assert(crate::parse::path_step(b1) == Ok::<_, crate::message::HTTPParseError>((r.path, b2)))
        by {
        assert(b1 =~= p + seq![SP] + b2);
        assert(forall|j: int| 0 <= j < p.len() ==> b1[j] == p[j]);
        lemma_find_byte_at(b1, SP, 0, p.len() as int);
        assert(b1.take(p.len() as int) =~= p);
        assert(b1.skip(p.len() + 1 as int) =~= b2);
    }
    assert(crate::parse::request_version_step(b2) == Ok::<_, crate::message::HTTPParseError>(
        (r.version, b3),
    )) by {
        assert(b2 =~= vt + crlf() + b3);
        assert(forall|j: int| 0 <= j < vt.len() ==> b2[j] == vt[j]);
        assert forall|j: int| 0 <= j < vt.len() implies !crlf_at(b2, j) by {
            assert(b2[j] == vt[j]);
        }
        lemma_find_crlf_at(b2, 0, vt.len() as int);
        assert(b2.take(vt.len() as int) =~= vt);
        assert(b2.skip(vt.len() + 2 as int) =~= b3);
    }
    assert(crate::parse::parse_headers_spec(b3) == Ok::<_, crate::message::HTTPParseError>(
        (normalized(r.headers), extra),
    )) by {
        lemma_headers_block_round_trip(r.headers, extra);
    }
}

proof fn lemma_decimal_three_digits(s: u16)
    requires
        100 <= s <= 999,
    ensures
        decimal(s as nat) =~= seq![
            (0x30 + s / 100) as u8,
            (0x30 + (s / 10) % 10) as u8,
            (0x30 + s % 10) as u8,
        ],
        status_of(decimal(s as nat)) == Some(s),
{
    let n = s as nat;
    assert(n / 10 / 10 == n / 100);
    assert(decimal(n / 100) =~= seq![(0x30 + n / 100) as u8]);
    assert(decimal(n / 10) =~= seq![(0x30 + n / 100) as u8, (0x30 + (n / 10) % 10) as u8]);
    assert(100 * (n / 100) + 10 * ((n / 10) % 10) + n % 10 == n);
}

/// Parsing the wire form of a well-formed response, written with any reason
/// phrase that holds no `\r`, followed by any bytes, gives back its version
/// and status, its headers with names lower-cased and values trimmed, and
/// exactly those bytes.
pub proof fn lemma_response_round_trip(r: ResponseView, reason: Seq<u8>, extra: Seq<u8>)
    requires
        wf_response(r),
        forall|i: int| 0 <= i < reason.len() ==> #[trigger] reason[i] != CR,
    ensures
        parse_response(response_bytes(r, reason) + extra) == Ok::<_, crate::message::HTTPParseError>(
            (ResponseView { headers: normalized(r.headers), ..r }, extra),
        ),
{
    let vt = version_token(r.version);
    let d = decimal(r.status as nat);
    let hb = header_block(r.headers);
    lemma_version_token(r.version);
    lemma_decimal_three_digits(r.status);
    let b = response_bytes(r, reason) + extra;
    let b1 = d + seq![SP] + reason + crlf() + hb + crlf() + extra;
    let b2 = reason + crlf() + hb + crlf() + extra;
    let b3 = hb + crlf() + extra;
    assert(b =~= vt + seq![SP] + b1);
    assert(b1 =~= d + seq![SP] + b2);
    assert(b2 =~= reason + crlf() + b3);
    assert(forall|j: int| 0 <= j < vt.len() ==> b[j] == vt[j]);
    lemma_find_byte_at(b, SP, 0, vt.len() as int);
    assert(b.take(vt.len() as int) =~= vt);
    assert(b.skip(vt.len() + 1 as int) =~= b1);
    lemma_find_byte_at(b1, SP, 0, 3);
    assert(b1.take(3) =~= d);
    assert(b1.skip(4) =~= b2);
    assert forall|j: int| 0 <= j < reason.len() implies !crlf_at(b2, j) by {
        assert(b2[j] == reason[j]);
    }
    lemma_find_crlf_at(b2, 0, reason.len() as int);
    assert(b2.skip(reason.len() + 2 as int) =~= b3);
    lemma_headers_block_round_trip(r.headers, extra);
}

} // verus!
