//! Parsing requests and responses from a byte buffer, returning the bytes
//! after the header block.
use vstd::prelude::*;
use vstd::slice::slice_subrange;
use vstd::utf8::{decode_utf8, valid_utf8};
use crate::scan::{
    CR, LF, SP, crlf_at, find_byte, find_crlf, until_space, until_crlf, lemma_find_byte,
    lemma_find_crlf, parse_until_space, parse_until_crlf, find_byte_from, find_crlf_from,
};
use crate::status::status_from_bytes;
use crate::text::{lower_chars, trim_chars, trim_string, utf8_string, bytes_eq};
use crate::message::{
    HTTPMethod, HTTPVersion, HTTPParseError, HeaderEntry, Headers, Request, RequestView, Response,
    ResponseView, method_of, version_of, insert_header, method_bytes, version_bytes,
    lemma_method_token, lemma_version_token,
};

verus! {

pub const COLON: u8 = 0x3a;

pub const SLASH: u8 = 0x2f;

/// Reads the method token and the space after it.
pub open spec fn method_step(b: Seq<u8>) -> Result<(HTTPMethod, Seq<u8>), HTTPParseError> {
    let t = until_space(b);
    match method_of(t) {
        Some(m) => Ok((m, b.skip(t.len() + 1 as int))),
        None => Err(HTTPParseError::InvalidMethod),
    }
}

/// Reads the path token and the space after it: non-empty, starting with `/`,
/// and valid UTF-8.
pub open spec fn path_step(b: Seq<u8>) -> Result<(Seq<char>, Seq<u8>), HTTPParseError> {
    let t = until_space(b);
    if t.len() == 0 || t[0] != SLASH || !valid_utf8(t) {
        Err(HTTPParseError::InvalidPath)
    } else {
        Ok((decode_utf8(t), b.skip(t.len() + 1 as int)))
    }
}

/// Reads the version token that ends the request line, and its `\r\n`.
pub open spec fn request_version_step(b: Seq<u8>) -> Result<(HTTPVersion, Seq<u8>), HTTPParseError> {
    let t = until_crlf(b);
    match version_of(t) {
        Some(v) => Ok((v, b.skip(t.len() + 2 as int))),
        None => Err(HTTPParseError::InvalidVersion),
    }
}

/// Reads one header line `name: value\r\n`. The name is what stands before
/// the first colon; the value is the rest of the line, trimmed of spaces and
/// tabs.
pub open spec fn header_line(b: Seq<u8>) -> Result<(Seq<char>, Seq<char>, Seq<u8>), HTTPParseError> {
    let e = find_crlf(b, 0);
    let c = find_byte(b, COLON, 0);
    if e >= b.len() || c >= e {
        Err(HTTPParseError::UnterminatedHeader)
    } else {
        let k = b.take(c);
        let v = b.subrange(c + 1, e);
        if !valid_utf8(k) || !valid_utf8(v) {
            Err(HTTPParseError::InvalidHeader)
        } else {
            Ok((decode_utf8(k), trim_chars(decode_utf8(v)), b.skip(e + 2)))
        }
    }
}

/// Reads header lines into `acc` up to the empty line that ends the block;
/// names are lower-cased and values trimmed as they are stored.
pub open spec fn headers_from(b: Seq<u8>, acc: Seq<HeaderEntry>) -> Result<
    (Seq<HeaderEntry>, Seq<u8>),
    HTTPParseError,
>
    decreases b.len(),
{
    if b.len() < 2 {
        Err(HTTPParseError::UnterminatedHeader)
    } else if b[0] == CR && b[1] == LF {
        Ok((acc, b.skip(2)))
    } else {
        match header_line(b) {
            Err(e) => Err(e),
            Ok((k, v, rest)) => if rest.len() < b.len() {
                headers_from(rest, insert_header(acc, lower_chars(k), trim_chars(v)))
            } else {
                Err(HTTPParseError::UnterminatedHeader)
            },
        }
    }
}

/// The header block at the start of `b` and the bytes after it.
pub open spec fn parse_headers_spec(b: Seq<u8>) -> Result<(Seq<HeaderEntry>, Seq<u8>), HTTPParseError> {
    headers_from(b, Seq::empty())
}

/// The request at the start of `b` and the bytes after its header block.
pub open spec fn parse_request(b: Seq<u8>) -> Result<(RequestView, Seq<u8>), HTTPParseError> {
    match method_step(b) {
        Err(e) => Err(e),
        Ok((method, b1)) => match path_step(b1) {
            Err(e) => Err(e),
            Ok((path, b2)) => match request_version_step(b2) {
                Err(e) => Err(e),
                Ok((version, b3)) => match parse_headers_spec(b3) {
                    Err(e) => Err(e),
                    Ok((headers, tail)) => Ok(
                        (RequestView { method, path, version, headers }, tail),
                    ),
                },
            },
        },
    }
}

pub open spec fn is_digit(c: u8) -> bool {
    0x30 <= c <= 0x39
}

/// The status code written by `t`: three decimal digits, the first not zero.
pub open spec fn status_of(t: Seq<u8>) -> Option<u16> {
    if t.len() == 3 && is_digit(t[0]) && t[0] != 0x30 && is_digit(t[1]) && is_digit(t[2]) {
        Some((100 * (t[0] - 0x30) + 10 * (t[1] - 0x30) + (t[2] - 0x30)) as u16)
    } else {
        None
    }
}

/// The response at the start of `b` and the bytes after its header block. The
/// reason phrase is read up to `\r\n` and dropped.
pub open spec fn parse_response(b: Seq<u8>) -> Result<(ResponseView, Seq<u8>), HTTPParseError> {
    let vt = until_space(b);
    match version_of(vt) {
        None => Err(HTTPParseError::InvalidVersion),
        Some(version) => {
            let b1 = b.skip(vt.len() + 1 as int);
            let st = until_space(b1);
            match status_of(st) {
                None => Err(HTTPParseError::InvalidStatusCode),
                Some(status) => {
                    let b2 = b1.skip(st.len() + 1 as int);
                    let e = find_crlf(b2, 0);
                    if e >= b2.len() {
                        Err(HTTPParseError::UnterminatedHeader)
                    } else {
                        match parse_headers_spec(b2.skip(e + 2)) {
                            Err(e) => Err(e),
                            Ok((headers, tail)) => Ok(
                                (ResponseView { version, status, headers }, tail),
                            ),
                        }
                    }
                },
            }
        },
    }
}

/// A non-empty token from `until_space` ends before a space of `b`.
proof fn lemma_token_before_space(b: Seq<u8>)
    requires
        until_space(b).len() > 0,
    ensures
        until_space(b).len() < b.len(),
        b[until_space(b).len() as int] == SP,
{
    lemma_find_byte(b, SP, 0);
}

/// A non-empty token from `until_crlf` ends before a `\r\n` of `b`.
proof fn lemma_token_before_crlf(b: Seq<u8>)
    requires
        until_crlf(b).len() > 0,
    ensures
        crlf_at(b, until_crlf(b).len() as int),
{
    lemma_find_crlf(b, 0);
}

/// The method named by `t`, if any.
pub fn method_from_token(t: &[u8]) -> (r: Option<HTTPMethod>)
    ensures
        r == method_of(t@),
{
    if bytes_eq(t, method_bytes(HTTPMethod::GET).as_slice()) {
        Some(HTTPMethod::GET)
    } else if bytes_eq(t, method_bytes(HTTPMethod::POST).as_slice()) {
        Some(HTTPMethod::POST)
    } else if bytes_eq(t, method_bytes(HTTPMethod::PUT).as_slice()) {
        Some(HTTPMethod::PUT)
    } else if bytes_eq(t, method_bytes(HTTPMethod::PATCH).as_slice()) {
        Some(HTTPMethod::PATCH)
    } else if bytes_eq(t, method_bytes(HTTPMethod::DELETE).as_slice()) {
        Some(HTTPMethod::DELETE)
    } else if bytes_eq(t, method_bytes(HTTPMethod::HEAD).as_slice()) {
        Some(HTTPMethod::HEAD)
    } else if bytes_eq(t, method_bytes(HTTPMethod::CONNECT).as_slice()) {
        Some(HTTPMethod::CONNECT)
    } else if bytes_eq(t, method_bytes(HTTPMethod::OPTIONS).as_slice()) {
        Some(HTTPMethod::OPTIONS)
    } else if bytes_eq(t, method_bytes(HTTPMethod::TRACE).as_slice()) {
        Some(HTTPMethod::TRACE)
    } else {
        None
    }
}

/// The version named by `t`, if any.
pub fn version_from_token(t: &[u8]) -> (r: Option<HTTPVersion>)
    ensures
        r == version_of(t@),
{
    if bytes_eq(t, version_bytes(HTTPVersion::HTTP1_1).as_slice()) {
        Some(HTTPVersion::HTTP1_1)
    } else if bytes_eq(t, version_bytes(HTTPVersion::HTTP2).as_slice()) {
        Some(HTTPVersion::HTTP2)
    } else if bytes_eq(t, version_bytes(HTTPVersion::HTTP3).as_slice()) {
        Some(HTTPVersion::HTTP3)
    } else {
        None
    }
}

/// Reads the request's method and the space after it.
pub fn parse_method(buf: &[u8]) -> (r: Result<(HTTPMethod, &[u8]), HTTPParseError>)
    ensures
        match r {
            Ok((m, rest)) => method_step(buf@) == Ok::<_, HTTPParseError>((m, rest@)),
            Err(e) => method_step(buf@) == Err::<(HTTPMethod, Seq<u8>), _>(e),
        },
{
    let t = parse_until_space(buf);
    match method_from_token(t) {
        Some(m) => {
            proof {
                lemma_method_token(m);
                lemma_token_before_space(buf@);
            }
            let n = buf.len();
            Ok((m, slice_subrange(buf, t.len() + 1, n)))
        },
        None => Err(HTTPParseError::InvalidMethod),
    }
}

/// Reads the request's path and the space after it.
pub fn parse_path(buf: &[u8]) -> (r: Result<(String, &[u8]), HTTPParseError>)
    ensures
        match r {
            Ok((p, rest)) => path_step(buf@) == Ok::<_, HTTPParseError>((p@, rest@)),
            Err(e) => path_step(buf@) == Err::<(Seq<char>, Seq<u8>), _>(e),
        },
{
    let t = parse_until_space(buf);
    if t.len() == 0 || t[0] != SLASH {
        return Err(HTTPParseError::InvalidPath);
    }
    proof {
        assert(until_space(buf@).len() > 0);
        lemma_token_before_space(buf@);
    }
    match utf8_string(t) {
        Some(p) => {
            let n = buf.len();
            Ok((p, slice_subrange(buf, t.len() + 1, n)))
        },
        None => Err(HTTPParseError::InvalidPath),
    }
}

/// Reads the version that ends the request line, and its `\r\n`.
pub fn parse_request_version(buf: &[u8]) -> (r: Result<(HTTPVersion, &[u8]), HTTPParseError>)
    ensures
        match r {
            Ok((v, rest)) => request_version_step(buf@) == Ok::<_, HTTPParseError>((v, rest@)),
            Err(e) => request_version_step(buf@) == Err::<(HTTPVersion, Seq<u8>), _>(e),
        },
{
    let t = parse_until_crlf(buf);
    match version_from_token(t) {
        Some(v) => {
            proof {
                lemma_version_token(v);
                lemma_token_before_crlf(buf@);
            }
            let n = buf.len();
            Ok((v, slice_subrange(buf, t.len() + 2, n)))
        },
        None => Err(HTTPParseError::InvalidVersion),
    }
}

/// Reads one header line.
pub fn parse_header(buf: &[u8]) -> (r: Result<(String, String, &[u8]), HTTPParseError>)
    ensures
        match r {
            Ok((k, v, rest)) => {
                &&& header_line(buf@) == Ok::<_, HTTPParseError>((k@, v@, rest@))
                &&& rest@.len() + 2 <= buf@.len()
            },
            Err(e) => header_line(buf@) == Err::<(Seq<char>, Seq<char>, Seq<u8>), _>(e),
        },
{
    let n = buf.len();
    let e = find_crlf_from(buf, 0);
    if e >= n {
        return Err(HTTPParseError::UnterminatedHeader);
    }
    let c = find_byte_from(buf, COLON, 0);
    if c >= e {
        return Err(HTTPParseError::UnterminatedHeader);
    }
    proof {
        lemma_find_crlf(buf@, 0);
        assert(buf@.subrange(0, c as int) =~= buf@.take(c as int));
    }
    let key = slice_subrange(buf, 0, c);
    let value = slice_subrange(buf, c + 1, e);
    let k = match utf8_string(key) {
        Some(k) => k,
        None => return Err(HTTPParseError::InvalidHeader),
    };
    let v = match utf8_string(value) {
        Some(v) => trim_string(&v),
        None => return Err(HTTPParseError::InvalidHeader),
    };
    Ok((k, v, slice_subrange(buf, e + 2, n)))
}

/// Reads the header block: header lines up to an empty line.
pub fn parse_headers(buf: &[u8]) -> (r: Result<(Headers, &[u8]), HTTPParseError>)
    ensures
        match r {
            Ok((h, rest)) => parse_headers_spec(buf@) == Ok::<_, HTTPParseError>((h@, rest@)) && h.wf(),
            Err(e) => parse_headers_spec(buf@) == Err::<(Seq<HeaderEntry>, Seq<u8>), _>(e),
        },
{
    let mut headers = Headers::new();
    let mut cur = buf;
    while cur.len() >= 2 && !(cur[0] == CR && cur[1] == LF)
        invariant
            parse_headers_spec(buf@) == headers_from(cur@, headers@),
            headers.wf(),
        decreases cur@.len(),
    {
        match parse_header(cur) {
            Err(e) => {
                return Err(e);
            },
            Ok((k, v, rest)) => {
                headers.insert(k, v);
                cur = rest;
            },
        }
    }
    if cur.len() < 2 {
        return Err(HTTPParseError::UnterminatedHeader);
    }
    let n = cur.len();
    Ok((headers, slice_subrange(cur, 2, n)))
}

impl Request {
    /// Parses the request at the start of `buf`; gives it with the bytes that
    /// follow its header block.
    pub fn parse(buf: &[u8]) -> (r: Result<(Request, &[u8]), HTTPParseError>)
        ensures
            match r {
                Ok((req, rest)) => parse_request(buf@) == Ok::<_, HTTPParseError>((req@, rest@)),
                Err(e) => parse_request(buf@) == Err::<(RequestView, Seq<u8>), _>(e),
            },
    {
        let (method, b1) = match parse_method(buf) {
            Ok(x) => x,
            Err(e) => return Err(e),
        };
        let (path, b2) = match parse_path(b1) {
            Ok(x) => x,
            Err(e) => return Err(e),
        };
        let (version, b3) = match parse_request_version(b2) {
            Ok(x) => x,
            Err(e) => return Err(e),
        };
        let (headers, tail) = match parse_headers(b3) {
            Ok(x) => x,
            Err(e) => return Err(e),
        };
        Ok((Request { path, method, headers, version }, tail))
    }
}

impl Response {
    /// Parses the response at the start of `buf`; gives it with the bytes that
    /// follow its header block.
    pub fn parse(buf: &[u8]) -> (r: Result<(Response, &[u8]), HTTPParseError>)
        ensures
            match r {
                Ok((resp, rest)) => parse_response(buf@) == Ok::<_, HTTPParseError>((resp@, rest@)),
                Err(e) => parse_response(buf@) == Err::<(ResponseView, Seq<u8>), _>(e),
            },
    {
        let n = buf.len();
        let vt = parse_until_space(buf);
        let version = match version_from_token(vt) {
            Some(v) => v,
            None => return Err(HTTPParseError::InvalidVersion),
        };
        proof {
            lemma_version_token(version);
            lemma_token_before_space(buf@);
        }
        let b1 = slice_subrange(buf, vt.len() + 1, n);
        let n1 = b1.len();
        let st = parse_until_space(b1);
        let status = match status_from_bytes(st) {
            Ok(s) => s,
            Err(_) => return Err(HTTPParseError::InvalidStatusCode),
        };
        proof {
            lemma_token_before_space(b1@);
        }
        let b2 = slice_subrange(b1, st.len() + 1, n1);
        let n2 = b2.len();
        let e = find_crlf_from(b2, 0);
        if e >= n2 {
            return Err(HTTPParseError::UnterminatedHeader);
        }
        proof {
            lemma_find_crlf(b2@, 0);
        }
        let (headers, tail) = match parse_headers(slice_subrange(b2, e + 2, n2)) {
            Ok(x) => x,
            Err(e) => return Err(e),
        };
        Ok((Response { status, version, headers }, tail))
    }
}

} // verus!
