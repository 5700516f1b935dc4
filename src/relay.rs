//! The decisions of a proxied connection: reading a header block in pieces,
//! following a chunked body, forwarding messages, and answering errors.
use vstd::prelude::*;
use vstd::slice::slice_subrange;
use crate::scan::{terminated, terminator_at, is_terminated};
use crate::text::{push_bytes, lower_chars, trim_chars};
use crate::message::{HTTPVersion, Request, RequestView, Response, ResponseView, insert_header};
use crate::wire::{request_bytes, response_bytes, reason_phrase};
use crate::parse::{parse_request, parse_response};
use crate::laws::{wf_request, wf_response, normalized};
use crate::proxy::{ServerConfig, route_index, rewritten_path};
use crate::body::BodyFraming;

verus! {

/// Where the scan for `\r\n\r\n` starts once `prev` bytes were already
/// scanned: four bytes back, so that a terminator split across two reads is
/// still seen.
pub open spec fn window_start(prev: int) -> int {
    if prev >= 4 {
        prev - 4
    } else {
        0
    }
}

/// When the first `prev` bytes of `b` hold no `\r\n\r\n`, scanning from
/// `window_start(prev)` to `total` finds one exactly when the first `total`
/// bytes hold one.
pub proof fn lemma_window_finds_split_terminator(b: Seq<u8>, prev: int, total: int)
    requires
        0 <= prev <= total <= b.len(),
        !terminated(b.take(prev)),
    ensures
        terminated(b.subrange(window_start(prev), total)) == terminated(b.take(total)),
{
    let w = window_start(prev);
    let s = b.subrange(w, total);
    let t = b.take(total);
    if terminated(s) {
        let i = choose|i: int| terminator_at(s, i);
        assert(terminator_at(t, i + w));
    }
    if terminated(t) {
        let j = choose|j: int| terminator_at(t, j);
        if j + 3 < prev {
            assert(terminator_at(b.take(prev), j));
        }
        assert(terminator_at(s, j - w));
    }
}

/// Why a header block could not be read.
#[derive(Debug, Clone, Copy, PartialEq, Eq, Structural)]
pub enum HeaderReadError {
    /// The stream ended before `\r\n\r\n`.
    StreamClosedPrematurely,
    /// The buffer filled up before `\r\n\r\n`.
    HeaderTooLarge,
}

/// What the reader of a header block does next.
#[derive(Debug, Clone, Copy, PartialEq, Eq, Structural)]
pub enum HeaderReadAction {
    /// The header block is complete: parse the first `n` bytes of the buffer.
    Parse(usize),
    /// Read more bytes into the buffer from this offset on.
    Read(usize),
    /// Give up.
    Fail(HeaderReadError),
}

/// The state of reading a header block into a buffer of `capacity` bytes.
pub struct HeaderReader {
    pub total: usize,
    pub last: usize,
    pub capacity: usize,
}

impl HeaderReader {
    pub open spec fn wf(&self) -> bool {
        self.last <= self.total <= self.capacity
    }

    pub fn new(capacity: usize) -> (r: HeaderReader)
        ensures
            r.wf(),
            r.total == 0,
            r.last == 0,
            r.capacity == capacity,
    {
        HeaderReader { total: 0, last: 0, capacity }
    }

    /// What to do next, given the buffer whose first `total` bytes were read.
    pub fn next_action(&self, buf: &[u8]) -> (r: HeaderReadAction)
        requires
            self.wf(),
            self.total <= buf@.len(),
        ensures
            r == (if terminated(
                buf@.subrange(window_start(self.total - self.last), self.total as int),
            ) {
                HeaderReadAction::Parse(self.total)
            } else if self.total >= self.capacity {
                HeaderReadAction::Fail(HeaderReadError::HeaderTooLarge)
            } else {
                HeaderReadAction::Read(self.total)
            }),
    {
        let prev = self.total - self.last;
        let start = if prev >= 4 {
            prev - 4
        } else {
            0
        };
        if is_terminated(slice_subrange(buf, start, self.total)) {
            HeaderReadAction::Parse(self.total)
        } else if self.total >= self.capacity {
            HeaderReadAction::Fail(HeaderReadError::HeaderTooLarge)
        } else {
            HeaderReadAction::Read(self.total)
        }
    }

    /// Records a read of `n` bytes; a read of none means the stream closed.
    pub fn on_read(&mut self, n: usize) -> (r: Result<(), HeaderReadError>)
        requires
            old(self).wf(),
            n <= old(self).capacity - old(self).total,
        ensures
            final(self).wf(),
            final(self).capacity == old(self).capacity,
            n == 0 ==> r == Err::<(), _>(HeaderReadError::StreamClosedPrematurely) && *final(self)
                == *old(self),
            n > 0 ==> r == Ok::<(), HeaderReadError>(()) && final(self).total == old(self).total + n
                && final(self).last == n,
    {
        if n == 0 {
            return Err(HeaderReadError::StreamClosedPrematurely);
        }
        self.total = self.total + n;
        self.last = n;
        Ok(())
    }
}

/// The last `min(3, s.len())` bytes of `s`.
pub open spec fn last3(s: Seq<u8>) -> Seq<u8> {
    if s.len() >= 3 {
        s.skip(s.len() - 3)
    } else {
        s
    }
}

/// Follows a chunked body as it is relayed, to see where it ends: at the
/// first `\r\n\r\n`. Only the last three bytes are kept between pieces.
pub struct ChunkedScanner {
    pub carry: Vec<u8>,
    pub seen: Ghost<Seq<u8>>,
}

impl ChunkedScanner {
    pub open spec fn wf(&self) -> bool {
        &&& self.carry@ == last3(self.seen@)
        &&& !terminated(self.seen@)
    }

    pub fn new() -> (r: ChunkedScanner)
        ensures
            r.wf(),
            r.seen@ == Seq::<u8>::empty(),
    {
        ChunkedScanner { carry: Vec::new(), seen: Ghost(Seq::empty()) }
    }

    /// Takes the next piece of the body; says whether the body seen so far,
    /// this piece included, holds `\r\n\r\n`.
    pub fn feed(&mut self, piece: &[u8]) -> (r: bool)
        requires
            old(self).wf(),
        ensures
            r == terminated(old(self).seen@ + piece@),
            !r ==> final(self).wf() && final(self).seen@ == old(self).seen@ + piece@,
    {
        let ghost seen = self.seen@;
        let ghost all = seen + piece@;
        let mut scan: Vec<u8> = Vec::new();
        push_bytes(&mut scan, self.carry.as_slice());
        push_bytes(&mut scan, piece);
        let ghost off = seen.len() - self.carry@.len();
        proof {
            assert(scan@ =~= all.skip(off));
        }
        let r = is_terminated(scan.as_slice());
        proof {
            if terminated(scan@) {
                let i = choose|i: int| terminator_at(scan@, i);
                assert(terminator_at(all, i + off));
            }
            if terminated(all) {
                let j = choose|j: int| terminator_at(all, j);
                if j + 3 < seen.len() {
                    assert(terminator_at(seen, j));
                }
                assert(terminator_at(scan@, j - off));
            }
        }
        if r {
            return true;
        }
        let n = scan.len();
        let mut carry: Vec<u8> = Vec::new();
        if n >= 3 {
            push_bytes(&mut carry, slice_subrange(scan.as_slice(), n - 3, n));
        } else {
            push_bytes(&mut carry, scan.as_slice());
        }
        self.carry = carry;
        self.seen = Ghost(all);
        assert(self.carry@ =~= last3(all));
        false
    }
}

/// What the relay of a body does next.
#[derive(Debug, Clone, Copy, PartialEq, Eq, Structural)]
pub enum RelayAction {
    /// Read at most this many bytes from the sender and pass them on.
    Read(usize),
    /// The body is complete.
    Done,
}

/// Why a body relay failed.
#[derive(Debug, Clone, Copy, PartialEq, Eq, Structural)]
pub enum BodyRelayError {
    /// The sender closed its stream before the body was complete.
    StreamClosedPrematurely,
}

/// The state of relaying a body after its header block. An unframed body is
/// empty, unless `until_close` is set: then it runs to the end of the stream.
pub struct BodyRelay {
    pub framing: BodyFraming,
    pub until_close: bool,
    pub relayed: u64,
    pub finished: bool,
    pub scanner: ChunkedScanner,
}

impl BodyRelay {
    pub open spec fn wf(&self) -> bool {
        &&& (self.framing == BodyFraming::Chunked && !self.finished) ==> self.scanner.wf()
        &&& self.framing matches BodyFraming::Length(n) ==> (!self.finished ==> self.relayed < n)
    }

    /// Starts a relay whose first bytes, `residual`, were already passed on.
    pub fn new(framing: BodyFraming, residual: &[u8], until_close: bool) -> (r: BodyRelay)
        ensures
            r.wf(),
            r.framing == framing,
            r.until_close == until_close,
            r.relayed == (if residual@.len() > u64::MAX {
                u64::MAX as int
            } else {
                residual@.len() as int
            }),
            r.finished == match framing {
                BodyFraming::Chunked => terminated(residual@),
                BodyFraming::Length(n) => r.relayed >= n,
                BodyFraming::Unframed => !until_close,
            },
            framing == BodyFraming::Chunked && !r.finished ==> r.scanner.seen@ == residual@,
    {
        let relayed: u64 = if residual.len() as u128 > u64::MAX as u128 {
            u64::MAX
        } else {
            residual.len() as u64
        };
        let mut scanner = ChunkedScanner::new();
        let finished = match framing {
            BodyFraming::Chunked => {
                let done = scanner.feed(residual);
                assert(Seq::<u8>::empty() + residual@ =~= residual@);
                done
            },
            BodyFraming::Length(n) => relayed >= n,
            BodyFraming::Unframed => !until_close,
        };
        BodyRelay { framing, until_close, relayed, finished, scanner }
    }

    /// What to do next, reading into a buffer of `cap` bytes.
    pub fn next_action(&self, cap: usize) -> (r: RelayAction)
        requires
            self.wf(),
        ensures
            r == (if self.finished {
                RelayAction::Done
            } else {
                match self.framing {
                    BodyFraming::Length(n) => RelayAction::Read(
                        if (n - self.relayed) < cap {
                            (n - self.relayed) as usize
                        } else {
                            cap
                        },
                    ),
                    _ => RelayAction::Read(cap),
                }
            }),
    {
        if self.finished {
            return RelayAction::Done;
        }
        match self.framing {
            BodyFraming::Length(n) => {
                let owed = n - self.relayed;
                if (owed as u128) < (cap as u128) {
                    RelayAction::Read(owed as usize)
                } else {
                    RelayAction::Read(cap)
                }
            },
            _ => RelayAction::Read(cap),
        }
    }

    /// Takes the next piece read from the sender, after it was passed on; an
    /// empty piece means the sender's stream ended.
    pub fn on_read(&mut self, piece: &[u8]) -> (r: Result<(), BodyRelayError>)
        requires
            old(self).wf(),
            !old(self).finished,
            old(self).framing matches BodyFraming::Length(n) ==> old(self).relayed + piece@.len() <= n,
        ensures
            final(self).framing == old(self).framing,
            final(self).until_close == old(self).until_close,
            piece@.len() == 0 ==> if old(self).framing == BodyFraming::Unframed {
                r == Ok::<(), BodyRelayError>(()) && final(self).finished
            } else {
                r == Err::<(), _>(BodyRelayError::StreamClosedPrematurely)
            },
            piece@.len() > 0 ==> r == Ok::<(), BodyRelayError>(()) && final(self).wf() && match old(
                self,
            ).framing {
                BodyFraming::Chunked => final(self).finished == terminated(
                    old(self).scanner.seen@ + piece@,
                ) && (!final(self).finished ==> final(self).scanner.seen@ == old(self).scanner.seen@
                    + piece@),
                BodyFraming::Length(n) => final(self).relayed == old(self).relayed + piece@.len()
                    && final(self).finished == (final(self).relayed >= n),
                BodyFraming::Unframed => !final(self).finished,
            },
    {
        if piece.len() == 0 {
            match self.framing {
                BodyFraming::Unframed => {
                    self.finished = true;
                    return Ok(());
                },
                _ => return Err(BodyRelayError::StreamClosedPrematurely),
            }
        }
        match self.framing {
            BodyFraming::Chunked => {
                self.finished = self.scanner.feed(piece);
            },
            BodyFraming::Length(n) => {
                self.relayed = self.relayed + piece.len() as u64;
                self.finished = self.relayed >= n;
            },
            BodyFraming::Unframed => {},
        }
        Ok(())
    }
}

/// Why a proxied exchange failed.
#[derive(Debug, Clone, Copy, PartialEq, Eq, Structural)]
pub enum ProxyError {
    /// The client closed its stream before the header block ended.
    StreamClosedPrematurely,
    /// The client's header block does not parse.
    MalformedHeader,
    /// The client's header block does not fit in the buffer.
    HeaderTooLarge,
    /// The request is not HTTP/1.1.
    VersionNotSupported,
    /// No route matches the request's path.
    NoRoute,
    /// The backend could not be reached.
    BackendUnreachable,
    /// Writing to the backend failed.
    BackendWriteFailed,
    /// The backend's response could not be read or parsed.
    BackendResponseMalformed,
    /// The request's body framing is rejected.
    InvalidRequestFraming,
    /// A body ended early or could not be relayed.
    BodyRelayFailed,
    /// Reading from or writing to the client failed.
    ClientIo,
}

/// The status answered to the client for `e`, or none when the client's
/// stream itself failed.
pub open spec fn error_status(e: ProxyError) -> Option<u16> {
    match e {
        ProxyError::StreamClosedPrematurely => Some(400),
        ProxyError::MalformedHeader => Some(400),
        ProxyError::HeaderTooLarge => Some(431),
        ProxyError::VersionNotSupported => Some(505),
        ProxyError::NoRoute => Some(404),
        ProxyError::BackendUnreachable => Some(502),
        ProxyError::BackendWriteFailed => Some(502),
        ProxyError::BackendResponseMalformed => Some(502),
        ProxyError::InvalidRequestFraming => Some(400),
        ProxyError::BodyRelayFailed => Some(502),
        ProxyError::ClientIo => None,
    }
}

impl ProxyError {
    /// The status answered to the client, if any.
    pub fn status(&self) -> (r: Option<u16>)
        ensures
            r == error_status(*self),
    {
        match self {
            ProxyError::StreamClosedPrematurely => Some(400),
            ProxyError::MalformedHeader => Some(400),
            ProxyError::HeaderTooLarge => Some(431),
            ProxyError::VersionNotSupported => Some(505),
            ProxyError::NoRoute => Some(404),
            ProxyError::BackendUnreachable => Some(502),
            ProxyError::BackendWriteFailed => Some(502),
            ProxyError::BackendResponseMalformed => Some(502),
            ProxyError::InvalidRequestFraming => Some(400),
            ProxyError::BodyRelayFailed => Some(502),
            ProxyError::ClientIo => None,
        }
    }
}

/// Decides where a parsed request goes: it must be HTTP/1.1 and match a
/// route. Gives the route's index and the path to send.
pub fn dispatch(config: &ServerConfig, request: &Request) -> (r: Result<(usize, String), ProxyError>)
    ensures
        request.version != HTTPVersion::HTTP1_1 ==> r == Err::<(usize, String), _>(
            ProxyError::VersionNotSupported,
        ),
        request.version == HTTPVersion::HTTP1_1 ==> {
            let routes = config.reverse_proxy_mapping@;
            let i = route_index(routes, request.path@, 0);
            match r {
                Ok((j, p)) => i < routes.len() && j == i && p@ == rewritten_path(
                    request.path@,
                    routes[i].0@,
                    routes[i].1.strip_prefix,
                ),
                Err(e) => i == routes.len() && e == ProxyError::NoRoute,
            }
        },
{
    if request.version != HTTPVersion::HTTP1_1 {
        return Err(ProxyError::VersionNotSupported);
    }
    match config.route(&request.path) {
        Some(x) => Ok(x),
        None => Err(ProxyError::NoRoute),
    }
}

/// The request as sent to the backend: `x-forwarded-for` set to the client's
/// address when it is known, then its wire form, then the body bytes already
/// read.
pub fn forward_request_bytes(request: &mut Request, client_addr: Option<String>, residual: &[u8]) -> (r: Vec<u8>)
    ensures
        final(request)@ == (match client_addr {
            Some(a) => RequestView {
                headers: insert_header(
                    old(request)@.headers,
                    lower_chars("x-forwarded-for"@),
                    trim_chars(a@),
                ),
                ..old(request)@
            },
            None => old(request)@,
        }),
        r@ == request_bytes(final(request)@) + residual@,
        wf_request(final(request)@) ==> parse_request(r@) == Ok::<_, crate::message::HTTPParseError>(
            (RequestView { headers: normalized(final(request)@.headers), ..final(request)@ }, residual@),
        ),
{
    if let Some(a) = client_addr {
        request.headers.insert("x-forwarded-for".to_string(), a);
    }
    let mut out = request.into_bytes();
    let ghost head = out@;
    push_bytes(&mut out, residual);
    proof {
        if wf_request(request@) {
            assert(parse_request(head + residual@) == Ok::<_, crate::message::HTTPParseError>(
                (RequestView { headers: normalized(request@.headers), ..request@ }, residual@),
            ));
        }
    }
    out
}

/// The response as sent to the client: `connection: close` set, then its
/// wire form, then the body bytes already read.
pub fn forward_response_bytes(response: &mut Response, residual: &[u8]) -> (r: Vec<u8>)
    ensures
        final(response)@ == (ResponseView {
            headers: insert_header(
                old(response)@.headers,
                lower_chars("connection"@),
                trim_chars("close"@),
            ),
            ..old(response)@
        }),
        r@ == response_bytes(final(response)@, reason_phrase(final(response).status)) + residual@,
        wf_response(final(response)@) ==> parse_response(r@) == Ok::<_, crate::message::HTTPParseError>(
            (ResponseView { headers: normalized(final(response)@.headers), ..final(response)@ }, residual@),
        ),
{
    response.header("connection", "close");
    let mut out = response.into_bytes();
    let ghost head = out@;
    push_bytes(&mut out, residual);
    proof {
        if wf_response(response@) {
            assert(parse_response(head + residual@) == Ok::<_, crate::message::HTTPParseError>(
                (ResponseView { headers: normalized(response@.headers), ..response@ }, residual@),
            ));
        }
    }
    out
}

/// The body of an error response: `Not Found` for 404, else nothing.
pub open spec fn error_body(status: u16) -> Seq<char> {
    if status == 404 {
        "Not Found"@
    } else {
        ""@
    }
}

/// The `Content-Length` of an error response.
pub open spec fn error_body_length(status: u16) -> Seq<char> {
    if status == 404 {
        "9"@
    } else {
        "0"@
    }
}

/// The error response with `status`: `Connection: close` and the
/// `Content-Length` of its body, whose text is `error_body(status)`.
pub fn error_response(status: u16) -> (r: (Response, String))
    requires
        100 <= status <= 999,
    ensures
        r.0@ == (ResponseView {
            version: HTTPVersion::HTTP1_1,
            status,
            headers: insert_header(
                insert_header(Seq::empty(), lower_chars("Connection"@), trim_chars("close"@)),
                lower_chars("Content-Length"@),
                trim_chars(error_body_length(status)),
            ),
        }),
        r.1@ == error_body(status),
{
    let mut response = Response::new(status);
    response.header("Connection", "close");
    if status == 404 {
        response.header("Content-Length", "9");
        (response, "Not Found".to_string())
    } else {
        response.header("Content-Length", "0");
        (response, "".to_string())
    }
}

} // verus!
