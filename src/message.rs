//! HTTP message types: methods, versions, headers, requests and responses.
use vstd::prelude::*;
use crate::text::{
    ascii_lowercase, trim_string, lower_chars, trim_chars, trimmed,
    lemma_lower_chars_idempotent, lemma_trim_chars_trimmed,
};

verus! {

#[derive(Debug, Clone, Copy, PartialEq, Eq, Structural)]
pub enum HTTPVersion {
    HTTP1_1,
    HTTP2,
    HTTP3,
}

#[derive(Debug, Clone, Copy, PartialEq, Eq, Structural)]
pub enum HTTPMethod {
    GET,
    POST,
    PUT,
    PATCH,
    DELETE,
    HEAD,
    CONNECT,
    OPTIONS,
    TRACE,
}

#[derive(Debug, Clone, Copy, PartialEq, Eq, Structural)]
pub enum HTTPParseError {
    UnterminatedHeader,
    InvalidMethod,
    InvalidVersion,
    InvalidHeader,
    InvalidPath,
    InvalidStatusCode,
}

/// The sentence that describes a parse error.
pub open spec fn error_text(e: HTTPParseError) -> Seq<char> {
    match e {
        HTTPParseError::UnterminatedHeader => "Header is not terminated"@,
        HTTPParseError::InvalidMethod => "Invalid HTTP method"@,
        HTTPParseError::InvalidVersion => "Invalid HTTP version"@,
        HTTPParseError::InvalidHeader => "Invalid HTTP headers"@,
        HTTPParseError::InvalidPath => "Invalid HTTP path"@,
        HTTPParseError::InvalidStatusCode => "Invalid HTTP status code"@,
    }
}

impl HTTPParseError {
    /// A sentence that says what went wrong.
    pub fn message(&self) -> (r: &'static str)
        ensures
            r@ == error_text(*self),
    {
        match self {
            HTTPParseError::UnterminatedHeader => "Header is not terminated",
            HTTPParseError::InvalidMethod => "Invalid HTTP method",
            HTTPParseError::InvalidVersion => "Invalid HTTP version",
            HTTPParseError::InvalidHeader => "Invalid HTTP headers",
            HTTPParseError::InvalidPath => "Invalid HTTP path",
            HTTPParseError::InvalidStatusCode => "Invalid HTTP status code",
        }
    }
}

/// The wire form of a method.
pub open spec fn method_token(m: HTTPMethod) -> Seq<u8> {
    match m {
        HTTPMethod::GET => seq![71u8, 69u8, 84u8],
        HTTPMethod::POST => seq![80u8, 79u8, 83u8, 84u8],
        HTTPMethod::PUT => seq![80u8, 85u8, 84u8],
        HTTPMethod::PATCH => seq![80u8, 65u8, 84u8, 67u8, 72u8],
        HTTPMethod::DELETE => seq![68u8, 69u8, 76u8, 69u8, 84u8, 69u8],
        HTTPMethod::HEAD => seq![72u8, 69u8, 65u8, 68u8],
        HTTPMethod::CONNECT => seq![67u8, 79u8, 78u8, 78u8, 69u8, 67u8, 84u8],
        HTTPMethod::OPTIONS => seq![79u8, 80u8, 84u8, 73u8, 79u8, 78u8, 83u8],
        HTTPMethod::TRACE => seq![84u8, 82u8, 65u8, 67u8, 69u8],
    }
}

/// The wire form of a version.
pub open spec fn version_token(v: HTTPVersion) -> Seq<u8> {
    match v {
        HTTPVersion::HTTP1_1 => seq![72u8, 84u8, 84u8, 80u8, 47u8, 49u8, 46u8, 49u8],
        HTTPVersion::HTTP2 => seq![72u8, 84u8, 84u8, 80u8, 47u8, 50u8],
        HTTPVersion::HTTP3 => seq![72u8, 84u8, 84u8, 80u8, 47u8, 51u8],
    }
}

/// The method whose wire form is `t`, if any.
pub open spec fn method_of(t: Seq<u8>) -> Option<HTTPMethod> {
    if t == method_token(HTTPMethod::GET) {
        Some(HTTPMethod::GET)
    } else if t == method_token(HTTPMethod::POST) {
        Some(HTTPMethod::POST)
    } else if t == method_token(HTTPMethod::PUT) {
        Some(HTTPMethod::PUT)
    } else if t == method_token(HTTPMethod::PATCH) {
        Some(HTTPMethod::PATCH)
    } else if t == method_token(HTTPMethod::DELETE) {
        Some(HTTPMethod::DELETE)
    } else if t == method_token(HTTPMethod::HEAD) {
        Some(HTTPMethod::HEAD)
    } else if t == method_token(HTTPMethod::CONNECT) {
        Some(HTTPMethod::CONNECT)
    } else if t == method_token(HTTPMethod::OPTIONS) {
        Some(HTTPMethod::OPTIONS)
    } else if t == method_token(HTTPMethod::TRACE) {
        Some(HTTPMethod::TRACE)
    } else {
        None
    }
}

/// The version whose wire form is `t`, if any.
pub open spec fn version_of(t: Seq<u8>) -> Option<HTTPVersion> {
    if t == version_token(HTTPVersion::HTTP1_1) {
        Some(HTTPVersion::HTTP1_1)
    } else if t == version_token(HTTPVersion::HTTP2) {
        Some(HTTPVersion::HTTP2)
    } else if t == version_token(HTTPVersion::HTTP3) {
        Some(HTTPVersion::HTTP3)
    } else {
        None
    }
}

/// Each method is read back from its own wire form.
pub proof fn lemma_method_token(m: HTTPMethod)
    ensures
        method_of(method_token(m)) == Some(m),
        method_token(m).len() > 0,
        forall|i: int| 0 <= i < method_token(m).len() ==> method_token(m)[i] != 0x20u8,
{
    assert(method_token(HTTPMethod::GET)[0] == 71u8);
    assert(method_token(HTTPMethod::POST)[1] == 79u8);
    assert(method_token(HTTPMethod::PUT)[1] == 85u8);
    assert(method_token(HTTPMethod::PATCH)[1] == 65u8);
    assert(method_token(HTTPMethod::DELETE)[0] == 68u8);
    assert(method_token(HTTPMethod::HEAD)[0] == 72u8);
    assert(method_token(HTTPMethod::CONNECT)[0] == 67u8);
    assert(method_token(HTTPMethod::OPTIONS)[0] == 79u8);
    assert(method_token(HTTPMethod::TRACE)[0] == 84u8);
    assert(method_token(HTTPMethod::POST)[0] == 80u8);
    assert(method_token(HTTPMethod::PUT)[0] == 80u8);
    assert(method_token(HTTPMethod::PATCH)[0] == 80u8);
}

/// Each version is read back from its own wire form.
pub proof fn lemma_version_token(v: HTTPVersion)
    ensures
        version_of(version_token(v)) == Some(v),
        version_token(v).len() > 0,
        forall|i: int| 0 <= i < version_token(v).len() ==> version_token(v)[i] != 0x20u8 && version_token(v)[i] != 0x0du8,
{
    assert(version_token(HTTPVersion::HTTP1_1).len() == 8);
    assert(version_token(HTTPVersion::HTTP2).len() == 6);
    assert(version_token(HTTPVersion::HTTP2)[5] == 50u8);
    assert(version_token(HTTPVersion::HTTP3)[5] == 51u8);
}

/// The wire form of `m`.
pub fn method_bytes(m: HTTPMethod) -> (r: Vec<u8>)
    ensures
        r@ == method_token(m),
{
    match m {
        HTTPMethod::GET => vec![71u8, 69, 84],
        HTTPMethod::POST => vec![80u8, 79, 83, 84],
        HTTPMethod::PUT => vec![80u8, 85, 84],
        HTTPMethod::PATCH => vec![80u8, 65, 84, 67, 72],
        HTTPMethod::DELETE => vec![68u8, 69, 76, 69, 84, 69],
        HTTPMethod::HEAD => vec![72u8, 69, 65, 68],
        HTTPMethod::CONNECT => vec![67u8, 79, 78, 78, 69, 67, 84],
        HTTPMethod::OPTIONS => vec![79u8, 80, 84, 73, 79, 78, 83],
        HTTPMethod::TRACE => vec![84u8, 82, 65, 67, 69],
    }
}

/// The wire form of `v`.
pub fn version_bytes(v: HTTPVersion) -> (r: Vec<u8>)
    ensures
        r@ == version_token(v),
{
    match v {
        HTTPVersion::HTTP1_1 => vec![72u8, 84, 84, 80, 47, 49, 46, 49],
        HTTPVersion::HTTP2 => vec![72u8, 84, 84, 80, 47, 50],
        HTTPVersion::HTTP3 => vec![72u8, 84, 84, 80, 47, 51],
    }
}


/// A header entry as characters: name and value.
pub type HeaderEntry = (Seq<char>, Seq<char>);

/// The first index at or after `from` whose entry is named `k`, ignoring
/// ASCII case, or `h.len()`.
pub open spec fn key_index(h: Seq<HeaderEntry>, k: Seq<char>, from: int) -> int
    decreases h.len() - from,
{
    if from < 0 || from >= h.len() {
        h.len() as int
    } else if lower_chars(h[from].0) == lower_chars(k) {
        from
    } else {
        key_index(h, k, from + 1)
    }
}

/// `h` after setting `k` to `v`: an entry named `k` has its value replaced in
/// place, otherwise the entry is added at the end.
pub open spec fn insert_header(h: Seq<HeaderEntry>, k: Seq<char>, v: Seq<char>) -> Seq<HeaderEntry> {
    let i = key_index(h, k, 0);
    if i < h.len() {
        h.update(i, (k, v))
    } else {
        h.push((k, v))
    }
}

/// The value of the entry named `k` in `h`, if any.
pub open spec fn lookup(h: Seq<HeaderEntry>, k: Seq<char>) -> Option<Seq<char>> {
    let i = key_index(h, k, 0);
    if i < h.len() {
        Some(h[i].1)
    } else {
        None
    }
}

/// The names in `h` are pairwise distinct.
pub open spec fn unique_keys(h: Seq<HeaderEntry>) -> bool {
    forall|i: int, j: int| 0 <= i < j < h.len() ==> #[trigger] h[i].0 != #[trigger] h[j].0
}

/// Header entries as `Headers` keeps them: distinct names, each lower-cased,
/// and values without leading or trailing spaces and tabs.
pub open spec fn headers_wf(h: Seq<HeaderEntry>) -> bool {
    &&& unique_keys(h)
    &&& forall|i: int| 0 <= i < h.len() ==> lower_chars(#[trigger] h[i].0) == h[i].0 && trimmed(h[i].1)
}

/// `key_index` gives the first entry named `k` at or after `from`.
pub proof fn lemma_key_index(h: Seq<HeaderEntry>, k: Seq<char>, from: int)
    requires
        0 <= from <= h.len(),
    ensures
        from <= key_index(h, k, from) <= h.len(),
        key_index(h, k, from) < h.len() ==> lower_chars(h[key_index(h, k, from)].0) == lower_chars(k),
        forall|j: int| from <= j < key_index(h, k, from) ==> lower_chars(#[trigger] h[j].0) != lower_chars(k),
    decreases h.len() - from,
{
    if from < h.len() && lower_chars(h[from].0) != lower_chars(k) {
        lemma_key_index(h, k, from + 1);
    }
}

/// After setting `k` to `v`, looking up any name equal to `k` ignoring ASCII
/// case gives `v`.
pub proof fn lemma_lookup_after_insert(h: Seq<HeaderEntry>, k: Seq<char>, v: Seq<char>, k2: Seq<char>)
    requires
        lower_chars(k2) == lower_chars(k),
    ensures
        lookup(insert_header(h, k, v), k2) == Some(v),
{
    lemma_key_index(h, k, 0);
    let i = key_index(h, k, 0);
    let g = insert_header(h, k, v);
    if i < h.len() {
        assert(forall|j: int| 0 <= j < h.len() ==> g[j].0 == h[j].0 || j == i);
        lemma_key_index_at(g, k2, i);
    } else {
        assert(forall|j: int| 0 <= j < h.len() ==> g[j] == h[j]);
        lemma_key_index_at(g, k2, h.len() as int);
    }
}

proof fn lemma_key_index_at(h: Seq<HeaderEntry>, k: Seq<char>, n: int)
    requires
        0 <= n < h.len(),
        lower_chars(h[n].0) == lower_chars(k),
        forall|j: int| 0 <= j < n ==> lower_chars(#[trigger] h[j].0) != lower_chars(k),
    ensures
        key_index(h, k, 0) == n,
{
    lemma_key_index(h, k, 0);
}

/// Header fields in the order they were first set. Names are kept
/// lower-cased and values trimmed, so that names match ignoring ASCII case;
/// setting a name again replaces its value.
#[derive(Debug, Clone, PartialEq, Eq)]
pub struct Headers {
    pub entries: Vec<(String, String)>,
}

impl View for Headers {
    type V = Seq<HeaderEntry>;

    open spec fn view(&self) -> Seq<HeaderEntry> {
        self.entries@.map_values(|e: (String, String)| (e.0@, e.1@))
    }
}

impl Headers {
    pub open spec fn wf(&self) -> bool {
        headers_wf(self@)
    }

    pub fn new() -> (r: Headers)
        ensures
            r@ == Seq::<HeaderEntry>::empty(),
            r.wf(),
    {
        let r = Headers { entries: Vec::new() };
        assert(r@ =~= Seq::<HeaderEntry>::empty());
        r
    }

    pub fn len(&self) -> (r: usize)
        ensures
            r == self@.len(),
    {
        self.entries.len()
    }

    /// Sets the header `key`, lower-cased, to `value`, trimmed.
    pub fn insert(&mut self, key: String, value: String)
        ensures
            final(self)@ == insert_header(old(self)@, lower_chars(key@), trim_chars(value@)),
            old(self).wf() ==> final(self).wf(),
    {
        let k = ascii_lowercase(key.as_str());
        let v = trim_string(&value);
        proof {
            lemma_lower_chars_idempotent(key@);
            lemma_trim_chars_trimmed(value@);
            lemma_key_index(old(self)@, k@, 0);
            if old(self).wf() {
                assert forall|j: int| 0 <= j < old(self)@.len() && lower_chars(old(self)@[j].0) == lower_chars(k@)
                    implies old(self)@[j].0 == k@ by {
                    assert(lower_chars(old(self)@[j].0) == old(self)@[j].0);
                }
            }
        }
        let mut i: usize = 0;
        while i < self.entries.len()
            invariant
                i <= self@.len(),
                self@ == old(self)@,
                k@ == lower_chars(key@),
                v@ == trim_chars(value@),
                lower_chars(k@) == k@,
                trimmed(v@),
                old(self).wf() ==> forall|j: int|
                    0 <= j < old(self)@.len() && lower_chars(old(self)@[j].0) == lower_chars(k@)
                        ==> #[trigger] old(self)@[j].0 == k@,
                key_index(self@, k@, 0) == key_index(self@, k@, i as int),
            decreases self@.len() - i,
        {
            let lower_name = ascii_lowercase(self.entries[i].0.as_str());
            if lower_name == k {
                let ghost before = self@;
                self.entries[i] = (k, v);
                assert(self@ =~= before.update(i as int, (k@, v@)));
                proof {
                    if old(self).wf() {
                        assert(forall|j: int| 0 <= j < before.len() ==> self@[j].0 == before[j].0);
                    }
                }
                return;
            }
            i = i + 1;
        }
        let ghost before = self@;
        self.entries.push((k, v));
        assert(self@ =~= before.push((k@, v@)));
        assert(forall|j: int| 0 <= j < before.len() ==> self@[j] == before[j]);
    }

    /// The value of the header named `key`, matched ignoring ASCII case.
    pub fn get(&self, key: &str) -> (r: Option<&String>)
        ensures
            match r {
                Some(v) => lookup(self@, lower_chars(key@)) == Some(v@),
                None => lookup(self@, lower_chars(key@)).is_none(),
            },
    {
        let lk = ascii_lowercase(key);
        proof {
            lemma_lower_chars_idempotent(key@);
        }
        let mut i: usize = 0;
        while i < self.entries.len()
            invariant
                i <= self@.len(),
                lk@ == lower_chars(key@),
                lower_chars(lk@) == lk@,
                key_index(self@, lk@, 0) == key_index(self@, lk@, i as int),
            decreases self@.len() - i,
        {
            let lower_name = ascii_lowercase(self.entries[i].0.as_str());
            if lower_name == lk {
                return Some(&self.entries[i].1);
            }
            i = i + 1;
        }
        None
    }
}

/// A request as a value: method, path, version and headers.
pub struct RequestView {
    pub method: HTTPMethod,
    pub path: Seq<char>,
    pub version: HTTPVersion,
    pub headers: Seq<HeaderEntry>,
}

#[derive(Debug, Clone, PartialEq, Eq)]
pub struct Request {
    pub path: String,
    pub method: HTTPMethod,
    pub headers: Headers,
    pub version: HTTPVersion,
}

impl View for Request {
    type V = RequestView;

    open spec fn view(&self) -> RequestView {
        RequestView {
            method: self.method,
            path: self.path@,
            version: self.version,
            headers: self.headers@,
        }
    }
}

/// A response as a value: version, status code and headers.
pub struct ResponseView {
    pub version: HTTPVersion,
    pub status: u16,
    pub headers: Seq<HeaderEntry>,
}

#[derive(Debug, Clone, PartialEq, Eq)]
pub struct Response {
    pub status: u16,
    pub version: HTTPVersion,
    pub headers: Headers,
}

impl View for Response {
    type V = ResponseView;

    open spec fn view(&self) -> ResponseView {
        ResponseView { version: self.version, status: self.status, headers: self.headers@ }
    }
}

impl Response {
    /// An HTTP/1.1 response with the given status and no headers.
    pub fn new(status: u16) -> (r: Response)
        requires
            100 <= status <= 999,
        ensures
            r.headers.wf(),
            r@ == (ResponseView {
                version: HTTPVersion::HTTP1_1,
                status,
                headers: Seq::empty(),
            }),
    {
        Response { status, version: HTTPVersion::HTTP1_1, headers: Headers::new() }
    }

    /// Sets the header `key`, lower-cased, to `value`, trimmed.
    pub fn header(&mut self, key: &str, value: &str)
        ensures
            final(self)@ == (ResponseView {
                headers: insert_header(old(self)@.headers, lower_chars(key@), trim_chars(value@)),
                ..old(self)@
            }),
            old(self).headers.wf() ==> final(self).headers.wf(),
    {
        self.headers.insert(key.to_string(), value.to_string());
    }

    pub fn get_headers(&self) -> (r: &Headers)
        ensures
            r@ == self@.headers,
    {
        &self.headers
    }
}

} // verus!
