use agora_http::parse::{parse_header, parse_headers, parse_method, parse_path, parse_request_version};
use agora_http::scan::{parse_until_crlf, parse_until_space};
use agora_http::{is_terminated, HTTPMethod, HTTPParseError, HTTPVersion, Headers, Request, Response};

fn headers_of(pairs: &[(&str, &str)]) -> Headers {
    let mut h = Headers::new();
    for (k, v) in pairs {
        h.insert(k.to_string(), v.to_string());
    }
    h
}

#[test]
fn test_parse_until_space() {
    assert_eq!(b"hello".as_slice(), parse_until_space(b"hello world"));
    assert_eq!(b"".as_slice(), parse_until_space(b"helloworld"));
    assert_eq!(b"".as_slice(), parse_until_space(b"HTTP/1.1\r\n"));
    assert_eq!(b"HTTP/1.1".as_slice(), parse_until_space(b"HTTP/1.1 200 OK"));
}

#[test]
fn until_space_stops_at_first_space() {
    assert_eq!(b"a".as_slice(), parse_until_space(b"a b c"));
    assert_eq!(b"".as_slice(), parse_until_space(b" leading"));
    assert_eq!(b"".as_slice(), parse_until_space(b""));
}

#[test]
fn test_parse_until_crlf() {
    assert_eq!(b"".as_slice(), parse_until_crlf(b"hello world"));
    assert_eq!(b"hello world".as_slice(), parse_until_crlf(b"hello world\r\n"));
    assert_eq!(b"HTTP/1.1".as_slice(), parse_until_crlf(b"HTTP/1.1\r\n"));
}

#[test]
fn until_crlf_needs_both_bytes() {
    assert_eq!(b"".as_slice(), parse_until_crlf(b"a\rb\nc"));
    assert_eq!(b"a\rb".as_slice(), parse_until_crlf(b"a\rb\r\nc\r\n"));
    assert_eq!(b"".as_slice(), parse_until_crlf(b"abc\r"));
}

#[test]
fn terminated_iff_blank_line() {
    assert!(is_terminated(b"GET / HTTP/1.1\r\n\r\n"));
    assert!(is_terminated(b"\r\n\r\nbody"));
    assert!(!is_terminated(b"GET / HTTP/1.1\r\nHost: x\r\n"));
    assert!(!is_terminated(b"\r\n\r"));
    assert!(!is_terminated(b""));
}

#[test]
fn test_parse_method() {
    let cases: Vec<(&[u8], HTTPMethod, &[u8])> = vec![
        (b"GET / HTTP/1.1\r\n\r\n", HTTPMethod::GET, b"/ HTTP/1.1\r\n\r\n"),
        (b"POST /api HTTP/1.1\r\n\r\n", HTTPMethod::POST, b"/api HTTP/1.1\r\n\r\n"),
        (b"PUT /api HTTP/1.1\r\n\r\n", HTTPMethod::PUT, b"/api HTTP/1.1\r\n\r\n"),
        (b"PATCH /api HTTP/1.1\r\n\r\n", HTTPMethod::PATCH, b"/api HTTP/1.1\r\n\r\n"),
        (b"DELETE /api HTTP/1.1\r\n\r\n", HTTPMethod::DELETE, b"/api HTTP/1.1\r\n\r\n"),
    ];
    for (input, method, rest) in cases {
        assert_eq!(Ok((method, rest)), parse_method(input));
    }
    for input in [
        b"INVALID / HTTP/1.1\r\n\r\n".as_slice(),
        b"GET\r\n/\r\nHTTP/1.1\r\n",
        b"GET/ HTTP/1.1\r\n\r\n",
        b"/ HTTP/1.1\r\n\r\n",
        b" / HTTP/1.1\r\n\r\n",
    ] {
        assert_eq!(Err(HTTPParseError::InvalidMethod), parse_method(input));
    }
}

#[test]
fn every_method_token_parses() {
    let all = [
        ("GET", HTTPMethod::GET),
        ("POST", HTTPMethod::POST),
        ("PUT", HTTPMethod::PUT),
        ("PATCH", HTTPMethod::PATCH),
        ("DELETE", HTTPMethod::DELETE),
        ("HEAD", HTTPMethod::HEAD),
        ("CONNECT", HTTPMethod::CONNECT),
        ("OPTIONS", HTTPMethod::OPTIONS),
        ("TRACE", HTTPMethod::TRACE),
    ];
    for (name, method) in all {
        let line = format!("{} / HTTP/1.1\r\n\r\n", name);
        assert_eq!(Ok((method, b"/ HTTP/1.1\r\n\r\n".as_slice())), parse_method(line.as_bytes()));
    }
    assert_eq!(Err(HTTPParseError::InvalidMethod), parse_method(b"get / HTTP/1.1\r\n\r\n"));
}

#[test]
fn test_parse_path() {
    let ok: Vec<(&[u8], &str)> = vec![
        (b"/ HTTP/1.1\r\n\r\n", "/"),
        (b"/api HTTP/1.1\r\n\r\n", "/api"),
        (b"/stuff-with-dashes HTTP/1.1\r\n\r\n", "/stuff-with-dashes"),
    ];
    for (input, path) in ok {
        let (p, rest) = parse_path(input).unwrap();
        assert_eq!(path, p);
        assert_eq!(b"HTTP/1.1\r\n\r\n".as_slice(), rest);
    }
    for input in [b"not-a-path HTTP/1.1\r\n\r\n".as_slice(), b" HTTP/1.1\r\n\r\n", b"HTTP/1.1\r\n\r\n"] {
        assert_eq!(Err(HTTPParseError::InvalidPath), parse_path(input));
    }
}

#[test]
fn path_must_be_utf8() {
    assert_eq!(Err(HTTPParseError::InvalidPath), parse_path(b"/\xff\xfe HTTP/1.1\r\n"));
    let (p, _) = parse_path("/caf\u{e9} x".as_bytes()).unwrap();
    assert_eq!("/caf\u{e9}", p);
}

#[test]
fn test_parse_version() {
    assert_eq!(Ok((HTTPVersion::HTTP1_1, b"\r\n".as_slice())), parse_request_version(b"HTTP/1.1\r\n\r\n"));
    assert_eq!(
        Ok((HTTPVersion::HTTP1_1, b"Connection: close\r\n\r\n".as_slice())),
        parse_request_version(b"HTTP/1.1\r\nConnection: close\r\n\r\n")
    );
    assert_eq!(Ok((HTTPVersion::HTTP2, b"\r\n".as_slice())), parse_request_version(b"HTTP/2\r\n\r\n"));
    assert_eq!(Ok((HTTPVersion::HTTP3, b"\r\n".as_slice())), parse_request_version(b"HTTP/3\r\n\r\n"));
    for input in [
        b"HTTP/100\r\n\r\n".as_slice(),
        b"invalid version\r\n",
        b"non-terminated request line",
        b"",
    ] {
        assert_eq!(Err(HTTPParseError::InvalidVersion), parse_request_version(input));
    }
}

#[test]
fn test_parse_headers() {
    let expected = headers_of(&[("host", "test"), ("connection", "keep-alive"), ("accept", "text/html")]);
    let (h, rest) = parse_headers(b"Host: test\r\nConnection: keep-alive\r\nAccept: text/html\r\n\r\n").unwrap();
    assert_eq!(expected, h);
    assert_eq!(b"".as_slice(), rest);
    let (h, rest) = parse_headers(b"Host:test\r\nConnection:keep-alive\r\nAccept:text/html\r\n\r\n").unwrap();
    assert_eq!(expected, h);
    assert_eq!(b"".as_slice(), rest);
    let (h, rest) = parse_headers(b"\r\n").unwrap();
    assert_eq!(0, h.len());
    assert_eq!(b"".as_slice(), rest);
    for input in [
        b"Host: test\r\nConnection: keep-alive\r\nAccept: text/html\r\n".as_slice(),
        b"Host: test",
        b"",
        b"Connection\r\n",
    ] {
        assert_eq!(Err(HTTPParseError::UnterminatedHeader), parse_headers(input));
    }
}

#[test]
fn header_names_lowercased_values_trimmed_last_wins() {
    let (h, rest) = parse_headers(b"X-Tag:\t a b \t\r\nx-tag: second\r\nUrl: http://x:1\r\n\r\nrest").unwrap();
    assert_eq!(Some(&"second".to_string()), h.get("x-tag"));
    assert_eq!(Some(&"http://x:1".to_string()), h.get("url"));
    assert_eq!(Some(&"second".to_string()), h.get("X-Tag"));
    assert_eq!(2, h.len());
    assert_eq!(b"rest".as_slice(), rest);
}

#[test]
fn header_not_utf8_is_invalid() {
    assert_eq!(Err(HTTPParseError::InvalidHeader), parse_headers(b"Ho\xffst: x\r\n\r\n"));
    assert_eq!(Err(HTTPParseError::InvalidHeader), parse_headers(b"Host: \xff\r\n\r\n"));
}

#[test]
fn test_parse_request() {
    let (req, rest) = Request::parse(b"GET / HTTP/1.1\r\nHost: test\r\n\r\nHello World").unwrap();
    assert_eq!(
        Request {
            path: "/".to_string(),
            method: HTTPMethod::GET,
            headers: headers_of(&[("host", "test")]),
            version: HTTPVersion::HTTP1_1,
        },
        req
    );
    assert_eq!(b"Hello World".as_slice(), rest);
}

#[test]
fn request_invalid_method() {
    assert_eq!(Err(HTTPParseError::InvalidMethod), Request::parse(b"NUKE / HTTP/1.1\r\nHost: test\r\n\r\nX"));
    assert_eq!(
        Err(HTTPParseError::InvalidMethod),
        Request::parse(b"NUKE / HTTP/1.1\r\nHost: test\r\n\r\nHello World")
    );
}

#[test]
fn request_unterminated_header() {
    assert_eq!(Err(HTTPParseError::UnterminatedHeader), Request::parse(b"GET / HTTP/1.1\r\nHost: test\r\nHello"));
    assert_eq!(
        Err(HTTPParseError::UnterminatedHeader),
        Request::parse(b"GET / HTTP/1.1\r\nHost: test\r\nHello World")
    );
}

#[test]
fn request_invalid_version() {
    assert_eq!(Err(HTTPParseError::InvalidVersion), Request::parse(b"GET / HTTP/2.1\r\n\r\n"));
    assert_eq!(
        Err(HTTPParseError::InvalidVersion),
        Request::parse(b"GET / HTTP/2.1\r\nHost: test\r\n\r\nHello World")
    );
}

#[test]
fn request_invalid_path() {
    assert_eq!(Err(HTTPParseError::InvalidPath), Request::parse(b"GET  HTTP/1.1\r\n\r\n"));
    assert_eq!(Err(HTTPParseError::InvalidPath), Request::parse(b"GET not-a-path HTTP/1.1\r\n\r\n"));
}

#[test]
fn test_parse_response() {
    let (resp, rest) = Response::parse(b"HTTP/1.1 200 OK\r\nhost: test\r\n\r\nHello World").unwrap();
    assert_eq!(200, resp.status);
    assert_eq!(HTTPVersion::HTTP1_1, resp.version);
    assert_eq!(headers_of(&[("host", "test")]), resp.headers);
    assert_eq!(b"Hello World".as_slice(), rest);
    assert_eq!(
        Err(HTTPParseError::UnterminatedHeader),
        Response::parse(b"HTTP/1.1 200 OK\r\nhost: test\r\nHello World")
    );
}

#[test]
fn response_invalid_status_code() {
    assert_eq!(Err(HTTPParseError::InvalidStatusCode), Response::parse(b"HTTP/1.1 99 WHAT\r\n\r\n"));
    assert_eq!(Err(HTTPParseError::InvalidStatusCode), Response::parse(b"HTTP/1.1 099 WHAT\r\n\r\n"));
    assert_eq!(Err(HTTPParseError::InvalidStatusCode), Response::parse(b"HTTP/1.1 2x0 WHAT\r\n\r\n"));
    let (resp, _) = Response::parse(b"HTTP/1.1 999 Odd\r\n\r\n").unwrap();
    assert_eq!(999, resp.status);
}

#[test]
fn response_invalid_version() {
    assert_eq!(Err(HTTPParseError::InvalidVersion), Response::parse(b"HTTP/1.11 200 OK\r\n\r\n"));
}

#[test]
fn response_without_status_line_end() {
    assert_eq!(Err(HTTPParseError::UnterminatedHeader), Response::parse(b"HTTP/1.1 200 "));
    assert_eq!(Err(HTTPParseError::UnterminatedHeader), Response::parse(b"HTTP/1.1 200 OK"));
}

#[test]
fn request_round_trip() {
    let req = Request {
        path: "/a/b?c=d".to_string(),
        method: HTTPMethod::PATCH,
        headers: headers_of(&[("host", "example"), ("x-empty", ""), ("accept", "*/*")]),
        version: HTTPVersion::HTTP1_1,
    };
    let mut bytes = req.into_bytes();
    assert_eq!(
        b"PATCH /a/b?c=d HTTP/1.1\r\nhost: example\r\nx-empty: \r\naccept: */*\r\n\r\n".as_slice(),
        bytes.as_slice()
    );
    bytes.extend_from_slice(b"tail bytes");
    let (back, rest) = Request::parse(&bytes).unwrap();
    assert_eq!(req, back);
    assert_eq!(b"tail bytes".as_slice(), rest);
}

#[test]
fn response_round_trip() {
    let mut resp = Response::new(404);
    resp.header("content-type", "text/plain");
    let mut bytes = resp.into_bytes();
    assert_eq!(b"HTTP/1.1 404 Not Found\r\ncontent-type: text/plain\r\n\r\n".as_slice(), bytes.as_slice());
    bytes.extend_from_slice(b"x");
    let (back, rest) = Response::parse(&bytes).unwrap();
    assert_eq!(resp, back);
    assert_eq!(b"x".as_slice(), rest);
}

#[test]
fn response_unknown_reason() {
    let resp = Response::new(599);
    assert_eq!(b"HTTP/1.1 599 Unknown Reason\r\n\r\n".as_slice(), resp.into_bytes().as_slice());
    let resp = Response::new(200);
    assert_eq!(b"HTTP/1.1 200 Custom\r\n\r\n".as_slice(), resp.into_bytes_with_reason(b"Custom").as_slice());
}

#[test]
fn header_insert_replaces_in_place() {
    let mut h = headers_of(&[("a", "1"), ("b", "2")]);
    h.insert("a".to_string(), "3".to_string());
    assert_eq!(vec![("a".to_string(), "3".to_string()), ("b".to_string(), "2".to_string())], h.entries);
}

#[test]
fn parse_error_messages() {
    assert_eq!("Invalid HTTP method", HTTPParseError::InvalidMethod.message());
    assert_eq!("Header is not terminated", HTTPParseError::UnterminatedHeader.message());
}

#[test]
fn round_trip_normalizes_names_and_values() {
    let req = Request {
        path: "/".to_string(),
        method: HTTPMethod::GET,
        headers: Headers { entries: vec![("Host".to_string(), "  x ".to_string()), ("X-A".to_string(), "b\t".to_string())] },
        version: HTTPVersion::HTTP1_1,
    };
    let mut bytes = req.into_bytes();
    bytes.extend_from_slice(b"more");
    let (back, rest) = Request::parse(&bytes).unwrap();
    assert_eq!(
        vec![("host".to_string(), "x".to_string()), ("x-a".to_string(), "b".to_string())],
        back.headers.entries
    );
    assert_eq!(req.path, back.path);
    assert_eq!(b"more".as_slice(), rest);
}

#[test]
fn header_set_twice_in_other_case_keeps_one_entry() {
    let mut resp = Response::new(200);
    resp.header("Host", "a");
    resp.header("host", "b");
    assert_eq!(vec![("host".to_string(), "b".to_string())], resp.headers.entries);
    assert_eq!(Some(&"b".to_string()), resp.headers.get("HOST"));
}

#[test]
fn header_insert_matches_stored_name_ignoring_case() {
    let mut h = Headers { entries: vec![("Content-Length".to_string(), "3".to_string())] };
    h.insert("content-length".to_string(), "4".to_string());
    assert_eq!(1, h.len());
    assert_eq!(Some(&"4".to_string()), h.get("Content-Length"));
}

#[test]
fn header_line_value_is_trimmed() {
    let (k, v, rest) = parse_header(b"a: x\r\n").unwrap();
    assert_eq!(("a", "x", b"".as_slice()), (k.as_str(), v.as_str(), rest));
    let (k, v, rest) = parse_header(b"Host: localhost:8080\r\n\r\n").unwrap();
    assert_eq!(("Host", "localhost:8080", b"\r\n".as_slice()), (k.as_str(), v.as_str(), rest));
    let (_, v, _) = parse_header(b"k:\t \r\n").unwrap();
    assert_eq!("", v);
}
