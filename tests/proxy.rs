use agora_http::relay::{dispatch, error_response, forward_request_bytes, forward_response_bytes};
use agora_http::{
    BodyFraming, BodyRelay, BodyRelayError, ChunkedScanner, RelayAction, FramingError, HTTPMethod, HTTPVersion, HeaderReadAction, HeaderReadError,
    HeaderReader, Headers, ProxyEntry, ProxyError, Request, Response, Server, ServerConfig,
};

fn config(routes: &[(&str, &str, bool)]) -> ServerConfig {
    let mut c = ServerConfig::default();
    for (prefix, addr, strip) in routes {
        c.reverse_proxy_mapping.push((
            prefix.to_string(),
            ProxyEntry { addr: addr.to_string(), strip_prefix: *strip },
        ));
    }
    c
}

fn request(path: &str) -> Request {
    Request { path: path.to_string(), method: HTTPMethod::GET, headers: Headers::new(), version: HTTPVersion::HTTP1_1 }
}

fn headers_of(pairs: &[(&str, &str)]) -> Headers {
    let mut h = Headers::new();
    for (k, v) in pairs {
        h.insert(k.to_string(), v.to_string());
    }
    h
}

#[test]
fn test_reverse_proxy_transfer() {
    let response = b"HTTP/1.1 200 OK\r\nconnection: close\r\ncontent-length: 12\r\n\r\nTest Success";
    let client_addr = "127.0.0.1:40000";
    let server = Server::new(config(&[("/", "127.0.0.1:8080", false)]));

    let (mut req, residual) = Request::parse(b"GET / HTTP/1.1\r\n\r\nHello World").unwrap();
    let (index, path) = dispatch(&server.config, &req).unwrap();
    assert_eq!(0, index);
    req.path = path;
    let sent = forward_request_bytes(&mut req, Some(client_addr.to_string()), residual);
    let expected = format!("GET / HTTP/1.1\r\nx-forwarded-for: {}\r\n\r\nHello World", client_addr).into_bytes();
    assert_eq!(Request::parse(&expected), Request::parse(&sent), "request does not match expected");
    assert_eq!(expected, sent);

    let (mut resp, residual) = Response::parse(response).unwrap();
    assert_eq!(Ok(BodyFraming::Length(12)), resp.headers.body_framing());
    let received = forward_response_bytes(&mut resp, residual);
    let (client_view, body) = Response::parse(&received).unwrap();
    assert_eq!(Response::parse(response).unwrap().0, client_view, "response does not match expected");
    assert_eq!(200, client_view.status);
    assert_eq!(Some(&"12".to_string()), client_view.headers.get("content-length"));
    assert_eq!(b"Test Success".as_slice(), body);
}

#[test]
fn route_first_match_wins() {
    let c = config(&[("/api", "b1", true), ("/", "b2", false)]);
    assert_eq!(Some((0, "/v1/x".to_string())), c.route(&"/api/v1/x".to_string()));
    assert_eq!(Some((1, "/other".to_string())), c.route(&"/other".to_string()));
    let c = config(&[("/", "b2", false), ("/api", "b1", true)]);
    assert_eq!(Some((0, "/api/v1/x".to_string())), c.route(&"/api/v1/x".to_string()));
}

#[test]
fn strip_prefix_restores_slash() {
    let c = config(&[("/api", "b", true)]);
    assert_eq!(Some((0, "/v1/x".to_string())), c.route(&"/api/v1/x".to_string()));
    assert_eq!(Some((0, "/".to_string())), c.route(&"/api".to_string()));
    assert_eq!(Some((0, "/x".to_string())), c.route(&"/apix".to_string()));
}

#[test]
fn no_route_and_bad_version() {
    let empty = ServerConfig::default();
    assert_eq!(Err(ProxyError::NoRoute), dispatch(&empty, &request("/")));
    let c = config(&[("/", "b", false)]);
    let mut r = request("/");
    r.version = HTTPVersion::HTTP2;
    assert_eq!(Err(ProxyError::VersionNotSupported), dispatch(&c, &r));
    assert_eq!(Ok((0, "/".to_string())), dispatch(&c, &request("/")));
}

#[test]
fn forward_without_client_address() {
    let mut r = request("/p");
    let bytes = forward_request_bytes(&mut r, None, b"body");
    assert_eq!(b"GET /p HTTP/1.1\r\n\r\nbody".as_slice(), bytes.as_slice());
}

#[test]
fn forwarded_for_overwrites() {
    let mut r = request("/p");
    r.headers = headers_of(&[("x-forwarded-for", "1.2.3.4:5")]);
    let bytes = forward_request_bytes(&mut r, Some("9.9.9.9:1".to_string()), b"");
    assert_eq!(b"GET /p HTTP/1.1\r\nx-forwarded-for: 9.9.9.9:1\r\n\r\n".as_slice(), bytes.as_slice());
}

#[test]
fn forwarded_response_closes_connection() {
    let (mut resp, rest) = Response::parse(b"HTTP/1.1 201 Created\r\nkeep: 1\r\n\r\nab").unwrap();
    let bytes = forward_response_bytes(&mut resp, rest);
    assert_eq!(b"HTTP/1.1 201 Created\r\nkeep: 1\r\nconnection: close\r\n\r\nab".as_slice(), bytes.as_slice());
}

#[test]
fn framing_decisions() {
    assert_eq!(Ok(BodyFraming::Unframed), Headers::new().body_framing());
    assert_eq!(Ok(BodyFraming::Length(5)), headers_of(&[("content-length", "5")]).body_framing());
    assert_eq!(Ok(BodyFraming::Length(0)), headers_of(&[("content-length", "0")]).body_framing());
    assert_eq!(
        Ok(BodyFraming::Length(18446744073709551615)),
        headers_of(&[("content-length", "18446744073709551615")]).body_framing()
    );
    assert_eq!(
        Err(FramingError::InvalidLength),
        headers_of(&[("content-length", "18446744073709551616")]).body_framing()
    );
    assert_eq!(Err(FramingError::InvalidLength), headers_of(&[("content-length", "5a")]).body_framing());
    assert_eq!(Err(FramingError::InvalidLength), headers_of(&[("content-length", "")]).body_framing());
    assert_eq!(Err(FramingError::InvalidLength), headers_of(&[("content-length", "-1")]).body_framing());
    assert_eq!(Ok(BodyFraming::Chunked), headers_of(&[("transfer-encoding", "chunked")]).body_framing());
    assert_eq!(Ok(BodyFraming::Chunked), headers_of(&[("transfer-encoding", "gzip, Chunked ")]).body_framing());
    assert_eq!(Ok(BodyFraming::Unframed), headers_of(&[("transfer-encoding", "gzip")]).body_framing());
    assert_eq!(Ok(BodyFraming::Unframed), headers_of(&[("transfer-encoding", "chunked-ish")]).body_framing());
}

#[test]
fn framing_conflict_scenario() {
    let (req, _) =
        Request::parse(b"POST /u HTTP/1.1\r\nContent-Length: 5\r\nTransfer-Encoding: chunked\r\n\r\nhello").unwrap();
    assert_eq!(Err(FramingError::Conflict), req.headers.body_framing());
    assert_eq!(Some(400), ProxyError::InvalidRequestFraming.status());
}

#[test]
fn header_reader_split_terminator() {
    let mut buf = [0u8; 64];
    let mut reader = HeaderReader::new(buf.len());
    let first = b"GET / HTTP/1.1\r\nHost: x\r\n\r";
    let second = b"\n\r\n";
    assert_eq!(HeaderReadAction::Read(0), reader.next_action(&buf));
    buf[..first.len()].copy_from_slice(first);
    assert_eq!(Ok(()), reader.on_read(first.len()));
    assert_eq!(HeaderReadAction::Read(first.len()), reader.next_action(&buf));
    buf[first.len()..first.len() + second.len()].copy_from_slice(second);
    assert_eq!(Ok(()), reader.on_read(second.len()));
    let total = first.len() + second.len();
    assert_eq!(HeaderReadAction::Parse(total), reader.next_action(&buf));
    let (req, rest) = Request::parse(&buf[..total]).unwrap();
    assert_eq!("/", req.path);
    assert_eq!(b"\r\n".as_slice(), rest);
}

#[test]
fn header_reader_split_with_long_second_read() {
    let mut buf = [0u8; 64];
    let mut reader = HeaderReader::new(buf.len());
    let first = b"GET / HTTP/1.1\r\n";
    let second = b"\r\nbody bytes";
    buf[..first.len()].copy_from_slice(first);
    reader.on_read(first.len()).unwrap();
    assert_eq!(HeaderReadAction::Read(first.len()), reader.next_action(&buf));
    buf[first.len()..first.len() + second.len()].copy_from_slice(second);
    reader.on_read(second.len()).unwrap();
    assert_eq!(HeaderReadAction::Parse(first.len() + second.len()), reader.next_action(&buf));
}

#[test]
fn header_reader_buffer_full() {
    let mut buf = vec![b'a'; 8192 + 1];
    let mut reader = HeaderReader::new(8192);
    reader.on_read(8192).unwrap();
    buf[8192] = b'a';
    assert_eq!(HeaderReadAction::Fail(HeaderReadError::HeaderTooLarge), reader.next_action(&buf));
    assert_eq!(Some(431), ProxyError::HeaderTooLarge.status());
}

#[test]
fn header_reader_closed_stream() {
    let mut reader = HeaderReader::new(16);
    assert_eq!(Err(HeaderReadError::StreamClosedPrematurely), reader.on_read(0));
    assert_eq!(0, reader.total);
    assert_eq!(Some(400), ProxyError::StreamClosedPrematurely.status());
}

#[test]
fn chunked_scanner_sees_split_end() {
    let mut s = ChunkedScanner::new();
    assert!(!s.feed(b"5\r\nhello\r\n0\r"));
    assert!(s.feed(b"\n\r\n"));
    let mut s = ChunkedScanner::new();
    assert!(!s.feed(b"\r"));
    assert!(!s.feed(b"\n"));
    assert!(!s.feed(b"\r"));
    assert!(s.feed(b"\n"));
}

#[test]
fn relay_by_length() {
    let mut r = BodyRelay::new(BodyFraming::Length(12), b"Test", false);
    assert_eq!(RelayAction::Read(8), r.next_action(4096));
    assert_eq!(RelayAction::Read(3), r.next_action(3));
    assert_eq!(Ok(()), r.on_read(b" Suc"));
    assert_eq!(RelayAction::Read(4), r.next_action(4096));
    assert_eq!(Ok(()), r.on_read(b"cess"));
    assert_eq!(RelayAction::Done, r.next_action(4096));
    let mut r = BodyRelay::new(BodyFraming::Length(5), b"", false);
    assert_eq!(Err(BodyRelayError::StreamClosedPrematurely), r.on_read(b""));
    let r = BodyRelay::new(BodyFraming::Length(2), b"abc", false);
    assert_eq!(RelayAction::Done, r.next_action(10));
}

#[test]
fn relay_chunked_and_unframed() {
    let mut r = BodyRelay::new(BodyFraming::Chunked, b"5\r\nhello\r\n", false);
    assert_eq!(RelayAction::Read(64), r.next_action(64));
    assert_eq!(Ok(()), r.on_read(b"0\r\n\r\n"));
    assert_eq!(RelayAction::Done, r.next_action(64));
    let r = BodyRelay::new(BodyFraming::Chunked, b"0\r\n\r\n", false);
    assert_eq!(RelayAction::Done, r.next_action(64));
    let mut r = BodyRelay::new(BodyFraming::Chunked, b"", false);
    assert_eq!(Err(BodyRelayError::StreamClosedPrematurely), r.on_read(b""));
    let r = BodyRelay::new(BodyFraming::Unframed, b"", false);
    assert_eq!(RelayAction::Done, r.next_action(64));
    let mut r = BodyRelay::new(BodyFraming::Unframed, b"", true);
    assert_eq!(RelayAction::Read(64), r.next_action(64));
    assert_eq!(Ok(()), r.on_read(b"data"));
    assert_eq!(RelayAction::Read(64), r.next_action(64));
    assert_eq!(Ok(()), r.on_read(b""));
    assert_eq!(RelayAction::Done, r.next_action(64));
}

#[test]
fn forwarded_for_overwrites_any_case() {
    let mut r = request("/p");
    r.headers = Headers { entries: vec![("X-Forwarded-For".to_string(), "1.2.3.4:5".to_string())] };
    let bytes = forward_request_bytes(&mut r, Some("9.9.9.9:1".to_string()), b"");
    assert_eq!(b"GET /p HTTP/1.1\r\nx-forwarded-for: 9.9.9.9:1\r\n\r\n".as_slice(), bytes.as_slice());
}

#[test]
fn framing_reads_any_case() {
    let h = Headers { entries: vec![("Content-Length".to_string(), "7".to_string())] };
    assert_eq!(Ok(BodyFraming::Length(7)), h.body_framing());
}

#[test]
fn error_statuses() {
    assert_eq!(Some(502), ProxyError::BackendUnreachable.status());
    assert_eq!(Some(502), ProxyError::BackendWriteFailed.status());
    assert_eq!(Some(502), ProxyError::BackendResponseMalformed.status());
    assert_eq!(Some(502), ProxyError::BodyRelayFailed.status());
    assert_eq!(Some(505), ProxyError::VersionNotSupported.status());
    assert_eq!(Some(404), ProxyError::NoRoute.status());
    assert_eq!(Some(400), ProxyError::MalformedHeader.status());
    assert_eq!(None, ProxyError::ClientIo.status());
}

#[test]
fn error_replies() {
    let (resp, body) = error_response(404);
    assert_eq!(
        b"HTTP/1.1 404 Not Found\r\nconnection: close\r\ncontent-length: 9\r\n\r\n".as_slice(),
        resp.into_bytes().as_slice()
    );
    assert_eq!("Not Found", body);
    let (resp, body) = error_response(431);
    assert_eq!(
        b"HTTP/1.1 431 Request Header Fields Too Large\r\nconnection: close\r\ncontent-length: 0\r\n\r\n".as_slice(),
        resp.into_bytes().as_slice()
    );
    assert_eq!("", body);
}
