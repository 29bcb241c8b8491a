use http_server_starter_rust::Request;

#[test]
fn parse_full_request() {
    let raw = "GET /index.html HTTP/1.1\r\nHost: localhost\r\nUser-Agent: curl/7.64.1\r\n\r\nhello";
    let req = Request::parse(raw.to_string()).unwrap();
    assert_eq!(req.method, "GET");
    assert_eq!(req.path, "/index.html");
    assert_eq!(req.body, "hello");
    assert_eq!(req.headers.get("Host").unwrap(), "localhost");
    assert_eq!(req.headers.get("User-Agent").unwrap(), "curl/7.64.1");
}

#[test]
fn parse_from_bytes() {
    let raw = b"POST /files/a.txt HTTP/1.1\r\nContent-Length: 3\r\n\r\nabc";
    let req = Request::parse_from_utf8(raw).unwrap();
    assert_eq!(req.method, "POST");
    assert_eq!(req.path, "/files/a.txt");
    assert_eq!(req.body, "abc");
    assert_eq!(req.headers.get("Content-Length").unwrap(), "3");
}

#[test]
fn parse_strips_nul_bytes() {
    // A fixed-size read buffer leaves trailing NULs; they must vanish.
    let mut raw = b"GET / HTTP/1.1\r\n\r\n".to_vec();
    raw.extend_from_slice(&[0u8; 16]);
    let req = Request::parse_from_utf8(&raw).unwrap();
    assert_eq!(req.method, "GET");
    assert_eq!(req.path, "/");
    assert_eq!(req.body, "");
}

#[test]
fn parse_rejects_single_token_line() {
    assert!(Request::parse("GET".to_string()).is_err());
    assert!(Request::parse("".to_string()).is_err());
}

#[test]
fn parse_rejects_invalid_utf8() {
    let raw = [0x47u8, 0x45, 0x54, 0x20, 0xff, 0xfe, 0x20, 0x48];
    assert!(Request::parse_from_utf8(&raw).is_err());
}

#[test]
fn parse_ignores_lines_without_separator() {
    let raw = "GET / HTTP/1.1\r\nnot a header\r\nGood: yes\r\n\r\n";
    let req = Request::parse(raw.to_string()).unwrap();
    assert!(req.headers.get("not a header").is_none());
    assert_eq!(req.headers.get("Good").unwrap(), "yes");
}

#[test]
fn parse_header_last_write_wins() {
    let raw = "GET / HTTP/1.1\r\nX: one\r\nX: two\r\n\r\n";
    let req = Request::parse(raw.to_string()).unwrap();
    assert_eq!(req.headers.get("X").unwrap(), "two");
}

#[test]
fn parse_splits_header_at_first_separator() {
    let raw = "GET / HTTP/1.1\r\nA: b: c\r\n\r\n";
    let req = Request::parse(raw.to_string()).unwrap();
    assert_eq!(req.headers.get("A").unwrap(), "b: c");
}

#[test]
fn parse_headers_stop_at_blank_line() {
    let raw = "GET / HTTP/1.1\r\nReal: 1\r\n\r\nFake: 2";
    let req = Request::parse(raw.to_string()).unwrap();
    assert_eq!(req.headers.get("Real").unwrap(), "1");
    assert!(req.headers.get("Fake").is_none());
    assert_eq!(req.body, "Fake: 2");
}

#[test]
fn parse_body_is_last_segment() {
    let raw = "GET / HTTP/1.1\r\nH: v\r\n\r\nlast";
    let req = Request::parse(raw.to_string()).unwrap();
    assert_eq!(req.body, "last");
    let raw2 = "GET / HTTP/1.1\r\nH: v\r\n\r\n";
    let req2 = Request::parse(raw2.to_string()).unwrap();
    assert_eq!(req2.body, "");
}

#[test]
fn parse_splits_request_line_on_single_spaces() {
    // A doubled space yields an empty second token, which becomes the path.
    let req = Request::parse("GET  /x HTTP/1.1\r\n\r\n".to_string()).unwrap();
    assert_eq!(req.method, "GET");
    assert_eq!(req.path, "");
}

#[test]
fn parse_without_crlf_is_single_line() {
    let req = Request::parse("GET /p HTTP/1.1".to_string()).unwrap();
    assert_eq!(req.method, "GET");
    assert_eq!(req.path, "/p");
    assert_eq!(req.body, "GET /p HTTP/1.1");
    assert_eq!(req.headers.len(), 0);
}
