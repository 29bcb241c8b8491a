use http_server_starter_rust::{
    base_handler, echo_handler, user_agent_handler, valid_pattern, Handler, Headers, Request,
    Response, Router,
};

enum TestHandler {
    Base,
    Echo,
    UserAgent,
    Tag(&'static str),
}

impl Handler for TestHandler {
    fn handle(&self, req: &Request) -> Response {
        match self {
            TestHandler::Base => base_handler(req),
            TestHandler::Echo => {
                if req.path.starts_with("/echo/") {
                    echo_handler(req)
                } else {
                    Response::empty(404)
                }
            },
            TestHandler::UserAgent => {
                if req.headers.get("User-Agent").is_some() {
                    user_agent_handler(req)
                } else {
                    Response::empty(400)
                }
            },
            TestHandler::Tag(s) => Response::new(200, s.to_string()),
        }
    }
}

fn get_request(path: &str) -> Request {
    Request {
        path: path.to_string(),
        method: "GET".to_string(),
        headers: Headers::new(),
        body: String::new(),
    }
}

fn body_of(res: &Response) -> String {
    let wire = String::from_utf8(res.encode()).unwrap();
    let head_end = wire.find("\r\n\r\n").unwrap();
    let body = &wire[head_end + 4..];
    body.strip_suffix("\r\n").unwrap_or(body).to_string()
}

fn status_of(res: &Response) -> String {
    let wire = String::from_utf8(res.encode()).unwrap();
    let line_end = wire.find("\r\n").unwrap();
    wire[..line_end].to_string()
}

#[test]
fn wildcard_route_registered_first_wins() {
    // Registration order is the priority order: "/te:?" shadows the exact
    // literal "/test" registered after it.
    let mut r = Router::<TestHandler>::new("127.0.0.1:4221");
    r.handle_func("/te:?", TestHandler::Tag("wild"), vec!["GET"]);
    r.handle_func("/test", TestHandler::Tag("lit"), vec!["GET"]);
    let res = r.dispatch(&get_request("/test"));
    assert_eq!(body_of(&res), "wild");
}

#[test]
fn literal_route_matches_exactly() {
    let mut r = Router::<TestHandler>::new("127.0.0.1:4221");
    r.handle_func("/test", TestHandler::Tag("lit"), vec!["GET"]);
    assert_eq!(body_of(&r.dispatch(&get_request("/test"))), "lit");
    assert_eq!(status_of(&r.dispatch(&get_request("/test/x"))), "HTTP/1.1 404  ");
}

#[test]
fn unregistered_path_gives_404_without_body() {
    let mut r = Router::<TestHandler>::new("127.0.0.1:4221");
    r.handle_func("/", TestHandler::Base, vec!["GET"]);
    let res = r.dispatch(&get_request("/missing"));
    assert_eq!(res.encode(), b"HTTP/1.1 404  \r\n\r\n".to_vec());
}

#[test]
fn disallowed_method_gives_405_without_body() {
    let mut r = Router::<TestHandler>::new("127.0.0.1:4221");
    r.handle_func("/", TestHandler::Base, vec!["GET"]);
    let mut req = get_request("/");
    req.method = "POST".to_string();
    let res = r.dispatch(&req);
    assert_eq!(res.encode(), b"HTTP/1.1 405  \r\n\r\n".to_vec());
}

#[test]
fn custom_not_found_handler_overrides_default() {
    let mut r = Router::<TestHandler>::new("127.0.0.1:4221");
    r.handle_func("/", TestHandler::Base, vec!["GET"]);
    r.not_found_handler(TestHandler::Tag("gone"));
    let res = r.dispatch(&get_request("/missing"));
    assert_eq!(body_of(&res), "gone");
}

#[test]
fn custom_method_not_allowed_handler_overrides_default() {
    let mut r = Router::<TestHandler>::new("127.0.0.1:4221");
    r.handle_func("/", TestHandler::Base, vec!["GET"]);
    r.method_not_allowed_handler(TestHandler::Tag("nope"));
    let mut req = get_request("/");
    req.method = "DELETE".to_string();
    assert_eq!(body_of(&r.dispatch(&req)), "nope");
}

#[test]
fn route_allows_any_listed_method() {
    let mut r = Router::<TestHandler>::new("127.0.0.1:4221");
    r.handle_func("/files/:?", TestHandler::Tag("files"), vec!["GET", "POST"]);
    let mut req = get_request("/files/a");
    assert_eq!(body_of(&r.dispatch(&req)), "files");
    req.method = "POST".to_string();
    assert_eq!(body_of(&r.dispatch(&req)), "files");
    req.method = "PUT".to_string();
    assert_eq!(status_of(&r.dispatch(&req)), "HTTP/1.1 405  ");
}

#[test]
fn wildcard_matches_bare_prefix_and_longer_paths() {
    let mut r = Router::<TestHandler>::new("127.0.0.1:4221");
    r.handle_func("/te:?", TestHandler::Tag("wild"), vec!["GET"]);
    assert_eq!(body_of(&r.dispatch(&get_request("/te"))), "wild");
    assert_eq!(body_of(&r.dispatch(&get_request("/teapot"))), "wild");
    assert_eq!(status_of(&r.dispatch(&get_request("/t"))), "HTTP/1.1 404  ");
}

#[test]
fn echo_route_scenario() {
    // Registering "/echo/:?" and requesting "/echo/hello" invokes the echo
    // handler, which strips the prefix and replies 200 with body "hello".
    let mut r = Router::<TestHandler>::new("127.0.0.1:4221");
    r.handle_func("/echo/:?", TestHandler::Echo, vec!["GET"]);
    let res = r.dispatch(&get_request("/echo/hello"));
    let wire = String::from_utf8(res.encode()).unwrap();
    assert_eq!(
        wire,
        "HTTP/1.1 200 OK\r\nContent-Type: text/plain\r\nContent-Length: 5\r\n\r\nhello\r\n"
    );
}

#[test]
fn user_agent_route_echoes_header() {
    let mut r = Router::<TestHandler>::new("127.0.0.1:4221");
    r.handle_func("/user-agent", TestHandler::UserAgent, vec!["GET"]);
    let mut req = get_request("/user-agent");
    req.headers.insert("User-Agent", "curl/7.64.1");
    assert_eq!(body_of(&r.dispatch(&req)), "curl/7.64.1");
}

#[test]
fn host_is_kept() {
    let r = Router::<TestHandler>::new("127.0.0.1:4221");
    assert_eq!(r.host(), "127.0.0.1:4221");
}

#[test]
fn pattern_validity() {
    assert!(valid_pattern("/test"));
    assert!(valid_pattern("/te:?"));
    assert!(valid_pattern(":?"));
    assert!(valid_pattern("/"));
    assert!(valid_pattern(""));
    assert!(!valid_pattern("/a:?b"));
    assert!(!valid_pattern(":?/files"));
    assert!(!valid_pattern("/a:?:?"));
}

#[test]
fn full_exchange_from_bytes() {
    let mut r = Router::<TestHandler>::new("127.0.0.1:4221");
    r.handle_func("/echo/:?", TestHandler::Echo, vec!["GET"]);
    let req = Request::parse_from_utf8(b"GET /echo/abc HTTP/1.1\r\nHost: h\r\n\r\n").unwrap();
    let wire = String::from_utf8(r.dispatch(&req).encode()).unwrap();
    assert_eq!(
        wire,
        "HTTP/1.1 200 OK\r\nContent-Type: text/plain\r\nContent-Length: 3\r\n\r\nabc\r\n"
    );
}

#[test]
fn repeated_exchange_is_stable() {
    // Decoding then re-encoding the echo route's output for the same input
    // is stable across repeated calls: no hidden mutable state.
    let mut r = Router::<TestHandler>::new("127.0.0.1:4221");
    r.handle_func("/echo/:?", TestHandler::Echo, vec!["GET"]);
    let raw = b"GET /echo/same HTTP/1.1\r\n\r\n";
    let first = r.dispatch(&Request::parse_from_utf8(raw).unwrap()).encode();
    let second = r.dispatch(&Request::parse_from_utf8(raw).unwrap()).encode();
    let third = r.dispatch(&Request::parse_from_utf8(raw).unwrap()).encode();
    assert_eq!(first, second);
    assert_eq!(second, third);
}
