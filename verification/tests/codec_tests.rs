use speed_rs::{HttpParseError, HttpRequest, HttpResponse, content_length, encode_response};

fn lines(v: &[&str]) -> Vec<String> {
    v.iter().map(|s| s.to_string()).collect()
}

#[test]
fn parse_request_line_basic() {
    let req = HttpRequest::new(lines(&["GET /a/b?x=1 HTTP/1.1"]), Vec::new()).unwrap();
    assert_eq!(req.method(), "GET");
    assert_eq!(req.uri(), "/a/b?x=1");
    assert_eq!(req.version(), "HTTP/1.1");
}

#[test]
fn parse_request_line_extra_tokens_ignored() {
    let req = HttpRequest::new(lines(&["GET /a HTTP/1.1 junk"]), Vec::new()).unwrap();
    assert_eq!(req.method(), "GET");
    assert_eq!(req.uri(), "/a");
    assert_eq!(req.version(), "HTTP/1.1");
}

#[test]
fn parse_missing_request_line() {
    let r = HttpRequest::new(Vec::new(), Vec::new());
    assert!(matches!(r, Err(HttpParseError::MissingRequestLine)));
}

#[test]
fn parse_malformed_request_line() {
    let r = HttpRequest::new(lines(&["GET /only-two"]), Vec::new());
    assert!(matches!(r, Err(HttpParseError::MalformedRequestLine)));
}

#[test]
fn header_line_populates_map() {
    let req = HttpRequest::new(lines(&["GET / HTTP/1.1", "X-Foo: bar"]), Vec::new()).unwrap();
    assert_eq!(req.headers().get("X-Foo").unwrap(), "bar");
    assert_eq!(req.headers().len(), 1);
}

#[test]
fn header_line_without_separator_ignored() {
    let req =
        HttpRequest::new(lines(&["GET / HTTP/1.1", "garbage", "X-Foo: bar"]), Vec::new()).unwrap();
    assert_eq!(req.headers().len(), 1);
    assert_eq!(req.headers().get("X-Foo").unwrap(), "bar");
    assert!(req.headers().get("garbage").is_none());
}

#[test]
fn header_lookup_is_case_sensitive() {
    let req = HttpRequest::new(lines(&["GET / HTTP/1.1", "X-Foo: bar"]), Vec::new()).unwrap();
    assert!(req.headers().get("x-foo").is_none());
    assert_eq!(req.headers().get("X-Foo").unwrap(), "bar");
}

#[test]
fn duplicate_header_last_write_wins() {
    let req = HttpRequest::new(
        lines(&["GET / HTTP/1.1", "X-Foo: bar", "X-Foo: baz"]),
        Vec::new(),
    )
    .unwrap();
    assert_eq!(req.headers().len(), 1);
    assert_eq!(req.headers().get("X-Foo").unwrap(), "baz");
}

#[test]
fn header_value_keeps_inner_colons() {
    let req = HttpRequest::new(lines(&["GET / HTTP/1.1", "A: b: c"]), Vec::new()).unwrap();
    assert_eq!(req.headers().get("A").unwrap(), "b: c");
}

#[test]
fn content_length_found_case_insensitively() {
    assert_eq!(content_length(&lines(&["POST / HTTP/1.1", "CONTENT-LENGTH: 5"])), 5);
    assert_eq!(content_length(&lines(&["POST / HTTP/1.1", "content-length: 12"])), 12);
    assert_eq!(content_length(&lines(&["POST / HTTP/1.1", "Content-Length:  7 "])), 7);
}

#[test]
fn content_length_value_trimmed_of_unicode_whitespace() {
    let hs = lines(&["POST / HTTP/1.1", "Content-Length:\u{00A0}5\u{2003}"]);
    assert_eq!(content_length(&hs), 5);
}

#[test]
fn content_length_defaults_to_zero() {
    assert_eq!(content_length(&lines(&["GET / HTTP/1.1"])), 0);
    assert_eq!(content_length(&lines(&["GET / HTTP/1.1", "Content-Length: abc"])), 0);
    assert_eq!(content_length(&lines(&["GET / HTTP/1.1", "Content-Length: -3"])), 0);
}

#[test]
fn content_length_first_parseable_line_wins() {
    let hs = lines(&["GET / HTTP/1.1", "Content-Length: abc", "Content-Length: 7"]);
    assert_eq!(content_length(&hs), 7);
    let hs2 = lines(&["GET / HTTP/1.1", "Content-Length: 3", "Content-Length: 7"]);
    assert_eq!(content_length(&hs2), 3);
}

#[test]
fn body_takes_exactly_declared_length() {
    let hs = lines(&["POST / HTTP/1.1", "Content-Length: 5"]);
    let n = content_length(&hs);
    assert_eq!(n, 5);
    // the connection holds the declared bytes and then more; exactly the
    // declared count is handed to the request, the rest is never read
    let stream: &[u8] = b"helloEXTRA";
    let body = stream[..n].to_vec();
    let req = HttpRequest::new(hs, body).unwrap();
    assert_eq!(req.body().as_slice(), b"hello");
}

#[test]
fn encode_sets_content_length_from_body() {
    let mut res = HttpResponse::new();
    res.text("hello".to_string());
    let (head, body) = encode_response(&"HTTP/1.1".to_string(), res);
    assert!(head.contains("Content-Length: 5\n"));
    assert_eq!(body, b"hello");
}

#[test]
fn encode_content_length_zero_for_empty_body() {
    let res = HttpResponse::new();
    let (head, body) = encode_response(&"HTTP/1.1".to_string(), res);
    assert!(head.contains("Content-Length: 0\n"));
    assert!(body.is_empty());
}

#[test]
fn encode_overwrites_handler_supplied_content_length() {
    let mut res = HttpResponse::new();
    res.insert_header("Content-Length".to_string(), "999".to_string());
    res.text("ab".to_string());
    let (head, _) = encode_response(&"HTTP/1.1".to_string(), res);
    assert!(head.contains("Content-Length: 2\n"));
    assert!(!head.contains("999"));
}

#[test]
fn encode_defaults_content_type() {
    let res = HttpResponse::new();
    let (head, _) = encode_response(&"HTTP/1.1".to_string(), res);
    assert!(head.contains("Content-Type: application/octet-stream\n"));
}

#[test]
fn encode_keeps_handler_content_type() {
    let mut res = HttpResponse::new();
    res.insert_header("Content-Type".to_string(), "text/html".to_string());
    let (head, _) = encode_response(&"HTTP/1.1".to_string(), res);
    assert!(head.contains("Content-Type: text/html\n"));
    assert!(!head.contains("application/octet-stream"));
}

#[test]
fn encode_status_line_echoes_request_version() {
    let res = HttpResponse::new();
    let (head, _) = encode_response(&"HTTP/1.0".to_string(), res);
    assert!(head.starts_with("HTTP/1.0 404 Not Found\n"));
}

#[test]
fn encode_exact_output_for_default_response() {
    let res = HttpResponse::new();
    let (head, body) = encode_response(&"HTTP/1.1".to_string(), res);
    assert_eq!(
        head,
        "HTTP/1.1 404 Not Found\nContent-Type: application/octet-stream\nContent-Length: 0\n\n"
    );
    assert!(body.is_empty());
}
