use http_engine::request::parse_header;
use http_engine::request::parse_request;
use http_engine::request::Method;
use http_engine::request::ParseError;

fn bytes(s: &str) -> Vec<u8> {
    s.as_bytes().to_vec()
}

#[test]
fn parses_plain_get() {
    let raw = bytes("GET / HTTP/1.1\r\n\r\n");
    let req = parse_request(&raw).unwrap();
    assert_eq!(req.method, Method::Get);
    assert_eq!(req.path, bytes("/"));
    assert_eq!(req.user_agent, None);
    assert_eq!(req.accept_encoding, None);
    assert!(req.body.is_empty());
}

#[test]
fn parses_recognized_headers() {
    let raw = bytes("GET /user-agent HTTP/1.1\r\nHost: here\r\nUser-Agent: xyz/1.0\r\nAccept-Encoding: gzip\r\n\r\n");
    let req = parse_request(&raw).unwrap();
    assert_eq!(req.user_agent, Some(bytes("xyz/1.0")));
    assert_eq!(req.accept_encoding, Some(bytes("gzip")));
}

#[test]
fn first_matching_header_wins() {
    let raw = bytes("GET /user-agent HTTP/1.1\r\nUser-Agent: one\r\nUser-Agent: two\r\n\r\n");
    let req = parse_request(&raw).unwrap();
    assert_eq!(req.user_agent, Some(bytes("one")));
}

#[test]
fn header_lookup_is_case_sensitive_exact_prefix() {
    let raw = bytes("GET / HTTP/1.1\r\nuser-agent: low\r\n\r\n");
    let req = parse_request(&raw).unwrap();
    assert_eq!(req.user_agent, None);
}

#[test]
fn parses_post_body_by_content_length() {
    let raw = bytes("POST /files/foo HTTP/1.1\r\nContent-Length: 5\r\n\r\nhelloEXTRA");
    let req = parse_request(&raw).unwrap();
    assert_eq!(req.method, Method::Post);
    assert_eq!(req.body, bytes("hello"));
}

#[test]
fn missing_content_length_gives_empty_body() {
    let raw = bytes("POST /files/foo HTTP/1.1\r\n\r\nhello");
    let req = parse_request(&raw).unwrap();
    assert!(req.body.is_empty());
}

#[test]
fn non_numeric_content_length_gives_empty_body() {
    let raw = bytes("POST /files/foo HTTP/1.1\r\nContent-Length: five\r\n\r\nhello");
    let req = parse_request(&raw).unwrap();
    assert!(req.body.is_empty());
}

#[test]
fn unrecognized_method_keeps_token() {
    let raw = bytes("DELETE / HTTP/1.1\r\n\r\n");
    let req = parse_request(&raw).unwrap();
    assert_eq!(req.method, Method::Unrecognized(bytes("DELETE")));
}

#[test]
fn short_request_line_is_malformed() {
    let raw = bytes("GET /\r\n\r\n");
    assert_eq!(parse_request(&raw), Err(ParseError::MalformedRequestLine));
}

#[test]
fn long_request_line_is_malformed() {
    let raw = bytes("GET / HTTP/1.1 extra\r\n\r\n");
    assert_eq!(parse_request(&raw), Err(ParseError::MalformedRequestLine));
}

#[test]
fn buffer_without_crlf_is_incomplete() {
    let raw = bytes("GET / HTTP/1.1");
    assert_eq!(parse_request(&raw), Err(ParseError::IncompleteRequest));
}

#[test]
fn announced_body_missing_separator_is_incomplete() {
    let raw = bytes("POST /files/foo HTTP/1.1\r\nContent-Length: 5\r\nhello");
    assert_eq!(parse_request(&raw), Err(ParseError::IncompleteRequest));
}

#[test]
fn truncated_body_is_incomplete() {
    let raw = bytes("POST /files/foo HTTP/1.1\r\nContent-Length: 10\r\n\r\nhello");
    assert_eq!(parse_request(&raw), Err(ParseError::IncompleteRequest));
}

#[test]
fn oversized_content_length_is_incomplete() {
    let raw = bytes("POST /f HTTP/1.1\r\nContent-Length: 99999999999999999999999999\r\n\r\nhi");
    assert_eq!(parse_request(&raw), Err(ParseError::IncompleteRequest));
}

#[test]
fn headers_after_blank_line_are_body_not_headers() {
    let raw = bytes("POST /files/foo HTTP/1.1\r\nContent-Length: 16\r\n\r\nUser-Agent: evil");
    let req = parse_request(&raw).unwrap();
    assert_eq!(req.user_agent, None);
    assert_eq!(req.body, bytes("User-Agent: evil"));
}

#[test]
fn parse_header_strips_prefixes() {
    let head = bytes("User-Agent: curl/8.0\r\nAccept-Encoding: gzip, br\r\nContent-Length: 42");
    let (ua, ae, cl) = parse_header(&head);
    assert_eq!(ua, Some(bytes("curl/8.0")));
    assert_eq!(ae, Some(bytes("gzip, br")));
    assert_eq!(cl, Some(bytes("42")));
}

#[test]
fn parse_header_absent_is_none_not_empty() {
    let head = bytes("Host: somewhere");
    let (ua, ae, cl) = parse_header(&head);
    assert_eq!(ua, None);
    assert_eq!(ae, None);
    assert_eq!(cl, None);
}
