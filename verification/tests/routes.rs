use std::collections::HashMap;

use http_engine::encoding::negotiate;
use http_engine::encoding::EncodingChoice;
use http_engine::request::parse_request;
use http_engine::router::file_read_response;
use http_engine::router::file_write_response;
use http_engine::router::plan;
use http_engine::router::Plan;

fn bytes(s: &str) -> Vec<u8> {
    s.as_bytes().to_vec()
}

fn respond(raw: &str) -> Vec<u8> {
    let req = parse_request(&bytes(raw)).unwrap();
    match plan(&req) {
        Plan::Respond(b) => b,
        _ => panic!("expected a finished response"),
    }
}

#[test]
fn root_is_exactly_200_ok() {
    assert_eq!(respond("GET / HTTP/1.1\r\n\r\n"), bytes("HTTP/1.1 200 OK\r\n\r\n"));
}

#[test]
fn echo_returns_text_verbatim() {
    assert_eq!(
        respond("GET /echo/abc HTTP/1.1\r\n\r\n"),
        bytes("HTTP/1.1 200 OK\r\nContent-Type: text/plain\r\nContent-Length: 3\r\n\r\nabc")
    );
}

#[test]
fn echo_takes_segment_verbatim_without_decoding() {
    assert_eq!(
        respond("GET /echo/a%20b HTTP/1.1\r\n\r\n"),
        bytes("HTTP/1.1 200 OK\r\nContent-Type: text/plain\r\nContent-Length: 5\r\n\r\na%20b")
    );
}

#[test]
fn echo_of_empty_segment() {
    assert_eq!(
        respond("GET /echo/ HTTP/1.1\r\n\r\n"),
        bytes("HTTP/1.1 200 OK\r\nContent-Type: text/plain\r\nContent-Length: 0\r\n\r\n")
    );
}

#[test]
fn user_agent_is_reflected() {
    assert_eq!(
        respond("GET /user-agent HTTP/1.1\r\nUser-Agent: xyz/1.0\r\n\r\n"),
        bytes("HTTP/1.1 200 OK\r\nContent-Type: text/plain\r\nContent-Length: 7\r\n\r\nxyz/1.0")
    );
}

#[test]
fn user_agent_absent_gives_empty_body() {
    assert_eq!(
        respond("GET /user-agent HTTP/1.1\r\n\r\n"),
        bytes("HTTP/1.1 200 OK\r\nContent-Type: text/plain\r\nContent-Length: 0\r\n\r\n")
    );
}

#[test]
fn unknown_route_is_404_never_200() {
    let out = respond("GET /unknown-route HTTP/1.1\r\n\r\n");
    assert_eq!(out, bytes("HTTP/1.1 404 Not Found\r\n\r\n"));
    assert!(!out.starts_with(b"HTTP/1.1 200"));
}

#[test]
fn post_outside_files_is_404() {
    assert_eq!(respond("POST / HTTP/1.1\r\n\r\n"), bytes("HTTP/1.1 404 Not Found\r\n\r\n"));
}

#[test]
fn delete_is_405_never_200() {
    let out = respond("DELETE / HTTP/1.1\r\n\r\n");
    assert_eq!(out, bytes("HTTP/1.1 405 Method Not Allowed\r\n\r\n"));
    assert!(!out.starts_with(b"HTTP/1.1 200"));
}

#[test]
fn files_get_missing_file_is_404() {
    let req = parse_request(&bytes("GET /files/does-not-exist HTTP/1.1\r\n\r\n")).unwrap();
    let name = match plan(&req) {
        Plan::ReadFile(name) => name,
        _ => panic!("expected a file read"),
    };
    assert_eq!(name, bytes("does-not-exist"));
    // the configured directory has no such file: the collaborator hands back nothing
    let out = file_read_response(None);
    assert_eq!(out, bytes("HTTP/1.1 404 Not Found\r\n\r\n"));
}

#[test]
fn files_write_then_read_round_trip() {
    let mut store: HashMap<Vec<u8>, Vec<u8>> = HashMap::new();

    let post = parse_request(&bytes(
        "POST /files/foo.txt HTTP/1.1\r\nContent-Length: 5\r\n\r\nhello",
    ))
    .unwrap();
    match plan(&post) {
        Plan::WriteFile(name, body) => {
            assert_eq!(name, bytes("foo.txt"));
            assert_eq!(body, bytes("hello"));
            store.insert(name, body);
        }
        _ => panic!("expected a file write"),
    }
    assert_eq!(file_write_response(true), bytes("HTTP/1.1 201 Created\r\n\r\n"));

    let get = parse_request(&bytes("GET /files/foo.txt HTTP/1.1\r\n\r\n")).unwrap();
    match plan(&get) {
        Plan::ReadFile(name) => {
            let content = store.get(&name).cloned();
            let out = file_read_response(content);
            assert_eq!(
                out,
                bytes(
                    "HTTP/1.1 200 OK\r\nContent-Type: application/octet-stream\r\nContent-Length: 5\r\n\r\nhello"
                )
            );
        }
        _ => panic!("expected a file read"),
    }
}

#[test]
fn failed_write_is_500() {
    assert_eq!(
        file_write_response(false),
        bytes("HTTP/1.1 500 Internal Server Error\r\n\r\n")
    );
}

#[test]
fn negotiate_picks_gzip_as_whole_token() {
    assert_eq!(negotiate(&Some(bytes("gzip"))), EncodingChoice::Gzip);
    assert_eq!(negotiate(&Some(bytes("deflate, gzip"))), EncodingChoice::Gzip);
    assert_eq!(negotiate(&Some(bytes("gzip, deflate"))), EncodingChoice::Gzip);
    assert_eq!(negotiate(&Some(bytes("  gzip  "))), EncodingChoice::Gzip);
}

#[test]
fn negotiate_rejects_partial_tokens() {
    assert_eq!(negotiate(&None), EncodingChoice::Identity);
    assert_eq!(negotiate(&Some(bytes(""))), EncodingChoice::Identity);
    assert_eq!(negotiate(&Some(bytes("x-gzip"))), EncodingChoice::Identity);
    assert_eq!(negotiate(&Some(bytes("gzips"))), EncodingChoice::Identity);
    assert_eq!(negotiate(&Some(bytes("deflate, br"))), EncodingChoice::Identity);
}
