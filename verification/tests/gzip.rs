use std::io::Read;

use http_engine::encoding::encode;
use http_engine::encoding::EncodingChoice;
use http_engine::request::parse_request;
use http_engine::router::plan;
use http_engine::router::Plan;

fn bytes(s: &str) -> Vec<u8> {
    s.as_bytes().to_vec()
}

fn gunzip(data: &[u8]) -> Vec<u8> {
    let mut out = Vec::new();
    flate2::read::GzDecoder::new(data).read_to_end(&mut out).unwrap();
    out
}

#[test]
fn encode_identity_keeps_bytes() {
    assert_eq!(encode(bytes("hello"), EncodingChoice::Identity), bytes("hello"));
}

#[test]
fn encode_gzip_round_trips() {
    let compressed = encode(bytes("hello"), EncodingChoice::Gzip);
    assert_ne!(compressed, bytes("hello"));
    assert_eq!(gunzip(&compressed), bytes("hello"));
}

#[test]
fn echo_with_gzip_negotiated_round_trips() {
    let req = parse_request(&bytes(
        "GET /echo/abc HTTP/1.1\r\nAccept-Encoding: gzip\r\n\r\n",
    ))
    .unwrap();
    let out = match plan(&req) {
        Plan::Respond(b) => b,
        _ => panic!("expected a finished response"),
    };

    // split the response at the blank line
    let sep = out
        .windows(4)
        .position(|w| w == b"\r\n\r\n")
        .expect("framed response");
    let head = &out[..sep + 2];
    let body = &out[sep + 4..];

    let head_text = String::from_utf8(head.to_vec()).unwrap();
    assert!(head_text.starts_with("HTTP/1.1 200 OK\r\n"));
    assert!(head_text.contains("Content-Type: text/plain\r\n"));
    assert!(head_text.contains("Content-Encoding: gzip\r\n"));
    assert!(head_text.contains(&format!("Content-Length: {}\r\n", body.len())));

    // the body is not the text itself, and decoding it restores the text
    assert_ne!(body, b"abc");
    assert_eq!(gunzip(body), bytes("abc"));
}

#[test]
fn echo_without_gzip_token_stays_identity() {
    let req = parse_request(&bytes(
        "GET /echo/abc HTTP/1.1\r\nAccept-Encoding: x-gzip\r\n\r\n",
    ))
    .unwrap();
    let out = match plan(&req) {
        Plan::Respond(b) => b,
        _ => panic!("expected a finished response"),
    };
    assert_eq!(
        out,
        bytes("HTTP/1.1 200 OK\r\nContent-Type: text/plain\r\nContent-Length: 3\r\n\r\nabc")
    );
}
