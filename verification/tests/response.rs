use http_engine::response::Response;

fn bytes(s: &str) -> Vec<u8> {
    s.as_bytes().to_vec()
}

#[test]
fn build_frames_status_headers_and_body() {
    let out = Response::new()
        .ok()
        .content_type(&bytes("text/plain"))
        .content_length(3)
        .body(bytes("abc"))
        .build();
    assert_eq!(
        out,
        bytes("HTTP/1.1 200 OK\r\nContent-Type: text/plain\r\nContent-Length: 3\r\n\r\nabc")
    );
}

#[test]
fn status_lines_are_exact() {
    assert_eq!(Response::new().ok().build(), bytes("HTTP/1.1 200 OK\r\n\r\n"));
    assert_eq!(Response::new().created().build(), bytes("HTTP/1.1 201 Created\r\n\r\n"));
    assert_eq!(Response::new().bad_request().build(), bytes("HTTP/1.1 400 Bad Request\r\n\r\n"));
    assert_eq!(Response::new().not_found().build(), bytes("HTTP/1.1 404 Not Found\r\n\r\n"));
    assert_eq!(
        Response::new().method_not_allowed().build(),
        bytes("HTTP/1.1 405 Method Not Allowed\r\n\r\n")
    );
    assert_eq!(
        Response::new().internal_server_error().build(),
        bytes("HTTP/1.1 500 Internal Server Error\r\n\r\n")
    );
}

#[test]
fn content_length_renders_decimal() {
    let out = Response::new().ok().content_length(1234).build();
    assert_eq!(out, bytes("HTTP/1.1 200 OK\r\nContent-Length: 1234\r\n\r\n"));
    let zero = Response::new().ok().content_length(0).build();
    assert_eq!(zero, bytes("HTTP/1.1 200 OK\r\nContent-Length: 0\r\n\r\n"));
}

#[test]
fn content_encoding_header_is_gzip() {
    let out = Response::new().ok().content_encoding().build();
    assert_eq!(out, bytes("HTTP/1.1 200 OK\r\nContent-Encoding: gzip\r\n\r\n"));
}

#[test]
fn headers_keep_insertion_order() {
    let out = Response::new()
        .ok()
        .content_type(&bytes("text/plain"))
        .content_encoding()
        .content_length(2)
        .body(bytes("zz"))
        .build();
    assert_eq!(
        out,
        bytes(
            "HTTP/1.1 200 OK\r\nContent-Type: text/plain\r\nContent-Encoding: gzip\r\nContent-Length: 2\r\n\r\nzz"
        )
    );
}

#[test]
fn new_builds_bare_separator_only() {
    assert_eq!(Response::new().build(), bytes("\r\n"));
}
