//! End-to-end laws of the engine, stated over raw request bytes: what
//! parsing, routing and content negotiation together make of whole
//! requests, built from a method token, a path, and at most one header.
//!
//! Each law ends where a handler's or [`crate::router::plan`]'s own
//! contract takes over, so together they pin the full byte-level behavior:
//! the root greeting, the echo route with and without gzip, the file write
//! carrying its body verbatim, and the rejection of unknown methods.

use vstd::prelude::*;

use crate::bytes::blank_at;
use crate::bytes::crlf_at;
use crate::bytes::has_prefix;
use crate::bytes::is_ws;
use crate::bytes::lemma_find_blank_at;
use crate::bytes::lemma_find_crlf_at;
use crate::encoding::fields_of;
use crate::encoding::lemma_fields_single;
use crate::encoding::negotiate_spec;
use crate::encoding::trimmed;
use crate::encoding::wants_gzip;
use crate::encoding::EncodingChoice;
use crate::request::first_with_prefix;
use crate::request::header_region;
use crate::request::dec_of;
use crate::bytes::is_digit;
use crate::request::lemma_dec_round_trip;
use crate::request::lemma_lines_single;
use crate::request::lemma_tokens_run;
use crate::request::lines_of;
use crate::request::method_of;
use crate::request::parse_spec;
use crate::request::tokens_from;
use crate::request::tokens_of;
use crate::request::MethodView;
use crate::request::ParseError;
use crate::request::RequestView;
use crate::router::lemma_echo_route;
use crate::router::lemma_files_route;
use crate::router::route_spec;
use crate::router::RouteView;
use crate::wire::accept_encoding_prefix;
use crate::wire::content_length_prefix;
use crate::wire::dec_digits;
use crate::wire::echo_path_prefix;
use crate::wire::files_path_prefix;
use crate::wire::get_token;
use crate::wire::gzip_token;
use crate::wire::post_token;
use crate::wire::root_path;
use crate::wire::user_agent_prefix;

verus! {

// ------------------------------------------------------------------
// Request shapes
// ------------------------------------------------------------------

/// The bytes of `"HTTP/1.1"`, the version token of a request line.
pub open spec fn http_version() -> Seq<u8> {
    seq![72u8, 84u8, 84u8, 80u8, 47u8, 49u8, 46u8, 49u8]
}

/// The request line `<m> <path> HTTP/1.1`, unterminated.
pub open spec fn request_line_of(m: Seq<u8>, path: Seq<u8>) -> Seq<u8> {
    m + seq![32u8] + path + seq![32u8] + http_version()
}

/// A whole request with no headers and no body.
pub open spec fn bare_request(m: Seq<u8>, path: Seq<u8>) -> Seq<u8> {
    request_line_of(m, path) + seq![13u8, 10u8, 13u8, 10u8]
}

/// A whole request with one header line and a trailing body.
pub open spec fn one_header_request(m: Seq<u8>, path: Seq<u8>, hdr: Seq<u8>, body: Seq<u8>) -> Seq<
    u8,
> {
    request_line_of(m, path) + seq![13u8, 10u8] + hdr + seq![13u8, 10u8, 13u8, 10u8] + body
}

/// `t` can stand as one whole token of a request line: nonempty, with no
/// CR, LF, blank or tab.
pub open spec fn token_text(t: Seq<u8>) -> bool {
    t.len() > 0 && plain_text(t)
}

/// `t` is free of CR, LF, blank and tab.
pub open spec fn plain_text(t: Seq<u8>) -> bool {
    forall|k: int| 0 <= k < t.len() ==> t[k] != 13u8 && t[k] != 10u8 && !is_ws(t[k])
}

// ------------------------------------------------------------------
// Shared structure of such requests
// ------------------------------------------------------------------

/// The request line `<m> <path> HTTP/1.1` splits into exactly its three
/// tokens.
proof fn lemma_request_line_tokens(m: Seq<u8>, path: Seq<u8>)
    requires
        token_text(m),
        token_text(path),
    ensures
        tokens_of(request_line_of(m, path)) == seq![m, path, http_version()],
{
    let line = request_line_of(m, path);
    let a = m.len() as int;
    let b = (m.len() + 1 + path.len()) as int;
    assert(line.len() == b + 9);
    assert forall|k: int| 0 <= k < a implies !is_ws(line[k]) by {
        assert(line[k] == m[k]);
    }
    lemma_tokens_run(line, 0, Seq::empty(), m.len());
    assert(Seq::empty() + line.subrange(0, a) =~= m);
    assert(is_ws(line[a]));
    assert(tokens_from(line, m.len(), m) == seq![m] + tokens_from(
        line,
        (m.len() + 1) as nat,
        Seq::empty(),
    ));
    assert forall|k: int| a + 1 <= k < b implies !is_ws(line[k]) by {
        assert(line[k] == path[k - a - 1]);
    }
    lemma_tokens_run(line, (m.len() + 1) as nat, Seq::empty(), (m.len() + 1 + path.len()) as nat);
    assert(Seq::empty() + line.subrange(a + 1, b) =~= path);
    assert(is_ws(line[b]));
    assert(tokens_from(line, (m.len() + 1 + path.len()) as nat, path) == seq![path]
        + tokens_from(line, (m.len() + 2 + path.len()) as nat, Seq::empty()));
    assert forall|k: int| b + 1 <= k < b + 9 implies !is_ws(line[k]) by {
        assert(line[k] == http_version()[k - b - 1]);
    }
    lemma_tokens_run(
        line,
        (m.len() + 2 + path.len()) as nat,
        Seq::empty(),
        (m.len() + 10 + path.len()) as nat,
    );
    assert(Seq::empty() + line.subrange(b + 1, b + 9) =~= http_version());
    assert(tokens_from(line, (m.len() + 10 + path.len()) as nat, http_version()) == seq![
        http_version(),
    ]);
    assert(tokens_of(line) =~= seq![m, path, http_version()]);
}

/// No byte of the request line is a carriage return.
proof fn lemma_request_line_no_cr(m: Seq<u8>, path: Seq<u8>, k: int)
    requires
        token_text(m),
        token_text(path),
        0 <= k < request_line_of(m, path).len(),
    ensures
        request_line_of(m, path)[k] != 13u8,
{
    let line = request_line_of(m, path);
    let a = m.len() as int;
    let b = (m.len() + 1 + path.len()) as int;
    if k < a {
        assert(line[k] == m[k]);
    } else if k == a {
    } else if k < b {
        assert(line[k] == path[k - a - 1]);
    } else if k == b {
    } else {
        assert(line[k] == http_version()[k - b - 1]);
    }
}

/// Nothing starting with a nonempty prefix can be the single line `l` when
/// they already differ at byte zero, so the lookup of that prefix fails.
proof fn lemma_single_line_no_prefix(l: Seq<u8>, p: Seq<u8>)
    requires
        p.len() > 0,
        l.len() == 0 || l[0] != p[0],
    ensures
        first_with_prefix(seq![l], p) is None,
{
    if has_prefix(l, p) {
        assert(l.subrange(0, p.len() as int)[0] == p[0]);
        assert(l.subrange(0, p.len() as int)[0] == l[0]);
        assert(false);
    }
    assert(seq![l][0] == l);
    assert(seq![l].drop_first() =~= Seq::<Seq<u8>>::empty());
    assert(first_with_prefix(Seq::<Seq<u8>>::empty(), p) is None);
}

/// Parsing a whole request without headers yields exactly its method and
/// path, no recognized headers, and an empty body.
pub proof fn lemma_parse_bare(m: Seq<u8>, path: Seq<u8>)
    requires
        token_text(m),
        token_text(path),
    ensures
        parse_spec(bare_request(m, path)) == Ok::<RequestView, ParseError>(
            (RequestView {
                method: method_of(m),
                path: path,
                user_agent: None,
                accept_encoding: None,
                body: Seq::empty(),
            }),
        ),
{
    let s = bare_request(m, path);
    let line = request_line_of(m, path);
    let c = (line.len()) as nat;
    assert(s.len() == line.len() + 4);
    assert(crlf_at(s, c as int));
    assert forall|k: int| 0 <= k < c implies !crlf_at(s, k) by {
        assert(s[k] == line[k]);
        lemma_request_line_no_cr(m, path, k);
    }
    lemma_find_crlf_at(s, 0, c);
    assert(s.subrange(0, c as int) =~= line);
    lemma_request_line_tokens(m, path);
    assert(blank_at(s, c as int));
    lemma_find_blank_at(s, c, c);
    assert(header_region(s, c) == Seq::<u8>::empty());
    assert(lines_of(Seq::<u8>::empty()) == seq![Seq::<u8>::empty()]);
    lemma_single_line_no_prefix(Seq::empty(), user_agent_prefix());
    lemma_single_line_no_prefix(Seq::empty(), accept_encoding_prefix());
    lemma_single_line_no_prefix(Seq::empty(), content_length_prefix());
}

/// The skeleton shared by every one-header request: where its request line,
/// blank separator, header section and body lie, and that the request line
/// splits into its three tokens.
proof fn lemma_one_header_structure(m: Seq<u8>, path: Seq<u8>, hdr: Seq<u8>, body: Seq<u8>)
    requires
        token_text(m),
        token_text(path),
        hdr.len() > 0,
        forall|k: int| 0 <= k < hdr.len() ==> hdr[k] != 13u8,
    ensures
        ({
            let s = one_header_request(m, path, hdr, body);
            let c = request_line_of(m, path).len();
            let q = c + 2 + hdr.len();
            &&& crate::bytes::find_crlf(s, 0) == Some(c)
            &&& tokens_of(s.subrange(0, c as int)) == seq![m, path, http_version()]
            &&& crate::bytes::find_blank(s, c) == Some(q)
            &&& header_region(s, c) == hdr
            &&& lines_of(header_region(s, c)) == seq![hdr]
            &&& s.len() == q + 4 + body.len()
            &&& s.subrange(q as int + 4, q as int + 4 + body.len() as int) == body
        }),
{
    let s = one_header_request(m, path, hdr, body);
    let line = request_line_of(m, path);
    let c = (line.len()) as nat;
    let q = (c + 2 + hdr.len()) as nat;
    assert(s.len() == line.len() + 6 + hdr.len() + body.len());
    assert(crlf_at(s, c as int));
    assert forall|k: int| 0 <= k < c implies !crlf_at(s, k) by {
        assert(s[k] == line[k]);
        lemma_request_line_no_cr(m, path, k);
    }
    lemma_find_crlf_at(s, 0, c);
    assert(s.subrange(0, c as int) =~= line);
    lemma_request_line_tokens(m, path);
    assert(blank_at(s, q as int));
    assert forall|k: int| c <= k < q implies !blank_at(s, k) by {
        if k == c {
            assert(s[k + 2] == hdr[0]);
            assert(!crlf_at(s, k + 2));
        } else if k == c + 1 {
            assert(s[k] == 10u8);
        } else {
            assert(s[k] == hdr[k - c - 2]);
        }
    }
    lemma_find_blank_at(s, c, q);
    assert(header_region(s, c) =~= hdr);
    lemma_lines_single(hdr, 0, Seq::empty());
    assert(Seq::empty() + hdr.skip(0) =~= hdr);
    assert(s.subrange(q as int + 4, q as int + 4 + body.len() as int) =~= body);
}

// ------------------------------------------------------------------
// The laws
// ------------------------------------------------------------------

/// `GET /` parses and routes to the root greeting; by
/// [`crate::router::plan`]'s contract the response is then exactly
/// [`crate::router::root_resp`]: the bytes `HTTP/1.1 200 OK`, CRLF, CRLF,
/// and nothing else.
pub proof fn lemma_root_end_to_end()
    ensures
        parse_spec(bare_request(get_token(), root_path())) matches Ok(req) && route_spec(
            req.method,
            req.path,
        ) == RouteView::Root && negotiate_spec(req.accept_encoding) == EncodingChoice::Identity,
{
    lemma_parse_bare(get_token(), root_path());
}

/// For every text `t` free of CR, LF and blanks, the raw request
/// `GET /echo/<t> HTTP/1.1` with no headers parses, routes to the echo
/// handler with exactly `t`, and negotiates the identity encoding; by
/// [`crate::router::plan`]'s contract the response is then exactly
/// [`crate::router::echo_identity_resp`]`(t)`: status `200 OK`,
/// `Content-Type: text/plain`, `Content-Length` equal to `t.len()`, and `t`
/// itself as the body.
pub proof fn lemma_echo_plain_end_to_end(t: Seq<u8>)
    requires
        plain_text(t),
    ensures
        parse_spec(bare_request(get_token(), echo_path_prefix() + t)) matches Ok(req)
            && route_spec(req.method, req.path) == RouteView::Echo(t) && negotiate_spec(
            req.accept_encoding,
        ) == EncodingChoice::Identity,
{
    assert(token_text(echo_path_prefix() + t)) by {
        lemma_concat_plain(echo_path_prefix(), t);
    }
    lemma_parse_bare(get_token(), echo_path_prefix() + t);
    lemma_echo_route(t);
}

/// For every text `t` free of CR, LF and blanks, the raw request
/// `GET /echo/<t> HTTP/1.1` with the single header `Accept-Encoding: gzip`
/// parses, routes to the echo handler with exactly `t`, and negotiates
/// gzip; by [`crate::router::plan`]'s contract the response then carries
/// `Content-Encoding: gzip`, a `Content-Length` equal to the compressed
/// body's length, and a body that gzip-decodes back to exactly `t`.
pub proof fn lemma_echo_gzip_end_to_end(t: Seq<u8>)
    requires
        plain_text(t),
    ensures
        parse_spec(
            one_header_request(
                get_token(),
                echo_path_prefix() + t,
                accept_encoding_prefix() + gzip_token(),
                Seq::empty(),
            ),
        ) matches Ok(req) && route_spec(req.method, req.path) == RouteView::Echo(t)
            && negotiate_spec(req.accept_encoding) == EncodingChoice::Gzip,
{
    let path = echo_path_prefix() + t;
    let hdr = accept_encoding_prefix() + gzip_token();
    assert(token_text(path)) by {
        lemma_concat_plain(echo_path_prefix(), t);
    }
    assert(hdr.len() == 21);
    assert forall|k: int| 0 <= k < hdr.len() implies hdr[k] != 13u8 by {
        if k < 17 {
            assert(hdr[k] == accept_encoding_prefix()[k]);
        } else {
            assert(hdr[k] == gzip_token()[k - 17]);
        }
    }
    lemma_one_header_structure(get_token(), path, hdr, Seq::empty());
    assert(hdr[0] == 65u8);
    lemma_single_line_no_prefix(hdr, user_agent_prefix());
    lemma_single_line_no_prefix(hdr, content_length_prefix());
    assert(hdr.subrange(0, 17) =~= accept_encoding_prefix());
    assert(has_prefix(hdr, accept_encoding_prefix()));
    assert(hdr.skip(17) =~= gzip_token());
    assert(first_with_prefix(seq![hdr], accept_encoding_prefix()) == Some(gzip_token()));
    lemma_echo_route(t);
    lemma_gzip_value_negotiates_gzip();
    let s = one_header_request(get_token(), path, hdr, Seq::empty());
    assert(parse_spec(s) == Ok::<RequestView, ParseError>(
        (RequestView {
            method: MethodView::Get,
            path: path,
            user_agent: None,
            accept_encoding: Some(gzip_token()),
            body: Seq::empty(),
        }),
    ));
}

/// For every name free of CR, LF and blanks and every body whatever its
/// bytes, the raw request `POST /files/<name> HTTP/1.1` announcing the
/// body's exact length parses with that body verbatim and routes to a file
/// write of `<name>`; by [`crate::router::plan`]'s contract the caller is
/// then handed exactly the request body to store, and a later read served
/// through [`crate::router::file_read_response`] returns those bytes
/// unchanged.
pub proof fn lemma_post_files_end_to_end(name: Seq<u8>, body: Seq<u8>)
    requires
        plain_text(name),
    ensures
        parse_spec(
            one_header_request(
                post_token(),
                files_path_prefix() + name,
                content_length_prefix() + dec_digits(body.len()),
                body,
            ),
        ) matches Ok(req) && req.body == body && route_spec(req.method, req.path)
            == RouteView::FileWrite(name),
{
    let path = files_path_prefix() + name;
    let digits = dec_digits(body.len());
    let hdr = content_length_prefix() + digits;
    assert(token_text(path)) by {
        lemma_concat_plain(files_path_prefix(), name);
    }
    lemma_dec_round_trip(body.len());
    assert(hdr.len() == 16 + digits.len());
    assert forall|k: int| 0 <= k < hdr.len() implies hdr[k] != 13u8 by {
        if k < 16 {
            assert(hdr[k] == content_length_prefix()[k]);
        } else {
            assert(hdr[k] == digits[k - 16]);
            assert(is_digit(digits[k - 16]));
        }
    }
    lemma_one_header_structure(post_token(), path, hdr, body);
    assert(hdr[0] == 67u8);
    lemma_single_line_no_prefix(hdr, user_agent_prefix());
    lemma_single_line_no_prefix(hdr, accept_encoding_prefix());
    assert(hdr.subrange(0, 16) =~= content_length_prefix());
    assert(has_prefix(hdr, content_length_prefix()));
    assert(hdr.skip(16) =~= digits);
    assert(first_with_prefix(seq![hdr], content_length_prefix()) == Some(digits));
    assert(dec_of(digits) == Some(body.len() as nat));
    lemma_files_route(name);
    let s = one_header_request(post_token(), path, hdr, body);
    assert(parse_spec(s) == Ok::<RequestView, ParseError>(
        (RequestView {
            method: MethodView::Post,
            path: path,
            user_agent: None,
            accept_encoding: None,
            body: body,
        }),
    ));
}

/// For every name free of CR, LF and blanks, the raw request
/// `GET /files/<name> HTTP/1.1` parses and routes to a file read of exactly
/// `<name>`; by [`crate::router::plan`]'s contract the caller is handed
/// that name, and [`crate::router::file_read_response`] then answers `404
/// Not Found` when the directory has no such file, or serves its bytes
/// verbatim when it does.
pub proof fn lemma_files_get_end_to_end(name: Seq<u8>)
    requires
        plain_text(name),
    ensures
        parse_spec(bare_request(get_token(), files_path_prefix() + name)) matches Ok(req)
            && route_spec(req.method, req.path) == RouteView::FileRead(name),
{
    assert(token_text(files_path_prefix() + name)) by {
        lemma_concat_plain(files_path_prefix(), name);
    }
    lemma_parse_bare(get_token(), files_path_prefix() + name);
    lemma_files_route(name);
}

/// For every header value free of CR, the raw request
/// `GET /user-agent HTTP/1.1` carrying `User-Agent: <ua>` parses with that
/// value and routes to the user-agent handler; by
/// [`crate::router::plan`]'s contract the response is then exactly
/// [`crate::router::user_agent_resp`]`(Some(ua))`: status `200 OK`,
/// `Content-Type: text/plain`, `Content-Length` equal to `ua.len()`, and
/// the value itself as the body.
pub proof fn lemma_user_agent_end_to_end(ua: Seq<u8>)
    requires
        forall|k: int| 0 <= k < ua.len() ==> ua[k] != 13u8,
    ensures
        parse_spec(
            one_header_request(
                get_token(),
                crate::wire::user_agent_path(),
                user_agent_prefix() + ua,
                Seq::empty(),
            ),
        ) matches Ok(req) && req.user_agent == Some(ua) && route_spec(req.method, req.path)
            == RouteView::UserAgent,
{
    let path = crate::wire::user_agent_path();
    let hdr = user_agent_prefix() + ua;
    assert(hdr.len() == 12 + ua.len());
    assert forall|k: int| 0 <= k < hdr.len() implies hdr[k] != 13u8 by {
        if k < 12 {
            assert(hdr[k] == user_agent_prefix()[k]);
        } else {
            assert(hdr[k] == ua[k - 12]);
        }
    }
    lemma_one_header_structure(get_token(), path, hdr, Seq::empty());
    assert(hdr[0] == 85u8);
    lemma_single_line_no_prefix(hdr, accept_encoding_prefix());
    lemma_single_line_no_prefix(hdr, content_length_prefix());
    assert(hdr.subrange(0, 12) =~= user_agent_prefix());
    assert(has_prefix(hdr, user_agent_prefix()));
    assert(hdr.skip(12) =~= ua);
    assert(first_with_prefix(seq![hdr], user_agent_prefix()) == Some(ua));
    assert(path.len() != root_path().len());
    assert(!has_prefix(path, echo_path_prefix())) by {
        if has_prefix(path, echo_path_prefix()) {
            assert(path.subrange(0, 6)[1] == echo_path_prefix()[1]);
        }
    }
    let s = one_header_request(get_token(), path, hdr, Seq::empty());
    assert(parse_spec(s) == Ok::<RequestView, ParseError>(
        (RequestView {
            method: MethodView::Get,
            path: path,
            user_agent: Some(ua),
            accept_encoding: None,
            body: Seq::empty(),
        }),
    ));
}

/// A request whose method token is neither `GET` nor `POST` parses to an
/// unrecognized method and routes to `405 Method Not Allowed`, never `200`;
/// by [`crate::router::plan`]'s contract the response is exactly
/// [`crate::router::method_not_allowed_resp`].
pub proof fn lemma_other_method_end_to_end(m: Seq<u8>, path: Seq<u8>)
    requires
        token_text(m),
        token_text(path),
        m != get_token(),
        m != post_token(),
    ensures
        parse_spec(bare_request(m, path)) matches Ok(req) && route_spec(req.method, req.path)
            == RouteView::MethodNotAllowed,
{
    lemma_parse_bare(m, path);
}

/// A `GET` of a path that no route knows parses and routes to `404 Not
/// Found`, never `200`; by [`crate::router::plan`]'s contract the response
/// is exactly [`crate::router::not_found_resp`].
pub proof fn lemma_unknown_route_end_to_end(path: Seq<u8>)
    requires
        token_text(path),
        path != root_path(),
        path != crate::wire::user_agent_path(),
        !has_prefix(path, echo_path_prefix()),
        !has_prefix(path, files_path_prefix()),
    ensures
        parse_spec(bare_request(get_token(), path)) matches Ok(req) && route_spec(
            req.method,
            req.path,
        ) == RouteView::NotFound,
{
    lemma_parse_bare(get_token(), path);
}

/// A request line of only two tokens — no version — is a malformed
/// request: parsing fails, so no response is ever produced for it.
pub proof fn lemma_two_tokens_malformed(m: Seq<u8>, path: Seq<u8>)
    requires
        token_text(m),
        token_text(path),
    ensures
        parse_spec((m + seq![32u8] + path) + seq![13u8, 10u8, 13u8, 10u8]) == Err::<
            RequestView,
            ParseError,
        >(ParseError::MalformedRequestLine),
{
    let line = m + seq![32u8] + path;
    let s = line + seq![13u8, 10u8, 13u8, 10u8];
    let a = m.len() as int;
    let c = (line.len()) as nat;
    assert(s.len() == line.len() + 4);
    assert(crlf_at(s, c as int));
    assert forall|k: int| 0 <= k < c implies !crlf_at(s, k) by {
        assert(s[k] == line[k]);
        if k < a {
            assert(line[k] == m[k]);
        } else if k == a {
        } else {
            assert(line[k] == path[k - a - 1]);
        }
    }
    lemma_find_crlf_at(s, 0, c);
    assert(s.subrange(0, c as int) =~= line);
    assert forall|k: int| 0 <= k < a implies !is_ws(line[k]) by {
        assert(line[k] == m[k]);
    }
    lemma_tokens_run(line, 0, Seq::empty(), m.len());
    assert(Seq::empty() + line.subrange(0, a) =~= m);
    assert(is_ws(line[a]));
    assert(tokens_from(line, m.len(), m) == seq![m] + tokens_from(
        line,
        (m.len() + 1) as nat,
        Seq::empty(),
    ));
    assert forall|k: int| a + 1 <= k < line.len() implies !is_ws(line[k]) by {
        assert(line[k] == path[k - a - 1]);
    }
    lemma_tokens_run(line, (m.len() + 1) as nat, Seq::empty(), line.len() as nat);
    assert(Seq::empty() + line.subrange(a + 1, line.len() as int) =~= path);
    assert(tokens_from(line, line.len() as nat, path) == seq![path]);
    assert(tokens_of(line) =~= seq![m, path]);
}

/// The header value `gzip` negotiates the gzip encoding: it is its own one
/// whole comma-separated token.
pub proof fn lemma_gzip_value_negotiates_gzip()
    ensures
        negotiate_spec(Some(gzip_token())) == EncodingChoice::Gzip,
{
    assert forall|k: int| 0 <= k < gzip_token().len() implies gzip_token()[k] != 44u8 by {}
    lemma_fields_single(gzip_token(), 0, Seq::empty());
    assert(Seq::empty() + gzip_token().skip(0) =~= gzip_token());
    assert(fields_of(gzip_token()) == seq![gzip_token()]);
    assert(trimmed(gzip_token()) == gzip_token());
    assert(fields_of(gzip_token())[0] == gzip_token());
    assert(wants_gzip(gzip_token()));
}

/// A route prefix followed by plain text is itself one whole plain token.
proof fn lemma_concat_plain(p: Seq<u8>, t: Seq<u8>)
    requires
        token_text(p),
        plain_text(t),
    ensures
        token_text(p + t),
{
    assert forall|k: int| 0 <= k < (p + t).len() implies (p + t)[k] != 13u8 && (p + t)[k] != 10u8
        && !is_ws((p + t)[k]) by {
        if k < p.len() {
            assert((p + t)[k] == p[k]);
        } else {
            assert((p + t)[k] == t[k - p.len()]);
        }
    }
}

} // verus!
