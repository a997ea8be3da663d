//! Routing and handlers: maps `(method, path)` to one of the fixed routes
//! and produces the exact response bytes, or a file action for the caller
//! to perform.
//!
//! File reads and writes belong to an outside collaborator (the configured
//! serving directory), so [`plan`] returns either finished response bytes or
//! a [`Plan::ReadFile`] / [`Plan::WriteFile`] action; the caller performs
//! the action and turns its outcome into bytes with [`file_read_response`]
//! or [`file_write_response`].

use vstd::prelude::*;

use crate::bytes::bytes_eq;
use crate::bytes::has_prefix;
use crate::bytes::has_prefix_exec;
use crate::bytes::sub_vec;
use crate::encoding::encode;
use crate::encoding::gunzip_of;
use crate::encoding::negotiate;
use crate::encoding::negotiate_spec;
use crate::encoding::wants_gzip;
use crate::encoding::EncodingChoice;
use crate::request::opt_bytes;
use crate::request::Method;
use crate::request::MethodView;
use crate::request::Request;
use crate::request::RequestView;
use crate::response::content_length_header;
use crate::response::content_type_header;
use crate::response::Response;
use crate::wire::crlf;
use crate::wire::echo_path_prefix;
use crate::wire::echo_path_prefix_vec;
use crate::wire::files_path_prefix;
use crate::wire::files_path_prefix_vec;
use crate::wire::octet_stream;
use crate::wire::octet_stream_vec;
use crate::wire::root_path;
use crate::wire::root_path_vec;
use crate::wire::status_line_200;
use crate::wire::status_line_201;
use crate::wire::status_line_404;
use crate::wire::status_line_405;
use crate::wire::status_line_500;
use crate::wire::text_plain;
use crate::wire::text_plain_vec;
use crate::wire::user_agent_path;
use crate::wire::user_agent_path_vec;

verus! {

// ------------------------------------------------------------------
// Exact response layouts
// ------------------------------------------------------------------

/// The reply to `GET /`: a bare `200 OK` status with no headers and no body.
pub open spec fn root_resp() -> Seq<u8> {
    status_line_200() + crlf()
}

/// The plain echo reply: `200 OK`, `text/plain`, the length of `t`, body `t`.
pub open spec fn echo_identity_resp(t: Seq<u8>) -> Seq<u8> {
    status_line_200() + content_type_header(text_plain()) + content_length_header(t.len())
        + crlf() + t
}

/// The gzip echo reply carrying compressed bytes `c`: `200 OK`, `text/plain`,
/// `Content-Encoding: gzip`, the length of `c`, body `c`.
pub open spec fn echo_gzip_resp(c: Seq<u8>) -> Seq<u8> {
    status_line_200() + content_type_header(text_plain())
        + crate::wire::content_encoding_gzip_header() + content_length_header(c.len()) + crlf() + c
}

/// The `GET /user-agent` reply: the header value verbatim as a `text/plain`
/// body, or an empty body when the header was absent.
pub open spec fn user_agent_resp(ua: Option<Seq<u8>>) -> Seq<u8> {
    let b = match ua {
        Some(v) => v,
        None => Seq::empty(),
    };
    status_line_200() + content_type_header(text_plain()) + content_length_header(b.len())
        + crlf() + b
}

/// The reply serving file contents `c`: `200 OK`, `application/octet-stream`,
/// the length of `c`, body `c`.
pub open spec fn file_content_resp(c: Seq<u8>) -> Seq<u8> {
    status_line_200() + content_type_header(octet_stream()) + content_length_header(c.len())
        + crlf() + c
}

/// A bare `404 Not Found` reply.
pub open spec fn not_found_resp() -> Seq<u8> {
    status_line_404() + crlf()
}

/// A bare `201 Created` reply.
pub open spec fn created_resp() -> Seq<u8> {
    status_line_201() + crlf()
}

/// A bare `405 Method Not Allowed` reply.
pub open spec fn method_not_allowed_resp() -> Seq<u8> {
    status_line_405() + crlf()
}

/// A bare `500 Internal Server Error` reply.
pub open spec fn server_error_resp() -> Seq<u8> {
    status_line_500() + crlf()
}

// ------------------------------------------------------------------
// The routing table
// ------------------------------------------------------------------

/// The route a `(method, path)` pair selects.
pub enum RouteView {
    Root,
    /// Echo the path segment after `/echo/`.
    Echo(Seq<u8>),
    UserAgent,
    /// Serve the named file from the configured directory.
    FileRead(Seq<u8>),
    /// Store the request body under the named file.
    FileWrite(Seq<u8>),
    NotFound,
    MethodNotAllowed,
}

/// The routing table, first match wins: `GET` knows `/` and `/user-agent`
/// exactly and `/echo/`, `/files/` as fixed prefixes; `POST` knows only the
/// `/files/` prefix; any other method is not allowed.
pub open spec fn route_spec(m: MethodView, path: Seq<u8>) -> RouteView {
    match m {
        MethodView::Get => if path == root_path() {
            RouteView::Root
        } else if has_prefix(path, echo_path_prefix()) {
            RouteView::Echo(path.skip(6))
        } else if path == user_agent_path() {
            RouteView::UserAgent
        } else if has_prefix(path, files_path_prefix()) {
            RouteView::FileRead(path.skip(7))
        } else {
            RouteView::NotFound
        },
        MethodView::Post => if has_prefix(path, files_path_prefix()) {
            RouteView::FileWrite(path.skip(7))
        } else {
            RouteView::NotFound
        },
        MethodView::Unrecognized(_) => RouteView::MethodNotAllowed,
    }
}

// ------------------------------------------------------------------
// Handlers
// ------------------------------------------------------------------

/// Builds the reply to `GET /`.
pub fn handle_root() -> (r: Vec<u8>)
    ensures
        r@ == root_resp(),
{
    let b = Response::new().ok().build();
    proof {
        assert(b@ =~= root_resp());
    }
    b
}

/// Builds the echo reply for `text`, applying the chosen encoding.
pub fn handle_echo(text: Vec<u8>, choice: EncodingChoice) -> (r: Vec<u8>)
    ensures
        choice == EncodingChoice::Identity ==> r@ == echo_identity_resp(text@),
        choice == EncodingChoice::Gzip ==> exists|c: Seq<u8>|
            gunzip_of(c) == Some(text@) && r@ == echo_gzip_resp(c),
{
    let ghost t0 = text@;
    let tp = text_plain_vec();
    match choice {
        EncodingChoice::Identity => {
            let n = text.len();
            let b = Response::new().ok().content_type(&tp).content_length(n).body(text).build();
            proof {
                assert(b@ =~= echo_identity_resp(t0));
            }
            b
        },
        EncodingChoice::Gzip => {
            let enc = encode(text, EncodingChoice::Gzip);
            let ghost c0 = enc@;
            let n = enc.len();
            let b = Response::new().ok().content_type(&tp).content_encoding().content_length(
                n,
            ).body(enc).build();
            proof {
                assert(b@ =~= echo_gzip_resp(c0));
                assert(gunzip_of(c0) == Some(t0) && b@ == echo_gzip_resp(c0));
            }
            b
        },
    }
}

/// Builds the reply to `GET /user-agent` from the request's header value.
pub fn handle_user_agent(ua: &Option<Vec<u8>>) -> (r: Vec<u8>)
    ensures
        r@ == user_agent_resp(opt_bytes(*ua)),
{
    let tp = text_plain_vec();
    let b: Vec<u8> = match ua {
        Some(v) => {
            let w = sub_vec(v, 0, v.len());
            proof {
                assert(w@ =~= v@);
            }
            w
        },
        None => Vec::new(),
    };
    let n = b.len();
    let out = Response::new().ok().content_type(&tp).content_length(n).body(b).build();
    proof {
        assert(out@ =~= user_agent_resp(opt_bytes(*ua)));
    }
    out
}

/// A bare `404 Not Found` response.
pub fn not_found_response() -> (r: Vec<u8>)
    ensures
        r@ == not_found_resp(),
{
    let b = Response::new().not_found().build();
    proof {
        assert(b@ =~= not_found_resp());
    }
    b
}

/// A bare `405 Method Not Allowed` response.
pub fn method_not_allowed_response() -> (r: Vec<u8>)
    ensures
        r@ == method_not_allowed_resp(),
{
    let b = Response::new().method_not_allowed().build();
    proof {
        assert(b@ =~= method_not_allowed_resp());
    }
    b
}

/// Turns the outcome of reading the requested file into the reply: the
/// contents verbatim on success, `404 Not Found` when the file could not be
/// read.
pub fn file_read_response(content: Option<Vec<u8>>) -> (r: Vec<u8>)
    ensures
        match content {
            Some(c) => r@ == file_content_resp(c@),
            None => r@ == not_found_resp(),
        },
{
    match content {
        Some(c) => {
            let os = octet_stream_vec();
            let ghost c0 = c@;
            let n = c.len();
            let b = Response::new().ok().content_type(&os).content_length(n).body(c).build();
            proof {
                assert(b@ =~= file_content_resp(c0));
            }
            b
        },
        None => not_found_response(),
    }
}

/// Turns the outcome of writing the requested file into the reply: `201
/// Created` on success, `500 Internal Server Error` on failure.
pub fn file_write_response(success: bool) -> (r: Vec<u8>)
    ensures
        success ==> r@ == created_resp(),
        !success ==> r@ == server_error_resp(),
{
    if success {
        let b = Response::new().created().build();
        proof {
            assert(b@ =~= created_resp());
        }
        b
    } else {
        let b = Response::new().internal_server_error().build();
        proof {
            assert(b@ =~= server_error_resp());
        }
        b
    }
}

// ------------------------------------------------------------------
// The plan
// ------------------------------------------------------------------

/// What handling a request requires of the caller: write finished bytes
/// back, or perform a file action first.
pub enum Plan {
    /// The finished response bytes.
    Respond(Vec<u8>),
    /// Read this file from the serving directory, then build the reply with
    /// [`file_read_response`].
    ReadFile(Vec<u8>),
    /// Write these bytes under this name in the serving directory, then
    /// build the reply with [`file_write_response`].
    WriteFile(Vec<u8>, Vec<u8>),
}

/// Routes a parsed request.  The outcome follows the routing table exactly;
/// responses that need no file access come back as finished bytes.
pub fn plan(req: &Request) -> (r: Plan)
    ensures
        match route_spec(req@.method, req@.path) {
            RouteView::Root => r matches Plan::Respond(b) && b@ == root_resp(),
            RouteView::Echo(t) => match negotiate_spec(req@.accept_encoding) {
                EncodingChoice::Identity => r matches Plan::Respond(b) && b@
                    == echo_identity_resp(t),
                EncodingChoice::Gzip => r matches Plan::Respond(b) && exists|c: Seq<u8>|
                    gunzip_of(c) == Some(t) && b@ == echo_gzip_resp(c),
            },
            RouteView::UserAgent => r matches Plan::Respond(b) && b@ == user_agent_resp(
                req@.user_agent,
            ),
            RouteView::FileRead(name) => r matches Plan::ReadFile(n) && n@ == name,
            RouteView::FileWrite(name) => r matches Plan::WriteFile(n, body) && n@ == name
                && body@ == req@.body,
            RouteView::NotFound => r matches Plan::Respond(b) && b@ == not_found_resp(),
            RouteView::MethodNotAllowed => r matches Plan::Respond(b) && b@
                == method_not_allowed_resp(),
        },
{
    match &req.method {
        Method::Get => {
            let root = root_path_vec();
            if bytes_eq(&req.path, &root) {
                return Plan::Respond(handle_root());
            }
            let ep = echo_path_prefix_vec();
            if has_prefix_exec(&req.path, &ep) {
                let text = sub_vec(&req.path, 6, req.path.len());
                proof {
                    assert(text@ =~= req@.path.skip(6));
                }
                let choice = negotiate(&req.accept_encoding);
                return Plan::Respond(handle_echo(text, choice));
            }
            let uap = user_agent_path_vec();
            if bytes_eq(&req.path, &uap) {
                return Plan::Respond(handle_user_agent(&req.user_agent));
            }
            let fp = files_path_prefix_vec();
            if has_prefix_exec(&req.path, &fp) {
                let name = sub_vec(&req.path, 7, req.path.len());
                proof {
                    assert(name@ =~= req@.path.skip(7));
                }
                return Plan::ReadFile(name);
            }
            Plan::Respond(not_found_response())
        },
        Method::Post => {
            let fp = files_path_prefix_vec();
            if has_prefix_exec(&req.path, &fp) {
                let name = sub_vec(&req.path, 7, req.path.len());
                let body = sub_vec(&req.body, 0, req.body.len());
                proof {
                    assert(name@ =~= req@.path.skip(7));
                    assert(body@ =~= req@.body);
                }
                return Plan::WriteFile(name, body);
            }
            Plan::Respond(not_found_response())
        },
        Method::Unrecognized(_) => Plan::Respond(method_not_allowed_response()),
    }
}

// ------------------------------------------------------------------
// Routing laws
// ------------------------------------------------------------------

/// A `GET` of `/echo/` followed by any text routes to the echo handler with
/// exactly that text.
pub proof fn lemma_echo_route(t: Seq<u8>)
    ensures
        route_spec(MethodView::Get, echo_path_prefix() + t) == RouteView::Echo(t),
{
    let p = echo_path_prefix() + t;
    assert(p.len() != root_path().len());
    assert(p.subrange(0, 6) =~= echo_path_prefix());
    assert(p.skip(6) =~= t);
}

/// A `GET` or `POST` of `/files/` followed by any name routes to the file
/// handlers with exactly that name.
pub proof fn lemma_files_route(name: Seq<u8>)
    ensures
        route_spec(MethodView::Get, files_path_prefix() + name) == RouteView::FileRead(name),
        route_spec(MethodView::Post, files_path_prefix() + name) == RouteView::FileWrite(name),
{
    let p = files_path_prefix() + name;
    assert(p.len() != root_path().len());
    assert(p.subrange(0, 7) =~= files_path_prefix());
    assert(p.skip(7) =~= name);
    assert(!has_prefix(p, echo_path_prefix())) by {
        if has_prefix(p, echo_path_prefix()) {
            assert(p.subrange(0, 6)[1] == echo_path_prefix()[1]);
        }
    }
    assert(p != user_agent_path()) by {
        if p == user_agent_path() {
            assert(p[1] == user_agent_path()[1]);
        }
    }
}

/// A `GET` of `/echo/<t>` without an `Accept-Encoding` header is answered by
/// the exact plain echo reply: `200 OK`, `text/plain`, a `Content-Length` of
/// `t.len()`, and `t` itself as the body.
pub proof fn lemma_echo_identity(req: RequestView, t: Seq<u8>)
    requires
        req.method == MethodView::Get,
        req.path == echo_path_prefix() + t,
        req.accept_encoding is None,
    ensures
        route_spec(req.method, req.path) == RouteView::Echo(t),
        negotiate_spec(req.accept_encoding) == EncodingChoice::Identity,
{
    lemma_echo_route(t);
}

/// A `GET` of `/echo/<t>` whose `Accept-Encoding` names gzip as a whole
/// token is answered by the gzip echo reply, whose body decodes back to `t`
/// (the round trip is stated by [`plan`]'s contract through `gunzip_of`).
pub proof fn lemma_echo_gzip(req: RequestView, t: Seq<u8>, ae: Seq<u8>)
    requires
        req.method == MethodView::Get,
        req.path == echo_path_prefix() + t,
        req.accept_encoding == Some(ae),
        wants_gzip(ae),
    ensures
        route_spec(req.method, req.path) == RouteView::Echo(t),
        negotiate_spec(req.accept_encoding) == EncodingChoice::Gzip,
{
    lemma_echo_route(t);
}

} // verus!
