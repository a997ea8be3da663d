//! The response builder: accumulates a status line, header lines and a body,
//! and serializes them with exact CRLF framing.
//!
//! The wire layout of [`Response::build`] is byte-exact: the status line,
//! each header line added (in the order they were added), one bare CRLF
//! separator, then the raw body with no trailing terminator.

use vstd::prelude::*;

use crate::bytes::push_all;
use crate::wire::content_encoding_gzip_header;
use crate::wire::content_encoding_gzip_header_vec;
use crate::wire::content_length_prefix;
use crate::wire::content_length_prefix_vec;
use crate::wire::content_type_prefix;
use crate::wire::content_type_prefix_vec;
use crate::wire::crlf;
use crate::wire::crlf_vec;
use crate::wire::dec_digits;
use crate::wire::dec_vec;
use crate::wire::status_line_200;
use crate::wire::status_line_200_vec;
use crate::wire::status_line_201;
use crate::wire::status_line_201_vec;
use crate::wire::status_line_400;
use crate::wire::status_line_400_vec;
use crate::wire::status_line_404;
use crate::wire::status_line_404_vec;
use crate::wire::status_line_405;
use crate::wire::status_line_405_vec;
use crate::wire::status_line_500;
use crate::wire::status_line_500_vec;

verus! {

/// A `Content-Type` header line with value `v`.
pub open spec fn content_type_header(v: Seq<u8>) -> Seq<u8> {
    content_type_prefix() + v + crlf()
}

/// A `Content-Length` header line announcing `n` body bytes.
pub open spec fn content_length_header(n: nat) -> Seq<u8> {
    content_length_prefix() + dec_digits(n) + crlf()
}

/// An in-progress response: a status line, accumulated header lines, and a
/// body, each still unframed.
pub struct Response {
    pub status_line: Vec<u8>,
    pub headers: Vec<u8>,
    pub body: Vec<u8>,
}

impl Response {
    /// An empty response: no status line, no headers, no body.
    pub fn new() -> (r: Self)
        ensures
            r.status_line@ == Seq::<u8>::empty(),
            r.headers@ == Seq::<u8>::empty(),
            r.body@ == Seq::<u8>::empty(),
    {
        Response { status_line: Vec::new(), headers: Vec::new(), body: Vec::new() }
    }

    /// Sets the status line to `200 OK`.
    pub fn ok(self) -> (r: Self)
        ensures
            r.status_line@ == status_line_200(),
            r.headers@ == self.headers@,
            r.body@ == self.body@,
    {
        let mut r = self;
        r.status_line = status_line_200_vec();
        r
    }

    /// Sets the status line to `201 Created`.
    pub fn created(self) -> (r: Self)
        ensures
            r.status_line@ == status_line_201(),
            r.headers@ == self.headers@,
            r.body@ == self.body@,
    {
        let mut r = self;
        r.status_line = status_line_201_vec();
        r
    }

    /// Sets the status line to `400 Bad Request`.
    pub fn bad_request(self) -> (r: Self)
        ensures
            r.status_line@ == status_line_400(),
            r.headers@ == self.headers@,
            r.body@ == self.body@,
    {
        let mut r = self;
        r.status_line = status_line_400_vec();
        r
    }

    /// Sets the status line to `404 Not Found`.
    pub fn not_found(self) -> (r: Self)
        ensures
            r.status_line@ == status_line_404(),
            r.headers@ == self.headers@,
            r.body@ == self.body@,
    {
        let mut r = self;
        r.status_line = status_line_404_vec();
        r
    }

    /// Sets the status line to `405 Method Not Allowed`.
    pub fn method_not_allowed(self) -> (r: Self)
        ensures
            r.status_line@ == status_line_405(),
            r.headers@ == self.headers@,
            r.body@ == self.body@,
    {
        let mut r = self;
        r.status_line = status_line_405_vec();
        r
    }

    /// Sets the status line to `500 Internal Server Error`.
    pub fn internal_server_error(self) -> (r: Self)
        ensures
            r.status_line@ == status_line_500(),
            r.headers@ == self.headers@,
            r.body@ == self.body@,
    {
        let mut r = self;
        r.status_line = status_line_500_vec();
        r
    }

    /// Appends the `Content-Encoding: gzip` header line.
    pub fn content_encoding(self) -> (r: Self)
        ensures
            r.status_line@ == self.status_line@,
            r.headers@ == self.headers@ + content_encoding_gzip_header(),
            r.body@ == self.body@,
    {
        let mut r = self;
        let h = content_encoding_gzip_header_vec();
        push_all(&mut r.headers, &h);
        r
    }

    /// Appends a `Content-Type` header line with the given value.
    pub fn content_type(self, value: &Vec<u8>) -> (r: Self)
        ensures
            r.status_line@ == self.status_line@,
            r.headers@ == self.headers@ + content_type_header(value@),
            r.body@ == self.body@,
    {
        let mut r = self;
        let p = content_type_prefix_vec();
        let t = crlf_vec();
        push_all(&mut r.headers, &p);
        push_all(&mut r.headers, value);
        push_all(&mut r.headers, &t);
        proof {
            assert(r.headers@ =~= self.headers@ + content_type_header(value@));
        }
        r
    }

    /// Appends a `Content-Length` header line announcing `len` body bytes.
    pub fn content_length(self, len: usize) -> (r: Self)
        ensures
            r.status_line@ == self.status_line@,
            r.headers@ == self.headers@ + content_length_header(len as nat),
            r.body@ == self.body@,
    {
        let mut r = self;
        let p = content_length_prefix_vec();
        let d = dec_vec(len);
        let t = crlf_vec();
        push_all(&mut r.headers, &p);
        push_all(&mut r.headers, &d);
        push_all(&mut r.headers, &t);
        proof {
            assert(r.headers@ =~= self.headers@ + content_length_header(len as nat));
        }
        r
    }

    /// Sets the body.
    pub fn body(self, body: Vec<u8>) -> (r: Self)
        ensures
            r.status_line@ == self.status_line@,
            r.headers@ == self.headers@,
            r.body@ == body@,
    {
        let mut r = self;
        r.body = body;
        r
    }

    /// Serializes the response: status line, header lines, a bare CRLF
    /// separator, then the body.
    pub fn build(self) -> (r: Vec<u8>)
        ensures
            r@ == self.status_line@ + self.headers@ + crlf() + self.body@,
    {
        let mut out: Vec<u8> = Vec::new();
        let t = crlf_vec();
        push_all(&mut out, &self.status_line);
        push_all(&mut out, &self.headers);
        push_all(&mut out, &t);
        push_all(&mut out, &self.body);
        proof {
            assert(out@ =~= self.status_line@ + self.headers@ + crlf() + self.body@);
        }
        out
    }
}

} // verus!
