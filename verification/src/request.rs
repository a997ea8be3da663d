//! Request parsing: splits a raw byte buffer into the request line, the
//! recognized headers (`User-Agent`, `Accept-Encoding`, `Content-Length`)
//! and the body.
//!
//! The request line must hold exactly three whitespace-separated tokens,
//! `METHOD PATH VERSION`; anything else is a malformed request.  Headers run
//! from the end of the request line to the first blank line; only the first
//! line carrying a recognized name counts, and its value is everything after
//! the name, the colon and one space.  A body is taken only when a numeric
//! `Content-Length` header is present, and must be fully present in the
//! buffer.

use vstd::prelude::*;

use crate::bytes::find_blank;
use crate::bytes::find_blank_exec;
use crate::bytes::find_crlf;
use crate::bytes::find_crlf_exec;
use crate::bytes::bytes_eq;
use crate::bytes::has_prefix;
use crate::bytes::has_prefix_exec;
use crate::bytes::is_digit;
use crate::bytes::is_ws;
use crate::bytes::lemma_deep_index;
use crate::bytes::lemma_deep_push;
use crate::bytes::lemma_find_blank;
use crate::bytes::sub_vec;
use crate::wire::accept_encoding_prefix;
use crate::wire::accept_encoding_prefix_vec;
use crate::wire::content_length_prefix;
use crate::wire::content_length_prefix_vec;
use crate::wire::get_token;
use crate::wire::get_token_vec;
use crate::wire::post_token;
use crate::wire::post_token_vec;
use crate::wire::user_agent_prefix;
use crate::wire::user_agent_prefix_vec;

verus! {

// ------------------------------------------------------------------
// Request-line tokens
// ------------------------------------------------------------------

/// The whitespace-separated tokens of `s` from index `i` on, with `cur`
/// holding the bytes of the token read so far.
pub open spec fn tokens_from(s: Seq<u8>, i: nat, cur: Seq<u8>) -> Seq<Seq<u8>>
    decreases s.len() - i,
{
    if i >= s.len() {
        if cur.len() == 0 {
            Seq::empty()
        } else {
            seq![cur]
        }
    } else if is_ws(s[i as int]) {
        if cur.len() == 0 {
            tokens_from(s, i + 1, Seq::empty())
        } else {
            seq![cur] + tokens_from(s, i + 1, Seq::empty())
        }
    } else {
        tokens_from(s, i + 1, cur.push(s[i as int]))
    }
}

/// The whitespace-separated tokens of `s`.
pub open spec fn tokens_of(s: Seq<u8>) -> Seq<Seq<u8>> {
    tokens_from(s, 0, Seq::empty())
}

/// Splits `s` into its whitespace-separated tokens.
pub fn tokens_exec(s: &Vec<u8>) -> (r: Vec<Vec<u8>>)
    ensures
        r.deep_view() == tokens_of(s@),
{
    let mut out: Vec<Vec<u8>> = Vec::new();
    let mut cur: Vec<u8> = Vec::new();
    let mut i: usize = 0;
    proof {
        assert(out.deep_view() =~= Seq::<Seq<u8>>::empty());
        assert(out.deep_view() + tokens_from(s@, 0, cur@) =~= tokens_of(s@));
    }
    while i < s.len()
        invariant
            i <= s@.len(),
            out.deep_view() + tokens_from(s@, i as nat, cur@) == tokens_of(s@),
        decreases s@.len() - i,
    {
        let b = s[i];
        if b == 32 || b == 9 {
            if cur.len() > 0 {
                let ghost out0 = out;
                let ghost cur0 = cur@;
                out.push(cur);
                cur = Vec::new();
                proof {
                    lemma_deep_push(out0, out@[out@.len() - 1], out);
                    assert(out0.deep_view().push(cur0) =~= out0.deep_view() + seq![cur0]);
                    assert(tokens_from(s@, i as nat, cur0) == seq![cur0] + tokens_from(
                        s@,
                        i as nat + 1,
                        Seq::empty(),
                    ));
                    assert((out0.deep_view() + seq![cur0]) + tokens_from(
                        s@,
                        i as nat + 1,
                        Seq::empty(),
                    ) =~= out0.deep_view() + (seq![cur0] + tokens_from(
                        s@,
                        i as nat + 1,
                        Seq::empty(),
                    )));
                }
            } else {
                proof {
                    assert(cur@ =~= Seq::<u8>::empty());
                    assert(tokens_from(s@, i as nat, cur@) == tokens_from(
                        s@,
                        i as nat + 1,
                        Seq::empty(),
                    ));
                }
            }
        } else {
            proof {
                assert(tokens_from(s@, i as nat, cur@) == tokens_from(
                    s@,
                    i as nat + 1,
                    cur@.push(s@[i as int]),
                ));
            }
            cur.push(b);
        }
        i = i + 1;
    }
    if cur.len() > 0 {
        let ghost out0 = out;
        let ghost cur0 = cur@;
        out.push(cur);
        proof {
            lemma_deep_push(out0, out@[out@.len() - 1], out);
            assert(tokens_from(s@, i as nat, cur0) == seq![cur0]);
            assert(out.deep_view() =~= out0.deep_view() + seq![cur0]);
        }
    } else {
        proof {
            assert(tokens_from(s@, i as nat, cur@) == Seq::<Seq<u8>>::empty());
            assert(out.deep_view() + Seq::<Seq<u8>>::empty() =~= out.deep_view());
        }
    }
    out
}

/// Reading a run without whitespace just extends the current token.
pub proof fn lemma_tokens_run(s: Seq<u8>, i: nat, cur: Seq<u8>, j: nat)
    requires
        i <= j <= s.len(),
        forall|k: int| i <= k < j ==> !is_ws(s[k]),
    ensures
        tokens_from(s, i, cur) == tokens_from(s, j, cur + s.subrange(i as int, j as int)),
    decreases j - i,
{
    if i == j {
        assert(cur + s.subrange(i as int, j as int) =~= cur);
    } else {
        lemma_tokens_run(s, i + 1, cur.push(s[i as int]), j);
        assert(cur.push(s[i as int]) + s.subrange(i as int + 1, j as int) =~= cur + s.subrange(
            i as int,
            j as int,
        ));
    }
}

// ------------------------------------------------------------------
// Header lines
// ------------------------------------------------------------------

/// The CRLF-separated lines of `s` from index `i` on, with `cur` holding the
/// bytes of the line read so far.  The final (unterminated) line is kept, so
/// the empty buffer has a single empty line.
pub open spec fn lines_from(s: Seq<u8>, i: nat, cur: Seq<u8>) -> Seq<Seq<u8>>
    decreases s.len() - i,
{
    if i >= s.len() {
        seq![cur]
    } else if i + 2 <= s.len() && s[i as int] == 13u8 && s[i as int + 1] == 10u8 {
        seq![cur] + lines_from(s, i + 2, Seq::empty())
    } else {
        lines_from(s, i + 1, cur.push(s[i as int]))
    }
}

/// The CRLF-separated lines of `s`.
pub open spec fn lines_of(s: Seq<u8>) -> Seq<Seq<u8>> {
    lines_from(s, 0, Seq::empty())
}

/// Splits `s` into its CRLF-separated lines.
pub fn lines_exec(s: &Vec<u8>) -> (r: Vec<Vec<u8>>)
    ensures
        r.deep_view() == lines_of(s@),
{
    let mut out: Vec<Vec<u8>> = Vec::new();
    let mut cur: Vec<u8> = Vec::new();
    let mut i: usize = 0;
    proof {
        assert(out.deep_view() =~= Seq::<Seq<u8>>::empty());
        assert(out.deep_view() + lines_from(s@, 0, cur@) =~= lines_of(s@));
    }
    while i < s.len()
        invariant
            i <= s@.len(),
            out.deep_view() + lines_from(s@, i as nat, cur@) == lines_of(s@),
        decreases s@.len() - i,
    {
        if s[i] == 13 && s.len() - i > 1 && s[i + 1] == 10 {
            let ghost out0 = out;
            let ghost cur0 = cur@;
            out.push(cur);
            cur = Vec::new();
            proof {
                lemma_deep_push(out0, out@[out@.len() - 1], out);
                assert(lines_from(s@, i as nat, cur0) == seq![cur0] + lines_from(
                    s@,
                    i as nat + 2,
                    Seq::empty(),
                ));
                assert((out0.deep_view() + seq![cur0]) + lines_from(
                    s@,
                    i as nat + 2,
                    Seq::empty(),
                ) =~= out0.deep_view() + (seq![cur0] + lines_from(s@, i as nat + 2, Seq::empty())));
                assert(out0.deep_view().push(cur0) =~= out0.deep_view() + seq![cur0]);
            }
            i = i + 2;
        } else {
            proof {
                assert(lines_from(s@, i as nat, cur@) == lines_from(
                    s@,
                    i as nat + 1,
                    cur@.push(s@[i as int]),
                ));
            }
            cur.push(s[i]);
            i = i + 1;
        }
    }
    let ghost out0 = out;
    let ghost cur0 = cur@;
    out.push(cur);
    proof {
        lemma_deep_push(out0, out@[out@.len() - 1], out);
        assert(lines_from(s@, i as nat, cur0) == seq![cur0]);
        assert(out.deep_view() =~= out0.deep_view() + seq![cur0]);
    }
    out
}

/// A buffer without a carriage return is one single line.
pub proof fn lemma_lines_single(s: Seq<u8>, i: nat, cur: Seq<u8>)
    requires
        i <= s.len(),
        forall|k: int| i <= k < s.len() ==> s[k] != 13u8,
    ensures
        lines_from(s, i, cur) == seq![cur + s.skip(i as int)],
    decreases s.len() - i,
{
    if i >= s.len() {
        assert(cur + s.skip(i as int) =~= cur);
    } else {
        lemma_lines_single(s, i + 1, cur.push(s[i as int]));
        assert(cur.push(s[i as int]) + s.skip(i as int + 1) =~= cur + s.skip(i as int));
    }
}

/// The value of the first line of `ls` that starts with prefix `p`, with the
/// prefix stripped.
pub open spec fn first_with_prefix(ls: Seq<Seq<u8>>, p: Seq<u8>) -> Option<Seq<u8>>
    decreases ls.len(),
{
    if ls.len() == 0 {
        None
    } else if has_prefix(ls[0], p) {
        Some(ls[0].skip(p.len() as int))
    } else {
        first_with_prefix(ls.drop_first(), p)
    }
}

/// Looks up the first line with prefix `p` and strips the prefix.
pub fn lookup_header(lines: &Vec<Vec<u8>>, p: &Vec<u8>) -> (r: Option<Vec<u8>>)
    ensures
        opt_bytes(r) == first_with_prefix(lines.deep_view(), p@),
{
    let mut j: usize = 0;
    proof {
        assert(lines.deep_view().skip(0) =~= lines.deep_view());
    }
    while j < lines.len()
        invariant
            j <= lines@.len(),
            first_with_prefix(lines.deep_view(), p@) == first_with_prefix(
                lines.deep_view().skip(j as int),
                p@,
            ),
        decreases lines@.len() - j,
    {
        proof {
            lemma_deep_index(*lines, j as int);
            assert(lines.deep_view().skip(j as int)[0] == lines@[j as int]@);
        }
        let line = &lines[j];
        if has_prefix_exec(line, p) {
            let v = sub_vec(line, p.len(), line.len());
            proof {
                assert(v@ =~= lines@[j as int]@.skip(p@.len() as int));
            }
            return Some(v);
        }
        proof {
            assert(lines.deep_view().skip(j as int).drop_first() =~= lines.deep_view().skip(
                j as int + 1,
            ));
        }
        j = j + 1;
    }
    proof {
        assert(lines.deep_view().skip(j as int) =~= Seq::<Seq<u8>>::empty());
    }
    None
}

/// The views of an optional byte vector.
pub open spec fn opt_bytes(o: Option<Vec<u8>>) -> Option<Seq<u8>> {
    match o {
        Option::Some(v) => Some(v@),
        Option::None => None,
    }
}

// ------------------------------------------------------------------
// Decimal header values
// ------------------------------------------------------------------

/// The value of `s` read as an ASCII decimal numeral.
pub open spec fn dec_val(s: Seq<u8>) -> nat
    decreases s.len(),
{
    if s.len() == 0 {
        0
    } else {
        dec_val(s.drop_last()) * 10 + (s.last() - 48) as nat
    }
}

/// Every byte of `s` is an ASCII digit.
pub open spec fn all_digits(s: Seq<u8>) -> bool {
    forall|k: int| 0 <= k < s.len() ==> is_digit(s[k])
}

/// The numeric value of `s`, when `s` is a nonempty run of ASCII digits.
pub open spec fn dec_of(s: Seq<u8>) -> Option<nat> {
    if s.len() > 0 && all_digits(s) {
        Some(dec_val(s))
    } else {
        None
    }
}

/// Rendering a number in ASCII decimal and reading it back is the identity:
/// the `Content-Length` a response announces is the number it was built
/// from.
pub proof fn lemma_dec_round_trip(n: nat)
    ensures
        all_digits(crate::wire::dec_digits(n)),
        crate::wire::dec_digits(n).len() > 0,
        dec_of(crate::wire::dec_digits(n)) == Some(n),
    decreases n,
{
    let d = crate::wire::dec_digits(n);
    if n < 10 {
        assert(d =~= seq![(48 + n) as u8]);
        assert(d.drop_last() =~= Seq::<u8>::empty());
        assert(dec_val(Seq::<u8>::empty()) == 0);
        assert(dec_val(d) == n);
    } else {
        lemma_dec_round_trip(n / 10);
        let p = crate::wire::dec_digits(n / 10);
        assert(d == p.push((48 + n % 10) as u8));
        assert(d.drop_last() =~= p);
        assert(n % 10 < 10 && n == (n / 10) * 10 + n % 10) by (nonlinear_arith);
        assert(d.last() == (48 + n % 10) as u8);
        assert(dec_val(d) == dec_val(p) * 10 + n % 10);
        assert forall|k: int| 0 <= k < d.len() implies is_digit(d[k]) by {
            if k < p.len() {
                assert(is_digit(p[k]));
            }
        }
    }
}

/// Outcome of reading a decimal header value.
pub enum DecParse {
    /// The value is empty or holds a non-digit byte.
    NotNumeric,
    /// The value is numeric but does not fit in `usize`.
    TooLarge,
    /// The numeric value.
    Value(usize),
}

/// Reads `s` as an ASCII decimal numeral.
pub fn parse_dec(s: &Vec<u8>) -> (r: DecParse)
    ensures
        match r {
            DecParse::NotNumeric => dec_of(s@) is None,
            DecParse::TooLarge => dec_of(s@) matches Some(n) && n > usize::MAX,
            DecParse::Value(v) => dec_of(s@) == Some(v as nat),
        },
{
    if s.len() == 0 {
        return DecParse::NotNumeric;
    }
    let mut acc: usize = 0;
    let mut big: bool = false;
    let mut i: usize = 0;
    while i < s.len()
        invariant
            i <= s@.len(),
            s@.len() > 0,
            all_digits(s@.subrange(0, i as int)),
            !big ==> acc as nat == dec_val(s@.subrange(0, i as int)),
            big ==> dec_val(s@.subrange(0, i as int)) > usize::MAX,
        decreases s@.len() - i,
    {
        let b = s[i];
        if b < 48 || b > 57 {
            assert(!is_digit(s@[i as int]));
            return DecParse::NotNumeric;
        }
        let d = (b - 48) as usize;
        proof {
            assert(s@.subrange(0, i as int + 1).drop_last() =~= s@.subrange(0, i as int));
            assert(s@.subrange(0, i as int + 1).last() == s@[i as int]);
            assert(dec_val(s@.subrange(0, i as int + 1)) == dec_val(s@.subrange(0, i as int)) * 10
                + d);
            assert forall|k: int| 0 <= k < i + 1 implies is_digit(#[trigger] s@.subrange(0, i as int + 1)[k]) by {
                if k < i {
                    assert(is_digit(s@.subrange(0, i as int)[k]));
                }
            }
        }
        if big {
            proof {
                assert(dec_val(s@.subrange(0, i as int)) * 10 + d > usize::MAX);
            }
        } else if acc > (usize::MAX - d) / 10 {
            proof {
                let m = (usize::MAX - d) as int;
                assert(m == 10 * (m / 10) + m % 10 && 0 <= m % 10 < 10) by (nonlinear_arith)
                    requires
                        m >= 0,
                ;
                assert(acc * 10 + d > usize::MAX);
            }
            big = true;
        } else {
            proof {
                let m = (usize::MAX - d) as int;
                assert(m == 10 * (m / 10) + m % 10 && 0 <= m % 10 < 10) by (nonlinear_arith)
                    requires
                        m >= 0,
                ;
                assert(10 * acc <= 10 * (m / 10)) by (nonlinear_arith)
                    requires
                        acc <= m / 10,
                ;
                assert(acc * 10 + d <= usize::MAX);
            }
            acc = acc * 10 + d;
        }
        i = i + 1;
    }
    proof {
        assert(s@.subrange(0, i as int) =~= s@);
    }
    if big {
        DecParse::TooLarge
    } else {
        DecParse::Value(acc)
    }
}

// ------------------------------------------------------------------
// The request
// ------------------------------------------------------------------

/// The request method.
#[derive(Debug, Clone, PartialEq, Eq)]
pub enum Method {
    Get,
    Post,
    /// Any other method token, kept verbatim for diagnostics.
    Unrecognized(Vec<u8>),
}

/// Ghost counterpart of [`Method`].
pub enum MethodView {
    Get,
    Post,
    Unrecognized(Seq<u8>),
}

impl View for Method {
    type V = MethodView;

    open spec fn view(&self) -> MethodView {
        match self {
            Method::Get => MethodView::Get,
            Method::Post => MethodView::Post,
            Method::Unrecognized(t) => MethodView::Unrecognized(t@),
        }
    }
}

/// A parsed request.
#[derive(Debug, Clone, PartialEq, Eq)]
pub struct Request {
    pub method: Method,
    /// The request-target, verbatim (no decoding).
    pub path: Vec<u8>,
    /// Value of the first `User-Agent` header, if any.
    pub user_agent: Option<Vec<u8>>,
    /// Value of the first `Accept-Encoding` header, if any.
    pub accept_encoding: Option<Vec<u8>>,
    /// The body bytes; empty unless a numeric `Content-Length` was present.
    pub body: Vec<u8>,
}

/// Ghost counterpart of [`Request`].
pub struct RequestView {
    pub method: MethodView,
    pub path: Seq<u8>,
    pub user_agent: Option<Seq<u8>>,
    pub accept_encoding: Option<Seq<u8>>,
    pub body: Seq<u8>,
}

impl View for Request {
    type V = RequestView;

    open spec fn view(&self) -> RequestView {
        RequestView {
            method: self.method@,
            path: self.path@,
            user_agent: opt_bytes(self.user_agent),
            accept_encoding: opt_bytes(self.accept_encoding),
            body: self.body@,
        }
    }
}

/// Why a buffer failed to parse.
#[derive(Debug, Clone, Copy, PartialEq, Eq, Structural)]
pub enum ParseError {
    /// The request line does not split into exactly three tokens.
    MalformedRequestLine,
    /// The buffer ends before the request line, the blank separator, or the
    /// announced body is complete.
    IncompleteRequest,
}

/// The method named by a request-line token.
pub open spec fn method_of(tok: Seq<u8>) -> MethodView {
    if tok == get_token() {
        MethodView::Get
    } else if tok == post_token() {
        MethodView::Post
    } else {
        MethodView::Unrecognized(tok)
    }
}

/// The header section of `s`: the bytes between the request line (whose CRLF
/// ends at `c + 2`) and the first blank line, or the end of the buffer when
/// no blank line exists.
pub open spec fn header_region(s: Seq<u8>, c: nat) -> Seq<u8> {
    match find_blank(s, c) {
        Some(q) => if c + 2 <= q {
            s.subrange(c as int + 2, q as int)
        } else {
            Seq::empty()
        },
        None => if c + 2 <= s.len() {
            s.subrange(c as int + 2, s.len() as int)
        } else {
            Seq::empty()
        },
    }
}

/// What parsing a raw buffer yields: the functional specification that
/// [`parse_request`] is proved to implement.
pub open spec fn parse_spec(s: Seq<u8>) -> Result<RequestView, ParseError> {
    match find_crlf(s, 0) {
        None => Err(ParseError::IncompleteRequest),
        Some(c) => {
            let toks = tokens_of(s.subrange(0, c as int));
            if toks.len() != 3 {
                Err(ParseError::MalformedRequestLine)
            } else {
                let lines = lines_of(header_region(s, c));
                let ua = first_with_prefix(lines, user_agent_prefix());
                let ae = first_with_prefix(lines, accept_encoding_prefix());
                let cl = first_with_prefix(lines, content_length_prefix());
                let n_opt = match cl {
                    Some(v) => dec_of(v),
                    None => None,
                };
                match n_opt {
                    None => Ok(
                        RequestView {
                            method: method_of(toks[0]),
                            path: toks[1],
                            user_agent: ua,
                            accept_encoding: ae,
                            body: Seq::empty(),
                        },
                    ),
                    Some(n) => match find_blank(s, c) {
                        None => Err(ParseError::IncompleteRequest),
                        Some(q) => if q + 4 + n <= s.len() {
                            Ok(
                                RequestView {
                                    method: method_of(toks[0]),
                                    path: toks[1],
                                    user_agent: ua,
                                    accept_encoding: ae,
                                    body: s.subrange(q as int + 4, q as int + 4 + n),
                                },
                            )
                        } else {
                            Err(ParseError::IncompleteRequest)
                        },
                    },
                }
            }
        },
    }
}

/// The method named by an owned token.
fn method_from_token(tok: Vec<u8>) -> (m: Method)
    ensures
        m@ == method_of(tok@),
{
    let g = get_token_vec();
    let p = post_token_vec();
    if bytes_eq(&tok, &g) {
        Method::Get
    } else if bytes_eq(&tok, &p) {
        Method::Post
    } else {
        Method::Unrecognized(tok)
    }
}

/// Extracts the recognized headers from the header section `head`: the
/// values of the first `User-Agent`, `Accept-Encoding` and `Content-Length`
/// lines, in that order, each with its name prefix stripped.
pub fn parse_header(head: &Vec<u8>) -> (r: (Option<Vec<u8>>, Option<Vec<u8>>, Option<Vec<u8>>))
    ensures
        opt_bytes(r.0) == first_with_prefix(lines_of(head@), user_agent_prefix()),
        opt_bytes(r.1) == first_with_prefix(lines_of(head@), accept_encoding_prefix()),
        opt_bytes(r.2) == first_with_prefix(lines_of(head@), content_length_prefix()),
{
    let lines = lines_exec(head);
    let ua = lookup_header(&lines, &user_agent_prefix_vec());
    let ae = lookup_header(&lines, &accept_encoding_prefix_vec());
    let cl = lookup_header(&lines, &content_length_prefix_vec());
    (ua, ae, cl)
}

/// Parses a raw buffer into a [`Request`], or says exactly why it cannot:
/// the result equals [`parse_spec`] of the buffer.
pub fn parse_request(raw: &Vec<u8>) -> (r: Result<Request, ParseError>)
    ensures
        match r {
            Ok(req) => parse_spec(raw@) == Ok::<RequestView, ParseError>(req@),
            Err(e) => parse_spec(raw@) == Err::<RequestView, ParseError>(e),
        },
{
    let c = match find_crlf_exec(raw, 0) {
        None => { return Err(ParseError::IncompleteRequest); },
        Some(c) => c,
    };
    let rl = raw.len();
    let line = sub_vec(raw, 0, c);
    let mut toks = tokens_exec(&line);
    if toks.len() != 3 {
        return Err(ParseError::MalformedRequestLine);
    }
    let blank = find_blank_exec(raw, c);
    let head = match blank {
        Some(q) => {
            proof {
                lemma_find_blank(raw@, c as nat);
            }
            if c + 2 <= q {
                sub_vec(raw, c + 2, q)
            } else {
                Vec::new()
            }
        },
        None => sub_vec(raw, c + 2, raw.len()),
    };
    proof {
        assert(head@ == header_region(raw@, c as nat));
    }
    let (ua, ae, cl) = parse_header(&head);
    let ghost toks0 = toks;
    let m_tok = toks.remove(0);
    let path = toks.remove(0);
    proof {
        lemma_deep_index(toks0, 0);
        lemma_deep_index(toks0, 1);
        assert(m_tok@ == tokens_of(raw@.subrange(0, c as int))[0]);
        assert(path@ == tokens_of(raw@.subrange(0, c as int))[1]);
    }
    let method = method_from_token(m_tok);
    match cl {
        None => Ok(
            Request { method, path, user_agent: ua, accept_encoding: ae, body: Vec::new() },
        ),
        Some(v) => match parse_dec(&v) {
            DecParse::NotNumeric => Ok(
                Request { method, path, user_agent: ua, accept_encoding: ae, body: Vec::new() },
            ),
            DecParse::TooLarge => Err(ParseError::IncompleteRequest),
            DecParse::Value(n) => match blank {
                None => Err(ParseError::IncompleteRequest),
                Some(q) => if n <= raw.len() - (q + 4) {
                    let body = sub_vec(raw, q + 4, q + 4 + n);
                    Ok(Request { method, path, user_agent: ua, accept_encoding: ae, body })
                } else {
                    Err(ParseError::IncompleteRequest)
                },
            },
        },
    }
}

} // verus!
