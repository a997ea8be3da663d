//! Content negotiation and body encoding.
//!
//! A client opts into gzip through the `Accept-Encoding` header: the body is
//! gzip-encoded exactly when one of the header value's comma-separated
//! tokens, stripped of surrounding blanks, is the whole word `gzip`.
//! Compression itself is done by the flate2 crate; what the library
//! guarantees of the produced stream is that decoding it gives back the
//! original body.

use vstd::prelude::*;

use crate::bytes::is_ws;
use crate::wire::gzip_token;

verus! {

// ------------------------------------------------------------------
// Token splitting and trimming
// ------------------------------------------------------------------

/// The comma-separated fields of `s` from index `i` on, with `cur` holding
/// the bytes of the field read so far.
pub open spec fn fields_from(s: Seq<u8>, i: nat, cur: Seq<u8>) -> Seq<Seq<u8>>
    decreases s.len() - i,
{
    if i >= s.len() {
        seq![cur]
    } else if s[i as int] == 44u8 {
        seq![cur] + fields_from(s, i + 1, Seq::empty())
    } else {
        fields_from(s, i + 1, cur.push(s[i as int]))
    }
}

/// The comma-separated fields of `s`.
pub open spec fn fields_of(s: Seq<u8>) -> Seq<Seq<u8>> {
    fields_from(s, 0, Seq::empty())
}

/// A value without a comma is one single field.
pub proof fn lemma_fields_single(s: Seq<u8>, i: nat, cur: Seq<u8>)
    requires
        i <= s.len(),
        forall|k: int| i <= k < s.len() ==> s[k] != 44u8,
    ensures
        fields_from(s, i, cur) == seq![cur + s.skip(i as int)],
    decreases s.len() - i,
{
    if i >= s.len() {
        assert(cur + s.skip(i as int) =~= cur);
    } else {
        lemma_fields_single(s, i + 1, cur.push(s[i as int]));
        assert(cur.push(s[i as int]) + s.skip(i as int + 1) =~= cur + s.skip(i as int));
    }
}

/// `s` without its leading blanks.
pub open spec fn trim_front(s: Seq<u8>) -> Seq<u8>
    decreases s.len(),
{
    if s.len() > 0 && is_ws(s[0]) {
        trim_front(s.drop_first())
    } else {
        s
    }
}

/// `s` without its trailing blanks.
pub open spec fn trim_back(s: Seq<u8>) -> Seq<u8>
    decreases s.len(),
{
    if s.len() > 0 && is_ws(s.last()) {
        trim_back(s.drop_last())
    } else {
        s
    }
}

/// `s` without leading and trailing blanks.
pub open spec fn trimmed(s: Seq<u8>) -> Seq<u8> {
    trim_back(trim_front(s))
}

/// The client accepts gzip: some comma-separated field of the
/// `Accept-Encoding` value, trimmed, is the whole token `gzip`.
pub open spec fn wants_gzip(ae: Seq<u8>) -> bool {
    exists|k: int|
        0 <= k < fields_of(ae).len() && trimmed(#[trigger] fields_of(ae)[k]) == gzip_token()
}

/// Dropping `a` leading blanks of `s` gives `trim_front(s)`.
proof fn lemma_trim_front(s: Seq<u8>, a: int)
    requires
        0 <= a <= s.len(),
        forall|k: int| 0 <= k < a ==> is_ws(s[k]),
        a == s.len() || !is_ws(s[a]),
    ensures
        trim_front(s) == s.skip(a),
    decreases a,
{
    if a == 0 {
        assert(s.skip(0) =~= s);
    } else {
        assert(is_ws(s[0]));
        lemma_trim_front(s.drop_first(), a - 1);
        assert(s.drop_first().skip(a - 1) =~= s.skip(a));
    }
}

/// Dropping the trailing blanks of `s` after index `b` gives `trim_back(s)`.
proof fn lemma_trim_back(s: Seq<u8>, b: int)
    requires
        0 <= b <= s.len(),
        forall|k: int| b <= k < s.len() ==> is_ws(s[k]),
        b == 0 || !is_ws(s[b - 1]),
    ensures
        trim_back(s) == s.take(b),
    decreases s.len() - b,
{
    if b == s.len() {
        assert(s.take(b) =~= s);
    } else {
        assert(is_ws(s.last()));
        lemma_trim_back(s.drop_last(), b);
        assert(s.drop_last().take(b) =~= s.take(b));
    }
}

/// Tests whether `t`, stripped of surrounding blanks, is the token `gzip`.
fn is_gzip_field(t: &Vec<u8>) -> (r: bool)
    ensures
        r == (trimmed(t@) == gzip_token()),
{
    let mut a: usize = 0;
    while a < t.len() && (t[a] == 32 || t[a] == 9)
        invariant
            a <= t@.len(),
            forall|k: int| 0 <= k < a ==> is_ws(t@[k]),
        decreases t@.len() - a,
    {
        a = a + 1;
    }
    proof {
        lemma_trim_front(t@, a as int);
    }
    if a == t.len() {
        proof {
            assert(t@.skip(a as int) =~= Seq::<u8>::empty());
            assert(trim_back(Seq::<u8>::empty()) == Seq::<u8>::empty());
        }
        return false;
    }
    let mut b: usize = t.len();
    while b > a + 1 && (t[b - 1] == 32 || t[b - 1] == 9)
        invariant
            a < b <= t@.len(),
            forall|k: int| b <= k < t@.len() ==> is_ws(t@[k]),
        decreases b,
    {
        b = b - 1;
    }
    // at exit either b == a + 1 or t[b - 1] is not a blank; t[a] is not a
    // blank either, so in both cases nothing blank precedes b
    if t[b - 1] == 32 || t[b - 1] == 9 {
        // only possible when b == a + 1, whose single byte t[a] is no blank
        proof {
            assert(false);
        }
    }
    proof {
        let u = t@.skip(a as int);
        lemma_trim_back(u, b - a);
        assert(u.take(b - a) =~= t@.subrange(a as int, b as int));
        assert(trimmed(t@) == t@.subrange(a as int, b as int));
    }
    if b - a != 4 {
        return false;
    }
    let r = t[a] == 103 && t[a + 1] == 122 && t[a + 2] == 105 && t[a + 3] == 112;
    proof {
        if r {
            assert(t@.subrange(a as int, b as int) =~= gzip_token());
        } else {
            assert(t@.subrange(a as int, b as int) != gzip_token());
        }
    }
    r
}

/// Splits `s` into its comma-separated fields.
fn fields_exec(s: &Vec<u8>) -> (r: Vec<Vec<u8>>)
    ensures
        r.deep_view() == fields_of(s@),
{
    let mut out: Vec<Vec<u8>> = Vec::new();
    let mut cur: Vec<u8> = Vec::new();
    let mut i: usize = 0;
    proof {
        assert(out.deep_view() =~= Seq::<Seq<u8>>::empty());
        assert(out.deep_view() + fields_from(s@, 0, cur@) =~= fields_of(s@));
    }
    while i < s.len()
        invariant
            i <= s@.len(),
            out.deep_view() + fields_from(s@, i as nat, cur@) == fields_of(s@),
        decreases s@.len() - i,
    {
        if s[i] == 44 {
            let ghost out0 = out;
            let ghost cur0 = cur@;
            out.push(cur);
            cur = Vec::new();
            proof {
                crate::bytes::lemma_deep_push(out0, out@[out@.len() - 1], out);
                assert(fields_from(s@, i as nat, cur0) == seq![cur0] + fields_from(
                    s@,
                    i as nat + 1,
                    Seq::empty(),
                ));
                assert(out0.deep_view().push(cur0) =~= out0.deep_view() + seq![cur0]);
                assert((out0.deep_view() + seq![cur0]) + fields_from(
                    s@,
                    i as nat + 1,
                    Seq::empty(),
                ) =~= out0.deep_view() + (seq![cur0] + fields_from(s@, i as nat + 1, Seq::empty())));
            }
        } else {
            proof {
                assert(fields_from(s@, i as nat, cur@) == fields_from(
                    s@,
                    i as nat + 1,
                    cur@.push(s@[i as int]),
                ));
            }
            cur.push(s[i]);
        }
        i = i + 1;
    }
    let ghost out0 = out;
    let ghost cur0 = cur@;
    out.push(cur);
    proof {
        crate::bytes::lemma_deep_push(out0, out@[out@.len() - 1], out);
        assert(fields_from(s@, i as nat, cur0) == seq![cur0]);
        assert(out.deep_view() =~= out0.deep_view() + seq![cur0]);
    }
    out
}

// ------------------------------------------------------------------
// Negotiation
// ------------------------------------------------------------------

/// How a response body is transported.
#[derive(Debug, Clone, Copy, PartialEq, Eq, Structural)]
pub enum EncodingChoice {
    /// Body sent verbatim.
    Identity,
    /// Body gzip-compressed.
    Gzip,
}

/// The encoding chosen for an optional `Accept-Encoding` value: gzip exactly
/// when the value names `gzip` as a whole comma-separated token.
pub open spec fn negotiate_spec(ae: Option<Seq<u8>>) -> EncodingChoice {
    match ae {
        Some(v) => if wants_gzip(v) {
            EncodingChoice::Gzip
        } else {
            EncodingChoice::Identity
        },
        None => EncodingChoice::Identity,
    }
}

/// Chooses the response encoding from the request's `Accept-Encoding`
/// header.
pub fn negotiate(ae: &Option<Vec<u8>>) -> (r: EncodingChoice)
    ensures
        r == negotiate_spec(crate::request::opt_bytes(*ae)),
{
    match ae {
        None => EncodingChoice::Identity,
        Some(v) => {
            proof {
                assert(crate::request::opt_bytes(*ae) == Some(v@));
            }
            let fields = fields_exec(v);
            let mut k: usize = 0;
            while k < fields.len()
                invariant
                    k <= fields@.len(),
                    crate::request::opt_bytes(*ae) == Some(v@),
                    fields.deep_view() == fields_of(v@),
                    forall|j: int|
                        0 <= j < k ==> trimmed(#[trigger] fields_of(v@)[j]) != gzip_token(),
                decreases fields@.len() - k,
            {
                proof {
                    crate::bytes::lemma_deep_index(fields, k as int);
                }
                if is_gzip_field(&fields[k]) {
                    proof {
                        assert(trimmed(fields_of(v@)[k as int]) == gzip_token());
                        assert(wants_gzip(v@));
                    }
                    return EncodingChoice::Gzip;
                }
                k = k + 1;
            }
            proof {
                assert(!wants_gzip(v@));
            }
            EncodingChoice::Identity
        },
    }
}

// ------------------------------------------------------------------
// Gzip compression
// ------------------------------------------------------------------

/// What gzip-decoding a byte stream yields: the decompressed bytes, or
/// nothing when the stream is not a well-formed gzip stream.  Decoding is a
/// pure function of the stream, so the result can be named without being
/// written out.
pub uninterp spec fn gunzip_of(b: Seq<u8>) -> Option<Seq<u8>>;

/// Relies on flate2's `write::GzEncoder` (with `write::GzDecoder` as the
/// reading of `gunzip_of`): compressing bytes at the default level yields a
/// gzip stream that decodes back to exactly those bytes.  Writing into a
/// `Vec`-backed encoder cannot fail, so `finish` always returns `Ok` here.
#[verifier::external_body]
fn gzip_compress(data: &Vec<u8>) -> (r: Vec<u8>)
    ensures
        gunzip_of(r@) == Some(data@),
{
    let mut enc = flate2::write::GzEncoder::new(Vec::new(), flate2::Compression::default());
    std::io::Write::write_all(&mut enc, data.as_slice()).unwrap();
    enc.finish().unwrap()
}

/// Applies the chosen encoding to a body: identity keeps the bytes, gzip
/// produces a stream that decodes back to them.
pub fn encode(body: Vec<u8>, choice: EncodingChoice) -> (r: Vec<u8>)
    ensures
        choice == EncodingChoice::Identity ==> r@ == body@,
        choice == EncodingChoice::Gzip ==> gunzip_of(r@) == Some(body@),
{
    match choice {
        EncodingChoice::Identity => body,
        EncodingChoice::Gzip => gzip_compress(&body),
    }
}

} // verus!
