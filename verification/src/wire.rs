//! Shared wire-format vocabulary: CRLF framing, status lines, header names,
//! route prefixes, and the ASCII decimal rendering used for Content-Length.

use vstd::prelude::*;
use vstd::slice::slice_to_vec;

verus! {

/// The bytes of `"\r\n"`, the line terminator of the wire format.
pub open spec fn crlf() -> Seq<u8> {
    seq![13u8, 10u8]
}

/// Returns `"\r\n"` as a byte vector.
pub fn crlf_vec() -> (r: Vec<u8>)
    ensures
        r@ == crlf(),
{
    let a: [u8; 2] = [13, 10];
    proof {
        assert(a@ =~= crlf());
    }
    slice_to_vec(a.as_slice())
}

/// The bytes of `"HTTP/1.1 200 OK\r\n"`.
pub open spec fn status_line_200() -> Seq<u8> {
    seq![72u8, 84u8, 84u8, 80u8, 47u8, 49u8, 46u8, 49u8, 32u8, 50u8, 48u8, 48u8, 32u8, 79u8, 75u8, 13u8, 10u8]
}

/// Returns `"HTTP/1.1 200 OK\r\n"` as a byte vector.
pub fn status_line_200_vec() -> (r: Vec<u8>)
    ensures
        r@ == status_line_200(),
{
    let a: [u8; 17] = [72, 84, 84, 80, 47, 49, 46, 49, 32, 50, 48, 48, 32, 79, 75, 13, 10];
    proof {
        assert(a@ =~= status_line_200());
    }
    slice_to_vec(a.as_slice())
}

/// The bytes of `"HTTP/1.1 201 Created\r\n"`.
pub open spec fn status_line_201() -> Seq<u8> {
    seq![72u8, 84u8, 84u8, 80u8, 47u8, 49u8, 46u8, 49u8, 32u8, 50u8, 48u8, 49u8, 32u8, 67u8, 114u8, 101u8, 97u8, 116u8, 101u8, 100u8, 13u8, 10u8]
}

/// Returns `"HTTP/1.1 201 Created\r\n"` as a byte vector.
pub fn status_line_201_vec() -> (r: Vec<u8>)
    ensures
        r@ == status_line_201(),
{
    let a: [u8; 22] = [72, 84, 84, 80, 47, 49, 46, 49, 32, 50, 48, 49, 32, 67, 114, 101, 97, 116, 101, 100, 13, 10];
    proof {
        assert(a@ =~= status_line_201());
    }
    slice_to_vec(a.as_slice())
}

/// The bytes of `"HTTP/1.1 400 Bad Request\r\n"`.
pub open spec fn status_line_400() -> Seq<u8> {
    seq![72u8, 84u8, 84u8, 80u8, 47u8, 49u8, 46u8, 49u8, 32u8, 52u8, 48u8, 48u8, 32u8, 66u8, 97u8, 100u8, 32u8, 82u8, 101u8, 113u8, 117u8, 101u8, 115u8, 116u8, 13u8, 10u8]
}

/// Returns `"HTTP/1.1 400 Bad Request\r\n"` as a byte vector.
pub fn status_line_400_vec() -> (r: Vec<u8>)
    ensures
        r@ == status_line_400(),
{
    let a: [u8; 26] = [72, 84, 84, 80, 47, 49, 46, 49, 32, 52, 48, 48, 32, 66, 97, 100, 32, 82, 101, 113, 117, 101, 115, 116, 13, 10];
    proof {
        assert(a@ =~= status_line_400());
    }
    slice_to_vec(a.as_slice())
}

/// The bytes of `"HTTP/1.1 404 Not Found\r\n"`.
pub open spec fn status_line_404() -> Seq<u8> {
    seq![72u8, 84u8, 84u8, 80u8, 47u8, 49u8, 46u8, 49u8, 32u8, 52u8, 48u8, 52u8, 32u8, 78u8, 111u8, 116u8, 32u8, 70u8, 111u8, 117u8, 110u8, 100u8, 13u8, 10u8]
}

/// Returns `"HTTP/1.1 404 Not Found\r\n"` as a byte vector.
pub fn status_line_404_vec() -> (r: Vec<u8>)
    ensures
        r@ == status_line_404(),
{
    let a: [u8; 24] = [72, 84, 84, 80, 47, 49, 46, 49, 32, 52, 48, 52, 32, 78, 111, 116, 32, 70, 111, 117, 110, 100, 13, 10];
    proof {
        assert(a@ =~= status_line_404());
    }
    slice_to_vec(a.as_slice())
}

/// The bytes of `"HTTP/1.1 405 Method Not Allowed\r\n"`.
pub open spec fn status_line_405() -> Seq<u8> {
    seq![72u8, 84u8, 84u8, 80u8, 47u8, 49u8, 46u8, 49u8, 32u8, 52u8, 48u8, 53u8, 32u8, 77u8, 101u8, 116u8, 104u8, 111u8, 100u8, 32u8, 78u8, 111u8, 116u8, 32u8, 65u8, 108u8, 108u8, 111u8, 119u8, 101u8, 100u8, 13u8, 10u8]
}

/// Returns `"HTTP/1.1 405 Method Not Allowed\r\n"` as a byte vector.
pub fn status_line_405_vec() -> (r: Vec<u8>)
    ensures
        r@ == status_line_405(),
{
    let a: [u8; 33] = [72, 84, 84, 80, 47, 49, 46, 49, 32, 52, 48, 53, 32, 77, 101, 116, 104, 111, 100, 32, 78, 111, 116, 32, 65, 108, 108, 111, 119, 101, 100, 13, 10];
    proof {
        assert(a@ =~= status_line_405());
    }
    slice_to_vec(a.as_slice())
}

/// The bytes of `"HTTP/1.1 500 Internal Server Error\r\n"`.
pub open spec fn status_line_500() -> Seq<u8> {
    seq![72u8, 84u8, 84u8, 80u8, 47u8, 49u8, 46u8, 49u8, 32u8, 53u8, 48u8, 48u8, 32u8, 73u8, 110u8, 116u8, 101u8, 114u8, 110u8, 97u8, 108u8, 32u8, 83u8, 101u8, 114u8, 118u8, 101u8, 114u8, 32u8, 69u8, 114u8, 114u8, 111u8, 114u8, 13u8, 10u8]
}

/// Returns `"HTTP/1.1 500 Internal Server Error\r\n"` as a byte vector.
pub fn status_line_500_vec() -> (r: Vec<u8>)
    ensures
        r@ == status_line_500(),
{
    let a: [u8; 36] = [72, 84, 84, 80, 47, 49, 46, 49, 32, 53, 48, 48, 32, 73, 110, 116, 101, 114, 110, 97, 108, 32, 83, 101, 114, 118, 101, 114, 32, 69, 114, 114, 111, 114, 13, 10];
    proof {
        assert(a@ =~= status_line_500());
    }
    slice_to_vec(a.as_slice())
}

/// The bytes of `"Content-Encoding: gzip\r\n"`.
pub open spec fn content_encoding_gzip_header() -> Seq<u8> {
    seq![67u8, 111u8, 110u8, 116u8, 101u8, 110u8, 116u8, 45u8, 69u8, 110u8, 99u8, 111u8, 100u8, 105u8, 110u8, 103u8, 58u8, 32u8, 103u8, 122u8, 105u8, 112u8, 13u8, 10u8]
}

/// Returns `"Content-Encoding: gzip\r\n"` as a byte vector.
pub fn content_encoding_gzip_header_vec() -> (r: Vec<u8>)
    ensures
        r@ == content_encoding_gzip_header(),
{
    let a: [u8; 24] = [67, 111, 110, 116, 101, 110, 116, 45, 69, 110, 99, 111, 100, 105, 110, 103, 58, 32, 103, 122, 105, 112, 13, 10];
    proof {
        assert(a@ =~= content_encoding_gzip_header());
    }
    slice_to_vec(a.as_slice())
}

/// The bytes of `"Content-Type: "`.
pub open spec fn content_type_prefix() -> Seq<u8> {
    seq![67u8, 111u8, 110u8, 116u8, 101u8, 110u8, 116u8, 45u8, 84u8, 121u8, 112u8, 101u8, 58u8, 32u8]
}

/// Returns `"Content-Type: "` as a byte vector.
pub fn content_type_prefix_vec() -> (r: Vec<u8>)
    ensures
        r@ == content_type_prefix(),
{
    let a: [u8; 14] = [67, 111, 110, 116, 101, 110, 116, 45, 84, 121, 112, 101, 58, 32];
    proof {
        assert(a@ =~= content_type_prefix());
    }
    slice_to_vec(a.as_slice())
}

/// The bytes of `"Content-Length: "`.
pub open spec fn content_length_prefix() -> Seq<u8> {
    seq![67u8, 111u8, 110u8, 116u8, 101u8, 110u8, 116u8, 45u8, 76u8, 101u8, 110u8, 103u8, 116u8, 104u8, 58u8, 32u8]
}

/// Returns `"Content-Length: "` as a byte vector.
pub fn content_length_prefix_vec() -> (r: Vec<u8>)
    ensures
        r@ == content_length_prefix(),
{
    let a: [u8; 16] = [67, 111, 110, 116, 101, 110, 116, 45, 76, 101, 110, 103, 116, 104, 58, 32];
    proof {
        assert(a@ =~= content_length_prefix());
    }
    slice_to_vec(a.as_slice())
}

/// The bytes of `"User-Agent: "`.
pub open spec fn user_agent_prefix() -> Seq<u8> {
    seq![85u8, 115u8, 101u8, 114u8, 45u8, 65u8, 103u8, 101u8, 110u8, 116u8, 58u8, 32u8]
}

/// Returns `"User-Agent: "` as a byte vector.
pub fn user_agent_prefix_vec() -> (r: Vec<u8>)
    ensures
        r@ == user_agent_prefix(),
{
    let a: [u8; 12] = [85, 115, 101, 114, 45, 65, 103, 101, 110, 116, 58, 32];
    proof {
        assert(a@ =~= user_agent_prefix());
    }
    slice_to_vec(a.as_slice())
}

/// The bytes of `"Accept-Encoding: "`.
pub open spec fn accept_encoding_prefix() -> Seq<u8> {
    seq![65u8, 99u8, 99u8, 101u8, 112u8, 116u8, 45u8, 69u8, 110u8, 99u8, 111u8, 100u8, 105u8, 110u8, 103u8, 58u8, 32u8]
}

/// Returns `"Accept-Encoding: "` as a byte vector.
pub fn accept_encoding_prefix_vec() -> (r: Vec<u8>)
    ensures
        r@ == accept_encoding_prefix(),
{
    let a: [u8; 17] = [65, 99, 99, 101, 112, 116, 45, 69, 110, 99, 111, 100, 105, 110, 103, 58, 32];
    proof {
        assert(a@ =~= accept_encoding_prefix());
    }
    slice_to_vec(a.as_slice())
}

/// The bytes of `"GET"`.
pub open spec fn get_token() -> Seq<u8> {
    seq![71u8, 69u8, 84u8]
}

/// Returns `"GET"` as a byte vector.
pub fn get_token_vec() -> (r: Vec<u8>)
    ensures
        r@ == get_token(),
{
    let a: [u8; 3] = [71, 69, 84];
    proof {
        assert(a@ =~= get_token());
    }
    slice_to_vec(a.as_slice())
}

/// The bytes of `"POST"`.
pub open spec fn post_token() -> Seq<u8> {
    seq![80u8, 79u8, 83u8, 84u8]
}

/// Returns `"POST"` as a byte vector.
pub fn post_token_vec() -> (r: Vec<u8>)
    ensures
        r@ == post_token(),
{
    let a: [u8; 4] = [80, 79, 83, 84];
    proof {
        assert(a@ =~= post_token());
    }
    slice_to_vec(a.as_slice())
}

/// The bytes of `"gzip"`.
pub open spec fn gzip_token() -> Seq<u8> {
    seq![103u8, 122u8, 105u8, 112u8]
}

/// The bytes of `"/"`.
pub open spec fn root_path() -> Seq<u8> {
    seq![47u8]
}

/// Returns `"/"` as a byte vector.
pub fn root_path_vec() -> (r: Vec<u8>)
    ensures
        r@ == root_path(),
{
    let a: [u8; 1] = [47];
    proof {
        assert(a@ =~= root_path());
    }
    slice_to_vec(a.as_slice())
}

/// The bytes of `"/echo/"`.
pub open spec fn echo_path_prefix() -> Seq<u8> {
    seq![47u8, 101u8, 99u8, 104u8, 111u8, 47u8]
}

/// Returns `"/echo/"` as a byte vector.
pub fn echo_path_prefix_vec() -> (r: Vec<u8>)
    ensures
        r@ == echo_path_prefix(),
{
    let a: [u8; 6] = [47, 101, 99, 104, 111, 47];
    proof {
        assert(a@ =~= echo_path_prefix());
    }
    slice_to_vec(a.as_slice())
}

/// The bytes of `"/user-agent"`.
pub open spec fn user_agent_path() -> Seq<u8> {
    seq![47u8, 117u8, 115u8, 101u8, 114u8, 45u8, 97u8, 103u8, 101u8, 110u8, 116u8]
}

/// Returns `"/user-agent"` as a byte vector.
pub fn user_agent_path_vec() -> (r: Vec<u8>)
    ensures
        r@ == user_agent_path(),
{
    let a: [u8; 11] = [47, 117, 115, 101, 114, 45, 97, 103, 101, 110, 116];
    proof {
        assert(a@ =~= user_agent_path());
    }
    slice_to_vec(a.as_slice())
}

/// The bytes of `"/files/"`.
pub open spec fn files_path_prefix() -> Seq<u8> {
    seq![47u8, 102u8, 105u8, 108u8, 101u8, 115u8, 47u8]
}

/// Returns `"/files/"` as a byte vector.
pub fn files_path_prefix_vec() -> (r: Vec<u8>)
    ensures
        r@ == files_path_prefix(),
{
    let a: [u8; 7] = [47, 102, 105, 108, 101, 115, 47];
    proof {
        assert(a@ =~= files_path_prefix());
    }
    slice_to_vec(a.as_slice())
}

/// The bytes of `"text/plain"`.
pub open spec fn text_plain() -> Seq<u8> {
    seq![116u8, 101u8, 120u8, 116u8, 47u8, 112u8, 108u8, 97u8, 105u8, 110u8]
}

/// Returns `"text/plain"` as a byte vector.
pub fn text_plain_vec() -> (r: Vec<u8>)
    ensures
        r@ == text_plain(),
{
    let a: [u8; 10] = [116, 101, 120, 116, 47, 112, 108, 97, 105, 110];
    proof {
        assert(a@ =~= text_plain());
    }
    slice_to_vec(a.as_slice())
}

/// The bytes of `"application/octet-stream"`.
pub open spec fn octet_stream() -> Seq<u8> {
    seq![97u8, 112u8, 112u8, 108u8, 105u8, 99u8, 97u8, 116u8, 105u8, 111u8, 110u8, 47u8, 111u8, 99u8, 116u8, 101u8, 116u8, 45u8, 115u8, 116u8, 114u8, 101u8, 97u8, 109u8]
}

/// Returns `"application/octet-stream"` as a byte vector.
pub fn octet_stream_vec() -> (r: Vec<u8>)
    ensures
        r@ == octet_stream(),
{
    let a: [u8; 24] = [97, 112, 112, 108, 105, 99, 97, 116, 105, 111, 110, 47, 111, 99, 116, 101, 116, 45, 115, 116, 114, 101, 97, 109];
    proof {
        assert(a@ =~= octet_stream());
    }
    slice_to_vec(a.as_slice())
}
/// The ASCII decimal digits of `n`, most significant first, no leading
/// zeros (except that zero itself is the single digit `0`).
pub open spec fn dec_digits(n: nat) -> Seq<u8>
    decreases n,
{
    if n < 10 {
        seq![(48 + n) as u8]
    } else {
        dec_digits(n / 10).push((48 + n % 10) as u8)
    }
}

/// Renders `n` in ASCII decimal.
pub fn dec_vec(n: usize) -> (r: Vec<u8>)
    ensures
        r@ == dec_digits(n as nat),
    decreases n,
{
    if n < 10 {
        let mut v: Vec<u8> = Vec::new();
        v.push(48 + n as u8);
        proof {
            assert(v@ =~= dec_digits(n as nat));
        }
        v
    } else {
        proof {
            assert(n / 10 < n && n % 10 < 10) by (nonlinear_arith)
                requires
                    n >= 10,
            ;
        }
        let mut v = dec_vec(n / 10);
        v.push(48 + (n % 10) as u8);
        v
    }
}

} // verus!
