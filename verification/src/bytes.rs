//! Byte-sequence scanning primitives shared by the parser and the router:
//! subsequence copies, prefix tests, and the CRLF / blank-line searches that
//! frame an HTTP message.

use vstd::prelude::*;
use vstd::slice::slice_subrange;
use vstd::slice::slice_to_vec;

verus! {

/// Whitespace as the request line understands it: space or horizontal tab.
pub open spec fn is_ws(b: u8) -> bool {
    b == 32 || b == 9
}

/// ASCII decimal digit.
pub open spec fn is_digit(b: u8) -> bool {
    48 <= b <= 57
}

/// A CRLF pair begins at index `i` of `s`.
pub open spec fn crlf_at(s: Seq<u8>, i: int) -> bool {
    0 <= i && i + 2 <= s.len() && s[i] == 13u8 && s[i + 1] == 10u8
}

/// A blank line (CRLF immediately followed by CRLF) begins at index `i`.
pub open spec fn blank_at(s: Seq<u8>, i: int) -> bool {
    crlf_at(s, i) && crlf_at(s, i + 2)
}

/// Index of the first CRLF at or after `i`, if any.
pub open spec fn find_crlf(s: Seq<u8>, i: nat) -> Option<nat>
    decreases s.len() - i,
{
    if i + 2 > s.len() {
        None
    } else if s[i as int] == 13u8 && s[i as int + 1] == 10u8 {
        Some(i)
    } else {
        find_crlf(s, i + 1)
    }
}

/// Index of the first blank line at or after `i`, if any.
pub open spec fn find_blank(s: Seq<u8>, i: nat) -> Option<nat>
    decreases s.len() - i,
{
    if i + 4 > s.len() {
        None
    } else if s[i as int] == 13u8 && s[i as int + 1] == 10u8 && s[i as int + 2] == 13u8 && s[i as int + 3] == 10u8 {
        Some(i)
    } else {
        find_blank(s, i + 1)
    }
}

/// `find_crlf` returns the position of the first CRLF pair, or `None`
/// exactly when there is none.
pub proof fn lemma_find_crlf(s: Seq<u8>, i: nat)
    ensures
        match find_crlf(s, i) {
            Some(j) => i <= j && crlf_at(s, j as int) && forall|k: int|
                i <= k < j ==> !crlf_at(s, k),
            None => forall|k: int| i <= k ==> !crlf_at(s, k),
        },
    decreases s.len() - i,
{
    if i + 2 > s.len() {
    } else if s[i as int] == 13u8 && s[i as int + 1] == 10u8 {
    } else {
        lemma_find_crlf(s, i + 1);
    }
}

/// `find_blank` returns the position of the first blank line, or `None`
/// exactly when there is none.
pub proof fn lemma_find_blank(s: Seq<u8>, i: nat)
    ensures
        match find_blank(s, i) {
            Some(j) => i <= j && blank_at(s, j as int) && forall|k: int|
                i <= k < j ==> !blank_at(s, k),
            None => forall|k: int| i <= k ==> !blank_at(s, k),
        },
    decreases s.len() - i,
{
    if i + 4 > s.len() {
    } else if s[i as int] == 13u8 && s[i as int + 1] == 10u8 && s[i as int + 2] == 13u8 && s[i as int + 3] == 10u8 {
    } else {
        lemma_find_blank(s, i + 1);
    }
}

/// Scans for the first CRLF at or after `from`.
pub fn find_crlf_exec(s: &Vec<u8>, from: usize) -> (r: Option<usize>)
    requires
        from <= s@.len(),
    ensures
        match r {
            Some(j) => find_crlf(s@, from as nat) == Some(j as nat) && j as nat + 2 <= s@.len(),
            None => find_crlf(s@, from as nat) is None,
        },
{
    let mut i: usize = from;
    while i < s.len()
        invariant
            from <= i <= s@.len(),
            find_crlf(s@, from as nat) == find_crlf(s@, i as nat),
        decreases s@.len() - i,
    {
        if s[i] == 13 && i + 1 < s.len() && s[i + 1] == 10 {
            assert(find_crlf(s@, i as nat) == Some(i as nat));
            return Some(i);
        }
        assert(find_crlf(s@, i as nat) == find_crlf(s@, i as nat + 1));
        i = i + 1;
    }
    assert(find_crlf(s@, i as nat) is None);
    None
}

/// Scans for the first blank line at or after `from`.
pub fn find_blank_exec(s: &Vec<u8>, from: usize) -> (r: Option<usize>)
    requires
        from <= s@.len(),
    ensures
        match r {
            Some(j) => find_blank(s@, from as nat) == Some(j as nat) && j as nat + 4 <= s@.len(),
            None => find_blank(s@, from as nat) is None,
        },
{
    let mut i: usize = from;
    while i < s.len()
        invariant
            from <= i <= s@.len(),
            find_blank(s@, from as nat) == find_blank(s@, i as nat),
        decreases s@.len() - i,
    {
        if s[i] == 13 && s.len() - i > 3 && s[i + 1] == 10 && s[i + 2] == 13 && s[i + 3] == 10 {
            assert(find_blank(s@, i as nat) == Some(i as nat));
            return Some(i);
        }
        assert(find_blank(s@, i as nat) == find_blank(s@, i as nat + 1));
        i = i + 1;
    }
    assert(find_blank(s@, i as nat) is None);
    None
}

/// A CRLF pair at `c` with none before it is what `find_crlf` returns.
pub proof fn lemma_find_crlf_at(s: Seq<u8>, i: nat, c: nat)
    requires
        i <= c,
        crlf_at(s, c as int),
        forall|k: int| i <= k < c ==> !crlf_at(s, k),
    ensures
        find_crlf(s, i) == Some(c),
{
    lemma_find_crlf(s, i);
    match find_crlf(s, i) {
        None => {
            assert(!crlf_at(s, c as int));
        },
        Some(j) => {
            if j < c {
                assert(!crlf_at(s, j as int));
            } else if j > c {
                assert(!crlf_at(s, c as int));
            }
        },
    }
}

/// A blank line at `c` with none before it is what `find_blank` returns.
pub proof fn lemma_find_blank_at(s: Seq<u8>, i: nat, c: nat)
    requires
        i <= c,
        blank_at(s, c as int),
        forall|k: int| i <= k < c ==> !blank_at(s, k),
    ensures
        find_blank(s, i) == Some(c),
{
    lemma_find_blank(s, i);
    match find_blank(s, i) {
        None => {
            assert(!blank_at(s, c as int));
        },
        Some(j) => {
            if j < c {
                assert(!blank_at(s, j as int));
            } else if j > c {
                assert(!blank_at(s, c as int));
            }
        },
    }
}

/// `p` is a prefix of `s`.
pub open spec fn has_prefix(s: Seq<u8>, p: Seq<u8>) -> bool {
    p.len() <= s.len() && s.subrange(0, p.len() as int) == p
}

/// Tests whether `p` is a prefix of `s`.
pub fn has_prefix_exec(s: &Vec<u8>, p: &Vec<u8>) -> (r: bool)
    ensures
        r == has_prefix(s@, p@),
{
    if p.len() > s.len() {
        return false;
    }
    let mut i: usize = 0;
    while i < p.len()
        invariant
            i <= p@.len() <= s@.len(),
            forall|k: int| 0 <= k < i ==> s@[k] == p@[k],
        decreases p@.len() - i,
    {
        if s[i] != p[i] {
            assert(s@.subrange(0, p@.len() as int)[i as int] != p@[i as int]);
            return false;
        }
        i = i + 1;
    }
    proof {
        assert(s@.subrange(0, p@.len() as int) =~= p@);
    }
    true
}

/// Tests two byte vectors for equality.
pub fn bytes_eq(a: &Vec<u8>, b: &Vec<u8>) -> (r: bool)
    ensures
        r == (a@ == b@),
{
    if a.len() != b.len() {
        return false;
    }
    let mut i: usize = 0;
    while i < a.len()
        invariant
            i <= a@.len(),
            a@.len() == b@.len(),
            forall|k: int| 0 <= k < i ==> a@[k] == b@[k],
        decreases a@.len() - i,
    {
        if a[i] != b[i] {
            return false;
        }
        i = i + 1;
    }
    proof {
        assert(a@ =~= b@);
    }
    true
}

/// Copies `v[a..b]` into a fresh vector.
pub fn sub_vec(v: &Vec<u8>, a: usize, b: usize) -> (r: Vec<u8>)
    requires
        a <= b <= v@.len(),
    ensures
        r@ == v@.subrange(a as int, b as int),
{
    slice_to_vec(slice_subrange(v.as_slice(), a, b))
}

/// The deep view of a byte vector is its plain view.
pub proof fn lemma_deep_bytes(v: Vec<u8>)
    ensures
        v.deep_view() == v@,
{
    assert(v.deep_view() =~= v@);
}

/// The deep view of a vector of byte vectors, at one index.
pub proof fn lemma_deep_index(v: Vec<Vec<u8>>, i: int)
    requires
        0 <= i < v@.len(),
    ensures
        v.deep_view()[i] == v@[i]@,
{
    lemma_deep_bytes(v@[i]);
}

/// Pushing onto a vector of byte vectors pushes the element's view onto the
/// deep view.
pub proof fn lemma_deep_push(v: Vec<Vec<u8>>, x: Vec<u8>, w: Vec<Vec<u8>>)
    requires
        w@ == v@.push(x),
    ensures
        w.deep_view() == v.deep_view().push(x@),
{
    lemma_deep_bytes(x);
    assert forall|i: int| 0 <= i < w@.len() implies w.deep_view()[i] == v.deep_view().push(
        x@,
    )[i] by {
        if i < v@.len() {
            lemma_deep_index(v, i);
            lemma_deep_index(w, i);
        } else {
            lemma_deep_index(w, i);
        }
    }
    assert(w.deep_view() =~= v.deep_view().push(x@));
}

/// Appends every byte of `src` to `dst`.
pub fn push_all(dst: &mut Vec<u8>, src: &Vec<u8>)
    ensures
        final(dst)@ == old(dst)@ + src@,
{
    let mut i: usize = 0;
    while i < src.len()
        invariant
            i <= src@.len(),
            dst@ == old(dst)@ + src@.subrange(0, i as int),
        decreases src@.len() - i,
    {
        dst.push(src[i]);
        i = i + 1;
        proof {
            assert(src@.subrange(0, i as int) =~= src@.subrange(0, i - 1) + seq![src@[i - 1]]);
            assert(dst@ =~= old(dst)@ + src@.subrange(0, i as int));
        }
    }
    proof {
        assert(src@.subrange(0, i as int) =~= src@);
    }
}

} // verus!
