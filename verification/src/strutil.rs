//! Small verified string and byte-sequence helpers shared by the
//! pipeline, plus the lowercase conversion taken from std.

use vstd::prelude::*;

verus! {

/// What `str::to_lowercase` returns; depends on the characters alone.
pub uninterp spec fn lower_of(s: Seq<char>) -> Seq<char>;

/// Relies on `str::to_lowercase`: a pure function of the characters.
#[verifier::external_body]
pub(crate) fn to_lowercase(s: &str) -> (r: String)
    ensures
        r@ == lower_of(s@),
{
    s.to_lowercase()
}

/// Relies on `format!` (string concatenation): the characters of `a`
/// followed by the characters of `b`.
#[verifier::external_body]
pub(crate) fn concat_str(a: &str, b: &str) -> (r: String)
    ensures
        r@ == a@ + b@,
{
    format!("{a}{b}")
}

/// Whether `n` occurs as a contiguous run inside `h`.
pub open spec fn has_sub(h: Seq<u8>, n: Seq<u8>) -> bool {
    exists|i: int| 0 <= i && i + n.len() <= h.len() && #[trigger] h.subrange(i, i + n.len()) == n
}

/// Byte-wise equality of two slices.
pub fn bytes_equal(a: &[u8], b: &[u8]) -> (r: bool)
    ensures
        r == (a@ =~= b@),
{
    if a.len() != b.len() {
        return false;
    }
    let mut i: usize = 0;
    while i < a.len()
        invariant
            i <= a@.len(),
            a@.len() == b@.len(),
            forall|j: int| 0 <= j < i ==> a@[j] == b@[j],
        decreases a@.len() - i,
    {
        if a[i] != b[i] {
            return false;
        }
        i += 1;
    }
    true
}

/// Whether the needle occurs anywhere in the haystack.
pub fn contains_sub(h: &[u8], n: &[u8]) -> (r: bool)
    ensures
        r == has_sub(h@, n@),
{
    let hn = h.len();
    let nn = n.len();
    if nn > hn {
        proof {
            assert(!has_sub(h@, n@));
        }
        return false;
    }
    let mut i: usize = 0;
    while i <= hn - nn
        invariant
            hn == h@.len(),
            nn == n@.len(),
            nn <= hn,
            i <= hn - nn + 1,
            forall|j: int| 0 <= j < i ==> #[trigger] h@.subrange(j, j + n@.len()) != n@,
        decreases hn - nn + 1 - i,
    {
        let w = vstd::slice::slice_subrange(h, i, i + nn);
        if bytes_equal(w, n) {
            proof {
                assert(h@.subrange(i as int, i as int + n@.len()) == n@);
            }
            return true;
        }
        proof {
            assert(h@.subrange(i as int, i as int + n@.len()) != n@);
        }
        i += 1;
    }
    proof {
        assert(forall|j: int| 0 <= j && j + n@.len() <= h@.len() ==> #[trigger] h@.subrange(
            j, j + n@.len()) != n@);
    }
    false
}

} // verus!
