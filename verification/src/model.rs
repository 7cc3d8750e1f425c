//! The mathematical model of substring search: what it means for the needle
//! to occur at an offset, and what answer a canonical forward search gives.

use vstd::prelude::*;

verus! {

/// The needle occurs in the haystack at offset `i`: the needle fits there,
/// and every needle byte agrees with the haystack byte `i` positions in.
pub open spec fn is_match_at(needle: Seq<u8>, haystack: Seq<u8>, i: int) -> bool {
    &&& 0 <= i
    &&& i + needle.len() <= haystack.len()
    &&& forall|k: int| 0 <= k < needle.len() ==> needle[k] == haystack[i + k]
}

/// `r` is the answer of a canonical forward substring search that begins at
/// offset `start`: the smallest match offset at or after `start`, or nothing
/// when no offset at or after `start` matches.
pub open spec fn is_leftmost_match_from(
    needle: Seq<u8>,
    haystack: Seq<u8>,
    start: int,
    r: Option<int>,
) -> bool {
    match r {
        Some(o) => {
            &&& start <= o
            &&& is_match_at(needle, haystack, o)
            &&& forall|j: int| start <= j < o ==> !is_match_at(needle, haystack, j)
        },
        None => forall|j: int| start <= j ==> !is_match_at(needle, haystack, j),
    }
}

/// `r` is the answer of a canonical forward substring search over the whole
/// haystack: the smallest match offset, or nothing when the needle does not
/// occur at all.
pub open spec fn is_leftmost_match(needle: Seq<u8>, haystack: Seq<u8>, r: Option<int>) -> bool {
    is_leftmost_match_from(needle, haystack, 0, r)
}

/// The offset a search function returns, as a mathematical value.
pub open spec fn result_view(r: Option<usize>) -> Option<int> {
    match r {
        Some(o) => Some(o as int),
        None => None,
    }
}

/// Any two answers that both satisfy the canonical-search characterization
/// are equal: every search that honors the characterization is equivalent
/// to the canonical forward search, offset for offset and absence for
/// absence.
pub proof fn lemma_leftmost_match_unique(
    needle: Seq<u8>,
    haystack: Seq<u8>,
    a: Option<int>,
    b: Option<int>,
)
    requires
        is_leftmost_match(needle, haystack, a),
        is_leftmost_match(needle, haystack, b),
    ensures
        a == b,
{
    match (a, b) {
        (Some(x), Some(y)) => {
            if x < y {
                assert(!is_match_at(needle, haystack, x));
            } else if y < x {
                assert(!is_match_at(needle, haystack, y));
            }
        },
        (Some(x), None) => {
            assert(!is_match_at(needle, haystack, x));
        },
        (None, Some(y)) => {
            assert(!is_match_at(needle, haystack, y));
        },
        (None, None) => {},
    }
}

/// The returned offset is the smallest one: wherever the needle occurs, the
/// answer is a match at an offset no larger than that occurrence.
pub proof fn lemma_returned_offset_smallest(
    needle: Seq<u8>,
    haystack: Seq<u8>,
    r: Option<int>,
    m: int,
)
    requires
        is_leftmost_match(needle, haystack, r),
        is_match_at(needle, haystack, m),
    ensures
        r matches Some(o) && o <= m,
{
    match r {
        Some(o) => {
            if m < o {
                assert(!is_match_at(needle, haystack, m));
            }
        },
        None => {
            assert(!is_match_at(needle, haystack, m));
        },
    }
}

/// A needle longer than the haystack is never found.
pub proof fn lemma_needle_longer_not_found(
    needle: Seq<u8>,
    haystack: Seq<u8>,
    r: Option<int>,
)
    requires
        is_leftmost_match(needle, haystack, r),
        needle.len() > haystack.len(),
    ensures
        r is None,
{
}

/// A needle equal to the whole haystack is found exactly at offset zero.
pub proof fn lemma_needle_equals_haystack(
    needle: Seq<u8>,
    haystack: Seq<u8>,
    r: Option<int>,
)
    requires
        is_leftmost_match(needle, haystack, r),
        needle == haystack,
    ensures
        r == Some(0int),
{
    assert(is_match_at(needle, haystack, 0));
    lemma_returned_offset_smallest(needle, haystack, r, 0);
}

/// A match at the very last offset where the needle still fits is found:
/// an occurrence at `haystack.len() - needle.len()` guarantees some answer.
pub proof fn lemma_match_at_last_offset_found(
    needle: Seq<u8>,
    haystack: Seq<u8>,
    r: Option<int>,
)
    requires
        is_leftmost_match(needle, haystack, r),
        needle.len() <= haystack.len(),
        is_match_at(needle, haystack, haystack.len() - needle.len()),
    ensures
        r is Some,
{
    lemma_returned_offset_smallest(needle, haystack, r, haystack.len() - needle.len());
}

} // verus!
