//! The executable searchers: a canonical forward scanner, and a windowed
//! scanner that filters candidate offsets by their first and last bytes
//! before verifying them, as a fixed-width vector comparison would.

use vstd::prelude::*;

use crate::model::is_leftmost_match;
use crate::model::is_leftmost_match_from;
use crate::model::is_match_at;
use crate::model::result_view;

verus! {

/// Whether the needle occurs at offset `pos` of the haystack, by a full
/// byte-for-byte comparison.
fn matches_at(needle: &[u8], haystack: &[u8], pos: usize) -> (r: bool)
    requires
        pos + needle@.len() <= haystack@.len(),
    ensures
        r == is_match_at(needle@, haystack@, pos as int),
{
    let n = needle.len();
    let h = haystack.len();
    let mut k: usize = 0;
    while k < n
        invariant
            n == needle@.len(),
            h == haystack@.len(),
            pos + n <= h,
            k <= n,
            forall|m: int| 0 <= m < k ==> needle@[m] == haystack@[pos + m],
        decreases n - k,
    {
        if needle[k] != haystack[pos + k] {
            return false;
        }
        k += 1;
    }
    true
}

/// Canonical forward substring search beginning at offset `start`: tries
/// each offset in increasing order and returns the first that matches.
fn find_from(needle: &[u8], haystack: &[u8], start: usize) -> (r: Option<usize>)
    ensures
        is_leftmost_match_from(needle@, haystack@, start as int, result_view(r)),
{
    let n = needle.len();
    let h = haystack.len();
    if n > h || start > h - n {
        return None;
    }
    let mut j: usize = start;
    while j <= h - n
        invariant
            n == needle@.len(),
            h == haystack@.len(),
            n <= h,
            start <= j <= h - n + 1,
            forall|p: int| start <= p < j ==> !is_match_at(needle@, haystack@, p),
        decreases h - j,
    {
        if matches_at(needle, haystack, j) {
            return Some(j);
        }
        j += 1;
    }
    None
}

/// Canonical substring search: the smallest offset where the needle occurs
/// in the haystack, or `None` when it occurs nowhere. An empty needle is
/// defined to occur at offset zero of every haystack.
pub fn find_substr(needle: &[u8], haystack: &[u8]) -> (r: Option<usize>)
    ensures
        is_leftmost_match(needle@, haystack@, result_view(r)),
{
    find_from(needle, haystack, 0)
}

/// Bit `k` of a 32-lane candidate mask is set.
spec fn bit32(m: u32, k: u32) -> bool {
    (m >> k) & 1u32 == 1u32
}

/// Candidate offset `p` survives the two-byte filter: the haystack byte at
/// `p` equals the needle's first byte, and the haystack byte where the
/// needle would end equals the needle's last byte.
spec fn filter_at(needle: Seq<u8>, haystack: Seq<u8>, p: int) -> bool {
    &&& haystack[p] == needle[0]
    &&& haystack[p + needle.len() - 1] == needle[needle.len() - 1]
}

/// A candidate that fails the two-byte filter cannot be a match.
proof fn lemma_filter_rejects(needle: Seq<u8>, haystack: Seq<u8>, p: int)
    requires
        needle.len() >= 1,
        0 <= p,
        p + needle.len() <= haystack.len(),
        !filter_at(needle, haystack, p),
    ensures
        !is_match_at(needle, haystack, p),
{
    if is_match_at(needle, haystack, p) {
        assert(needle[0] == haystack[p + 0]);
        assert(needle[needle.len() - 1] == haystack[p + (needle.len() - 1)]);
    }
}

/// The zero mask has no bit set.
proof fn lemma_no_bits_in_zero()
    by (bit_vector)
    ensures
        forall|k: u32| !bit32(0u32, k),
{
}

/// Or-ing `1 << lane` into a mask sets bit `lane` and leaves every other
/// bit unchanged.
proof fn lemma_set_bit(m: u32, lane: u32)
    by (bit_vector)
    requires
        lane < 32,
    ensures
        bit32(m | (1u32 << lane), lane),
        forall|k: u32| k < 32 && k != lane ==> (bit32(m | (1u32 << lane), k) <==> bit32(m, k)),
{
}

/// When bit `t` is the lowest bit set in `m`, and-ing `m` with `m - 1`
/// clears exactly bit `t`, and the mask strictly shrinks.
proof fn lemma_clear_lowest_bit(m: u32, t: u32)
    by (bit_vector)
    requires
        t < 32,
        bit32(m, t),
        m << ((32 - t) as u32) == 0,
    ensures
        (m & ((m - 1) as u32)) < m,
        forall|k: u32| k < 32 ==> (bit32(m & ((m - 1) as u32), k) <==> (bit32(m, k) && k != t)),
{
}

/// Windowed substring search: scans the haystack in 32-byte windows,
/// filtering the 32 candidate offsets of each window by their first and
/// would-be last bytes — as a pair of fixed-width vector comparisons
/// would — and verifying the surviving candidates in increasing offset
/// order; a trailing region too short for a full window falls back to the
/// canonical forward scan. Returns the smallest offset where the needle
/// occurs, or `None` when it occurs nowhere. An empty needle is defined to
/// occur at offset zero.
pub fn find_substr_simd(needle: &[u8], haystack: &[u8]) -> (r: Option<usize>)
    ensures
        is_leftmost_match(needle@, haystack@, result_view(r)),
{
    let needle_len = needle.len();
    let haystack_len = haystack.len();
    if needle_len == 0 {
        return Some(0);
    }
    if needle_len > haystack_len {
        return None;
    }

    let first_letter = needle[0];
    let last_letter = needle[needle_len - 1];

    let mut i: usize = 0;
    // Scan 32 bytes each iteration, while every candidate offset of the
    // window leaves room for the whole needle.
    while haystack_len - i >= 32 && haystack_len - i - 32 >= needle_len
        invariant
            needle_len == needle@.len(),
            haystack_len == haystack@.len(),
            1 <= needle_len <= haystack_len,
            i <= haystack_len,
            first_letter == needle@[0],
            last_letter == needle@[needle_len - 1],
            forall|j: int| 0 <= j < i ==> !is_match_at(needle@, haystack@, j),
        decreases haystack_len - i,
    {
        // Build the candidate mask of this window: one bit per lane, set
        // when the lane's candidate offset survives the two-byte filter.
        let mut mask: u32 = 0;
        proof {
            lemma_no_bits_in_zero();
        }
        let mut lane: usize = 0;
        while lane < 32
            invariant
                needle_len == needle@.len(),
                haystack_len == haystack@.len(),
                1 <= needle_len,
                i + 32 + needle_len <= haystack_len,
                first_letter == needle@[0],
                last_letter == needle@[needle_len - 1],
                lane <= 32,
                forall|k: u32| k < lane ==>
                    (bit32(mask, k) <==> filter_at(needle@, haystack@, i + k)),
                forall|k: u32| lane <= k < 32 ==> !bit32(mask, k),
            decreases 32 - lane,
        {
            let ghost pre_mask = mask;
            let filter_hit = haystack[i + lane] == first_letter
                && haystack[i + needle_len - 1 + lane] == last_letter;
            if filter_hit {
                proof {
                    lemma_set_bit(mask, lane as u32);
                }
                mask = mask | (1u32 << lane);
            }
            proof {
                assert(filter_hit == filter_at(needle@, haystack@, i + lane));
                assert forall|k: u32| k < lane + 1 implies
                    (bit32(mask, k) <==> filter_at(needle@, haystack@, i + k)) by {
                    if k == lane {
                        if !filter_hit {
                            assert(!bit32(pre_mask, k));
                        } else {
                            assert(bit32(mask, k));
                            assert(filter_at(needle@, haystack@, i + k));
                        }
                    } else {
                        assert(bit32(mask, k) <==> bit32(pre_mask, k));
                        assert(bit32(pre_mask, k) <==> filter_at(needle@, haystack@, i + k));
                    }
                }
                assert forall|k: u32| lane + 1 <= k < 32 implies !bit32(mask, k) by {
                    assert(!bit32(pre_mask, k));
                }
            }
            lane += 1;
        }

        // Every lane whose bit is clear was rejected by the filter, so it
        // cannot start a match.
        proof {
            assert forall|k: u32| k < 32 && !bit32(mask, k) implies
                !is_match_at(needle@, haystack@, i + k) by {
                lemma_filter_rejects(needle@, haystack@, i + k);
            }
        }

        // Consume the mask's set bits from the lowest up: each one is a
        // candidate offset, verified in full before it is accepted.
        while mask != 0
            invariant
                needle_len == needle@.len(),
                haystack_len == haystack@.len(),
                1 <= needle_len <= haystack_len,
                i + 32 + needle_len <= haystack_len,
                forall|j: int| 0 <= j < i ==> !is_match_at(needle@, haystack@, j),
                forall|k: u32| k < 32 && !bit32(mask, k) ==>
                    !is_match_at(needle@, haystack@, i + k),
            decreases mask,
        {
            proof {
                vstd::std_specs::bits::axiom_u32_trailing_zeros(mask);
            }
            // The number of trailing zeros is the lowest surviving offset.
            let tail_zero_cnt = mask.trailing_zeros() as usize;
            let start_pos = i + tail_zero_cnt;
            if matches_at(needle, haystack, start_pos) {
                proof {
                    assert forall|j: int| 0 <= j < start_pos implies
                        !is_match_at(needle@, haystack@, j) by {
                        if i <= j {
                            assert(!bit32(mask, (j - i) as u32));
                        }
                    }
                }
                return Some(start_pos);
            }
            let ghost pre_mask = mask;
            proof {
                lemma_clear_lowest_bit(mask, mask.trailing_zeros());
            }
            // Reset the lowest set bit: that candidate is ruled out.
            mask = mask & (mask - 1);
            proof {
                assert forall|k: u32| k < 32 && !bit32(mask, k) implies
                    !is_match_at(needle@, haystack@, i + k) by {
                    if bit32(pre_mask, k) {
                        assert(i + k == start_pos);
                        assert(!is_match_at(needle@, haystack@, start_pos as int));
                    }
                }
            }
        }

        // Every candidate offset of this window is ruled out.
        proof {
            lemma_no_bits_in_zero();
            assert forall|j: int| i <= j < i + 32 implies
                !is_match_at(needle@, haystack@, j) by {
                assert(!bit32(mask, (j - i) as u32));
            }
        }
        i += 32;
    }

    // Handle the remaining bytes with the canonical forward scan.
    find_from(needle, haystack, i)
}

/// Runs the canonical searcher `num_iterations` times over the same pair of
/// inputs, discarding the result, as a timing harness would.
pub fn test_baseline(needle: &[u8], haystack: &[u8], num_iterations: u32) {
    let mut it: u32 = 0;
    while it < num_iterations
        decreases num_iterations - it,
    {
        let _ = find_substr(needle, haystack);
        it += 1;
    }
}

/// Runs the windowed searcher `num_iterations` times over the same pair of
/// inputs, discarding the result, as a timing harness would.
pub fn test_simd_v1(needle: &[u8], haystack: &[u8], num_iterations: u32) {
    let mut it: u32 = 0;
    while it < num_iterations
        decreases num_iterations - it,
    {
        let _ = find_substr_simd(needle, haystack);
        it += 1;
    }
}

} // verus!
