//! The block-scanning kernel over lanes of width `W`.
//!
//! For each block of `W` start positions, the first and last needle bytes are
//! compared lane-wise against the haystack at the block and at the block
//! shifted by `m - 1`; the conjunction, compacted to a bitmask, marks the
//! candidate starts, which are confirmed lowest first by the interior
//! comparator.

use vstd::prelude::*;
use crate::interior::{Interior, same_run};
use crate::lanes::{Lanes, lane_bit, lemma_zero_no_bits};
use crate::model::{matches_at, occurs_in};

verus! {

broadcast use vstd::std_specs::bits::axiom_u32_trailing_zeros;

/// Clearing the lowest set bit `t` of `m` (as `m & (m - 1)` does) leaves the
/// other bits alone.
proof fn lemma_clear_lowest(m: u32, t: u32, j: u32)
    requires
        t < 32,
        j < 32,
        (m >> t) & 1u32 == 1u32,
        m << ((32u32 - t) as u32) == 0,
    ensures
        ((m & ((m - 1u32) as u32)) >> j) & 1u32 == if j == t {
            0u32
        } else {
            (m >> j) & 1u32
        },
{
    assert(((m & ((m - 1u32) as u32)) >> j) & 1u32 == if j == t {
        0u32
    } else {
        (m >> j) & 1u32
    }) by (bit_vector)
        requires
            t < 32,
            j < 32,
            (m >> t) & 1u32 == 1u32,
            m << ((32u32 - t) as u32) == 0,
    ;
}

/// Clearing the lowest set bit makes a nonzero mask smaller.
proof fn lemma_clear_lowest_decreases(m: u32)
    requires
        m != 0,
    ensures
        m & ((m - 1u32) as u32) < m,
{
    assert(m & ((m - 1u32) as u32) < m) by (bit_vector)
        requires
            m != 0,
    ;
}

/// A match at `s` is a match of the first byte, the last byte and the
/// interior.
pub proof fn lemma_match_parts(hay: Seq<u8>, needle: Seq<u8>, s: int)
    requires
        needle.len() >= 1,
        0 <= s,
        s + needle.len() <= hay.len(),
    ensures
        matches_at(hay, needle, s) <==> (hay[s] == needle[0] && hay[s + needle.len() - 1]
            == needle[needle.len() - 1] && same_run(hay, s + 1, needle, 1, needle.len() - 2)),
{
    let m = needle.len() as int;
    if matches_at(hay, needle, s) {
        assert(hay[s + 0] == needle[0]);
        assert(hay[s + (m - 1)] == needle[m - 1]);
        assert forall|j: int| 0 <= j < m - 2 implies #[trigger] hay[s + 1 + j] == needle[1
            + j] by {
            assert(hay[s + (1 + j)] == needle[1 + j]);
        }
    }
    if hay[s] == needle[0] && hay[s + m - 1] == needle[m - 1] && same_run(
        hay,
        s + 1,
        needle,
        1,
        m - 2,
    ) {
        assert forall|j: int| 0 <= j < m implies #[trigger] hay[s + j] == needle[j] by {
            if 0 < j < m - 1 {
                assert(hay[s + 1 + (j - 1)] == needle[1 + (j - 1)]);
            }
        }
    }
}

/// The candidate bitmask of one block: lane `k` is set iff the first-byte
/// lanes agree and the last-byte lanes agree there.
pub fn candidates<const W: usize>(
    first: &Lanes<W>,
    last: &Lanes<W>,
    block_first: &Lanes<W>,
    block_last: &Lanes<W>,
) -> (r: u32)
    requires
        W <= 32,
    ensures
        forall|k: int|
            0 <= k < W ==> lane_bit(r, k) == (block_first.bytes@[k] == first.bytes@[k]
                && block_last.bytes@[k] == last.bytes@[k]),
        forall|k: int| W <= k < 32 ==> !lane_bit(r, k),
{
    let eq_first = first.eq_lanes(block_first);
    let eq_last = last.eq_lanes(block_last);
    let both = eq_first.and(&eq_last);
    let r = both.to_bitmask();
    proof {
        assert forall|k: int| 0 <= k < W implies lane_bit(r, k) == (block_first.bytes@[k]
            == first.bytes@[k] && block_last.bytes@[k] == last.bytes@[k]) by {
            let x = eq_first.bytes@[k];
            let y = eq_last.bytes@[k];
            assert((x == 0xFFu8 || x == 0u8) && (y == 0xFFu8 || y == 0u8) ==> ((x & y
                >= 0x80u8) == (x == 0xFFu8 && y == 0xFFu8))) by (bit_vector);
        }
    }
    r
}

/// Scans the blocks of `W` start positions from `start` on while a whole
/// block of legal starts remains. Returns `(true, s)` for the first match
/// `s` it confirms; otherwise `(false, next)`, where fewer than `W` legal
/// starts remain from `next` on and none before it matched.
pub fn scan_blocks<const W: usize>(
    hay: &[u8],
    start: usize,
    needle: &[u8],
    first: &Lanes<W>,
    last: &Lanes<W>,
    interior: Interior,
) -> (r: (bool, usize))
    requires
        1 <= W <= 32,
        1 <= needle.len(),
        start + needle.len() <= hay.len(),
        first.is_splat(needle@[0]),
        last.is_splat(needle@[needle.len() - 1]),
        interior.fits(needle.len() as int),
    ensures
        r.0 ==> start <= r.1 && matches_at(hay@, needle@, r.1 as int),
        !r.0 ==> start <= r.1 <= hay.len() - needle.len() + 1 < r.1 + W,
        !r.0 ==> forall|s: int| start <= s < r.1 ==> !matches_at(hay@, needle@, s),
{
    let n = hay.len();
    let m = needle.len();
    let limit = n - m + 1;
    let mut i = start;
    while limit - i >= W
        invariant
            1 <= W <= 32,
            n == hay.len(),
            m == needle.len(),
            1 <= m,
            limit == n - m + 1,
            start <= i <= limit,
            first.is_splat(needle@[0]),
            last.is_splat(needle@[m - 1]),
            interior.fits(m as int),
            forall|s: int| start <= s < i ==> !matches_at(hay@, needle@, s),
        decreases limit - i,
    {
        let block_first = Lanes::<W>::load(hay, i);
        let block_last = Lanes::<W>::load(hay, i + m - 1);
        let mut mask = candidates(first, last, &block_first, &block_last);
        proof {
            assert forall|k: int|
                0 <= k < W && #[trigger] matches_at(hay@, needle@, i + k) implies lane_bit(
                mask,
                k,
            ) by {
                lemma_match_parts(hay@, needle@, i + k);
                assert(block_last.bytes@[k] == hay@[i + m - 1 + k]);
            }
        }
        while mask != 0
            invariant
                1 <= W <= 32,
                n == hay.len(),
                m == needle.len(),
                1 <= m,
                limit == n - m + 1,
                start <= i,
                i + W <= limit,
                interior.fits(m as int),
                forall|k: int|
                    0 <= k < 32 && #[trigger] lane_bit(mask, k) ==> k < W && hay@[i + k]
                        == needle@[0] && hay@[i + k + m - 1] == needle@[m - 1],
                forall|k: int|
                    0 <= k < W && #[trigger] matches_at(hay@, needle@, i + k) ==> lane_bit(
                        mask,
                        k,
                    ),
            decreases mask,
        {
            let t = mask.trailing_zeros();
            assert(lane_bit(mask, t as int));
            let s = i + t as usize;
            proof {
                lemma_match_parts(hay@, needle@, s as int);
            }
            if interior.compare(hay, s, needle) {
                return (true, s);
            }
            let next = mask & (mask - 1);
            proof {
                assert forall|k: int| 0 <= k < 32 implies lane_bit(next, k) == (k != t
                    && lane_bit(mask, k)) by {
                    lemma_clear_lowest(mask, t, k as u32);
                }
                lemma_clear_lowest_decreases(mask);
            }
            mask = next;
        }
        proof {
            assert forall|s: int| start <= s < i + W implies !matches_at(hay@, needle@, s) by {
                if s >= i {
                    lemma_zero_no_bits((s - i) as u32);
                    assert(!lane_bit(mask, s - i));
                    assert(matches_at(hay@, needle@, i + (s - i)) ==> lane_bit(mask, s - i));
                }
            }
        }
        i = i + W;
    }
    (false, i)
}

/// Scans every block of `W` bytes of `hay`, the last one partial, loading
/// what would run past the end through a zeroed scratch row. Candidates whose
/// needle would overrun `hay` are dropped before the interior comparison.
pub fn scan_staged<const W: usize>(
    hay: &[u8],
    needle: &[u8],
    first: &Lanes<W>,
    last: &Lanes<W>,
    interior: Interior,
) -> (r: bool)
    requires
        1 <= W <= 32,
        1 <= needle.len(),
        first.is_splat(needle@[0]),
        last.is_splat(needle@[needle.len() - 1]),
        interior.fits(needle.len() as int),
    ensures
        r == occurs_in(hay@, needle@),
{
    let n = hay.len();
    let m = needle.len();
    let mut i: usize = 0;
    while i < n && m <= n - i
        invariant
            1 <= W <= 32,
            n == hay.len(),
            m == needle.len(),
            1 <= m,
            i <= n,
            first.is_splat(needle@[0]),
            last.is_splat(needle@[m - 1]),
            interior.fits(m as int),
            forall|s: int| 0 <= s < i ==> !matches_at(hay@, needle@, s),
        decreases n - i,
    {
        let block_first = Lanes::<W>::load_staged(hay, i);
        let block_last = Lanes::<W>::load_staged(hay, i + m - 1);
        let mut mask = candidates(first, last, &block_first, &block_last);
        proof {
            assert forall|k: int|
                0 <= k < W && #[trigger] matches_at(hay@, needle@, i + k) implies lane_bit(
                mask,
                k,
            ) by {
                lemma_match_parts(hay@, needle@, i + k);
                assert(block_last.bytes@[k] == hay@[i + m - 1 + k]);
            }
        }
        while mask != 0
            invariant
                1 <= W <= 32,
                n == hay.len(),
                m == needle.len(),
                1 <= m,
                i < n,
                interior.fits(m as int),
                forall|k: int|
                    0 <= k < 32 && #[trigger] lane_bit(mask, k) ==> k < W && (i + k + m <= n
                        ==> hay@[i + k] == needle@[0] && hay@[i + k + m - 1] == needle@[m - 1]),
                forall|k: int|
                    0 <= k < W && #[trigger] matches_at(hay@, needle@, i + k) ==> lane_bit(
                        mask,
                        k,
                    ),
            decreases mask,
        {
            let t = mask.trailing_zeros();
            assert(lane_bit(mask, t as int));
            let bitpos = t as usize;
            if bitpos < n - i && m <= n - i - bitpos {
                let s = i + bitpos;
                proof {
                    lemma_match_parts(hay@, needle@, s as int);
                }
                if interior.compare(hay, s, needle) {
                    return true;
                }
            }
            let next = mask & (mask - 1);
            proof {
                assert forall|k: int| 0 <= k < 32 implies lane_bit(next, k) == (k != t
                    && lane_bit(mask, k)) by {
                    lemma_clear_lowest(mask, t, k as u32);
                }
                lemma_clear_lowest_decreases(mask);
            }
            mask = next;
        }
        proof {
            assert forall|s: int| 0 <= s < i + W && s < n implies !matches_at(hay@, needle@, s) by {
                if s >= i {
                    lemma_zero_no_bits((s - i) as u32);
                    assert(!lane_bit(mask, s - i));
                    assert(matches_at(hay@, needle@, i + (s - i)) ==> lane_bit(mask, s - i));
                }
            }
        }
        if W >= n - i {
            return false;
        }
        i = i + W;
    }
    proof {
        assert forall|s: int| matches_at(hay@, needle@, s) implies false by {
            assert(s < i);
        }
    }
    false
}

} // verus!
