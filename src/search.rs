//! The entry points: one-shot searches, and a searcher compiled once per
//! needle and applied to many haystacks.

use vstd::prelude::*;
use vstd::slice::slice_to_vec;
use crate::interior::Interior;
use crate::kernel::{scan_blocks, scan_staged};
use crate::lanes::Lanes;
use crate::model::{
    lemma_empty_needle_occurs,
    lemma_long_needle_absent,
    matches_at,
    occurs_from,
    occurs_in,
};
use crate::rolling::{byte_sum, checksum, rolling_search};
use crate::single::contains_byte;

verus! {

/// Lanes of the wide register.
pub const WIDE: usize = 32;

/// Lanes of the narrow register.
pub const NARROW: usize = 16;

/// Occurrence from index 0 is occurrence anywhere.
proof fn lemma_from_zero(hay: Seq<u8>, needle: Seq<u8>)
    ensures
        occurs_from(hay, needle, 0) == occurs_in(hay, needle),
{
    if occurs_in(hay, needle) {
        let s = choose|s: int| matches_at(hay, needle, s);
        assert(0 <= s && matches_at(hay, needle, s));
    }
}

/// The one-shot search shared by the staged entry points: every chunk of the
/// wide width, tail chunks loaded through a zeroed scratch row.
fn contains_staged(haystack: &[u8], needle: &[u8], interior: Interior) -> (r: bool)
    requires
        needle.len() >= 1 ==> interior.fits(needle.len() as int),
    ensures
        r == occurs_in(haystack@, needle@),
{
    if needle.len() == 0 {
        proof {
            assert(needle@ =~= Seq::<u8>::empty());
            lemma_empty_needle_occurs(haystack@);
        }
        return true;
    }
    let first = Lanes::<WIDE>::splat(needle[0]);
    let last = Lanes::<WIDE>::splat(needle[needle.len() - 1]);
    scan_staged(haystack, needle, &first, &last, interior)
}

/// Whether `needle` occurs in `haystack`, scanning every wide chunk with
/// staged tail loads and confirming candidates by a byte-wise loop.
pub fn strstr_avx2_rust_simple(haystack: &[u8], needle: &[u8]) -> (r: bool)
    ensures
        r == occurs_in(haystack@, needle@),
{
    contains_staged(haystack, needle, Interior::Generic)
}

/// Whether `needle` occurs in `haystack`: whole wide chunks, then the partial
/// one through the scratch row, candidates confirmed by a byte-wise loop.
pub fn strstr_avx2_rust_simple_2(haystack: &[u8], needle: &[u8]) -> (r: bool)
    ensures
        r == occurs_in(haystack@, needle@),
{
    contains_staged(haystack, needle, Interior::Generic)
}

/// Whether `needle` occurs in `haystack`, loading every block, first and
/// last, through the zeroed scratch row.
pub fn strstr_avx2_rust_aligned(haystack: &[u8], needle: &[u8]) -> (r: bool)
    ensures
        r == occurs_in(haystack@, needle@),
{
    contains_staged(haystack, needle, Interior::Generic)
}

/// Whether `needle` occurs in `haystack`, scanning every wide chunk with
/// staged tail loads and the comparator specialised to the needle's length.
pub fn strstr_avx2_rust_fast(haystack: &[u8], needle: &[u8]) -> (r: bool)
    ensures
        r == occurs_in(haystack@, needle@),
{
    if needle.len() == 1 {
        let r = contains_byte(haystack, 0, needle);
        proof {
            lemma_from_zero(haystack@, needle@);
        }
        return r;
    }
    let interior = if needle.len() == 0 {
        Interior::Skip
    } else {
        Interior::for_len(needle.len())
    };
    contains_staged(haystack, needle, interior)
}

/// Whether `needle` occurs in `haystack`: the one-shot form of the tiered
/// search. Whole blocks of wide-width legal starts are scanned with the
/// comparator specialised to the needle's length; the starts left over go to
/// the rolling checksum.
pub fn strstr_avx2_rust_fast_2(haystack: &[u8], needle: &[u8]) -> (r: bool)
    ensures
        r == occurs_in(haystack@, needle@),
        needle@.len() == 0 ==> r,
        needle@.len() > haystack@.len() ==> !r,
{
    let n = haystack.len();
    let m = needle.len();
    proof {
        lemma_from_zero(haystack@, needle@);
        if m > n {
            lemma_long_needle_absent(haystack@, needle@);
        }
    }
    if m == 0 {
        proof {
            assert(needle@ =~= Seq::<u8>::empty());
            lemma_empty_needle_occurs(haystack@);
        }
        return true;
    }
    if m == 1 {
        return contains_byte(haystack, 0, needle);
    }
    if n < WIDE || n < m {
        return rolling_search(haystack, 0, needle, byte_sum(needle));
    }
    let first = Lanes::<WIDE>::splat(needle[0]);
    let last = Lanes::<WIDE>::splat(needle[m - 1]);
    let (found, next) = scan_blocks(haystack, 0, needle, &first, &last, Interior::for_len(m));
    if found {
        return true;
    }
    let r = rolling_search(haystack, next, needle, byte_sum(needle));
    proof {
        if occurs_in(haystack@, needle@) && !r {
            let s = choose|s: int| matches_at(haystack@, needle@, s);
            assert(s < next);
        }
    }
    r
}

/// A needle compiled once: its bytes, its first and last byte broadcast at
/// both widths, its comparator and its wrapping byte sum.
pub struct StrStrAVX2Searcher {
    needle: Vec<u8>,
    wide_first: Lanes<WIDE>,
    wide_last: Lanes<WIDE>,
    narrow_first: Lanes<NARROW>,
    narrow_last: Lanes<NARROW>,
    interior: Interior,
    needle_sum: usize,
}

impl View for StrStrAVX2Searcher {
    type V = Seq<u8>;

    /// The needle.
    closed spec fn view(&self) -> Seq<u8> {
        self.needle@
    }
}

impl StrStrAVX2Searcher {
    /// The precomputed state is that of the needle.
    #[verifier::type_invariant]
    closed spec fn inv(self) -> bool {
        &&& self.needle_sum == checksum(self.needle@)
        &&& self.needle@.len() >= 1 ==> {
            &&& self.wide_first.is_splat(self.needle@[0])
            &&& self.wide_last.is_splat(self.needle@[self.needle@.len() - 1])
            &&& self.narrow_first.is_splat(self.needle@[0])
            &&& self.narrow_last.is_splat(self.needle@[self.needle@.len() - 1])
            &&& self.interior.fits(self.needle@.len() as int)
        }
    }

    /// Compiles `needle`. The empty needle is accepted: it is found in every
    /// haystack.
    pub fn new(needle: &[u8]) -> (r: Self)
        ensures
            r@ == needle@,
    {
        let m = needle.len();
        let (head, tail, interior) = if m == 0 {
            (0u8, 0u8, Interior::Skip)
        } else {
            (needle[0], needle[m - 1], Interior::for_len(m))
        };
        StrStrAVX2Searcher {
            needle: slice_to_vec(needle),
            wide_first: Lanes::splat(head),
            wide_last: Lanes::splat(tail),
            narrow_first: Lanes::splat(head),
            narrow_last: Lanes::splat(tail),
            interior,
            needle_sum: byte_sum(needle),
        }
    }

    /// Whether the needle occurs in `haystack`.
    pub fn search_in(&self, haystack: &[u8]) -> (r: bool)
        ensures
            r == occurs_in(haystack@, self@),
            self@.len() == 0 ==> r,
            self@.len() > haystack@.len() ==> !r,
    {
        proof {
            use_type_invariant(self);
            lemma_from_zero(haystack@, self@);
            if self@.len() > haystack@.len() {
                lemma_long_needle_absent(haystack@, self@);
            }
        }
        let m = self.needle.len();
        if haystack.len() < m {
            return false;
        }
        if m == 0 {
            proof {
                assert(self@ =~= Seq::<u8>::empty());
                lemma_empty_needle_occurs(haystack@);
            }
            return true;
        }
        if m == 1 {
            return contains_byte(haystack, 0, self.needle.as_slice());
        }
        self.search_wide(haystack, 0)
    }

    /// Blocks of wide-width legal starts from `start` on; what is left goes
    /// to the narrow width.
    fn search_wide(&self, haystack: &[u8], start: usize) -> (r: bool)
        requires
            self@.len() >= 2,
            start <= haystack.len(),
        ensures
            r == occurs_from(haystack@, self@, start as int),
    {
        proof {
            use_type_invariant(self);
        }
        let n = haystack.len();
        let needle = self.needle.as_slice();
        if n - start < WIDE {
            return self.search_narrow(haystack, start);
        }
        if n - start < needle.len() {
            return false;
        }
        let (found, next) = scan_blocks(
            haystack,
            start,
            needle,
            &self.wide_first,
            &self.wide_last,
            self.interior,
        );
        if found {
            return true;
        }
        let r = self.search_narrow(haystack, next);
        proof {
            if occurs_from(haystack@, self@, start as int) && !r {
                let s = choose|s: int| start <= s && matches_at(haystack@, self@, s);
                assert(s < next);
            }
        }
        r
    }

    /// Blocks of narrow-width legal starts from `start` on; what is left goes
    /// to the rolling checksum.
    fn search_narrow(&self, haystack: &[u8], start: usize) -> (r: bool)
        requires
            self@.len() >= 2,
            start <= haystack.len(),
        ensures
            r == occurs_from(haystack@, self@, start as int),
    {
        proof {
            use_type_invariant(self);
        }
        let n = haystack.len();
        let needle = self.needle.as_slice();
        if n - start < NARROW {
            return rolling_search(haystack, start, needle, self.needle_sum);
        }
        if n - start < needle.len() {
            return false;
        }
        let (found, next) = scan_blocks(
            haystack,
            start,
            needle,
            &self.narrow_first,
            &self.narrow_last,
            self.interior,
        );
        if found {
            return true;
        }
        let r = rolling_search(haystack, next, needle, self.needle_sum);
        proof {
            if occurs_from(haystack@, self@, start as int) && !r {
                let s = choose|s: int| start <= s && matches_at(haystack@, self@, s);
                assert(s < next);
            }
        }
        r
    }
}

/// A searcher compiled from `needle` answers every haystack as the one-shot
/// search of `needle` does, on every call: both are the occurrence of the
/// needle in the haystack, and `search_in` leaves the searcher unchanged.
pub proof fn lemma_searcher_agrees_with_one_shot(
    searcher: StrStrAVX2Searcher,
    needle: Seq<u8>,
    hay: Seq<u8>,
)
    requires
        searcher@ == needle,
    ensures
        occurs_in(hay, searcher@) == occurs_in(hay, needle),
{
}

} // verus!

