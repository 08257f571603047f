//! Confirmation of a candidate: equality of the needle's interior bytes.
//!
//! Each needle length gets a comparator chosen once. Short lengths use
//! straight-line comparisons of a fixed byte count; a few of them compare one
//! byte more than the interior (the needle's last byte, which the candidate
//! has already matched), trading that byte for fewer code paths. Longer
//! needles use a loop.

use vstd::prelude::*;

verus! {

/// `a[ai..ai + len] == b[bi..bi + len]`.
pub open spec fn same_run(a: Seq<u8>, ai: int, b: Seq<u8>, bi: int, len: int) -> bool {
    forall|j: int| 0 <= j < len ==> #[trigger] a[ai + j] == b[bi + j]
}

/// A run of `len` bytes is equal iff its first `w1` bytes and its last `w2`
/// bytes are, when the two windows cover it.
proof fn lemma_cover(a: Seq<u8>, ai: int, b: Seq<u8>, bi: int, len: int, w1: int, w2: int)
    requires
        0 <= w1 <= len,
        0 <= w2 <= len,
        len <= w1 + w2,
    ensures
        same_run(a, ai, b, bi, len) <==> (same_run(a, ai, b, bi, w1) && same_run(
            a,
            ai + len - w2,
            b,
            bi + len - w2,
            w2,
        )),
{
    if same_run(a, ai, b, bi, len) {
        assert forall|j: int| 0 <= j < w2 implies #[trigger] a[ai + len - w2 + j] == b[bi + len
            - w2 + j] by {
            assert(a[ai + (len - w2 + j)] == b[bi + (len - w2 + j)]);
        }
    }
    if same_run(a, ai, b, bi, w1) && same_run(a, ai + len - w2, b, bi + len - w2, w2) {
        assert forall|j: int| 0 <= j < len implies #[trigger] a[ai + j] == b[bi + j] by {
            if j >= w1 {
                let t = j - (len - w2);
                assert(a[ai + len - w2 + t] == b[bi + len - w2 + t]);
            }
        }
    }
}

fn eq1(a: &[u8], ai: usize, b: &[u8], bi: usize) -> (r: bool)
    requires
        ai + 1 <= a.len(),
        bi + 1 <= b.len(),
    ensures
        r == same_run(a@, ai as int, b@, bi as int, 1),
{
    assert(a@[ai + 0] == a@[ai as int] && b@[bi + 0] == b@[bi as int]);
    a[ai] == b[bi]
}

fn eq2(a: &[u8], ai: usize, b: &[u8], bi: usize) -> (r: bool)
    requires
        ai + 2 <= a.len(),
        bi + 2 <= b.len(),
    ensures
        r == same_run(a@, ai as int, b@, bi as int, 2),
{
    assert(a@[ai + 0] == a@[ai as int] && b@[bi + 0] == b@[bi as int]);
    a[ai] == b[bi] && a[ai + 1] == b[bi + 1]
}

fn eq4(a: &[u8], ai: usize, b: &[u8], bi: usize) -> (r: bool)
    requires
        ai + 4 <= a.len(),
        bi + 4 <= b.len(),
    ensures
        r == same_run(a@, ai as int, b@, bi as int, 4),
{
    assert(a@[ai + 0] == a@[ai as int] && b@[bi + 0] == b@[bi as int]);
    a[ai] == b[bi] && a[ai + 1] == b[bi + 1] && a[ai + 2] == b[bi + 2] && a[ai + 3] == b[bi
        + 3]
}

fn eq8(a: &[u8], ai: usize, b: &[u8], bi: usize) -> (r: bool)
    requires
        ai + 8 <= a.len(),
        bi + 8 <= b.len(),
    ensures
        r == same_run(a@, ai as int, b@, bi as int, 8),
{
    let lo = eq4(a, ai, b, bi);
    let hi = eq4(a, ai + 4, b, bi + 4);
    proof {
        lemma_cover(a@, ai as int, b@, bi as int, 8, 4, 4);
    }
    lo && hi
}

/// Two overlapping windows of 4 bytes covering `len` bytes, `4 <= len <= 8`.
fn eq_4x2(a: &[u8], ai: usize, b: &[u8], bi: usize, len: usize) -> (r: bool)
    requires
        4 <= len <= 8,
        ai + len <= a.len(),
        bi + len <= b.len(),
    ensures
        r == same_run(a@, ai as int, b@, bi as int, len as int),
{
    proof {
        lemma_cover(a@, ai as int, b@, bi as int, len as int, 4, 4);
    }
    eq4(a, ai, b, bi) && eq4(a, ai + len - 4, b, bi + len - 4)
}

/// A window of 8 bytes and one of 4 covering `len` bytes, `8 <= len <= 12`.
fn eq_8x4(a: &[u8], ai: usize, b: &[u8], bi: usize, len: usize) -> (r: bool)
    requires
        8 <= len <= 12,
        ai + len <= a.len(),
        bi + len <= b.len(),
    ensures
        r == same_run(a@, ai as int, b@, bi as int, len as int),
{
    proof {
        lemma_cover(a@, ai as int, b@, bi as int, len as int, 8, 4);
    }
    eq8(a, ai, b, bi) && eq4(a, ai + len - 4, b, bi + len - 4)
}

/// Byte-wise equality of two runs of any length.
pub fn eq_run(a: &[u8], ai: usize, b: &[u8], bi: usize, len: usize) -> (r: bool)
    requires
        ai + len <= a.len(),
        bi + len <= b.len(),
    ensures
        r == same_run(a@, ai as int, b@, bi as int, len as int),
{
    let mut j: usize = 0;
    while j < len
        invariant
            j <= len,
            ai + len <= a.len(),
            bi + len <= b.len(),
            same_run(a@, ai as int, b@, bi as int, j as int),
        decreases len - j,
    {
        if a[ai + j] != b[bi + j] {
            return false;
        }
        j = j + 1;
    }
    true
}

/// Which comparator confirms a candidate, by the count of bytes it compares
/// from the needle's second byte on.
#[derive(Clone, Copy, PartialEq, Eq, Debug)]
pub enum Interior {
    Skip,
    One,
    Two,
    Four,
    Five,
    Six,
    Eight,
    Nine,
    Ten,
    Eleven,
    Twelve,
    Generic,
}

impl Interior {
    /// The number of bytes compared for a needle of length `m`.
    pub open spec fn span(self, m: int) -> int {
        match self {
            Interior::Skip => 0,
            Interior::One => 1,
            Interior::Two => 2,
            Interior::Four => 4,
            Interior::Five => 5,
            Interior::Six => 6,
            Interior::Eight => 8,
            Interior::Nine => 9,
            Interior::Ten => 10,
            Interior::Eleven => 11,
            Interior::Twelve => 12,
            Interior::Generic => if m >= 2 {
                m - 2
            } else {
                0
            },
        }
    }

    /// This comparator serves a needle of length `m`: it compares the whole
    /// interior, and at most the last byte besides.
    pub open spec fn fits(self, m: int) -> bool {
        m >= 1 && (self.span(m) == m - 2 || self.span(m) == m - 1)
    }

    /// The comparator bound to a needle of length `m`.
    pub fn for_len(m: usize) -> (r: Interior)
        requires
            m >= 1,
        ensures
            r.fits(m as int),
            m >= 15 <==> r == Interior::Generic,
    {
        match m {
            1 | 2 => Interior::Skip,
            3 => Interior::One,
            4 => Interior::Two,
            5 | 6 => Interior::Four,
            7 => Interior::Five,
            8 => Interior::Six,
            9 | 10 => Interior::Eight,
            11 => Interior::Nine,
            12 => Interior::Ten,
            13 => Interior::Eleven,
            14 => Interior::Twelve,
            _ => Interior::Generic,
        }
    }

    /// Whether the interior of `needle` equals `hay` from `s + 1` on, given
    /// that the last bytes already agree.
    pub fn compare(&self, hay: &[u8], s: usize, needle: &[u8]) -> (r: bool)
        requires
            self.fits(needle@.len() as int),
            s + needle@.len() <= hay.len(),
            hay@[s + needle@.len() - 1] == needle@[needle@.len() - 1],
        ensures
            r == same_run(hay@, s + 1, needle@, 1, needle@.len() - 2),
    {
        let m = needle.len();
        let ghost k = self.span(m as int);
        let r = match self {
            Interior::Skip => true,
            Interior::One => eq1(hay, s + 1, needle, 1),
            Interior::Two => eq2(hay, s + 1, needle, 1),
            Interior::Four => eq4(hay, s + 1, needle, 1),
            Interior::Five => eq_4x2(hay, s + 1, needle, 1, 5),
            Interior::Six => eq_4x2(hay, s + 1, needle, 1, 6),
            Interior::Eight => eq8(hay, s + 1, needle, 1),
            Interior::Nine => eq_8x4(hay, s + 1, needle, 1, 9),
            Interior::Ten => eq_8x4(hay, s + 1, needle, 1, 10),
            Interior::Eleven => eq_8x4(hay, s + 1, needle, 1, 11),
            Interior::Twelve => eq_8x4(hay, s + 1, needle, 1, 12),
            Interior::Generic => if m >= 2 {
                eq_run(hay, s + 1, needle, 1, m - 2)
            } else {
                true
            },
        };
        proof {
            assert(r == same_run(hay@, s + 1, needle@, 1, k));
            if k == m - 1 && m >= 1 {
                assert(hay@[s + 1 + (m - 2)] == needle@[1 + (m - 2)]);
            }
        }
        r
    }
}

} // verus!
