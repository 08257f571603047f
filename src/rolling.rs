//! The rolling-checksum fallback: a window sum over the haystack, advanced a
//! byte at a time, filters the starts that an exact comparison confirms.
//!
//! Sums wrap modulo `usize::MAX + 1`, so no length of input can overflow
//! them; equal windows still have equal sums, which is all the filter needs.

use vstd::prelude::*;
use vstd::arithmetic::div_mod::{
    lemma_add_mod_noop,
    lemma_mod_add_multiples_vanish,
    lemma_mod_sub_multiples_vanish,
    lemma_small_mod,
    lemma_sub_mod_noop,
};
use crate::interior::{eq_run, same_run};
use crate::model::{matches_at, occurs_from};

verus! {

/// The modulus of the wrapping sums.
pub open spec fn modulus() -> int {
    usize::MAX as int + 1
}

/// The sum of the bytes of `s`, as an unbounded integer.
pub open spec fn byte_total(s: Seq<u8>) -> int
    decreases s.len(),
{
    if s.len() == 0 {
        0
    } else {
        byte_total(s.drop_last()) + s.last() as int
    }
}

/// The wrapping byte sum of `s`.
pub open spec fn checksum(s: Seq<u8>) -> int {
    byte_total(s) % modulus()
}

proof fn lemma_total_nonneg(s: Seq<u8>)
    ensures
        byte_total(s) >= 0,
    decreases s.len(),
{
    if s.len() > 0 {
        lemma_total_nonneg(s.drop_last());
    }
}

/// Extending a window by one byte at its end adds that byte.
proof fn lemma_total_push(s: Seq<u8>, a: int, b: int)
    requires
        0 <= a <= b < s.len(),
    ensures
        byte_total(s.subrange(a, b + 1)) == byte_total(s.subrange(a, b)) + s[b] as int,
{
    assert(s.subrange(a, b + 1).drop_last() =~= s.subrange(a, b));
}

/// Dropping the first byte of a window subtracts that byte.
proof fn lemma_total_pop_front(s: Seq<u8>, a: int, b: int)
    requires
        0 <= a < b <= s.len(),
    ensures
        byte_total(s.subrange(a, b)) == s[a] as int + byte_total(s.subrange(a + 1, b)),
    decreases b - a,
{
    if b == a + 1 {
        assert(s.subrange(a, b).drop_last() =~= Seq::<u8>::empty());
        assert(s.subrange(a + 1, b) =~= Seq::<u8>::empty());
    } else {
        lemma_total_push(s, a, b - 1);
        lemma_total_push(s, a + 1, b - 1);
        lemma_total_pop_front(s, a, b - 1);
    }
}

/// Adding a byte to a wrapped sum wraps the sum with that byte added.
proof fn lemma_wrap_add(hs: usize, total: int, b: u8)
    requires
        hs == total % modulus(),
    ensures
        hs.wrapping_add(b as usize) == (total + b as int) % modulus(),
{
    let m = modulus();
    lemma_small_mod(b as nat, m as nat);
    lemma_add_mod_noop(total, b as int, m);
    if hs + b < m {
        lemma_small_mod((hs + b) as nat, m as nat);
    } else {
        lemma_mod_add_multiples_vanish(hs + b - m, m);
        lemma_small_mod((hs + b - m) as nat, m as nat);
    }
}

/// Taking a byte from a wrapped sum wraps the sum with that byte taken away.
proof fn lemma_wrap_sub(hs: usize, total: int, b: u8)
    requires
        hs == total % modulus(),
    ensures
        hs.wrapping_sub(b as usize) == (total - b as int) % modulus(),
{
    let m = modulus();
    lemma_small_mod(b as nat, m as nat);
    lemma_sub_mod_noop(total, b as int, m);
    if hs >= b {
        lemma_small_mod((hs - b) as nat, m as nat);
    } else {
        lemma_mod_sub_multiples_vanish(hs - b + m, m);
        lemma_small_mod((hs - b + m) as nat, m as nat);
    }
}

/// The wrapping sum of the bytes of `bytes`.
pub fn byte_sum(bytes: &[u8]) -> (r: usize)
    ensures
        r == checksum(bytes@),
{
    let mut sum: usize = 0;
    let mut k: usize = 0;
    proof {
        assert(bytes@.subrange(0, 0) =~= Seq::<u8>::empty());
        lemma_small_mod(0, modulus() as nat);
    }
    while k < bytes.len()
        invariant
            k <= bytes@.len(),
            sum == checksum(bytes@.subrange(0, k as int)),
        decreases bytes@.len() - k,
    {
        proof {
            lemma_total_push(bytes@, 0, k as int);
            lemma_wrap_add(sum, byte_total(bytes@.subrange(0, k as int)), bytes@[k as int]);
        }
        sum = sum.wrapping_add(bytes[k] as usize);
        k = k + 1;
    }
    assert(bytes@.subrange(0, bytes@.len() as int) =~= bytes@);
    sum
}

/// Whether `needle` occurs in `hay` at or after `start`, by rolling the
/// window sum and confirming each start whose sum equals `needle_sum`.
pub fn rolling_search(hay: &[u8], start: usize, needle: &[u8], needle_sum: usize) -> (r: bool)
    requires
        1 <= needle.len(),
        start <= hay.len(),
        needle_sum == checksum(needle@),
    ensures
        r == occurs_from(hay@, needle@, start as int),
{
    let n = hay.len();
    let m = needle.len();
    if n - start < m {
        return false;
    }
    let mut hs: usize = 0;
    let mut k: usize = start;
    proof {
        assert(hay@.subrange(start as int, start as int) =~= Seq::<u8>::empty());
        lemma_small_mod(0, modulus() as nat);
    }
    while k < start + m - 1
        invariant
            n == hay.len(),
            start <= k <= start + m - 1,
            start + m <= n,
            hs == checksum(hay@.subrange(start as int, k as int)),
        decreases start + m - 1 - k,
    {
        proof {
            lemma_total_push(hay@, start as int, k as int);
            lemma_wrap_add(hs, byte_total(hay@.subrange(start as int, k as int)), hay@[k as int]);
        }
        hs = hs.wrapping_add(hay[k] as usize);
        k = k + 1;
    }
    let mut i: usize = start + m - 1;
    while i < n
        invariant
            n == hay.len(),
            m == needle.len(),
            1 <= m,
            start + m - 1 <= i <= n,
            needle_sum == checksum(needle@),
            hs == checksum(hay@.subrange(i - (m - 1), i as int)),
            forall|s: int| start <= s < i - (m - 1) ==> !matches_at(hay@, needle@, s),
        decreases n - i,
    {
        proof {
            lemma_total_push(hay@, i - (m - 1), i as int);
            lemma_wrap_add(hs, byte_total(hay@.subrange(i - (m - 1), i as int)), hay@[i as int]);
        }
        hs = hs.wrapping_add(hay[i] as usize);
        i = i + 1;
        let ghost w = (i - m) as int;
        if hs == needle_sum && eq_run(hay, i - m, needle, 0, m) {
            proof {
                assert forall|j: int| 0 <= j < m implies #[trigger] hay@[w + j] == needle@[j] by {
                    assert(hay@[w + j] == needle@[0 + j]);
                }
                assert(matches_at(hay@, needle@, w));
            }
            return true;
        }
        proof {
            if matches_at(hay@, needle@, w) {
                assert forall|j: int| 0 <= j < m implies #[trigger] hay@.subrange(w, i as int)[j]
                    == needle@[j] by {
                    assert(hay@[w + j] == needle@[j]);
                }
                assert(hay@.subrange(w, i as int) =~= needle@);
            }
            lemma_total_pop_front(hay@, w, i as int);
            lemma_wrap_sub(hs, byte_total(hay@.subrange(w, i as int)), hay@[w]);
        }
        hs = hs.wrapping_sub(hay[i - m] as usize);
    }
    false
}

} // verus!
