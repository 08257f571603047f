//! A fixed-width row of byte lanes: the scalar model of a vector register.
//!
//! A register of `W` lanes offers a broadcast, a lane-wise equality, a
//! lane-wise `and`, and compaction into an unsigned bitmask (bit `k`, counted
//! from the lowest bit, set iff lane `k` has its high bit set). The bitmask is
//! read strictly as unsigned: no sign semantics apply to it.

use vstd::prelude::*;

verus! {

/// Lane `k` of the bitmask `m` is set.
pub open spec fn lane_bit(m: u32, k: int) -> bool {
    (m >> (k as u32)) & 1u32 == 1u32
}

/// Setting bit `k` of `m` (with `b` being 0 or 1) leaves every other bit alone.
proof fn lemma_or_bit(m: u32, b: u32, k: u32, j: u32)
    requires
        b <= 1,
        k < 32,
        j < 32,
    ensures
        ((m | (b << k)) >> j) & 1u32 == if j == k {
            ((m >> j) & 1u32) | b
        } else {
            (m >> j) & 1u32
        },
{
    assert(((m | (b << k)) >> j) & 1u32 == if j == k {
        ((m >> j) & 1u32) | b
    } else {
        (m >> j) & 1u32
    }) by (bit_vector)
        requires
            b <= 1,
            k < 32,
            j < 32,
    ;
}

/// The zero bitmask has no lane set.
pub proof fn lemma_zero_no_bits(k: u32)
    ensures
        (0u32 >> k) & 1u32 == 0u32,
{
    assert((0u32 >> k) & 1u32 == 0u32) by (bit_vector);
}

/// `W` byte lanes.
pub struct Lanes<const W: usize> {
    pub bytes: [u8; W],
}

impl<const W: usize> Lanes<W> {
    /// Every lane holds `b`.
    pub open spec fn is_splat(&self, b: u8) -> bool {
        forall|k: int| 0 <= k < W ==> #[trigger] self.bytes@[k] == b
    }

    /// A register with `b` in every lane.
    pub fn splat(b: u8) -> (r: Self)
        ensures
            r.is_splat(b),
    {
        Lanes { bytes: [b; W] }
    }

    /// The `W` bytes of `src` from `at` on.
    pub fn load(src: &[u8], at: usize) -> (r: Self)
        requires
            at + W <= src@.len(),
        ensures
            forall|k: int| 0 <= k < W ==> #[trigger] r.bytes@[k] == src@[at + k],
    {
        let n = src.len();
        let mut bytes = [0u8; W];
        let mut k: usize = 0;
        while k < W
            invariant
                k <= W,
                n == src@.len(),
                at + W <= n,
                forall|j: int| 0 <= j < k ==> #[trigger] bytes@[j] == src@[at + j],
            decreases W - k,
        {
            bytes[k] = src[at + k];
            k = k + 1;
        }
        Lanes { bytes }
    }

    /// The bytes of `src` from `at` on, zero past its end. Where fewer than
    /// `W` bytes remain, only those are copied into a zeroed scratch row, so
    /// nothing past `src` is ever read.
    pub fn load_staged(src: &[u8], at: usize) -> (r: Self)
        requires
            at <= src@.len(),
        ensures
            forall|k: int| 0 <= k < W ==> #[trigger] r.bytes@[k] == if at + k < src@.len() {
                src@[at + k]
            } else {
                0u8
            },
    {
        if W <= src.len() - at {
            return Self::load(src, at);
        }
        let n = src.len();
        let mut scratch = [0u8; W];
        let valid = n - at;
        let mut k: usize = 0;
        while k < valid
            invariant
                k <= valid,
                n == src@.len(),
                valid == n - at,
                valid < W,
                forall|j: int| 0 <= j < k ==> #[trigger] scratch@[j] == src@[at + j],
                forall|j: int| valid <= j < W ==> #[trigger] scratch@[j] == 0u8,
            decreases valid - k,
        {
            scratch[k] = src[at + k];
            k = k + 1;
        }
        Lanes { bytes: scratch }
    }

    /// Lane-wise equality: `0xFF` where the lanes agree, `0` elsewhere.
    pub fn eq_lanes(&self, other: &Self) -> (r: Self)
        ensures
            forall|k: int| 0 <= k < W ==> #[trigger] r.bytes@[k] == if self.bytes@[k]
                == other.bytes@[k] {
                0xFFu8
            } else {
                0u8
            },
    {
        let mut bytes = [0u8; W];
        let mut k: usize = 0;
        while k < W
            invariant
                k <= W,
                forall|j: int| 0 <= j < k ==> #[trigger] bytes@[j] == if self.bytes@[j]
                    == other.bytes@[j] {
                    0xFFu8
                } else {
                    0u8
                },
            decreases W - k,
        {
            bytes[k] = if self.bytes[k] == other.bytes[k] {
                0xFFu8
            } else {
                0u8
            };
            k = k + 1;
        }
        Lanes { bytes }
    }

    /// Lane-wise bitwise `and`.
    pub fn and(&self, other: &Self) -> (r: Self)
        ensures
            forall|k: int| 0 <= k < W ==> #[trigger] r.bytes@[k] == self.bytes@[k]
                & other.bytes@[k],
    {
        let mut bytes = [0u8; W];
        let mut k: usize = 0;
        while k < W
            invariant
                k <= W,
                forall|j: int| 0 <= j < k ==> #[trigger] bytes@[j] == self.bytes@[j]
                    & other.bytes@[j],
            decreases W - k,
        {
            bytes[k] = self.bytes[k] & other.bytes[k];
            k = k + 1;
        }
        Lanes { bytes }
    }

    /// The high bit of each lane, compacted into an unsigned bitmask.
    pub fn to_bitmask(&self) -> (r: u32)
        requires
            W <= 32,
        ensures
            forall|k: int| 0 <= k < W ==> lane_bit(r, k) == (self.bytes@[k] >= 0x80u8),
            forall|k: int| W <= k < 32 ==> !lane_bit(r, k),
    {
        let mut mask: u32 = 0;
        assert forall|j: int| 0 <= j < 32 implies !lane_bit(mask, j) by {
            lemma_zero_no_bits(j as u32);
        }
        let mut k: usize = 0;
        while k < W
            invariant
                k <= W,
                W <= 32,
                forall|j: int| 0 <= j < k ==> lane_bit(mask, j) == (self.bytes@[j] >= 0x80u8),
                forall|j: int| k <= j < 32 ==> !lane_bit(mask, j),
            decreases W - k,
        {
            let b = self.bytes[k];
            let high = (b >> 7u8) as u32;
            assert(high <= 1 && (high == 1) == (b >= 0x80u8)) by (bit_vector)
                requires
                    high == (b >> 7u8) as u32,
            ;
            let next = mask | (high << (k as u32));
            proof {
                assert forall|j: int| 0 <= j < 32 implies lane_bit(next, j) == if j == k {
                    lane_bit(mask, j) || high == 1
                } else {
                    lane_bit(mask, j)
                } by {
                    let jj: u32 = j as u32;
                    lemma_or_bit(mask, high, k as u32, jj);
                    assert(((mask >> jj) & 1u32) | high == 1u32 <==> (((mask >> jj) & 1u32)
                        == 1u32 || high == 1u32)) by (bit_vector)
                        requires
                            high <= 1,
                    ;
                }
            }
            mask = next;
            k = k + 1;
        }
        mask
    }
}

} // verus!
