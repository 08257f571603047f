//! Search for a needle of one byte.

use vstd::prelude::*;
use vstd::slice::slice_subrange;
use crate::model::{matches_at, occurs_from};

verus! {

/// Relies on `memchr::memchr`: the index of the first occurrence of `byte`
/// in `hay`, or `None` when the byte does not occur.
#[verifier::external_body]
fn first_index_of(byte: u8, hay: &[u8]) -> (r: Option<usize>)
    ensures
        match r {
            Some(i) => i < hay@.len() && hay@[i as int] == byte && forall|j: int|
                0 <= j < i ==> hay@[j] != byte,
            None => forall|j: int| 0 <= j < hay@.len() ==> hay@[j] != byte,
        },
{
    memchr::memchr(byte, hay)
}

/// Whether a one-byte needle occurs in `hay` at or after `start`.
pub fn contains_byte(hay: &[u8], start: usize, needle: &[u8]) -> (r: bool)
    requires
        needle@.len() == 1,
        start <= hay@.len(),
    ensures
        r == occurs_from(hay@, needle@, start as int),
{
    let tail = slice_subrange(hay, start, hay.len());
    let found = first_index_of(needle[0], tail);
    proof {
        assert forall|s: int| matches_at(hay@, needle@, s) <==> 0 <= s < hay@.len()
            && hay@[s] == needle@[0] by {
            if 0 <= s < hay@.len() && hay@[s] == needle@[0] {
                assert forall|j: int| 0 <= j < needle@.len() implies #[trigger] hay@[s + j]
                    == needle@[j] by {
                    assert(j == 0);
                }
            }
            if matches_at(hay@, needle@, s) {
                assert(hay@[s + 0] == needle@[0]);
            }
        }
    }
    match found {
        Some(i) => {
            assert(tail@[i as int] == hay@[start + i]);
            assert(matches_at(hay@, needle@, start + i));
            true
        },
        None => {
            assert forall|s: int| start <= s implies !matches_at(hay@, needle@, s) by {
                if matches_at(hay@, needle@, s) {
                    assert(tail@[s - start] == hay@[s]);
                }
            }
            false
        },
    }
}

} // verus!
