//! The mathematical meaning of "the needle occurs in the haystack".

use vstd::prelude::*;

verus! {

/// `needle` occurs in `hay` starting at index `s`.
pub open spec fn matches_at(hay: Seq<u8>, needle: Seq<u8>, s: int) -> bool {
    0 <= s && s + needle.len() <= hay.len() && forall|j: int|
        0 <= j < needle.len() ==> #[trigger] hay[s + j] == needle[j]
}

/// `needle` occurs somewhere in `hay`.
pub open spec fn occurs_in(hay: Seq<u8>, needle: Seq<u8>) -> bool {
    exists|s: int| matches_at(hay, needle, s)
}

/// `needle` occurs in `hay` at some start index `s` with `lo <= s`.
pub open spec fn occurs_from(hay: Seq<u8>, needle: Seq<u8>, lo: int) -> bool {
    exists|s: int| lo <= s && matches_at(hay, needle, s)
}

/// The empty needle occurs in every haystack, the empty one included.
pub proof fn lemma_empty_needle_occurs(hay: Seq<u8>)
    ensures
        occurs_in(hay, Seq::<u8>::empty()),
{
    assert(matches_at(hay, Seq::<u8>::empty(), 0));
}

/// A needle longer than the haystack occurs nowhere in it.
pub proof fn lemma_long_needle_absent(hay: Seq<u8>, needle: Seq<u8>)
    requires
        needle.len() > hay.len(),
    ensures
        !occurs_in(hay, needle),
{
}

/// A needle placed at any offset of a haystack, whatever surrounds it, is
/// found there.
pub proof fn lemma_placed_needle_occurs(prefix: Seq<u8>, needle: Seq<u8>, suffix: Seq<u8>)
    ensures
        matches_at(prefix + needle + suffix, needle, prefix.len() as int),
        occurs_in(prefix + needle + suffix, needle),
{
    let hay = prefix + needle + suffix;
    let s = prefix.len() as int;
    assert forall|j: int| 0 <= j < needle.len() implies #[trigger] hay[s + j] == needle[j] by {
    }
    assert(matches_at(hay, needle, s));
}

} // verus!

