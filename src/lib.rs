//! Exact substring containment over byte slices, using a first/last-byte
//! candidate bitmask over fixed-width lanes, specialised interior
//! comparisons, and a rolling-checksum fallback for short tails.

pub mod interior;
pub mod kernel;
pub mod lanes;
pub mod model;
pub mod rolling;
pub mod search;
pub mod single;

pub use search::{
    strstr_avx2_rust_aligned, strstr_avx2_rust_fast, strstr_avx2_rust_fast_2,
    strstr_avx2_rust_simple, strstr_avx2_rust_simple_2, StrStrAVX2Searcher,
};
