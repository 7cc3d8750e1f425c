//! Vectorized-style substring search: a windowed two-byte-filter scan with a
//! linear fallback, both proved to return the leftmost occurrence of the
//! needle in the haystack.

pub mod model;
pub mod search;

pub use search::find_substr;
pub use search::find_substr_simd;
pub use search::test_baseline;
pub use search::test_simd_v1;
