//! Anagram search over a newline-delimited corpus of single-byte text.
//!
//! A query is reduced once to three summaries of its bytes: their number, a
//! 64-bit presence mask and an exact histogram. Every line of the corpus is
//! then held against them, cheapest test first. The corpus can be cut into
//! line-aligned chunks that are scanned independently; joined in chunk order
//! the results equal those of one scan over the whole corpus.

pub mod classify;
pub mod coordinator;
pub mod latin1;
pub mod lines;
pub mod needle;
pub mod partition;
pub mod permutation;
pub mod scan;
