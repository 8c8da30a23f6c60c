//! Exact substring search over byte sequences.
//!
//! Every searcher in this crate decides the same question: does the needle
//! occur, byte for byte, as a contiguous window of the haystack? The answer
//! is stated once, as the spec function [`window::occurs`], and every
//! searcher is proved against it.

pub mod error;
pub mod family;
pub mod fingerprint;
pub mod harness;
pub mod naive;
mod noise;
pub mod oracle;
pub mod partition;
pub mod sum;
pub mod window;
pub mod xor;
