//! Search for function-name suffixes whose 4-byte selector (the first four
//! bytes of the Keccak-256 digest of the canonical signature text) contains
//! many zero bytes.
//!
//! The verified core covers the suffix enumeration over the fixed 64-symbol
//! alphabet, the exact cardinality of the search space, the candidate-string
//! construction, the selector evaluation, and the grouping of matches by
//! zero-byte count. Thread and channel plumbing lives outside the library.

pub mod alphabet;
pub mod combinatorics;
pub mod config;
pub mod generator;
pub mod orchestrator;
pub mod searcher;
pub mod selector;
pub mod signature;
pub mod ui;
