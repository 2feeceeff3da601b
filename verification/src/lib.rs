//! Weighted finite-state-transducer spell-checking engine.
//!
//! The crate decodes binary transducer tables (an index table and a
//! transition table sharing one fixed-record, sentinel-aware layout) from a
//! byte region, and runs a weighted best-first search over the product of a
//! lexicon transducer and a mutator transducer to produce ranked correction
//! suggestions for a misspelled input word.

pub mod accuracy;
pub mod bytes;
pub mod caps;
pub mod speller;
pub mod transducer;
pub mod types;
