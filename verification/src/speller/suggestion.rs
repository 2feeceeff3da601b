//! A ranked correction suggestion.

use vstd::prelude::*;

use crate::types::Weight;

verus! {

/// One correction suggestion: the suggested surface form and the
/// accumulated weight of the search path that produced it; lower weights
/// rank better.
#[derive(Debug, PartialEq, Eq)]
pub struct Suggestion {
    pub value: String,
    pub weight: Weight,
}

impl Suggestion {
    pub fn new(value: String, weight: Weight) -> (s: Suggestion)
        ensures
            s.value == value,
            s.weight == weight,
    {
        Suggestion { value, weight }
    }
}

} // verus!
