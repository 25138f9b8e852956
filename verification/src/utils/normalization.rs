use vstd::prelude::*;

use crate::utils::patterns::{regex_compiles, regex_replace_all, Pattern};

verus! {

/// Runs of characters that are neither Unicode letters nor Unicode numbers.
pub open spec fn word_separators() -> Seq<char> {
    "[^\\p{L}\\p{N}]+"@
}

/// Turns free text into words separated by single spaces.
pub struct Normalizer {
    pattern: Pattern,
}

impl Normalizer {
    /// The pattern is the one of word separators.
    #[verifier::type_invariant]
    closed spec fn wf(&self) -> bool {
        self.pattern.source() == word_separators()
    }

    /// A normalizer, or None where the pattern of word separators does not
    /// compile.
    pub fn new() -> (r: Option<Self>)
        ensures
            r is Some <==> regex_compiles(word_separators()),
    {
        match Pattern::new("[^\\p{L}\\p{N}]+") {
            Some(pattern) => Some(Self { pattern }),
            None => None,
        }
    }

    /// The text with every run of characters other than letters and numbers
    /// replaced by one space.
    pub fn normalize(&self, input: &str) -> (r: String)
        ensures
            r@ == regex_replace_all(word_separators(), input@, " "@),
    {
        proof {
            use_type_invariant(self);
        }
        self.pattern.replace_all(input, " ")
    }
}

} // verus!
