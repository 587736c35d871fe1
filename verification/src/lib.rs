//! Post-processing pipeline for rendered HTML documentation pages.
//!
//! Each transform stage consumes one page of HTML and produces a new one:
//! heading anchors, code-block class normalization, playground rewriting,
//! and a template-substitution pass over a mergeable dictionary.

pub mod dict;
pub mod post_processor;
pub mod text;

use vstd::prelude::*;

verus! {

/// True when `c` is a decimal digit.
pub open spec fn is_digit(c: char) -> bool {
    '0' <= c && c <= '9'
}

/// Executable check that a character is a decimal digit.
pub fn digit_check(c: char) -> (r: bool)
    ensures
        r == is_digit(c),
{
    '0' <= c && c <= '9'
}

} // verus!
