//! Text renderings of patterns.

use vstd::prelude::*;

use crate::pattern::Pattern;
use crate::pattern::emoji_chars;

verus! {

/// The pattern as five feedback squares, leftmost position first.
pub fn pattern_to_emoji(pattern: Pattern) -> (r: String)
    ensures
        r@ == emoji_chars(pattern@),
{
    pattern.to_emoji()
}

} // verus!
