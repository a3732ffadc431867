//! Approximate token counting.
//!
//! A cheap heuristic without a vocabulary, used to report how many tokens a document costs
//! before and after compression.
use crate::text::{count_words, words};
use vstd::prelude::*;

verus! {

/// About four characters per token, but never fewer tokens than words.
pub open spec fn tokens(text: Seq<char>) -> nat {
    let by_chars = (text.len() + 3) / 4;
    let by_words = words(text).len();
    if by_chars >= by_words {
        by_chars
    } else {
        by_words
    }
}

/// Rough estimate: four characters per token, floored at the word count so that short,
/// word-dense text is never under-counted.
pub fn approx_tokens(text: &str) -> (n: usize)
    ensures
        n == tokens(text@),
{
    let chars: usize = text.unicode_len();
    let words: usize = count_words(text);
    let by_chars: usize = chars / 4 + (if chars % 4 == 0 {
        0
    } else {
        1
    });
    if by_chars >= words {
        by_chars
    } else {
        words
    }
}

/// The estimate is never under the word count, and never under a quarter of the characters.
pub proof fn law_tokens_floor(text: Seq<char>)
    ensures
        tokens(text) >= words(text).len(),
        4 * tokens(text) >= text.len(),
        tokens(Seq::<char>::empty()) == 0,
{
}

/// The estimate is the least number that is neither under the word count nor under a quarter of
/// the characters.
pub proof fn law_tokens_are_least(text: Seq<char>, n: nat)
    requires
        n >= words(text).len(),
        4 * n >= text.len(),
    ensures
        tokens(text) <= n,
{
}

} // verus!
