//! How emitted text ends.
use crate::text::{chars_of, is_space, lemma_trailing_bounds, spaces, trim_end, trimmed_end};
use vstd::prelude::*;

verus! {

/// The line feed that code needs at its end, if it has none.
pub open spec fn end_line(text: Seq<char>) -> Seq<char> {
    if text.len() > 0 && text.last() == '\n' {
        Seq::empty()
    } else {
        "\n"@
    }
}

/// Text that ends in exactly one line feed.
pub open spec fn closed_text(s: Seq<char>) -> Seq<char> {
    trim_end(s) + "\n"@
}

/// The string with its trailing white space replaced by one line feed.
pub fn closed_string(s: &str) -> (r: String)
    ensures
        r@ == closed_text(s@),
{
    let mut r = trimmed_end(s);
    r.append("\n");
    r
}

/// Appends the line feed that `text` needs at its end, if it has none.
pub fn push_end_line(text: &str, o: &mut String)
    ensures
        final(o)@ == old(o)@ + end_line(text@),
{
    let v = chars_of(text);
    if v.len() == 0 || v[v.len() - 1] != '\n' {
        o.append("\n");
    } else {
        assert(o@ + Seq::<char>::empty() =~= o@);
    }
}

/// Closed text ends in one line feed, with no white space before it.
pub proof fn law_closed_text_ends_in_one_line_feed(s: Seq<char>)
    ensures
        closed_text(s).last() == '\n',
        closed_text(s).len() > 1 ==> !is_space(closed_text(s)[closed_text(s).len() - 2]),
{
    reveal_strlit("\n");
    lemma_trailing_bounds(s, spaces());
}

} // verus!
