//! What holds of plain text: which lines make which paragraph.
use crate::extractors::plain::{
    blank, lemma_paragraph, lemma_solid_len_bound, paragraphs, solid_len,
};
use crate::extractors::html_laws::lemma_words_of_parts;
use crate::ir::BlockView;
use crate::reducers::prose_laws::{law_collapsed_text_is_spaced_once, spaced_once};
use crate::text::{join, lemma_blank_has_no_words, words};
use vstd::prelude::*;

verus! {

/// The words of lines, in order.
pub open spec fn words_of_lines(ls: Seq<Seq<char>>) -> Seq<Seq<char>>
    decreases ls.len(),
{
    if ls.len() == 0 {
        Seq::empty()
    } else {
        words(ls[0]) + words_of_lines(ls.skip(1))
    }
}

/// The words of joined lines are those of the lines.
proof fn lemma_words_of_lines(ls: Seq<Seq<char>>)
    ensures
        words(join(ls, " "@)) == words_of_lines(ls),
    decreases ls.len(),
{
    if ls.len() == 0 {
        lemma_blank_has_no_words(Seq::empty());
        assert(crate::text::trim(Seq::<char>::empty()) =~= Seq::empty());
        assert(join(ls, " "@) =~= Seq::empty());
        assert(words(join(ls, " "@)) =~= words_of_lines(ls));
    } else {
        lemma_words_of_lines(ls.skip(1));
        lemma_words_of_parts(seq![ls[0]], ls.skip(1));
        assert(seq![ls[0]] + ls.skip(1) =~= ls);
        assert(join(seq![ls[0]], " "@) == ls[0]);
    }
}

/// Lines that are not blank, next to each other, make one paragraph: their words in order, a
/// blank between them.
pub proof fn law_lines_make_a_paragraph(run: Seq<Seq<char>>)
    requires
        run.len() > 0,
        forall|i: int| 0 <= i < run.len() ==> words(#[trigger] run[i]).len() > 0,
    ensures
        paragraphs(run).len() == 1,
        paragraphs(run)[0] matches BlockView::Paragraph { text } && words(text) == words_of_lines(
            run,
        ) && spaced_once(text),
{
    assert forall|i: int| 0 <= i < run.len() implies !blank(#[trigger] run[i]) by {
        assert(words(run[i]).len() > 0);
        lemma_blank_has_no_words(run[i]);
    }
    let none = Seq::<Seq<char>>::empty();
    lemma_paragraph(run, none);
    assert(run + none =~= run);
    assert(paragraphs(none) =~= Seq::empty());
    lemma_words_of_lines(run);
    law_collapsed_text_is_spaced_once(join(run, " "@));
}

/// A blank line parts paragraphs: the text before it makes its own, and so does the text after
/// it, in order. A blank line makes none itself.
pub proof fn law_blank_lines_part_paragraphs(
    a: Seq<Seq<char>>,
    line: Seq<char>,
    b: Seq<Seq<char>>,
)
    requires
        words(line).len() == 0,
    ensures
        paragraphs(a.push(line) + b) == paragraphs(a) + paragraphs(b),
    decreases a.len(),
{
    lemma_blank_has_no_words(line);
    let all = a.push(line) + b;
    if a.len() == 0 {
        assert(all.skip(1) =~= b);
        assert(paragraphs(a) + paragraphs(b) =~= paragraphs(b));
    } else if blank(a[0]) {
        assert(all.skip(1) =~= a.skip(1).push(line) + b);
        law_blank_lines_part_paragraphs(a.skip(1), line, b);
    } else {
        lemma_solid_len_bound(a.skip(1));
        let n = 1 + solid_len(a.skip(1)) as int;
        lemma_solid_len_stops(a.skip(1), line, b);
        assert(all.skip(1) =~= a.skip(1).push(line) + b);
        assert(all.take(n) =~= a.take(n));
        assert(all.skip(n) =~= a.skip(n).push(line) + b);
        law_blank_lines_part_paragraphs(a.skip(n), line, b);
        assert(paragraphs(all) =~= paragraphs(a) + paragraphs(b));
    }
}

/// A run of lines does not go over a blank one.
proof fn lemma_solid_len_stops(a: Seq<Seq<char>>, line: Seq<char>, b: Seq<Seq<char>>)
    requires
        blank(line),
    ensures
        solid_len(a.push(line) + b) == solid_len(a),
    decreases a.len(),
{
    let all = a.push(line) + b;
    if a.len() > 0 && !blank(a[0]) {
        assert(all.skip(1) =~= a.skip(1).push(line) + b);
        lemma_solid_len_stops(a.skip(1), line, b);
    }
}

} // verus!
