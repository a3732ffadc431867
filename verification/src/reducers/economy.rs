//! What the profiles do to the text of a document: words, length and tokens.
use crate::ir::{
    block_text, blocks_text, field_lines, line, row_lines, text_lines, BlockView, DocumentView,
    FieldView,
};
use crate::reducers::cleanup::{
    has_content, lemma_filter_push, merge, nonempty, not_quote, tidy, tidy_all, tidy_items,
    unquote, unquote_all, without_repeats,
};
use crate::reducers::{
    compact, compact_unmerged, from_json, human, human_blocks, llm, COMPACT_MERGE_LIMIT,
};
use crate::text::{
    collapse, is_space, lemma_blank_has_no_words, lemma_collapse_len, lemma_one_space, lemma_words_add,
    lemma_words_of_collapse, trim, words,
};
use crate::tokens::tokens;
use vstd::prelude::*;

verus! {

// ---------------------------------------------------------------------------
// Text, block by block
// ---------------------------------------------------------------------------

/// Whether text is empty or ends in white space.
spec fn ends_blank(s: Seq<char>) -> bool {
    s.len() == 0 || is_space(s.last())
}

/// A line holds the words of its text, and one character more.
proof fn lemma_line(s: Seq<char>)
    ensures
        words(line(s)) == words(s),
        line(s).len() == s.len() + 1,
        ends_blank(line(s)),
{
    let feed = seq!['\n'];
    assert(is_space('\n'));
    assert(line(s) =~= s + feed);
    lemma_words_add(s, feed);
    lemma_one_space(feed);
    assert(words(s) + words(feed) =~= words(s));
}

/// Lines after other text end in white space.
proof fn lemma_lines_end_blank(
    parts: Seq<Seq<char>>,
    rows: Seq<Seq<Seq<char>>>,
    fields: Seq<FieldView>,
    sep: Seq<char>,
)
    ensures
        ends_blank(text_lines(parts)),
        ends_blank(row_lines(rows, sep)),
        ends_blank(field_lines(fields)),
{
    assert(is_space('\n'));
}

/// The text of a block ends in white space.
proof fn lemma_block_ends_blank(b: BlockView)
    ensures
        ends_blank(block_text(b)),
    decreases b,
{
    assert(is_space('\n'));
    match b {
        BlockView::Document { children } => lemma_blocks_end_blank(children),
        BlockView::Section { children } => lemma_blocks_end_blank(children),
        BlockView::List { items, .. } => {
            lemma_lines_end_blank(items, Seq::empty(), Seq::empty(), Seq::empty());
        },
        BlockView::Table { headers, rows } => {
            lemma_lines_end_blank(Seq::empty(), rows, Seq::empty(), " "@);
        },
        BlockView::Record { fields } => {
            lemma_lines_end_blank(Seq::empty(), Seq::empty(), fields, Seq::empty());
        },
        _ => {},
    }
}

/// The text of a list of blocks ends in white space.
proof fn lemma_blocks_end_blank(bs: Seq<BlockView>)
    ensures
        ends_blank(blocks_text(bs)),
    decreases bs,
{
    if bs.len() > 0 {
        lemma_blocks_end_blank(bs.drop_last());
        lemma_block_ends_blank(bs.last());
    }
}

/// One more block adds its own words and length.
proof fn lemma_push_text(bs: Seq<BlockView>, b: BlockView)
    ensures
        words(blocks_text(bs.push(b))) == words(blocks_text(bs)) + words(block_text(b)),
        blocks_text(bs.push(b)).len() == blocks_text(bs).len() + block_text(b).len(),
        blocks_text(Seq::<BlockView>::empty()) == Seq::<char>::empty(),
{
    lemma_blocks_end_blank(bs);
    assert(bs.push(b).drop_last() =~= bs);
    lemma_words_add(blocks_text(bs), block_text(b));
}

/// One more line adds its own words and length.
proof fn lemma_push_line(parts: Seq<Seq<char>>, s: Seq<char>)
    ensures
        words(text_lines(parts.push(s))) == words(text_lines(parts)) + words(s),
        text_lines(parts.push(s)).len() == text_lines(parts).len() + s.len() + 1,
{
    lemma_lines_end_blank(parts, Seq::empty(), Seq::empty(), Seq::empty());
    assert(parts.push(s).drop_last() =~= parts);
    lemma_line(s);
    lemma_words_add(text_lines(parts), line(s));
}

// ---------------------------------------------------------------------------
// Each step
// ---------------------------------------------------------------------------

/// Tidying list items keeps the words and makes nothing longer.
proof fn lemma_tidy_items_text(items: Seq<Seq<char>>)
    ensures
        words(text_lines(tidy_items(items))) == words(text_lines(items)),
        text_lines(tidy_items(items)).len() <= text_lines(items).len(),
    decreases items.len(),
{
    let f = |i: Seq<char>| collapse(i);
    if items.len() == 0 {
        lemma_filter_push(Seq::<Seq<char>>::empty(), Seq::empty(), nonempty());
        assert(items.map_values(f) =~= items);
        assert(tidy_items(items) =~= items);
    } else {
        let front = items.drop_last();
        let s = items.last();
        lemma_tidy_items_text(front);
        assert(front.push(s) =~= items);
        assert(items.map_values(f) =~= front.map_values(f).push(collapse(s)));
        lemma_filter_push(front.map_values(f), collapse(s), nonempty());
        lemma_push_line(front, s);
        lemma_push_line(tidy_items(front), collapse(s));
        lemma_words_of_collapse(s);
        lemma_collapse_len(s);
        if collapse(s).len() == 0 {
            assert(trim(collapse(s)) =~= Seq::empty());
            lemma_blank_has_no_words(collapse(s));
            assert(words(text_lines(front)) + words(s) =~= words(text_lines(front)));
        }
    }
}

/// Tidying a block keeps its words and makes nothing longer.
proof fn lemma_tidy_text(b: BlockView)
    ensures
        words(block_text(tidy(b))) == words(block_text(b)),
        block_text(tidy(b)).len() <= block_text(b).len(),
{
    match b {
        BlockView::Paragraph { text } => lemma_collapsed_line(text),
        BlockView::Heading { level, text } => lemma_collapsed_line(text),
        BlockView::Quote { text } => lemma_collapsed_line(text),
        BlockView::List { ordered, items } => lemma_tidy_items_text(items),
        _ => {},
    }
}

/// Collapsing a line keeps its words and makes nothing longer.
proof fn lemma_collapsed_line(s: Seq<char>)
    ensures
        words(line(collapse(s))) == words(line(s)),
        line(collapse(s)).len() <= line(s).len(),
{
    lemma_line(s);
    lemma_line(collapse(s));
    lemma_words_of_collapse(s);
    lemma_collapse_len(s);
}

/// A block without content has no words.
proof fn lemma_empty_text(b: BlockView)
    requires
        !has_content()(b),
    ensures
        words(block_text(b)).len() == 0,
{
    match b {
        BlockView::Paragraph { text } => {
            lemma_line(text);
            lemma_blank_has_no_words(text);
        },
        BlockView::Heading { level, text } => {
            lemma_line(text);
            lemma_blank_has_no_words(text);
        },
        BlockView::Quote { text } => {
            lemma_line(text);
            lemma_blank_has_no_words(text);
        },
        BlockView::List { ordered, items } => {
            assert(trim(block_text(b)) =~= Seq::empty());
            lemma_blank_has_no_words(block_text(b));
        },
        _ => {},
    }
}

/// The cleanup that all profiles share keeps the words and makes nothing longer.
proof fn lemma_human_text(bs: Seq<BlockView>)
    ensures
        words(blocks_text(human_blocks(bs))) == words(blocks_text(bs)),
        blocks_text(human_blocks(bs)).len() <= blocks_text(bs).len(),
    decreases bs.len(),
{
    if bs.len() == 0 {
        lemma_filter_push(bs, BlockView::Quote { text: Seq::empty() }, has_content());
        assert(tidy_all(bs) =~= bs);
        assert(bs =~= Seq::empty());
    } else {
        let front = bs.drop_last();
        let b = bs.last();
        lemma_human_text(front);
        assert(front.push(b) =~= bs);
        assert(tidy_all(bs) =~= tidy_all(front).push(tidy(b)));
        lemma_filter_push(tidy_all(front), tidy(b), has_content());
        lemma_push_text(front, b);
        lemma_push_text(human_blocks(front), tidy(b));
        lemma_tidy_text(b);
        if !has_content()(tidy(b)) {
            lemma_empty_text(tidy(b));
            let w = words(blocks_text(front));
            assert(w + words(block_text(b)) =~= w);
        }
    }
}

/// Quotes read as paragraphs do.
proof fn lemma_unquote_text(bs: Seq<BlockView>)
    ensures
        blocks_text(unquote_all(bs)) == blocks_text(bs),
    decreases bs.len(),
{
    if bs.len() == 0 {
        assert(unquote_all(bs) =~= bs);
    } else {
        let front = bs.drop_last();
        lemma_unquote_text(front);
        assert(unquote_all(bs).drop_last() =~= unquote_all(front));
        assert(unquote_all(bs).last() == unquote(bs.last()));
        assert(block_text(unquote(bs.last())) == block_text(bs.last()));
    }
}

/// Merging paragraphs keeps the words and the length.
proof fn lemma_merge_text(bs: Seq<BlockView>, limit: Option<usize>)
    ensures
        words(blocks_text(merge(bs, limit))) == words(blocks_text(bs)),
        blocks_text(merge(bs, limit)).len() == blocks_text(bs).len(),
    decreases bs.len(),
{
    if bs.len() > 0 {
        let front = bs.drop_last();
        let b = bs.last();
        let m = merge(front, limit);
        lemma_merge_text(front, limit);
        assert(front.push(b) =~= bs);
        lemma_push_text(front, b);
        lemma_push_text(m, b);
        if merge(bs, limit).len() == m.len() {
            let s = m.last()->Paragraph_text;
            let t = b->Paragraph_text;
            let kept = m.drop_last();
            let joint = s + " "@ + t;
            assert(kept.push(m.last()) =~= m);
            lemma_push_text(kept, m.last());
            lemma_push_text(kept, BlockView::Paragraph { text: joint });
            lemma_line(s);
            lemma_line(t);
            lemma_line(joint);
            reveal_strlit(" ");
            assert(is_space(' '));
            lemma_words_add(s, " "@);
            lemma_words_add(s + " "@, t);
            lemma_one_space(" "@);
            assert(words(joint) =~= words(s) + words(t));
            assert(words(blocks_text(kept)) + words(joint) =~= words(blocks_text(kept)) + words(s)
                + words(t));
        }
    }
}

/// A filter adds no words and no length.
proof fn lemma_filter_text(bs: Seq<BlockView>, p: spec_fn(BlockView) -> bool)
    ensures
        words(blocks_text(bs.filter(p))).len() <= words(blocks_text(bs)).len(),
        blocks_text(bs.filter(p)).len() <= blocks_text(bs).len(),
    decreases bs.len(),
{
    if bs.len() == 0 {
        reveal(Seq::filter);
        assert(bs.filter(p) =~= bs);
    } else {
        let front = bs.drop_last();
        lemma_filter_text(front, p);
        assert(front.push(bs.last()) =~= bs);
        lemma_filter_push(front, bs.last(), p);
        lemma_push_text(front, bs.last());
        lemma_push_text(front.filter(p), bs.last());
    }
}

/// Dropping repeats adds no words and no length.
proof fn lemma_repeats_text(bs: Seq<BlockView>)
    ensures
        words(blocks_text(without_repeats(bs))).len() <= words(blocks_text(bs)).len(),
        blocks_text(without_repeats(bs)).len() <= blocks_text(bs).len(),
    decreases bs.len(),
{
    if bs.len() > 0 {
        let front = bs.drop_last();
        lemma_repeats_text(front);
        assert(front.push(bs.last()) =~= bs);
        lemma_push_text(front, bs.last());
        lemma_push_text(without_repeats(front), bs.last());
    }
}

/// Tidying keeps the words and makes nothing longer.
proof fn lemma_tidy_all_text(bs: Seq<BlockView>)
    ensures
        words(blocks_text(tidy_all(bs))) == words(blocks_text(bs)),
        blocks_text(tidy_all(bs)).len() <= blocks_text(bs).len(),
    decreases bs.len(),
{
    if bs.len() == 0 {
        assert(tidy_all(bs) =~= bs);
    } else {
        let front = bs.drop_last();
        let b = bs.last();
        lemma_tidy_all_text(front);
        assert(front.push(b) =~= bs);
        assert(tidy_all(bs) =~= tidy_all(front).push(tidy(b)));
        lemma_push_text(front, b);
        lemma_push_text(tidy_all(front), tidy(b));
        lemma_tidy_text(b);
    }
}

// ---------------------------------------------------------------------------
// Laws
// ---------------------------------------------------------------------------

/// The `human` profile keeps every word, in order, and makes the text no longer: it costs no
/// more tokens than before.
pub proof fn law_human_keeps_words(doc: DocumentView)
    ensures
        words(blocks_text(human(doc).blocks)) == words(blocks_text(doc.blocks)),
        blocks_text(human(doc).blocks).len() <= blocks_text(doc.blocks).len(),
        tokens(blocks_text(human(doc).blocks)) <= tokens(blocks_text(doc.blocks)),
{
    lemma_human_text(doc.blocks);
}

/// Where nothing is trimmed, the `llm` profile keeps every word, in order, and makes the text
/// no longer: it costs no more tokens than before.
pub proof fn law_llm_keeps_words(doc: DocumentView)
    requires
        !from_json(doc.metadata),
    ensures
        words(blocks_text(llm(doc).blocks)) == words(blocks_text(doc.blocks)),
        blocks_text(llm(doc).blocks).len() <= blocks_text(doc.blocks).len(),
        tokens(blocks_text(llm(doc).blocks)) <= tokens(blocks_text(doc.blocks)),
{
    let kept = human_blocks(doc.blocks);
    lemma_human_text(doc.blocks);
    lemma_unquote_text(kept);
    lemma_merge_text(unquote_all(kept), None);
}

/// Where nothing is trimmed, the `compact` profile adds no words and makes the text no longer:
/// it costs no more tokens than before.
pub proof fn law_compact_adds_nothing(doc: DocumentView)
    requires
        !from_json(doc.metadata),
    ensures
        words(blocks_text(compact(doc).blocks)).len() <= words(blocks_text(doc.blocks)).len(),
        blocks_text(compact(doc).blocks).len() <= blocks_text(doc.blocks).len(),
        tokens(blocks_text(compact(doc).blocks)) <= tokens(blocks_text(doc.blocks)),
{
    let tidied = tidy_all(doc.blocks);
    let unquoted = tidied.filter(not_quote());
    let kept = unquoted.filter(has_content());
    lemma_tidy_all_text(doc.blocks);
    lemma_filter_text(tidied, not_quote());
    lemma_filter_text(unquoted, has_content());
    lemma_repeats_text(kept);
    lemma_merge_text(compact_unmerged(doc.blocks), Some(COMPACT_MERGE_LIMIT));
}

} // verus!
