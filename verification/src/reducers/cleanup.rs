//! Cleanup and merging of prose blocks: the steps that reducers are made of.
use crate::ir::{block_views, Block, BlockView};
use crate::text::{collapse, collapsed, is_blank, trim, views};
use vstd::hash_set::StringHashSet;
use vstd::prelude::*;

verus! {

// ---------------------------------------------------------------------------
// Whitespace
// ---------------------------------------------------------------------------

/// Tells apart what is not empty.
pub open spec fn nonempty() -> spec_fn(Seq<char>) -> bool {
    |s: Seq<char>| s.len() > 0
}

/// Items with whitespace collapsed, without those that were blank.
pub open spec fn tidy_items(items: Seq<Seq<char>>) -> Seq<Seq<char>> {
    items.map_values(|i: Seq<char>| collapse(i)).filter(nonempty())
}

/// A prose block with whitespace collapsed; any other block unchanged.
pub open spec fn tidy(b: BlockView) -> BlockView {
    match b {
        BlockView::Paragraph { text } => BlockView::Paragraph { text: collapse(text) },
        BlockView::Heading { level, text } => BlockView::Heading { level, text: collapse(text) },
        BlockView::Quote { text } => BlockView::Quote { text: collapse(text) },
        BlockView::List { ordered, items } => BlockView::List { ordered, items: tidy_items(items) },
        _ => b,
    }
}

/// Each block tidied.
pub open spec fn tidy_all(bs: Seq<BlockView>) -> Seq<BlockView> {
    bs.map_values(|b: BlockView| tidy(b))
}

/// One more element in front of a filter.
pub proof fn lemma_filter_push<A>(s: Seq<A>, x: A, p: spec_fn(A) -> bool)
    ensures
        s.push(x).filter(p) == if p(x) {
            s.filter(p).push(x)
        } else {
            s.filter(p)
        },
        Seq::<A>::empty().filter(p) == Seq::<A>::empty(),
{
    reveal(Seq::filter);
    assert(s.push(x).drop_last() =~= s);
}

/// Items with whitespace collapsed, without those that were blank.
fn tidied_items(items: Vec<String>) -> (r: Vec<String>)
    ensures
        views(r@) == tidy_items(views(items@)),
{
    let ghost all = views(items@).map_values(|i: Seq<char>| collapse(i));
    let mut r: Vec<String> = Vec::new();
    proof {
        lemma_filter_push(Seq::<Seq<char>>::empty(), Seq::empty(), nonempty());
        assert(all.take(0) =~= Seq::empty());
        assert(views(r@) =~= Seq::empty());
    }
    for i in 0..items.len()
        invariant
            all == views(items@).map_values(|i: Seq<char>| collapse(i)),
            views(r@) == all.take(i as int).filter(nonempty()),
    {
        let item = collapsed(items[i].as_str());
        proof {
            lemma_filter_push(all.take(i as int), all[i as int], nonempty());
            assert(all.take(i + 1) =~= all.take(i as int).push(all[i as int]));
            assert(views(r@.push(item)) =~= views(r@).push(item@));
        }
        if !item.as_str().is_empty() {
            r.push(item);
        }
    }
    assert(all.take(items.len() as int) =~= all);
    r
}

/// A prose block with whitespace collapsed; any other block unchanged.
fn tidied(b: Block) -> (r: Block)
    ensures
        r@ == tidy(b@),
{
    match b {
        Block::Paragraph { text } => Block::Paragraph { text: collapsed(text.as_str()) },
        Block::Heading { level, text } => Block::Heading {
            level,
            text: collapsed(text.as_str()),
        },
        Block::Quote { text } => Block::Quote { text: collapsed(text.as_str()) },
        Block::List { ordered, items } => Block::List { ordered, items: tidied_items(items) },
        other => other,
    }
}

/// Collapses runs of whitespace in the prose blocks.
///
/// List items that were only whitespace are dropped. Code and structured blocks are left as
/// they are, and containers are not entered.
pub fn collapse_ws(blocks: Vec<Block>) -> (r: Vec<Block>)
    ensures
        block_views(r@) == tidy_all(block_views(blocks@)),
{
    let mut r: Vec<Block> = Vec::new();
    for b in it: blocks
        invariant
            it.seq() == blocks@,
            r@.len() == it.index(),
            forall|j: int| 0 <= j < it.index() ==> r@[j]@ == tidy(blocks@[j]@),
    {
        r.push(tidied(b));
    }
    assert(block_views(r@) =~= tidy_all(block_views(blocks@)));
    r
}

// ---------------------------------------------------------------------------
// Dropping blocks
// ---------------------------------------------------------------------------

/// Tells apart the blocks that carry content.
pub open spec fn has_content() -> spec_fn(BlockView) -> bool {
    |b: BlockView|
        match b {
            BlockView::Paragraph { text } => trim(text).len() > 0,
            BlockView::Heading { text, .. } => trim(text).len() > 0,
            BlockView::Quote { text } => trim(text).len() > 0,
            BlockView::List { items, .. } => items.len() > 0,
            _ => true,
        }
}

/// Tells apart the blocks that are not quotes.
pub open spec fn not_quote() -> spec_fn(BlockView) -> bool {
    |b: BlockView| !(b is Quote)
}

/// Whether a block carries content.
fn carries_content(b: &Block) -> (r: bool)
    ensures
        r == has_content()(b@),
{
    match b {
        Block::Paragraph { text } => !is_blank(text.as_str()),
        Block::Heading { text, .. } => !is_blank(text.as_str()),
        Block::Quote { text } => !is_blank(text.as_str()),
        Block::List { items, .. } => items.len() > 0,
        _ => true,
    }
}

/// What `push` does to the views of a list of blocks.
pub broadcast proof fn lemma_block_views_push(v: Seq<Block>, b: Block)
    ensures
        #[trigger] block_views(v.push(b)) == block_views(v).push(b@),
{
    assert(block_views(v.push(b)) =~= block_views(v).push(b@));
}

/// The blocks up to `i`, one step on.
pub proof fn lemma_block_views_take(v: Seq<Block>, i: int)
    requires
        0 <= i < v.len(),
    ensures
        block_views(v).take(i + 1) == block_views(v).take(i).push(v[i]@),
        block_views(v).take(0) == Seq::<BlockView>::empty(),
        block_views(v).take(v.len() as int) == block_views(v),
{
    assert(block_views(v).take(i + 1) =~= block_views(v).take(i).push(v[i]@));
    assert(block_views(v).take(0) =~= Seq::empty());
    assert(block_views(v).take(v.len() as int) =~= block_views(v));
}

/// Drops blocks that carry no content.
pub fn drop_empty(blocks: Vec<Block>) -> (r: Vec<Block>)
    ensures
        block_views(r@) == block_views(blocks@).filter(has_content()),
{
    broadcast use lemma_block_views_push;

    let ghost all = block_views(blocks@);
    let mut r: Vec<Block> = Vec::new();
    proof {
        lemma_filter_push(all, BlockView::Quote { text: Seq::empty() }, has_content());
        assert(all.take(0) =~= Seq::empty());
        assert(block_views(r@) =~= Seq::empty());
        assert(all.take(all.len() as int) =~= all);
    }
    for b in it: blocks
        invariant
            it.seq() == blocks@,
            all == block_views(blocks@),
            block_views(r@) == all.take(it.index()).filter(has_content()),
    {
        proof {
            lemma_block_views_take(blocks@, it.index());
            lemma_filter_push(all.take(it.index()), b@, has_content());
        }
        if carries_content(&b) {
            r.push(b);
        }
    }
    r
}

/// Drops quotes, the quoted prose with them.
pub fn drop_quotes(blocks: Vec<Block>) -> (r: Vec<Block>)
    ensures
        block_views(r@) == block_views(blocks@).filter(not_quote()),
{
    broadcast use lemma_block_views_push;

    let ghost all = block_views(blocks@);
    let mut r: Vec<Block> = Vec::new();
    proof {
        lemma_filter_push(all, BlockView::Quote { text: Seq::empty() }, not_quote());
        assert(all.take(0) =~= Seq::empty());
        assert(block_views(r@) =~= Seq::empty());
        assert(all.take(all.len() as int) =~= all);
    }
    for b in it: blocks
        invariant
            it.seq() == blocks@,
            all == block_views(blocks@),
            block_views(r@) == all.take(it.index()).filter(not_quote()),
    {
        proof {
            lemma_block_views_take(blocks@, it.index());
            lemma_filter_push(all.take(it.index()), b@, not_quote());
        }
        match b {
            Block::Quote { .. } => {},
            other => {
                r.push(other);
            },
        }
    }
    r
}

// ---------------------------------------------------------------------------
// Quotes to paragraphs
// ---------------------------------------------------------------------------

/// A quote as the paragraph that it quotes; any other block unchanged.
pub open spec fn unquote(b: BlockView) -> BlockView {
    match b {
        BlockView::Quote { text } => BlockView::Paragraph { text },
        _ => b,
    }
}

/// Each quote as a paragraph.
pub open spec fn unquote_all(bs: Seq<BlockView>) -> Seq<BlockView> {
    bs.map_values(|b: BlockView| unquote(b))
}

/// Turns quotes into paragraphs.
pub fn fold_quotes(blocks: Vec<Block>) -> (r: Vec<Block>)
    ensures
        block_views(r@) == unquote_all(block_views(blocks@)),
{
    let mut r: Vec<Block> = Vec::new();
    for b in it: blocks
        invariant
            it.seq() == blocks@,
            r@.len() == it.index(),
            forall|j: int| 0 <= j < it.index() ==> r@[j]@ == unquote(blocks@[j]@),
    {
        match b {
            Block::Quote { text } => r.push(Block::Paragraph { text }),
            other => r.push(other),
        }
    }
    assert(block_views(r@) =~= unquote_all(block_views(blocks@)));
    r
}

// ---------------------------------------------------------------------------
// Duplicates
// ---------------------------------------------------------------------------

/// `bs` without the paragraphs that occur earlier in it.
pub open spec fn without_repeats(bs: Seq<BlockView>) -> Seq<BlockView>
    decreases bs.len(),
{
    if bs.len() == 0 {
        bs
    } else {
        let kept = without_repeats(bs.drop_last());
        if bs.last() is Paragraph && bs.drop_last().contains(bs.last()) {
            kept
        } else {
            kept.push(bs.last())
        }
    }
}

/// Drops paragraphs whose text occurred before; the first occurrence stays.
pub fn drop_repeats(blocks: Vec<Block>) -> (r: Vec<Block>)
    ensures
        block_views(r@) == without_repeats(block_views(blocks@)),
{
    broadcast use lemma_block_views_push;

    let ghost all = block_views(blocks@);
    let mut seen = StringHashSet::new();
    let mut r: Vec<Block> = Vec::new();
    proof {
        assert(all.take(0) =~= Seq::empty());
        assert(block_views(r@) =~= Seq::empty());
        assert(all.take(all.len() as int) =~= all);
    }
    for b in it: blocks
        invariant
            it.seq() == blocks@,
            all == block_views(blocks@),
            forall|t: Seq<char>| #[trigger]
                seen@.contains(t) <==> all.take(it.index()).contains(
                    BlockView::Paragraph { text: t },
                ),
            block_views(r@) == without_repeats(all.take(it.index())),
    {
        let ghost i = it.index();
        let ghost before = all.take(i);
        let ghost view = b@;
        proof {
            lemma_block_views_take(blocks@, i);
            assert(all.take(i + 1).drop_last() =~= before);
            assert forall|t: Seq<char>|
                before.push(view).contains(BlockView::Paragraph { text: t }) <==> (
                before.contains(BlockView::Paragraph { text: t }) || view
                    == (BlockView::Paragraph { text: t })) by {
                let p = BlockView::Paragraph { text: t };
                if before.contains(p) {
                    let j = choose|j: int| 0 <= j < before.len() && before[j] == p;
                    assert(before.push(view)[j] == p);
                }
                if view == p {
                    assert(before.push(view)[i] == p);
                }
            }
        }
        match b {
            Block::Paragraph { text } => {
                if seen.insert(text.clone()) {
                    r.push(Block::Paragraph { text });
                }
            },
            other => r.push(other),
        }
    }
    r
}

// ---------------------------------------------------------------------------
// Merging
// ---------------------------------------------------------------------------

/// Whether paragraphs `a` and `b` fit into one of fewer than `limit` characters.
pub open spec fn fits(a: Seq<char>, b: Seq<char>, limit: Option<usize>) -> bool {
    limit matches Some(n) ==> a.len() + 1 + b.len() < n
}

/// Consecutive paragraphs joined by a space, as long as they fit.
pub open spec fn merge(bs: Seq<BlockView>, limit: Option<usize>) -> Seq<BlockView>
    decreases bs.len(),
{
    if bs.len() == 0 {
        bs
    } else {
        let merged = merge(bs.drop_last(), limit);
        if merged.len() > 0 && merged.last() is Paragraph && bs.last() is Paragraph && fits(
            merged.last()->Paragraph_text,
            bs.last()->Paragraph_text,
            limit,
        ) {
            merged.drop_last().push(
                BlockView::Paragraph {
                    text: merged.last()->Paragraph_text + " "@ + bs.last()->Paragraph_text,
                },
            )
        } else {
            merged.push(bs.last())
        }
    }
}

/// Whether paragraphs `a` and `b` fit into one of fewer than `limit` characters.
fn fit(a: &str, b: &str, limit: Option<usize>) -> (r: bool)
    ensures
        r == fits(a@, b@, limit),
{
    match limit {
        Some(n) => (a.unicode_len() as u128) + 1 + (b.unicode_len() as u128) < n as u128,
        None => true,
    }
}

/// Joins consecutive paragraphs by a space, as long as they fit into `limit`.
pub fn merge_paragraphs(blocks: Vec<Block>, limit: Option<usize>) -> (r: Vec<Block>)
    ensures
        block_views(r@) == merge(block_views(blocks@), limit),
{
    broadcast use lemma_block_views_push;

    let ghost all = block_views(blocks@);
    let mut r: Vec<Block> = Vec::new();
    proof {
        assert(all.take(0) =~= Seq::empty());
        assert(block_views(r@) =~= Seq::empty());
        assert(all.take(all.len() as int) =~= all);
    }
    for b in it: blocks
        invariant
            it.seq() == blocks@,
            all == block_views(blocks@),
            block_views(r@) == merge(all.take(it.index()), limit),
    {
        let ghost i = it.index();
        proof {
            lemma_block_views_take(blocks@, i);
            assert(all.take(i + 1).drop_last() =~= all.take(i));
        }
        let ghost before = r@;
        match (r.pop(), b) {
            (Some(Block::Paragraph { text: prev }), Block::Paragraph { text: next }) => {
                assert(before =~= r@.push(before.last()));
                assert(block_views(before).drop_last() =~= block_views(r@));
                if fit(prev.as_str(), next.as_str(), limit) {
                    let mut text = prev;
                    text.append(" ");
                    text.append(next.as_str());
                    r.push(Block::Paragraph { text });
                } else {
                    r.push(Block::Paragraph { text: prev });
                    r.push(Block::Paragraph { text: next });
                }
            },
            (Some(prev), b) => {
                assert(before =~= r@.push(prev));
                r.push(prev);
                r.push(b);
            },
            (None, b) => {
                r.push(b);
            },
        }
    }
    r
}

} // verus!
