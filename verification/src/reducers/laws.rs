//! What holds of the profiles as a whole.
use crate::ir::{BlockView, DocumentView};
use crate::reducers::cleanup::{
    fits, has_content, lemma_filter_push, merge, nonempty, not_quote, tidy, tidy_all, tidy_items,
    unquote, unquote_all, without_repeats,
};
use crate::reducers::trim::{
    lemma_run_len_bound, omitted, record_outlier, row_outlier, run_len, sample, sentinel_block,
    trim_blocks, trim_run, trim_table,
};
use crate::reducers::{
    compact, compact_prose, compact_unmerged, from_json, human, human_blocks, llm, llm_prose,
    COMPACT_JSON_KEEP_ROWS, COMPACT_MERGE_LIMIT, LLM_JSON_KEEP_ROWS,
};
use crate::text::{
    collapse, is_space, law_collapse_idempotent, lemma_collapse_two, lemma_solid_in,
    lemma_trim_solid, occurs, occurs_at,
};
use vstd::prelude::*;

verus! {

// ---------------------------------------------------------------------------
// Filters
// ---------------------------------------------------------------------------

/// A filter keeps only what satisfies it, and invents nothing.
pub proof fn lemma_filter_elements<A>(s: Seq<A>, p: spec_fn(A) -> bool, q: spec_fn(A) -> bool)
    requires
        forall|i: int| 0 <= i < s.len() ==> q(#[trigger] s[i]),
    ensures
        forall|i: int|
            0 <= i < s.filter(p).len() ==> q(#[trigger] s.filter(p)[i]) && p(s.filter(p)[i]),
        s.filter(p).len() <= s.len(),
    decreases s.len(),
{
    if s.len() == 0 {
        reveal(Seq::filter);
    } else {
        assert forall|i: int| 0 <= i < s.drop_last().len() implies q(#[trigger] s.drop_last()[i]) by {
            assert(s.drop_last()[i] == s[i]);
        }
        lemma_filter_elements(s.drop_last(), p, q);
        lemma_filter_push(s.drop_last(), s.last(), p);
        assert(s.drop_last().push(s.last()) =~= s);
        assert(q(s[s.len() - 1]));
    }
}

/// A filter that everything passes changes nothing.
proof fn lemma_filter_idle<A>(s: Seq<A>, p: spec_fn(A) -> bool)
    requires
        forall|i: int| 0 <= i < s.len() ==> p(#[trigger] s[i]),
    ensures
        s.filter(p) == s,
    decreases s.len(),
{
    if s.len() == 0 {
        reveal(Seq::filter);
    } else {
        assert forall|i: int| 0 <= i < s.drop_last().len() implies p(#[trigger] s.drop_last()[i]) by {
            assert(s.drop_last()[i] == s[i]);
        }
        lemma_filter_idle(s.drop_last(), p);
        lemma_filter_push(s.drop_last(), s.last(), p);
        assert(s.drop_last().push(s.last()) =~= s);
        assert(p(s[s.len() - 1]));
    }
}

/// One filter more leaves no more.
proof fn lemma_filter_twice<A>(s: Seq<A>, p: spec_fn(A) -> bool, q: spec_fn(A) -> bool)
    ensures
        s.filter(p).filter(q).len() <= s.filter(q).len(),
    decreases s.len(),
{
    if s.len() == 0 {
        reveal(Seq::filter);
    } else {
        lemma_filter_twice(s.drop_last(), p, q);
        lemma_filter_push(s.drop_last(), s.last(), p);
        lemma_filter_push(s.drop_last(), s.last(), q);
        lemma_filter_push(s.drop_last().filter(p), s.last(), q);
        assert(s.drop_last().push(s.last()) =~= s);
    }
}

/// Filters may change places.
pub proof fn lemma_filters_commute<A>(s: Seq<A>, p: spec_fn(A) -> bool, q: spec_fn(A) -> bool)
    ensures
        s.filter(p).filter(q) == s.filter(q).filter(p),
    decreases s.len(),
{
    if s.len() == 0 {
        reveal(Seq::filter);
    } else {
        let front = s.drop_last();
        lemma_filters_commute(front, p, q);
        lemma_filter_push(front, s.last(), p);
        lemma_filter_push(front, s.last(), q);
        lemma_filter_push(front.filter(p), s.last(), q);
        lemma_filter_push(front.filter(q), s.last(), p);
        assert(front.push(s.last()) =~= s);
    }
}

// ---------------------------------------------------------------------------
// The human profile
// ---------------------------------------------------------------------------

/// Tidying twice is tidying once.
proof fn lemma_tidy_idempotent(b: BlockView)
    ensures
        tidy(tidy(b)) == tidy(b),
{
    match b {
        BlockView::Paragraph { text } => law_collapse_idempotent(text),
        BlockView::Heading { level, text } => law_collapse_idempotent(text),
        BlockView::Quote { text } => law_collapse_idempotent(text),
        BlockView::List { ordered, items } => {
            let all = items.map_values(|i: Seq<char>| collapse(i));
            let still = |s: Seq<char>| collapse(s) == s;
            assert forall|i: int| 0 <= i < all.len() implies still(#[trigger] all[i]) by {
                law_collapse_idempotent(items[i]);
            }
            lemma_filter_elements(all, nonempty(), still);
            let kept = tidy_items(items);
            assert(kept.map_values(|i: Seq<char>| collapse(i)) =~= kept) by {
                assert forall|i: int| 0 <= i < kept.len() implies collapse(kept[i]) == kept[i] by {
                    assert(still(kept[i]));
                }
            }
            lemma_filter_idle(kept, nonempty());
        },
        _ => {},
    }
}

/// Tells apart the blocks that tidying leaves as they are.
spec fn is_tidy() -> spec_fn(BlockView) -> bool {
    |b: BlockView| tidy(b) == b
}

/// Tells apart the blocks that carry content and are not lists with a blank item.
pub open spec fn filled() -> spec_fn(BlockView) -> bool {
    |b: BlockView|
        has_content()(b) && (b matches BlockView::List { items, .. } ==> forall|j: int|
            0 <= j < items.len() ==> (#[trigger] items[j]).len() > 0)
}

/// Tidy and filled blocks are left as they are.
proof fn lemma_human_idle(bs: Seq<BlockView>)
    requires
        forall|i: int| 0 <= i < bs.len() ==> is_tidy()(#[trigger] bs[i]),
        forall|i: int| 0 <= i < bs.len() ==> filled()(#[trigger] bs[i]),
    ensures
        tidy_all(bs) == bs,
        human_blocks(bs) == bs,
{
    assert(tidy_all(bs) =~= bs) by {
        assert forall|i: int| 0 <= i < bs.len() implies tidy(bs[i]) == bs[i] by {
            assert(is_tidy()(bs[i]));
        }
    }
    assert forall|i: int| 0 <= i < bs.len() implies has_content()(#[trigger] bs[i]) by {
        assert(filled()(bs[i]));
    }
    lemma_filter_idle(bs, has_content());
}

/// What the `human` profile leaves is tidy and filled.
proof fn lemma_human_blocks(bs: Seq<BlockView>)
    ensures
        forall|i: int| 0 <= i < human_blocks(bs).len() ==> is_tidy()(#[trigger] human_blocks(bs)[i]),
        forall|i: int| 0 <= i < human_blocks(bs).len() ==> filled()(#[trigger] human_blocks(bs)[i]),
{
    let all = tidy_all(bs);
    let q = |b: BlockView|
        is_tidy()(b) && (b matches BlockView::List { items, .. } ==> forall|j: int|
            0 <= j < items.len() ==> nonempty()(#[trigger] items[j]));
    assert forall|k: int| 0 <= k < all.len() implies q(#[trigger] all[k]) by {
        lemma_tidy_idempotent(bs[k]);
        if let BlockView::List { ordered, items } = bs[k] {
            let collapsed = items.map_values(|i: Seq<char>| collapse(i));
            lemma_filter_elements(collapsed, nonempty(), |s: Seq<char>| true);
        }
    }
    lemma_filter_elements(all, has_content(), q);
    let kept = human_blocks(bs);
    assert forall|i: int| 0 <= i < kept.len() implies is_tidy()(#[trigger] kept[i]) by {
        assert(q(kept[i]));
    }
    assert forall|i: int| 0 <= i < kept.len() implies filled()(#[trigger] kept[i]) by {
        assert(q(kept[i]));
        if let BlockView::List { ordered, items } = kept[i] {
            assert forall|j: int| 0 <= j < items.len() implies (#[trigger] items[j]).len() > 0 by {
                assert(nonempty()(items[j]));
            }
        }
    }
}

/// Reducing for people twice is reducing once.
pub proof fn law_human_idempotent(doc: DocumentView)
    ensures
        human(human(doc)) == human(doc),
{
    lemma_human_blocks(doc.blocks);
    lemma_human_idle(human_blocks(doc.blocks));
}

/// Every block that is left carries content, and no list is left with a blank item.
pub proof fn law_human_has_content(doc: DocumentView, i: int)
    requires
        0 <= i < human(doc).blocks.len(),
    ensures
        filled()(human(doc).blocks[i]),
{
    lemma_human_blocks(doc.blocks);
}

/// The tighter profiles build on the cleanup of `human`: to run it first changes nothing.
pub proof fn law_profiles_build_on_human(doc: DocumentView)
    ensures
        llm(human(doc)) == llm(doc),
        compact(human(doc)) == compact(doc),
{
    let all = tidy_all(doc.blocks);
    let kept = human_blocks(doc.blocks);
    lemma_human_blocks(doc.blocks);
    lemma_human_idle(kept);
    lemma_filters_commute(all, has_content(), not_quote());
    assert forall|i: int| 0 <= i < kept.len() implies has_content()(#[trigger] kept[i]) by {
        assert(filled()(kept[i]));
    }
    lemma_filter_elements(kept, not_quote(), has_content());
    lemma_filter_idle(kept.filter(not_quote()), has_content());
}

// ---------------------------------------------------------------------------
// Structure
// ---------------------------------------------------------------------------

/// Tells apart the blocks that are not prose.
pub open spec fn structured() -> spec_fn(BlockView) -> bool {
    |b: BlockView|
        match b {
            BlockView::Paragraph { .. } => false,
            BlockView::Heading { .. } => false,
            BlockView::Quote { .. } => false,
            BlockView::List { .. } => false,
            _ => true,
        }
}

/// The structured blocks among `bs`, in order.
pub open spec fn structure(bs: Seq<BlockView>) -> Seq<BlockView> {
    bs.filter(structured())
}

/// Tidying, and dropping what is empty or a quote, keeps the structured blocks.
pub proof fn lemma_cleanup_keeps_structure(bs: Seq<BlockView>)
    ensures
        structure(tidy_all(bs)) == structure(bs),
        structure(bs.filter(has_content())) == structure(bs),
        structure(bs.filter(not_quote())) == structure(bs),
        structure(unquote_all(bs)) == structure(bs),
    decreases bs.len(),
{
    if bs.len() == 0 {
        reveal(Seq::filter);
        assert(tidy_all(bs) =~= bs);
        assert(unquote_all(bs) =~= bs);
    } else {
        let front = bs.drop_last();
        let b = bs.last();
        lemma_cleanup_keeps_structure(front);
        assert(front.push(b) =~= bs);
        assert(tidy_all(bs) =~= tidy_all(front).push(tidy(b)));
        assert(unquote_all(bs) =~= unquote_all(front).push(unquote(b)));
        lemma_filter_push(front, b, structured());
        lemma_filter_push(tidy_all(front), tidy(b), structured());
        lemma_filter_push(unquote_all(front), unquote(b), structured());
        lemma_filter_push(front, b, has_content());
        lemma_filter_push(front.filter(has_content()), b, structured());
        lemma_filter_push(front, b, not_quote());
        lemma_filter_push(front.filter(not_quote()), b, structured());
    }
}

/// Dropping repeated paragraphs keeps the blocks of any other kind.
pub proof fn lemma_repeats_keep_others(bs: Seq<BlockView>, p: spec_fn(BlockView) -> bool)
    requires
        forall|b: BlockView| b is Paragraph ==> !(#[trigger] p(b)),
    ensures
        without_repeats(bs).filter(p) == bs.filter(p),
        without_repeats(bs).len() <= bs.len(),
    decreases bs.len(),
{
    if bs.len() > 0 {
        let front = bs.drop_last();
        let b = bs.last();
        lemma_repeats_keep_others(front, p);
        assert(front.push(b) =~= bs);
        lemma_filter_push(front, b, p);
        lemma_filter_push(without_repeats(front), b, p);
    }
}

/// Merging paragraphs keeps the blocks of any other kind.
pub proof fn lemma_merge_keeps_others(
    bs: Seq<BlockView>,
    limit: Option<usize>,
    p: spec_fn(BlockView) -> bool,
)
    requires
        forall|b: BlockView| b is Paragraph ==> !(#[trigger] p(b)),
    ensures
        merge(bs, limit).filter(p) == bs.filter(p),
        merge(bs, limit).len() <= bs.len(),
    decreases bs.len(),
{
    if bs.len() > 0 {
        let front = bs.drop_last();
        let b = bs.last();
        let m = merge(front, limit);
        lemma_merge_keeps_others(front, limit, p);
        assert(front.push(b) =~= bs);
        lemma_filter_push(front, b, p);
        lemma_filter_push(m, b, p);
        if m.len() > 0 {
            assert(m.drop_last().push(m.last()) =~= m);
            lemma_filter_push(m.drop_last(), m.last(), p);
            let text = m.last()->Paragraph_text + " "@ + b->Paragraph_text;
            lemma_filter_push(m.drop_last(), BlockView::Paragraph { text }, p);
        }
    }
}

/// The `human` profile keeps every structured block as it is and in its place; it never trims.
pub proof fn law_human_keeps_structure(doc: DocumentView)
    ensures
        structure(human(doc).blocks) == structure(doc.blocks),
{
    lemma_cleanup_keeps_structure(doc.blocks);
    lemma_cleanup_keeps_structure(tidy_all(doc.blocks));
}

/// Whatever the profile, a table, record or other structured block that did not come from JSON
/// is kept as it is and in its place.
pub proof fn law_only_json_is_trimmed(doc: DocumentView)
    requires
        !from_json(doc.metadata),
    ensures
        structure(llm(doc).blocks) == structure(doc.blocks),
        structure(compact(doc).blocks) == structure(doc.blocks),
{
    law_human_keeps_structure(doc);
    lemma_cleanup_keeps_structure(human(doc).blocks);
    lemma_merge_keeps_others(unquote_all(human(doc).blocks), None, structured());
    lemma_compact_keeps_structure(doc.blocks);
}

/// The `compact` profile keeps the structured blocks, before long arrays are trimmed.
pub proof fn lemma_compact_keeps_structure(bs: Seq<BlockView>)
    ensures
        structure(compact_prose(bs)) == structure(bs),
{
    let tidied = tidy_all(bs);
    lemma_cleanup_keeps_structure(bs);
    lemma_cleanup_keeps_structure(tidied);
    lemma_cleanup_keeps_structure(tidied.filter(not_quote()));
    lemma_repeats_keep_others(tidied.filter(not_quote()).filter(has_content()), structured());
    lemma_merge_keeps_others(compact_unmerged(bs), Some(COMPACT_MERGE_LIMIT), structured());
}

/// The tighter profiles leave no more blocks than `human` does, where nothing is trimmed.
pub proof fn law_tighter_profiles_leave_fewer_blocks(doc: DocumentView)
    requires
        !from_json(doc.metadata),
    ensures
        llm(doc).blocks.len() <= human(doc).blocks.len(),
        compact(doc).blocks.len() <= human(doc).blocks.len(),
{
    let tidied = tidy_all(doc.blocks);
    lemma_merge_keeps_others(unquote_all(human(doc).blocks), None, structured());
    lemma_filter_twice(tidied, not_quote(), has_content());
    lemma_repeats_keep_others(tidied.filter(not_quote()).filter(has_content()), structured());
    lemma_merge_keeps_others(
        compact_unmerged(doc.blocks),
        Some(COMPACT_MERGE_LIMIT),
        structured(),
    );
}

/// A profile touches the blocks alone: id, source, title, metadata and warnings stay.
pub proof fn law_profiles_keep_the_rest(doc: DocumentView)
    ensures
        human(doc) == (DocumentView { blocks: human(doc).blocks, ..doc }),
        llm(doc) == (DocumentView { blocks: llm(doc).blocks, ..doc }),
        compact(doc) == (DocumentView { blocks: compact(doc).blocks, ..doc }),
{
}

// ---------------------------------------------------------------------------
// Quotes, repeats and neighbours
// ---------------------------------------------------------------------------

/// Merging leaves no two neighbours that fit together, and makes no quotes.
proof fn lemma_merge_neighbours(bs: Seq<BlockView>, limit: Option<usize>)
    ensures
        forall|i: int|
            0 < i < merge(bs, limit).len() && (#[trigger] merge(bs, limit)[i]) is Paragraph
                && merge(bs, limit)[i - 1] is Paragraph ==> !fits(
                merge(bs, limit)[i - 1]->Paragraph_text,
                merge(bs, limit)[i]->Paragraph_text,
                limit,
            ),
        (forall|i: int| 0 <= i < bs.len() ==> not_quote()(#[trigger] bs[i])) ==> (forall|i: int|
            0 <= i < merge(bs, limit).len() ==> not_quote()(#[trigger] merge(bs, limit)[i])),
    decreases bs.len(),
{
    if bs.len() > 0 {
        let front = bs.drop_last();
        lemma_merge_neighbours(front, limit);
        let m = merge(front, limit);
        let n = merge(bs, limit);
        assert(forall|i: int| 0 <= i < front.len() ==> front[i] == bs[i]);
        assert forall|i: int|
            0 < i < n.len() && (#[trigger] n[i]) is Paragraph && n[i - 1] is Paragraph implies !fits(
            n[i - 1]->Paragraph_text,
            n[i]->Paragraph_text,
            limit,
        ) by {
            if i < m.len() - 1 {
                assert(n[i] == m[i]);
                assert(n[i - 1] == m[i - 1]);
            } else if i == m.len() - 1 {
                assert(n[i - 1] == m[i - 1]);
                assert(m[i] is Paragraph);
                assert(!fits(m[i - 1]->Paragraph_text, m[i]->Paragraph_text, limit));
                assert(n[i]->Paragraph_text.len() >= m[i]->Paragraph_text.len());
            }
        }
        if forall|i: int| 0 <= i < bs.len() ==> not_quote()(#[trigger] bs[i]) {
            assert forall|i: int| 0 <= i < front.len() implies not_quote()(#[trigger] front[i]) by {
                assert(front[i] == bs[i]);
            }
            assert(not_quote()(bs[bs.len() - 1]));
            assert forall|i: int| 0 <= i < n.len() implies not_quote()(#[trigger] n[i]) by {
                if i < m.len() {
                    assert(not_quote()(m[i]));
                }
            }
        }
    }
}

/// Dropping repeats keeps one of each paragraph, and of nothing else any less.
proof fn lemma_without_repeats(bs: Seq<BlockView>)
    ensures
        forall|b: BlockView| #[trigger] without_repeats(bs).contains(b) <==> bs.contains(b),
        forall|i: int, j: int|
            0 <= i < j < without_repeats(bs).len() && (#[trigger] without_repeats(bs)[i]) is Paragraph
                ==> without_repeats(bs)[i] != #[trigger] without_repeats(bs)[j],
    decreases bs.len(),
{
    let kept = without_repeats(bs);
    if bs.len() > 0 {
        let front = bs.drop_last();
        let last = bs.last();
        lemma_without_repeats(front);
        let before = without_repeats(front);
        assert forall|b: BlockView| bs.contains(b) <==> front.contains(b) || b == last by {
            if front.contains(b) {
                let i = choose|i: int| 0 <= i < front.len() && front[i] == b;
                assert(bs[i] == b);
            }
            if b == last {
                assert(bs[bs.len() - 1] == b);
            }
            if bs.contains(b) {
                let i = choose|i: int| 0 <= i < bs.len() && bs[i] == b;
                if i < front.len() {
                    assert(front[i] == b);
                }
            }
        }
        if !(last is Paragraph && front.contains(last)) {
            assert forall|b: BlockView| #[trigger] kept.contains(b) <==> before.contains(b) || b
                == last by {
                if before.contains(b) {
                    let i = choose|i: int| 0 <= i < before.len() && before[i] == b;
                    assert(kept[i] == b);
                }
                if b == last {
                    assert(kept[kept.len() - 1] == b);
                }
            }
            assert forall|i: int, j: int|
                0 <= i < j < kept.len() && (#[trigger] kept[i]) is Paragraph implies kept[i]
                != #[trigger] kept[j] by {
                if j == kept.len() - 1 && kept[i] == last {
                    assert(before[i] == last);
                    assert(before.contains(last));
                }
            }
        }
    } else {
        assert(kept =~= bs);
    }
}

/// The `llm` profile leaves no quotes and, before long arrays are trimmed, no two paragraphs
/// next to each other.
pub proof fn law_llm_merges_prose(doc: DocumentView)
    ensures
        forall|i: int| 0 <= i < llm(doc).blocks.len() ==> !(#[trigger] llm(doc).blocks[i] is Quote),
        forall|i: int|
            0 < i < llm_prose(doc.blocks).len() && (#[trigger] llm_prose(doc.blocks)[i]) is Paragraph
                ==> !(llm_prose(doc.blocks)[i - 1] is Paragraph),
{
    let bs = unquote_all(human_blocks(doc.blocks));
    assert forall|i: int| 0 <= i < bs.len() implies not_quote()(#[trigger] bs[i]) by {}
    lemma_merge_neighbours(bs, None);
    let prose = llm_prose(doc.blocks);
    assert forall|i: int|
        0 < i < prose.len() && (#[trigger] prose[i]) is Paragraph implies !(prose[i - 1] is Paragraph) by {
        if prose[i - 1] is Paragraph {
            assert(fits(prose[i - 1]->Paragraph_text, prose[i]->Paragraph_text, None));
        }
    }
    assert forall|i: int| 0 <= i < prose.len() implies not_quote()(#[trigger] prose[i]) by {}
    lemma_trim_keeps(prose, LLM_JSON_KEEP_ROWS as nat, not_quote());
    assert forall|i: int| 0 <= i < llm(doc).blocks.len() implies !(#[trigger] llm(doc).blocks[i] is Quote) by {
        assert(not_quote()(llm(doc).blocks[i]));
    }
}

/// The `compact` profile leaves no quotes. Before paragraphs are merged, none occurs twice;
/// after that, no two neighbours would fit into one below the limit.
pub proof fn law_compact_squeezes_prose(doc: DocumentView)
    ensures
        forall|i: int|
            0 <= i < compact(doc).blocks.len() ==> !(#[trigger] compact(doc).blocks[i] is Quote),
        forall|i: int, j: int|
            0 <= i < j < compact_unmerged(doc.blocks).len() && (#[trigger] compact_unmerged(
                doc.blocks,
            )[i]) is Paragraph ==> compact_unmerged(doc.blocks)[i] != #[trigger] compact_unmerged(
                doc.blocks,
            )[j],
        forall|i: int|
            0 < i < compact_prose(doc.blocks).len() && (#[trigger] compact_prose(doc.blocks)[i]) is Paragraph
                && compact_prose(doc.blocks)[i - 1] is Paragraph ==> !fits(
                compact_prose(doc.blocks)[i - 1]->Paragraph_text,
                compact_prose(doc.blocks)[i]->Paragraph_text,
                Some(COMPACT_MERGE_LIMIT),
            ),
{
    let tidied = tidy_all(doc.blocks);
    let kept = tidied.filter(not_quote()).filter(has_content());
    lemma_filter_elements(tidied, not_quote(), |b: BlockView| true);
    lemma_filter_elements(tidied.filter(not_quote()), has_content(), not_quote());
    lemma_without_repeats(kept);
    let unmerged = compact_unmerged(doc.blocks);
    assert forall|i: int| 0 <= i < unmerged.len() implies not_quote()(#[trigger] unmerged[i]) by {
        assert(unmerged.contains(unmerged[i]));
        let j = choose|j: int| 0 <= j < kept.len() && kept[j] == unmerged[i];
        assert(not_quote()(kept[j]));
    }
    lemma_merge_neighbours(unmerged, Some(COMPACT_MERGE_LIMIT));
    let prose = compact_prose(doc.blocks);
    lemma_trim_keeps(prose, COMPACT_JSON_KEEP_ROWS as nat, not_quote());
    assert forall|i: int| 0 <= i < compact(doc).blocks.len() implies !(#[trigger] compact(doc).blocks[i] is Quote) by {
        assert(not_quote()(compact(doc).blocks[i]));
    }
}

/// What holds of every block, of every table and of every sentinel holds of what trimming
/// leaves.
proof fn lemma_trim_keeps(bs: Seq<BlockView>, n: nat, q: spec_fn(BlockView) -> bool)
    requires
        forall|i: int| 0 <= i < bs.len() ==> q(#[trigger] bs[i]),
        forall|b: BlockView| b is Table ==> #[trigger] q(b),
        forall|total: nat, kept: nat, k: nat| q(#[trigger] sentinel_block(total, kept, k)),
    ensures
        forall|i: int| 0 <= i < trim_blocks(bs, n).len() ==> q(#[trigger] trim_blocks(bs, n)[i]),
    decreases bs.len(),
{
    if bs.len() > 0 {
        lemma_run_len_bound(bs.skip(1));
        let len = if bs[0] is Record {
            1 + run_len(bs.skip(1))
        } else {
            1
        };
        let head = bs.take(len as int);
        let rest = bs.skip(len as int);
        assert forall|i: int| 0 <= i < rest.len() implies q(#[trigger] rest[i]) by {
            assert(rest[i] == bs[i + len]);
        }
        assert forall|i: int| 0 <= i < head.len() implies q(#[trigger] head[i]) by {
            assert(head[i] == bs[i]);
        }
        lemma_trim_keeps(rest, n, q);
        let first = match bs[0] {
            BlockView::Table { headers, rows } => trim_table(headers, rows, n),
            BlockView::Record { .. } => trim_run(head, n),
            _ => seq![bs[0]],
        };
        assert(trim_blocks(bs, n) == first + trim_blocks(rest, n));
        assert forall|i: int| 0 <= i < first.len() implies q(#[trigger] first[i]) by {
            if bs[0] is Record && head.len() > n {
                let kept = sample(head, n, record_outlier());
                lemma_sample(head, n, record_outlier(), q);
                if i < kept.len() {
                    assert(q(kept[i]));
                } else {
                    assert(q(sentinel_block(head.len(), kept.len(), n)));
                }
            } else if bs[0] is Record {
                assert(q(head[i]));
            } else if let BlockView::Table { headers, rows } = bs[0] {
                let kept = sample(rows, n, row_outlier());
                assert(q(sentinel_block(rows.len(), kept.len(), n)));
            } else {
                assert(q(bs[0]));
            }
        }
        assert forall|i: int| 0 <= i < trim_blocks(bs, n).len() implies q(
            #[trigger] trim_blocks(bs, n)[i],
        ) by {
            if i < first.len() {
                assert(q(first[i]));
            } else {
                assert(q(trim_blocks(rest, n)[i - first.len()]));
            }
        }
    }
}

/// A sample invents nothing.
proof fn lemma_sample<A>(s: Seq<A>, n: nat, outlier: spec_fn(A) -> bool, q: spec_fn(A) -> bool)
    requires
        n <= s.len(),
        forall|i: int| 0 <= i < s.len() ==> q(#[trigger] s[i]),
    ensures
        forall|i: int|
            0 <= i < sample(s, n, outlier).len() ==> q(#[trigger] sample(s, n, outlier)[i]),
{
    let rest = s.skip(n as int);
    assert forall|i: int| 0 <= i < rest.len() implies q(#[trigger] rest[i]) by {
        assert(rest[i] == s[i + n]);
    }
    lemma_filter_elements(rest, outlier, q);
    assert forall|i: int| 0 <= i < sample(s, n, outlier).len() implies q(
        #[trigger] sample(s, n, outlier)[i],
    ) by {
        if i < n {
            assert(q(s[i]));
        } else {
            assert(q(rest.filter(outlier)[i - n]));
        }
    }
}

// ---------------------------------------------------------------------------
// Content
// ---------------------------------------------------------------------------

/// What holds of every block, and of a paragraph made of two, holds of what merging leaves.
proof fn lemma_merge_keeps(bs: Seq<BlockView>, limit: Option<usize>, q: spec_fn(BlockView) -> bool)
    requires
        forall|i: int| 0 <= i < bs.len() ==> q(#[trigger] bs[i]),
        forall|a: Seq<char>, b: Seq<char>|
            q(BlockView::Paragraph { text: a }) && q(BlockView::Paragraph { text: b }) ==> q(
                BlockView::Paragraph { text: #[trigger] (a + " "@ + b) },
            ),
    ensures
        forall|i: int| 0 <= i < merge(bs, limit).len() ==> q(#[trigger] merge(bs, limit)[i]),
    decreases bs.len(),
{
    if bs.len() > 0 {
        let front = bs.drop_last();
        assert forall|i: int| 0 <= i < front.len() implies q(#[trigger] front[i]) by {
            assert(front[i] == bs[i]);
        }
        lemma_merge_keeps(front, limit, q);
        let m = merge(front, limit);
        let n = merge(bs, limit);
        assert(q(bs[bs.len() - 1]));
        if m.len() > 0 {
            assert(q(m[m.len() - 1]));
        }
        if n.len() == m.len() {
            let a = m.last()->Paragraph_text;
            let b = bs.last()->Paragraph_text;
            assert(m.last() == BlockView::Paragraph { text: a });
            assert(bs.last() == BlockView::Paragraph { text: b });
            assert(n.last() == BlockView::Paragraph { text: a + " "@ + b });
        }
        assert forall|i: int| 0 <= i < n.len() implies q(#[trigger] n[i]) by {
            if i < n.len() - 1 {
                assert(n[i] == m[i]);
            }
        }
    }
}

/// A paragraph made of two that carry content carries content.
proof fn lemma_joint_is_filled(a: Seq<char>, b: Seq<char>)
    requires
        filled()(BlockView::Paragraph { text: a }),
    ensures
        filled()(BlockView::Paragraph { text: a + " "@ + b }),
{
    assert(has_content()(BlockView::Paragraph { text: a }));
    let i = lemma_solid_in(a);
    assert((a + " "@ + b)[i] == a[i]);
    lemma_trim_solid(a + " "@ + b, i);
}

/// A sentinel carries content.
proof fn lemma_sentinel_is_filled(total: nat, kept: nat, n: nat)
    ensures
        filled()(sentinel_block(total, kept, n)),
{
    reveal_strlit("[");
    let text = sentinel_block(total, kept, n)->Paragraph_text;
    assert(text[0] == '[');
    assert(!is_space('['));
    lemma_trim_solid(text, 0);
}

/// Merging and trimming leave filled blocks filled.
proof fn lemma_squeezed_is_filled(bs: Seq<BlockView>, limit: Option<usize>, n: nat)
    requires
        forall|i: int| 0 <= i < bs.len() ==> filled()(#[trigger] bs[i]),
    ensures
        forall|i: int|
            0 <= i < merge(bs, limit).len() ==> filled()(#[trigger] merge(bs, limit)[i]),
        forall|i: int|
            0 <= i < trim_blocks(merge(bs, limit), n).len() ==> filled()(
                #[trigger] trim_blocks(merge(bs, limit), n)[i],
            ),
{
    assert forall|a: Seq<char>, b: Seq<char>|
        filled()(BlockView::Paragraph { text: a }) && filled()(
            BlockView::Paragraph { text: b },
        ) implies filled()(BlockView::Paragraph { text: #[trigger] (a + " "@ + b) }) by {
        lemma_joint_is_filled(a, b);
    }
    lemma_merge_keeps(bs, limit, filled());
    assert forall|total: nat, kept: nat, k: nat| filled()(
        #[trigger] sentinel_block(total, kept, k),
    ) by {
        lemma_sentinel_is_filled(total, kept, k);
    }
    lemma_trim_keeps(merge(bs, limit), n, filled());
}

/// Every block that the `llm` profile leaves carries content, and no list is left with a blank
/// item.
pub proof fn law_llm_has_content(doc: DocumentView, i: int)
    requires
        0 <= i < llm(doc).blocks.len(),
    ensures
        filled()(llm(doc).blocks[i]),
{
    let kept = human_blocks(doc.blocks);
    let bs = unquote_all(kept);
    lemma_human_blocks(doc.blocks);
    assert forall|k: int| 0 <= k < bs.len() implies filled()(#[trigger] bs[k]) by {
        assert(filled()(kept[k]));
    }
    lemma_squeezed_is_filled(bs, None, LLM_JSON_KEEP_ROWS as nat);
}

/// Every block that the `compact` profile leaves carries content, and no list is left with a
/// blank item.
pub proof fn law_compact_has_content(doc: DocumentView, i: int)
    requires
        0 <= i < compact(doc).blocks.len(),
    ensures
        filled()(compact(doc).blocks[i]),
{
    let all = tidy_all(doc.blocks);
    let kept = human_blocks(doc.blocks);
    lemma_human_blocks(doc.blocks);
    lemma_filters_commute(all, has_content(), not_quote());
    lemma_filter_elements(kept, not_quote(), filled());
    let prose = kept.filter(not_quote());
    lemma_without_repeats(prose);
    let bs = compact_unmerged(doc.blocks);
    assert forall|k: int| 0 <= k < bs.len() implies filled()(#[trigger] bs[k]) by {
        assert(bs.contains(bs[k]));
        let j = choose|j: int| 0 <= j < prose.len() && prose[j] == bs[k];
        assert(filled()(prose[j]));
    }
    lemma_squeezed_is_filled(bs, Some(COMPACT_MERGE_LIMIT), COMPACT_JSON_KEEP_ROWS as nat);
}

/// Where no two paragraphs are neighbours, merging changes nothing.
proof fn lemma_merge_idle(bs: Seq<BlockView>)
    requires
        forall|i: int|
            0 < i < bs.len() && (#[trigger] bs[i]) is Paragraph ==> !(bs[i - 1] is Paragraph),
    ensures
        merge(bs, None) == bs,
    decreases bs.len(),
{
    if bs.len() > 0 {
        let front = bs.drop_last();
        assert forall|i: int| 0 < i < front.len() && (#[trigger] front[i]) is Paragraph implies !(
        front[i - 1] is Paragraph) by {
            assert(bs[i] is Paragraph);
        }
        lemma_merge_idle(front);
        assert(bs[bs.len() - 1] is Paragraph && front.len() > 0 ==> !(front.last() is Paragraph));
        assert(front.push(bs.last()) =~= bs);
    }
}

/// Reducing for models twice is reducing once, where nothing is trimmed.
pub proof fn law_llm_idempotent(doc: DocumentView)
    requires
        !from_json(doc.metadata),
    ensures
        llm(llm(doc)) == llm(doc),
{
    let kept = human_blocks(doc.blocks);
    let bs = unquote_all(kept);
    let prose = llm_prose(doc.blocks);
    let q = |b: BlockView| is_tidy()(b) && filled()(b);
    lemma_human_blocks(doc.blocks);
    assert forall|k: int| 0 <= k < bs.len() implies q(#[trigger] bs[k]) by {
        assert(is_tidy()(kept[k]));
        assert(filled()(kept[k]));
    }
    assert forall|a: Seq<char>, b: Seq<char>|
        q(BlockView::Paragraph { text: a }) && q(BlockView::Paragraph { text: b }) implies q(
        BlockView::Paragraph { text: #[trigger] (a + " "@ + b) },
    ) by {
        let i = lemma_solid_in(a);
        let j = lemma_solid_in(b);
        lemma_collapse_two(a, b);
        lemma_joint_is_filled(a, b);
    }
    lemma_merge_keeps(bs, None, q);
    assert forall|k: int| 0 <= k < prose.len() implies is_tidy()(#[trigger] prose[k]) by {
        assert(q(prose[k]));
    }
    assert forall|k: int| 0 <= k < prose.len() implies filled()(#[trigger] prose[k]) by {
        assert(q(prose[k]));
    }
    lemma_human_idle(prose);
    law_llm_merges_prose(doc);
    assert(unquote_all(prose) =~= prose) by {
        assert forall|k: int| 0 <= k < prose.len() implies unquote(prose[k]) == prose[k] by {
            assert(!(llm(doc).blocks[k] is Quote));
        }
    }
    lemma_merge_idle(prose);
}

// ---------------------------------------------------------------------------
// What stays
// ---------------------------------------------------------------------------

/// Tells apart the blocks that are not paragraphs.
pub open spec fn not_paragraph() -> spec_fn(BlockView) -> bool {
    |b: BlockView| !(b is Paragraph)
}

/// Tells apart the blocks that are neither paragraphs nor quotes: headings, lists and the
/// structured ones.
pub open spec fn not_prose() -> spec_fn(BlockView) -> bool {
    |b: BlockView| !(b is Paragraph) && !(b is Quote)
}

/// Two filters that agree on every element leave the same.
proof fn lemma_filters_agree<A>(s: Seq<A>, p: spec_fn(A) -> bool, q: spec_fn(A) -> bool)
    requires
        forall|i: int| 0 <= i < s.len() ==> p(#[trigger] s[i]) == q(s[i]),
    ensures
        s.filter(p) == s.filter(q),
    decreases s.len(),
{
    if s.len() == 0 {
        reveal(Seq::filter);
    } else {
        let front = s.drop_last();
        assert forall|i: int| 0 <= i < front.len() implies p(#[trigger] front[i]) == q(front[i]) by {
            assert(front[i] == s[i]);
        }
        lemma_filters_agree(front, p, q);
        lemma_filter_push(front, s.last(), p);
        lemma_filter_push(front, s.last(), q);
        assert(front.push(s.last()) =~= s);
        assert(p(s[s.len() - 1]) == q(s[s.len() - 1]));
    }
}

/// A filter after a wider one leaves what it would leave alone.
proof fn lemma_narrower_filter<A>(s: Seq<A>, p: spec_fn(A) -> bool, q: spec_fn(A) -> bool)
    requires
        forall|x: A| #[trigger] q(x) ==> p(x),
    ensures
        s.filter(p).filter(q) == s.filter(q),
    decreases s.len(),
{
    if s.len() == 0 {
        reveal(Seq::filter);
    } else {
        let front = s.drop_last();
        lemma_narrower_filter(front, p, q);
        lemma_filter_push(front, s.last(), p);
        lemma_filter_push(front, s.last(), q);
        lemma_filter_push(front.filter(p), s.last(), q);
        assert(front.push(s.last()) =~= s);
    }
}

/// Turning quotes into paragraphs keeps what is neither.
proof fn lemma_unquote_keeps_others(bs: Seq<BlockView>)
    ensures
        unquote_all(bs).filter(not_prose()) == bs.filter(not_prose()),
    decreases bs.len(),
{
    if bs.len() == 0 {
        assert(unquote_all(bs) =~= bs);
    } else {
        let front = bs.drop_last();
        let b = bs.last();
        lemma_unquote_keeps_others(front);
        assert(front.push(b) =~= bs);
        assert(unquote_all(bs) =~= unquote_all(front).push(unquote(b)));
        lemma_filter_push(front, b, not_prose());
        lemma_filter_push(unquote_all(front), unquote(b), not_prose());
    }
}

/// What occurs in a text occurs in a longer one that begins or ends with it.
proof fn lemma_occurs_within(a: Seq<char>, b: Seq<char>, part: Seq<char>)
    ensures
        occurs(a, part) ==> occurs(a + " "@ + b, part),
        occurs(b, part) ==> occurs(a + " "@ + b, part),
        occurs(a, a),
{
    reveal_strlit(" ");
    let s = a + " "@ + b;
    assert(a.subrange(0, a.len() as int) =~= a);
    assert(occurs_at(a, a, 0));
    if occurs(a, part) {
        let i = choose|i: int| occurs_at(a, part, i);
        assert(s.subrange(i, i + part.len()) =~= a.subrange(i, i + part.len()));
        assert(occurs_at(s, part, i));
    }
    if occurs(b, part) {
        let i = choose|i: int| occurs_at(b, part, i);
        let k = a.len() + 1 + i;
        assert(s.subrange(k, k + part.len()) =~= b.subrange(i, i + part.len()));
        assert(occurs_at(s, part, k));
    }
}

/// Whether `text` occurs in a paragraph of `bs`.
pub open spec fn shown_in(bs: Seq<BlockView>, text: Seq<char>) -> bool {
    exists|j: int|
        0 <= j < bs.len() && #[trigger] bs[j] is Paragraph && occurs(bs[j]->Paragraph_text, text)
}

/// Every paragraph shows in what merging leaves.
proof fn lemma_merge_shows(bs: Seq<BlockView>, limit: Option<usize>, k: int)
    requires
        0 <= k < bs.len(),
        bs[k] is Paragraph,
    ensures
        shown_in(merge(bs, limit), bs[k]->Paragraph_text),
    decreases bs.len(),
{
    let front = bs.drop_last();
    let b = bs.last();
    let t = bs[k]->Paragraph_text;
    let m = merge(front, limit);
    let n = merge(bs, limit);
    let last = n.len() - 1;
    let joined = n.len() == m.len();
    if joined {
        assert(n[last] == BlockView::Paragraph {
            text: m.last()->Paragraph_text + " "@ + b->Paragraph_text,
        });
        lemma_occurs_within(m.last()->Paragraph_text, b->Paragraph_text, t);
    }
    if k < front.len() {
        assert(front[k] == bs[k]);
        lemma_merge_shows(front, limit, k);
        let j = choose|j: int|
            0 <= j < m.len() && #[trigger] m[j] is Paragraph && occurs(m[j]->Paragraph_text, t);
        if joined && j == last {
            assert(m[j] == m.last());
            assert(n[last] is Paragraph && occurs(n[last]->Paragraph_text, t));
        } else {
            assert(n[j] == m[j]);
        }
    } else {
        lemma_occurs_within(t, t, t);
        assert(n[last] is Paragraph && occurs(n[last]->Paragraph_text, t));
    }
}

/// Where nothing is trimmed, every paragraph that `human` leaves shows in a paragraph that
/// `compact` leaves.
pub proof fn law_compact_shows_every_paragraph(doc: DocumentView, i: int)
    requires
        !from_json(doc.metadata),
        0 <= i < human(doc).blocks.len(),
        human(doc).blocks[i] is Paragraph,
    ensures
        shown_in(compact(doc).blocks, human(doc).blocks[i]->Paragraph_text),
{
    let kept = human_blocks(doc.blocks);
    let b = kept[i];
    let prose = kept.filter(not_quote());
    lemma_filters_commute(tidy_all(doc.blocks), has_content(), not_quote());
    lemma_filter_finds(kept, not_quote(), i);
    lemma_without_repeats(prose);
    let unmerged = compact_unmerged(doc.blocks);
    assert(unmerged.contains(b));
    let k = choose|k: int| 0 <= k < unmerged.len() && unmerged[k] == b;
    lemma_merge_shows(unmerged, Some(COMPACT_MERGE_LIMIT), k);
}

/// Where nothing is trimmed, every paragraph and every quote that `human` leaves shows in a
/// paragraph that `llm` leaves.
pub proof fn law_llm_shows_every_paragraph(doc: DocumentView, i: int)
    requires
        !from_json(doc.metadata),
        0 <= i < human(doc).blocks.len(),
        unquote(human(doc).blocks[i]) is Paragraph,
    ensures
        shown_in(llm(doc).blocks, unquote(human(doc).blocks[i])->Paragraph_text),
{
    lemma_merge_shows(unquote_all(human_blocks(doc.blocks)), None, i);
}

/// Where nothing is trimmed, the tighter profiles keep headings, lists and structured blocks as
/// `human` left them, and in order. All else that `compact` leaves is paragraphs.
pub proof fn law_tighter_profiles_keep_the_rest_in_order(doc: DocumentView)
    requires
        !from_json(doc.metadata),
    ensures
        llm(doc).blocks.filter(not_paragraph()) == human(doc).blocks.filter(not_prose()),
        compact(doc).blocks.filter(not_paragraph()) == human(doc).blocks.filter(not_prose()),
{
    let kept = human_blocks(doc.blocks);
    let prose = kept.filter(not_quote());
    let unmerged = compact_unmerged(doc.blocks);
    lemma_unquote_keeps_others(kept);
    lemma_merge_keeps_others(unquote_all(kept), None, not_prose());
    lemma_filters_commute(tidy_all(doc.blocks), has_content(), not_quote());
    lemma_narrower_filter(kept, not_quote(), not_prose());
    lemma_repeats_keep_others(prose, not_prose());
    lemma_merge_keeps_others(unmerged, Some(COMPACT_MERGE_LIMIT), not_prose());
    law_llm_merges_prose(doc);
    law_compact_squeezes_prose(doc);
    let a = llm(doc).blocks;
    let b = compact(doc).blocks;
    assert forall|i: int| 0 <= i < a.len() implies not_paragraph()(#[trigger] a[i]) == not_prose()(
        a[i],
    ) by {
        assert(!(a[i] is Quote));
    }
    assert forall|i: int| 0 <= i < b.len() implies not_paragraph()(#[trigger] b[i]) == not_prose()(
        b[i],
    ) by {
        assert(!(b[i] is Quote));
    }
    lemma_filters_agree(a, not_paragraph(), not_prose());
    lemma_filters_agree(b, not_paragraph(), not_prose());
}

// ---------------------------------------------------------------------------
// Trimming
// ---------------------------------------------------------------------------

/// What passes a filter is found in it.
pub proof fn lemma_filter_finds<A>(s: Seq<A>, p: spec_fn(A) -> bool, i: int)
    requires
        0 <= i < s.len(),
        p(s[i]),
    ensures
        s.filter(p).contains(s[i]),
    decreases s.len(),
{
    let front = s.drop_last();
    let x = s[i];
    assert(front.push(s.last()) =~= s);
    lemma_filter_push(front, s.last(), p);
    if i == s.len() - 1 {
        assert(s.filter(p)[s.filter(p).len() - 1] == x);
    } else {
        assert(front[i] == x);
        lemma_filter_finds(front, p, i);
        let j = choose|j: int| 0 <= j < front.filter(p).len() && front.filter(p)[j] == x;
        assert(s.filter(p)[j] == x);
    }
}

/// A sample of a long array begins with the first `n` elements, holds every outlier and
/// nothing that was not there, and is no longer than the array. What it shows and what the
/// sentinel says is left out add up to the whole.
pub proof fn law_sample_keeps_outliers<A>(s: Seq<A>, n: nat, outlier: spec_fn(A) -> bool)
    requires
        n <= s.len(),
    ensures
        sample(s, n, outlier).take(n as int) == s.take(n as int),
        forall|i: int|
            0 <= i < s.len() && outlier(#[trigger] s[i]) ==> sample(s, n, outlier).contains(s[i]),
        forall|i: int|
            0 <= i < sample(s, n, outlier).len() ==> s.contains(#[trigger] sample(s, n, outlier)[i]),
        n <= sample(s, n, outlier).len() <= s.len(),
        omitted(s.len(), sample(s, n, outlier).len()) + sample(s, n, outlier).len() == s.len(),
{
    let rest = s.skip(n as int);
    let kept = sample(s, n, outlier);
    assert(kept.take(n as int) =~= s.take(n as int));
    lemma_filter_elements(rest, outlier, |x: A| true);
    assert forall|i: int| 0 <= i < s.len() && outlier(#[trigger] s[i]) implies kept.contains(s[i]) by {
        if i < n {
            assert(kept[i] == s[i]);
        } else {
            assert(rest[i - n] == s[i]);
            lemma_filter_finds(rest, outlier, i - n);
            let f = rest.filter(outlier);
            let j = choose|j: int| 0 <= j < f.len() && f[j] == s[i];
            assert(kept[n + j] == s[i]);
        }
    }
    let inside = |x: A| s.contains(x);
    assert forall|i: int| 0 <= i < s.len() implies inside(#[trigger] s[i]) by {}
    lemma_sample(s, n, outlier, inside);
    assert forall|i: int| 0 <= i < kept.len() implies s.contains(#[trigger] kept[i]) by {
        assert(inside(kept[i]));
    }
}

/// Whether no table, and no run of records, is longer than `n`.
pub open spec fn all_short(bs: Seq<BlockView>, n: nat) -> bool {
    &&& forall|i: int|
        0 <= i < bs.len() ==> (#[trigger] bs[i] matches BlockView::Table { rows, .. } ==> rows.len()
            <= n)
    &&& forall|i: int| 0 <= i < bs.len() ==> run_len(#[trigger] bs.skip(i)) <= n
}

/// Where nothing is long, trimming changes nothing.
pub proof fn law_short_arrays_are_kept(bs: Seq<BlockView>, n: nat)
    requires
        all_short(bs, n),
    ensures
        trim_blocks(bs, n) == bs,
    decreases bs.len(),
{
    if bs.len() == 0 {
        assert(trim_blocks(bs, n) =~= bs);
    } else {
        lemma_run_len_bound(bs.skip(1));
        assert(bs.skip(0) =~= bs);
        let len = if bs[0] is Record {
            1 + run_len(bs.skip(1))
        } else {
            1
        };
        assert(bs[0] is Record ==> run_len(bs.skip(0)) == len);
        let rest = bs.skip(len as int);
        assert forall|i: int| 0 <= i < rest.len() implies run_len(#[trigger] rest.skip(i)) <= n by {
            assert(rest.skip(i) =~= bs.skip(i + len));
        }
        assert forall|i: int| 0 <= i < rest.len() implies (#[trigger] rest[i] matches BlockView::Table {
            rows,
            ..
        } ==> rows.len() <= n) by {
            assert(rest[i] == bs[i + len]);
        }
        law_short_arrays_are_kept(rest, n);
        assert(bs.take(len as int) + rest =~= bs);
        if !(bs[0] is Record) {
            assert(seq![bs[0]] =~= bs.take(1));
        }
    }
}

} // verus!
