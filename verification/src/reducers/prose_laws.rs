//! What holds of prose: what the profiles make of each block, and of blocks next to each other.
use crate::ir::{BlockView, DocumentView};
use crate::reducers::cleanup::{
    has_content, lemma_filter_push, merge, nonempty, not_quote, tidy, tidy_all, tidy_items,
    unquote_all, without_repeats,
};
use crate::reducers::laws::lemma_repeats_keep_others;
use crate::reducers::{compact_prose, compact_unmerged, human_blocks, llm_prose};
use crate::text::{
    collapse, is_space, is_word, join, lemma_blank_has_no_words, lemma_words_are_words,
    lemma_words_of_collapse, trim, words,
};
use vstd::prelude::*;

verus! {

// ---------------------------------------------------------------------------
// White space
// ---------------------------------------------------------------------------

/// Whether the white space in `t` is single blanks between other characters.
pub open spec fn spaced_once(t: Seq<char>) -> bool {
    forall|i: int|
        0 <= i < t.len() && is_space(#[trigger] t[i]) ==> t[i] == ' ' && 0 < i < t.len() - 1
            && !is_space(t[i - 1]) && !is_space(t[i + 1])
}

/// Words with blanks between them are spaced once.
proof fn lemma_joined_words(ws: Seq<Seq<char>>)
    requires
        forall|i: int| 0 <= i < ws.len() ==> is_word(#[trigger] ws[i]),
    ensures
        spaced_once(join(ws, " "@)),
        ws.len() > 0 ==> join(ws, " "@).len() > 0 && !is_space(join(ws, " "@).last()),
        ws.len() == 0 ==> join(ws, " "@).len() == 0,
    decreases ws.len(),
{
    reveal_strlit(" ");
    if ws.len() == 1 {
        assert(is_word(ws[0]));
    } else if ws.len() > 1 {
        let front = ws.drop_last();
        assert forall|i: int| 0 <= i < front.len() implies is_word(#[trigger] front[i]) by {
            assert(front[i] == ws[i]);
        }
        lemma_joined_words(front);
        let a = join(front, " "@);
        let w = ws.last();
        let t = join(ws, " "@);
        assert(is_word(ws[ws.len() - 1]));
        assert(t == a + " "@ + w);
        assert forall|i: int| 0 <= i < t.len() && is_space(#[trigger] t[i]) implies t[i] == ' '
            && 0 < i < t.len() - 1 && !is_space(t[i - 1]) && !is_space(t[i + 1]) by {
            if i < a.len() {
                assert(t[i] == a[i]);
                assert(t[i - 1] == a[i - 1] && t[i + 1] == a[i + 1]);
            } else if i == a.len() {
                assert(t[i - 1] == a.last());
                assert(t[i + 1] == w[0]);
            } else {
                assert(t[i] == w[i - a.len() - 1]);
            }
        }
        assert(t.last() == w.last());
    }
}

/// Collapsed text has the same words, and single blanks between them.
pub proof fn law_collapsed_text_is_spaced_once(s: Seq<char>)
    ensures
        spaced_once(collapse(s)),
        words(collapse(s)) == words(s),
        collapse(s).len() == 0 <==> words(s).len() == 0,
{
    lemma_words_are_words(s);
    lemma_joined_words(words(s));
    lemma_words_of_collapse(s);
}

// ---------------------------------------------------------------------------
// The human profile
// ---------------------------------------------------------------------------

/// Whether `t` is `s` with its white space tidied.
pub open spec fn is_tidied(s: Seq<char>, t: Seq<char>) -> bool {
    words(t) == words(s) && spaced_once(t)
}

/// Whether `kept` are the items that have words, each tidied.
pub open spec fn are_tidied(items: Seq<Seq<char>>, kept: Seq<Seq<char>>) -> bool {
    &&& kept.map_values(|t: Seq<char>| words(t)) == items.map_values(
        |s: Seq<char>| words(s),
    ).filter(|w: Seq<Seq<char>>| w.len() > 0)
    &&& forall|i: int| 0 <= i < kept.len() ==> spaced_once(#[trigger] kept[i])
}

/// Whether `b` came of `a` by tidying: it is of the same kind, of the same level if it is a
/// heading and ordered if it was, and only its white space and blank items differ.
pub open spec fn came_of(a: BlockView, b: BlockView) -> bool {
    match a {
        BlockView::Paragraph { text: s } => b matches BlockView::Paragraph { text: t } && is_tidied(
            s,
            t,
        ),
        BlockView::Heading { level: l, text: s } => b matches BlockView::Heading { level: m, text: t }
            && l == m && is_tidied(s, t),
        BlockView::Quote { text: s } => b matches BlockView::Quote { text: t } && is_tidied(s, t),
        BlockView::List { ordered: o, items: s } => b matches BlockView::List { ordered: p, items: t }
            && o == p && are_tidied(s, t),
        _ => b == a,
    }
}

/// Whether a block has no words to show: prose without any, or a list of blank items.
pub open spec fn is_wordless(b: BlockView) -> bool {
    match b {
        BlockView::Paragraph { text } => words(text).len() == 0,
        BlockView::Heading { text, .. } => words(text).len() == 0,
        BlockView::Quote { text } => words(text).len() == 0,
        BlockView::List { items, .. } => forall|i: int|
            0 <= i < items.len() ==> words(#[trigger] items[i]).len() == 0,
        _ => false,
    }
}

/// Tidied items are the items that have words, each with its white space tidied.
proof fn lemma_tidied_items(items: Seq<Seq<char>>)
    ensures
        are_tidied(items, tidy_items(items)),
        tidy_items(items).len() == 0 <==> (forall|i: int|
            0 <= i < items.len() ==> words(#[trigger] items[i]).len() == 0),
    decreases items.len(),
{
    let f = |i: Seq<char>| collapse(i);
    let g = |s: Seq<char>| words(s);
    let h = |t: Seq<char>| words(t);
    let p = |w: Seq<Seq<char>>| w.len() > 0;
    let kept = tidy_items(items);
    if items.len() == 0 {
        lemma_filter_push(items, Seq::empty(), nonempty());
        lemma_filter_push(items.map_values(g), Seq::empty(), p);
        assert(items.map_values(f) =~= items);
        assert(items =~= Seq::empty());
        assert(items.map_values(g) =~= Seq::empty());
        assert(kept.map_values(h) =~= items.map_values(g).filter(p));
    } else {
        let front = items.drop_last();
        let s = items.last();
        lemma_tidied_items(front);
        assert(front.push(s) =~= items);
        assert(items.map_values(f) =~= front.map_values(f).push(collapse(s)));
        assert(items.map_values(g) =~= front.map_values(g).push(words(s)));
        lemma_filter_push(front.map_values(f), collapse(s), nonempty());
        lemma_filter_push(front.map_values(g), words(s), p);
        law_collapsed_text_is_spaced_once(s);
        let before = tidy_items(front);
        if words(s).len() > 0 {
            assert(kept == before.push(collapse(s)));
            assert(kept.map_values(h) =~= before.map_values(h).push(words(s)));
            assert(items[items.len() - 1] == s);
        } else {
            assert(kept == before);
        }
        assert(kept.map_values(h) =~= items.map_values(g).filter(p));
        if kept.len() == 0 {
            assert forall|i: int| 0 <= i < items.len() implies words(#[trigger] items[i]).len()
                == 0 by {
                if i < front.len() {
                    assert(front[i] == items[i]);
                }
            }
        } else if forall|i: int| 0 <= i < items.len() ==> words(#[trigger] items[i]).len() == 0 {
            assert forall|i: int| 0 <= i < front.len() implies words(#[trigger] front[i]).len()
                == 0 by {
                assert(front[i] == items[i]);
            }
            assert(words(items[items.len() - 1]).len() == 0);
        }
    }
}

/// Tidied text carries content exactly if it has words.
proof fn lemma_tidied_text(s: Seq<char>)
    ensures
        is_tidied(s, collapse(s)),
        trim(collapse(s)).len() > 0 <==> words(s).len() > 0,
{
    law_collapsed_text_is_spaced_once(s);
    lemma_blank_has_no_words(collapse(s));
}

/// Each block that has words to show comes out of the `human` profile as a block of the same
/// kind, level and order, with nothing but its white space and blank items changed. A block
/// without words is dropped.
pub proof fn law_human_keeps_kinds(b: BlockView)
    ensures
        is_wordless(b) ==> human_blocks(seq![b]).len() == 0,
        !is_wordless(b) ==> human_blocks(seq![b]).len() == 1 && came_of(
            b,
            human_blocks(seq![b])[0],
        ),
{
    let none = Seq::<BlockView>::empty();
    assert(tidy_all(seq![b]) =~= none.push(tidy(b)));
    lemma_filter_push(none, tidy(b), has_content());
    match b {
        BlockView::Paragraph { text } => lemma_tidied_text(text),
        BlockView::Heading { text, .. } => lemma_tidied_text(text),
        BlockView::Quote { text } => lemma_tidied_text(text),
        BlockView::List { items, .. } => lemma_tidied_items(items),
        _ => {},
    }
}

/// A filter takes one part and then the other.
pub proof fn lemma_filter_add<A>(a: Seq<A>, b: Seq<A>, p: spec_fn(A) -> bool)
    ensures
        (a + b).filter(p) == a.filter(p) + b.filter(p),
    decreases b.len(),
{
    if b.len() == 0 {
        reveal(Seq::filter);
        assert(a + b =~= a);
        assert(a.filter(p) + b.filter(p) =~= a.filter(p));
    } else {
        let front = b.drop_last();
        lemma_filter_add(a, front, p);
        lemma_filter_push(a + front, b.last(), p);
        lemma_filter_push(front, b.last(), p);
        assert((a + front).push(b.last()) =~= a + b);
        assert(front.push(b.last()) =~= b);
        assert((a + b).filter(p) =~= a.filter(p) + b.filter(p));
    }
}

/// The `human` profile takes block after block: what it makes of blocks is what it makes of the
/// first ones and then of the others.
pub proof fn law_human_is_additive(a: Seq<BlockView>, b: Seq<BlockView>)
    ensures
        human_blocks(a + b) == human_blocks(a) + human_blocks(b),
{
    assert(tidy_all(a + b) =~= tidy_all(a) + tidy_all(b));
    lemma_filter_add(tidy_all(a), tidy_all(b), has_content());
}

/// Each block that the `human` profile leaves came of a block of the document.
pub proof fn law_human_invents_nothing(bs: Seq<BlockView>, i: int)
    requires
        0 <= i < human_blocks(bs).len(),
    ensures
        exists|j: int| 0 <= j < bs.len() && came_of(#[trigger] bs[j], human_blocks(bs)[i]),
    decreases bs.len(),
{
    if bs.len() == 0 {
        reveal(Seq::filter);
        assert(tidy_all(bs) =~= bs);
    } else {
        let front = bs.drop_last();
        let b = bs.last();
        law_human_is_additive(front, seq![b]);
        law_human_keeps_kinds(b);
        assert(front + seq![b] =~= bs);
        if i < human_blocks(front).len() {
            law_human_invents_nothing(front, i);
            let j = choose|j: int|
                0 <= j < front.len() && came_of(#[trigger] front[j], human_blocks(front)[i]);
            assert(bs[j] == front[j]);
        } else {
            assert(bs[bs.len() - 1] == b);
        }
    }
}

// ---------------------------------------------------------------------------
// Quotes
// ---------------------------------------------------------------------------

/// For models a quote is a paragraph, and alone any other block is what it is for people. In
/// compact form a quote is nothing.
pub proof fn law_quotes_are_folded_or_dropped(b: BlockView)
    ensures
        b matches BlockView::Quote { text } ==> llm_prose(seq![b]) == human_blocks(
            seq![BlockView::Paragraph { text }],
        ),
        !(b is Quote) ==> llm_prose(seq![b]) == human_blocks(seq![b]),
        b is Quote ==> compact_prose(seq![b]).len() == 0,
        !(b is Quote) ==> compact_prose(seq![b]) == human_blocks(seq![b]),
{
    let none = Seq::<BlockView>::empty();
    let t = tidy(b);
    let all = tidy_all(seq![b]);
    assert(all =~= none.push(t));
    lemma_filter_push(none, t, has_content());
    lemma_filter_push(none, t, not_quote());
    lemma_alone(unquote_all(human_blocks(seq![b])));
    lemma_alone(human_blocks(seq![b]));
    if let BlockView::Quote { text } = b {
        let q = tidy(BlockView::Paragraph { text });
        assert(tidy_all(seq![BlockView::Paragraph { text }]) =~= none.push(q));
        lemma_filter_push(none, q, has_content());
        assert(unquote_all(human_blocks(seq![b])) =~= human_blocks(
            seq![BlockView::Paragraph { text }],
        ));
        assert(without_repeats(none) =~= none);
        assert(merge(none, Some(crate::reducers::COMPACT_MERGE_LIMIT)) =~= none);
    } else {
        assert(unquote_all(human_blocks(seq![b])) =~= human_blocks(seq![b]));
    }
}

/// At most one block is neither merged nor repeated.
proof fn lemma_alone(bs: Seq<BlockView>)
    requires
        bs.len() <= 1,
    ensures
        merge(bs, None) == bs,
        merge(bs, Some(crate::reducers::COMPACT_MERGE_LIMIT)) == bs,
        without_repeats(bs) == bs,
{
    if bs.len() == 1 {
        let none = bs.drop_last();
        assert(none =~= Seq::empty());
        assert(merge(none, None) =~= none);
        assert(merge(none, Some(crate::reducers::COMPACT_MERGE_LIMIT)) =~= none);
        assert(without_repeats(none) =~= none);
        assert(none.push(bs.last()) =~= bs);
    }
}

// ---------------------------------------------------------------------------
// Merging
// ---------------------------------------------------------------------------

/// What merging leaves ends as the blocks do.
proof fn lemma_merge_end(bs: Seq<BlockView>, limit: Option<usize>)
    ensures
        bs.len() > 0 ==> merge(bs, limit).len() > 0 && (merge(bs, limit).last() is Paragraph
            <==> bs.last() is Paragraph),
        bs.len() > 0 && !(bs.last() is Paragraph) ==> merge(bs, limit).last() == bs.last(),
{
}

/// Merging takes parts by themselves, unless a paragraph ends the one and begins the other.
pub proof fn law_merging_is_additive(a: Seq<BlockView>, b: Seq<BlockView>, limit: Option<usize>)
    requires
        a.len() == 0 || b.len() == 0 || !(a.last() is Paragraph) || !(b[0] is Paragraph),
    ensures
        merge(a + b, limit) == merge(a, limit) + merge(b, limit),
    decreases b.len(),
{
    if b.len() == 0 {
        assert(a + b =~= a);
        assert(merge(a, limit) + merge(b, limit) =~= merge(a, limit));
    } else {
        let front = b.drop_last();
        let m = merge(a, limit);
        law_merging_is_additive(a, front, limit);
        assert((a + b).drop_last() =~= a + front);
        assert((a + b).last() == b.last());
        lemma_merge_end(a, limit);
        lemma_merge_end(front, limit);
        if front.len() == 0 {
            assert(merge(front, limit) =~= Seq::empty());
            assert(m + merge(front, limit) =~= m);
        } else {
            assert((m + merge(front, limit)).last() == merge(front, limit).last());
        }
        assert(merge(a + b, limit) =~= m + merge(b, limit));
    }
}

/// The texts of paragraphs.
pub open spec fn paragraph_texts(ps: Seq<BlockView>) -> Seq<Seq<char>> {
    ps.map_values(|p: BlockView| p->Paragraph_text)
}

/// Without a limit, paragraphs next to each other become one: their texts in order, a blank
/// between them.
pub proof fn law_neighbours_become_one(ps: Seq<BlockView>)
    requires
        ps.len() > 0,
        forall|i: int| 0 <= i < ps.len() ==> (#[trigger] ps[i]) is Paragraph,
    ensures
        merge(ps, None) == seq![BlockView::Paragraph { text: join(paragraph_texts(ps), " "@) }],
    decreases ps.len(),
{
    let front = ps.drop_last();
    let texts = paragraph_texts(ps);
    assert(ps[ps.len() - 1] is Paragraph);
    if ps.len() == 1 {
        assert(merge(front, None) =~= Seq::empty());
        assert(merge(ps, None) =~= seq![BlockView::Paragraph { text: texts[0] }]);
    } else {
        assert forall|i: int| 0 <= i < front.len() implies (#[trigger] front[i]) is Paragraph by {
            assert(front[i] == ps[i]);
        }
        law_neighbours_become_one(front);
        assert(paragraph_texts(front) =~= texts.drop_last());
        assert(merge(ps, None) =~= seq![
            BlockView::Paragraph { text: join(texts, " "@) },
        ]);
    }
}

/// With a limit, two paragraphs become one exactly if that one is shorter than the limit.
pub proof fn law_two_are_joined_below_the_limit(a: Seq<char>, b: Seq<char>, n: usize)
    ensures
        merge(
            seq![BlockView::Paragraph { text: a }, BlockView::Paragraph { text: b }],
            Some(n),
        ) == (if a.len() + 1 + b.len() < n {
            seq![BlockView::Paragraph { text: a + seq![' '] + b }]
        } else {
            seq![BlockView::Paragraph { text: a }, BlockView::Paragraph { text: b }]
        }),
{
    reveal_strlit(" ");
    assert(" "@ =~= seq![' ']);
    let p = BlockView::Paragraph { text: a };
    let two = seq![p, BlockView::Paragraph { text: b }];
    let one = two.drop_last();
    assert(one =~= seq![p]);
    assert(one.drop_last() =~= Seq::empty());
    assert(merge(one.drop_last(), Some(n)) =~= Seq::empty());
    assert(merge(one, Some(n)) =~= seq![p]);
    assert(merge(two, Some(n)) =~= if a.len() + 1 + b.len() < n {
        seq![BlockView::Paragraph { text: a + seq![' '] + b }]
    } else {
        two
    });
}

/// Merging goes from the front: blocks that follow change nothing but the last of what was left
/// so far.
pub proof fn law_merging_goes_from_the_front(
    a: Seq<BlockView>,
    b: Seq<BlockView>,
    limit: Option<usize>,
)
    ensures
        a.len() > 0 ==> merge(a + b, limit).len() >= merge(a, limit).len() && merge(
            a + b,
            limit,
        ).take(merge(a, limit).len() - 1) == merge(a, limit).drop_last(),
    decreases b.len(),
{
    if b.len() == 0 {
        assert(a + b =~= a);
        if a.len() > 0 {
            lemma_merge_end(a, limit);
            assert(merge(a, limit).take(merge(a, limit).len() - 1) =~= merge(a, limit).drop_last());
        }
    } else if a.len() > 0 {
        let front = b.drop_last();
        law_merging_goes_from_the_front(a, front, limit);
        lemma_merge_end(a, limit);
        assert((a + b).drop_last() =~= a + front);
        let k = merge(a, limit).len() - 1;
        assert(merge(a + b, limit).take(k) =~= merge(a + front, limit).take(k));
    }
}

/// In compact form, neighbouring paragraphs would come to two hundred characters or more, and
/// a paragraph that was joined is shorter than that.
pub proof fn law_compact_joins_short_paragraphs(bs: Seq<BlockView>, i: int)
    requires
        0 <= i < compact_prose(bs).len(),
        compact_prose(bs)[i] is Paragraph,
    ensures
        i > 0 && compact_prose(bs)[i - 1] is Paragraph ==> compact_prose(
            bs,
        )[i - 1]->Paragraph_text.len() + 1 + compact_prose(bs)[i]->Paragraph_text.len() >= 200,
        compact_unmerged(bs).contains(compact_prose(bs)[i])
            || compact_prose(bs)[i]->Paragraph_text.len() < 200,
{
    let doc = DocumentView {
        id: Seq::empty(),
        source: arbitrary(),
        title: None,
        metadata: Map::empty(),
        blocks: bs,
        warnings: Seq::empty(),
    };
    crate::reducers::laws::law_compact_squeezes_prose(doc);
    lemma_joined_is_short(
        compact_unmerged(bs),
        Some(crate::reducers::COMPACT_MERGE_LIMIT),
        i,
    );
}

/// A paragraph that merging made is shorter than the limit.
proof fn lemma_joined_is_short(bs: Seq<BlockView>, limit: Option<usize>, i: int)
    requires
        0 <= i < merge(bs, limit).len(),
        merge(bs, limit)[i] is Paragraph,
        limit is Some,
    ensures
        bs.contains(merge(bs, limit)[i]) || merge(bs, limit)[i]->Paragraph_text.len() < limit->0,
    decreases bs.len(),
{
    if bs.len() > 0 {
        reveal_strlit(" ");
        let front = bs.drop_last();
        let m = merge(front, limit);
        let x = merge(bs, limit)[i];
        if i < m.len() && x == m[i] {
            lemma_joined_is_short(front, limit, i);
            if front.contains(x) {
                let j = choose|j: int| 0 <= j < front.len() && front[j] == x;
                assert(bs[j] == x);
            }
        } else if merge(bs, limit).len() > m.len() {
            assert(x == bs[bs.len() - 1]);
        }
    }
}

// ---------------------------------------------------------------------------
// Repeats
// ---------------------------------------------------------------------------

/// Paragraphs that occurred before are dropped where they occur again: the first stays in its
/// place, whatever follows. Blocks of other kinds all stay.
pub proof fn law_the_first_occurrence_stays(a: Seq<BlockView>, b: Seq<BlockView>)
    ensures
        without_repeats(a).is_prefix_of(without_repeats(a + b)),
        forall|p: BlockView|
            p is Paragraph && a.contains(p) ==> #[trigger] without_repeats(a.push(p))
                == without_repeats(a),
        forall|p: BlockView|
            !(p is Paragraph) || !a.contains(p) ==> #[trigger] without_repeats(a.push(p))
                == without_repeats(a).push(p),
    decreases b.len(),
{
    assert forall|p: BlockView| (p is Paragraph && a.contains(p) ==> #[trigger] without_repeats(
        a.push(p),
    ) == without_repeats(a)) && (!(p is Paragraph) || !a.contains(p) ==> without_repeats(a.push(p))
        == without_repeats(a).push(p)) by {
        assert(a.push(p).drop_last() =~= a);
    }
    let x = without_repeats(a);
    if b.len() == 0 {
        assert(a + b =~= a);
        assert(x.subrange(0, x.len() as int) =~= x);
    } else {
        let front = b.drop_last();
        law_the_first_occurrence_stays(a, front);
        assert((a + b).drop_last() =~= a + front);
        let y = without_repeats(a + front);
        let z = without_repeats(a + b);
        assert(z.subrange(0, x.len() as int) =~= y.subrange(0, x.len() as int));
    }
}

/// In compact form, the paragraphs before merging are those of the `human` profile, each the
/// first time only.
pub proof fn law_compact_drops_repeats(bs: Seq<BlockView>)
    ensures
        compact_unmerged(bs) == without_repeats(human_blocks(bs).filter(|b: BlockView| !(b is Quote))),
        compact_unmerged(bs).filter(|b: BlockView| !(b is Paragraph)) == human_blocks(bs).filter(
            |b: BlockView| !(b is Quote),
        ).filter(|b: BlockView| !(b is Paragraph)),
{
    let all = tidy_all(bs);
    let q = |b: BlockView| !(b is Quote);
    crate::reducers::laws::lemma_filters_commute(all, has_content(), not_quote());
    crate::reducers::trim_laws::lemma_same_filter(human_blocks(bs), not_quote(), q);
    lemma_repeats_keep_others(human_blocks(bs).filter(q), |b: BlockView| !(b is Paragraph));
}

} // verus!
