//! What holds of HTML output: no text can pass for a tag, and none is lost.
use crate::emitters::html::{
    escape, escape_char, escapes, heading_level, html, html_block, html_blocks, html_cell,
    html_field, html_header, html_item, html_row, list_tag,
};
use crate::ir::{same_shape, same_shapes, BlockView, DocumentView};
use crate::text::{apart, concat, decimal, digit, lemma_code_loses_nothing, lemma_concat_front};
use vstd::prelude::*;

verus! {

// ---------------------------------------------------------------------------
// Escapes
// ---------------------------------------------------------------------------

/// Text after text is escaped as the one and then the other.
pub proof fn law_escaping_is_additive(a: Seq<char>, b: Seq<char>)
    ensures
        escape(a + b) == escape(a) + escape(b),
    decreases b.len(),
{
    if b.len() == 0 {
        assert(a + b =~= a);
        assert(escape(a) + escape(b) =~= escape(a));
    } else {
        law_escaping_is_additive(a, b.drop_last());
        assert((a + b).drop_last() =~= a + b.drop_last());
        assert(escape(a + b) =~= escape(a) + escape(b));
    }
}

/// Escaped text holds no angle bracket, so it can neither open nor close a tag.
pub proof fn law_escaped_text_has_no_brackets(s: Seq<char>)
    ensures
        forall|i: int| 0 <= i < escape(s).len() ==> (#[trigger] escape(s)[i]) != '<' && escape(s)[i] != '>',
    decreases s.len(),
{
    if s.len() > 0 {
        law_escaped_text_has_no_brackets(s.drop_last());
        reveal_strlit("&amp;");
        reveal_strlit("&lt;");
        reveal_strlit("&gt;");
        let front = escape(s.drop_last());
        let back = escape_char(s.last());
        assert(escape(s) == front + back);
        assert forall|i: int| 0 <= i < escape(s).len() implies (#[trigger] escape(s)[i]) != '<'
            && escape(s)[i] != '>' by {
            if i < front.len() {
                assert(escape(s)[i] == front[i]);
            } else {
                assert(escape(s)[i] == back[i - front.len()]);
            }
        }
    }
}

/// Escaping loses nothing: two texts that are escaped alike are one.
pub proof fn law_escaping_loses_nothing(s: Seq<char>, t: Seq<char>)
    requires
        escape(s) == escape(t),
    ensures
        s == t,
{
    reveal_strlit("&amp;");
    reveal_strlit("&lt;");
    reveal_strlit("&gt;");
    let f = escapes();
    assert forall|c: char, d: char| c != d implies apart(#[trigger] f(0, c), #[trigger] f(0, d)) by {
        assert(f(0, c)[0] != f(0, d)[0] || f(0, c)[1] != f(0, d)[1]);
    }
    lemma_code_loses_nothing(s, t, f);
}

/// Text without reserved characters is written as it is.
pub proof fn law_plain_text_is_not_escaped(s: Seq<char>)
    requires
        forall|i: int| 0 <= i < s.len() ==> (#[trigger] s[i]) != '&' && s[i] != '<' && s[i] != '>',
    ensures
        escape(s) == s,
    decreases s.len(),
{
    if s.len() > 0 {
        assert forall|i: int| 0 <= i < s.drop_last().len() implies (#[trigger] s.drop_last()[i])
            != '&' && s.drop_last()[i] != '<' && s.drop_last()[i] != '>' by {
            assert(s.drop_last()[i] == s[i]);
        }
        law_plain_text_is_not_escaped(s.drop_last());
        assert(escape_char(s[s.len() - 1]) == seq![s[s.len() - 1]]);
        assert(escape(s) =~= s);
    }
}

/// Whether one of the three entities stands at the front of `s`.
pub open spec fn opens_entity(s: Seq<char>) -> bool {
    "&amp;"@.is_prefix_of(s) || "&lt;"@.is_prefix_of(s) || "&gt;"@.is_prefix_of(s)
}

/// Every ampersand in escaped text begins an entity.
pub proof fn law_ampersands_begin_entities(s: Seq<char>, i: int)
    requires
        0 <= i < escape(s).len(),
        escape(s)[i] == '&',
    ensures
        opens_entity(escape(s).skip(i)),
    decreases s.len(),
{
    reveal_strlit("&amp;");
    reveal_strlit("&lt;");
    reveal_strlit("&gt;");
    let front = escape(s.drop_last());
    let back = escape_char(s.last());
    let whole = escape(s);
    assert(whole == front + back);
    if i < front.len() {
        assert(front[i] == '&');
        law_ampersands_begin_entities(s.drop_last(), i);
        assert(whole.skip(i) =~= front.skip(i) + back);
        lemma_prefix_stays("&amp;"@, front.skip(i), back);
        lemma_prefix_stays("&lt;"@, front.skip(i), back);
        lemma_prefix_stays("&gt;"@, front.skip(i), back);
    } else {
        assert(whole[i] == back[i - front.len()]);
        assert(i == front.len());
        assert(whole.skip(i) =~= back);
    }
}

/// A prefix stays one when text is added behind.
proof fn lemma_prefix_stays(p: Seq<char>, s: Seq<char>, t: Seq<char>)
    ensures
        p.is_prefix_of(s) ==> p.is_prefix_of(s + t),
{
    if p.is_prefix_of(s) {
        assert((s + t).take(p.len() as int) =~= s.take(p.len() as int));
    }
}

/// `s` with `to` in place of every `from`, read from the front.
pub open spec fn replace(s: Seq<char>, from: Seq<char>, to: Seq<char>) -> Seq<char>
    decreases s.len(),
{
    if s.len() == 0 || from.len() == 0 {
        s
    } else if from.is_prefix_of(s) {
        to + replace(s.skip(from.len() as int), from, to)
    } else {
        seq![s[0]] + replace(s.skip(1), from, to)
    }
}

/// Text with the three entities resolved, the ampersand last.
pub open spec fn unescape(s: Seq<char>) -> Seq<char> {
    replace(replace(replace(s, "&lt;"@, "<"@), "&gt;"@, ">"@), "&amp;"@, "&"@)
}

/// A replacement passes over text in which nothing is to be replaced.
proof fn lemma_replace_passes(w: Seq<char>, rest: Seq<char>, from: Seq<char>, to: Seq<char>)
    requires
        from.len() >= 2,
        forall|k: int|
            0 <= k < w.len() ==> #[trigger] w[k] != from[0] || (k + 1 < w.len() && w[k + 1]
                != from[1]),
    ensures
        replace(w + rest, from, to) == w + replace(rest, from, to),
    decreases w.len(),
{
    let s = w + rest;
    if w.len() == 0 {
        assert(s =~= rest);
        assert(w + replace(rest, from, to) =~= replace(rest, from, to));
    } else {
        let v = w.skip(1);
        assert(s[0] == w[0]);
        if from.is_prefix_of(s) {
            assert(from[0] == s[0]);
            assert(from[1] == s[1]);
            assert(s[1] == w[1]);
        }
        assert forall|k: int| 0 <= k < v.len() implies #[trigger] v[k] != from[0] || (k + 1
            < v.len() && v[k + 1] != from[1]) by {
            assert(v[k] == w[k + 1]);
        }
        lemma_replace_passes(v, rest, from, to);
        assert(s.skip(1) =~= v + rest);
        assert(replace(s, from, to) =~= w + replace(rest, from, to));
    }
}

/// A replacement takes what stands at the front.
proof fn lemma_replace_takes(rest: Seq<char>, from: Seq<char>, to: Seq<char>)
    requires
        from.len() > 0,
    ensures
        replace(from + rest, from, to) == to + replace(rest, from, to),
{
    let s = from + rest;
    assert(s.take(from.len() as int) =~= from);
    assert(from.is_prefix_of(s));
    assert(s.skip(from.len() as int) =~= rest);
}

/// A character as it is written after some of the entities were resolved.
spec fn partly(brackets: bool, closing: bool) -> spec_fn(int, char) -> Seq<char> {
    |i: int, c: char|
        if c == '<' && brackets {
            "<"@
        } else if c == '>' && closing {
            ">"@
        } else {
            escape_char(c)
        }
}

/// Resolving `from` in what `f` wrote gives what `g` writes.
proof fn lemma_replace_stage(
    s: Seq<char>,
    f: spec_fn(int, char) -> Seq<char>,
    g: spec_fn(int, char) -> Seq<char>,
    from: Seq<char>,
    to: Seq<char>,
)
    requires
        from.len() >= 2,
        forall|i: int, c: char| #[trigger] f(i, c) == f(0, c),
        forall|i: int, c: char| #[trigger] g(i, c) == g(0, c),
        forall|c: char| #[trigger]
            f(0, c) == from && g(0, c) == to || f(0, c) == g(0, c) && passes(f(0, c), from),
    ensures
        replace(concat(s, f), from, to) == concat(s, g),
    decreases s.len(),
{
    if s.len() > 0 {
        let rest = s.skip(1);
        lemma_concat_front(s, f);
        lemma_concat_front(s, g);
        lemma_replace_stage(rest, f, g, from, to);
        if f(0, s[0]) == from && g(0, s[0]) == to {
            lemma_replace_takes(concat(rest, f), from, to);
        } else {
            lemma_replace_passes(f(0, s[0]), concat(rest, f), from, to);
        }
    }
}

/// Whether nothing in `w`, whatever follows, is to be replaced.
spec fn passes(w: Seq<char>, from: Seq<char>) -> bool {
    forall|k: int|
        0 <= k < w.len() ==> #[trigger] w[k] != from[0] || (k + 1 < w.len() && w[k + 1] != from[1])
}

/// Resolving the entities gives the text back.
pub proof fn law_escaped_text_reads_back(s: Seq<char>)
    ensures
        unescape(escape(s)) == s,
{
    reveal_strlit("&amp;");
    reveal_strlit("&lt;");
    reveal_strlit("&gt;");
    reveal_strlit("<");
    reveal_strlit(">");
    reveal_strlit("&");
    let f0 = escapes();
    let f1 = partly(true, false);
    let f2 = partly(true, true);
    let f3 = |i: int, c: char| seq![c];
    assert("<"@ =~= seq!['<']);
    assert(">"@ =~= seq!['>']);
    assert("&"@ =~= seq!['&']);
    assert forall|c: char| #[trigger]
        f0(0, c) == "&lt;"@ && f1(0, c) == "<"@ || f0(0, c) == f1(0, c) && passes(
            f0(0, c),
            "&lt;"@,
        ) by {}
    lemma_replace_stage(s, f0, f1, "&lt;"@, "<"@);
    assert forall|c: char| #[trigger]
        f1(0, c) == "&gt;"@ && f2(0, c) == ">"@ || f1(0, c) == f2(0, c) && passes(
            f1(0, c),
            "&gt;"@,
        ) by {}
    lemma_replace_stage(s, f1, f2, "&gt;"@, ">"@);
    assert forall|c: char| #[trigger]
        f2(0, c) == "&amp;"@ && f3(0, c) == "&"@ || f2(0, c) == f3(0, c) && passes(
            f2(0, c),
            "&amp;"@,
        ) by {}
    lemma_replace_stage(s, f2, f3, "&amp;"@, "&"@);
    lemma_as_it_is(s, f3);
}

/// What writes every character as it is writes a text as it is.
proof fn lemma_as_it_is(s: Seq<char>, f: spec_fn(int, char) -> Seq<char>)
    requires
        forall|i: int, c: char| #[trigger] f(i, c) == seq![c],
    ensures
        concat(s, f) == s,
    decreases s.len(),
{
    if s.len() > 0 {
        lemma_as_it_is(s.drop_last(), f);
        assert(concat(s, f) =~= s);
    }
}

// ---------------------------------------------------------------------------
// Shape
// ---------------------------------------------------------------------------

/// How often `c` occurs in `s`.
pub open spec fn occurrences(s: Seq<char>, c: char) -> nat
    decreases s.len(),
{
    if s.len() == 0 {
        0
    } else {
        occurrences(s.drop_last(), c) + (if s.last() == c {
            1nat
        } else {
            0nat
        })
    }
}

/// Occurrences add up.
broadcast proof fn lemma_occurrences_add(a: Seq<char>, b: Seq<char>, c: char)
    ensures
        #[trigger] occurrences(a + b, c) == occurrences(a, c) + occurrences(b, c),
    decreases b.len(),
{
    if b.len() == 0 {
        assert(a + b =~= a);
    } else {
        lemma_occurrences_add(a, b.drop_last(), c);
        assert((a + b).drop_last() =~= a + b.drop_last());
    }
}

/// What does not occur, occurs no times.
proof fn lemma_no_occurrences(s: Seq<char>, c: char)
    requires
        forall|i: int| 0 <= i < s.len() ==> #[trigger] s[i] != c,
    ensures
        occurrences(s, c) == 0,
    decreases s.len(),
{
    if s.len() > 0 {
        assert forall|i: int| 0 <= i < s.drop_last().len() implies #[trigger] s.drop_last()[i]
            != c by {
            assert(s.drop_last()[i] == s[i]);
        }
        lemma_no_occurrences(s.drop_last(), c);
        assert(s[s.len() - 1] != c);
    }
}

/// No bracket occurs in escaped text.
broadcast proof fn lemma_no_brackets(s: Seq<char>, c: char)
    requires
        c == '<' || c == '>',
    ensures
        #[trigger] occurrences(escape(s), c) == 0,
{
    law_escaped_text_has_no_brackets(s);
    lemma_no_occurrences(escape(s), c);
}

/// Lists of the same length, whose elements are written with as many `c`, are written with as
/// many `c`.
proof fn lemma_concat_occurrences<A>(
    a: Seq<A>,
    b: Seq<A>,
    f: spec_fn(int, A) -> Seq<char>,
    c: char,
)
    requires
        a.len() == b.len(),
        forall|i: int|
            0 <= i < a.len() ==> occurrences(f(i, #[trigger] a[i]), c) == occurrences(
                f(i, b[i]),
                c,
            ),
    ensures
        occurrences(concat(a, f), c) == occurrences(concat(b, f), c),
    decreases a.len(),
{
    broadcast use lemma_occurrences_add;

    if a.len() > 0 {
        let n = a.len() - 1;
        assert forall|i: int| 0 <= i < a.drop_last().len() implies occurrences(
            f(i, #[trigger] a.drop_last()[i]),
            c,
        ) == occurrences(f(i, b.drop_last()[i]), c) by {
            assert(a.drop_last()[i] == a[i]);
        }
        lemma_concat_occurrences(a.drop_last(), b.drop_last(), f, c);
        assert(a[n] == a.last());
    }
}

/// No bracket occurs in a heading level or a list tag.
proof fn lemma_plain_tags(level: u8, ordered: bool, c: char)
    requires
        c == '<' || c == '>',
    ensures
        occurrences(decimal(heading_level(level)), c) == 0,
        occurrences(list_tag(ordered), c) == 0,
{
    reveal_strlit("ol");
    reveal_strlit("ul");
    let n = heading_level(level);
    assert(decimal(n) == seq![digit(n)]);
    lemma_no_occurrences(decimal(n), c);
    lemma_no_occurrences(list_tag(ordered), c);
}

/// Tables of the same shape are written with as many brackets.
proof fn lemma_table_brackets(
    g: Seq<Seq<char>>,
    h: Seq<Seq<char>>,
    s: Seq<Seq<Seq<char>>>,
    t: Seq<Seq<Seq<char>>>,
    c: char,
)
    requires
        c == '<' || c == '>',
        g.len() == h.len(),
        s.len() == t.len(),
        forall|i: int| 0 <= i < s.len() ==> (#[trigger] s[i]).len() == t[i].len(),
    ensures
        occurrences(concat(g, html_header()), c) == occurrences(concat(h, html_header()), c),
        occurrences(concat(s, html_row()), c) == occurrences(concat(t, html_row()), c),
{
    broadcast use {lemma_occurrences_add, lemma_no_brackets};

    lemma_concat_occurrences(g, h, html_header(), c);
    assert forall|i: int| 0 <= i < s.len() implies occurrences(
        html_row()(i, #[trigger] s[i]),
        c,
    ) == occurrences(html_row()(i, t[i]), c) by {
        lemma_concat_occurrences(s[i], t[i], html_cell(), c);
    }
    lemma_concat_occurrences(s, t, html_row(), c);
}

/// How many brackets a block is written with depends on its shape alone: no text can open or
/// close a tag or a comment.
pub proof fn law_brackets_depend_on_shape(a: BlockView, b: BlockView, c: char)
    requires
        c == '<' || c == '>',
        same_shape(a, b),
    ensures
        occurrences(html_block(a), c) == occurrences(html_block(b), c),
    decreases a,
{
    broadcast use {lemma_occurrences_add, lemma_no_brackets};

    match (a, b) {
        (BlockView::Document { children: s }, BlockView::Document { children: t }) => {
            lemma_blocks_brackets(s, t, c);
        },
        (BlockView::Section { children: s }, BlockView::Section { children: t }) => {
            lemma_blocks_brackets(s, t, c);
        },
        (BlockView::Heading { level: l, .. }, BlockView::Heading { level: m, .. }) => {
            lemma_plain_tags(l, true, c);
            lemma_plain_tags(m, true, c);
        },
        (BlockView::List { items: s, .. }, BlockView::List { items: t, .. }) => {
            lemma_concat_occurrences(s, t, html_item(), c);
        },
        (BlockView::Table { headers: g, rows: s }, BlockView::Table { headers: h, rows: t }) => {
            lemma_table_brackets(g, h, s, t, c);
        },
        (BlockView::Record { fields: s }, BlockView::Record { fields: t }) => {
            lemma_concat_occurrences(s, t, html_field(), c);
        },
        _ => {},
    }
}

/// How many brackets a list of blocks is written with depends on its shape alone.
proof fn lemma_blocks_brackets(a: Seq<BlockView>, b: Seq<BlockView>, c: char)
    requires
        c == '<' || c == '>',
        same_shapes(a, b),
    ensures
        occurrences(html_blocks(a), c) == occurrences(html_blocks(b), c),
    decreases a,
{
    broadcast use lemma_occurrences_add;

    if a.len() > 0 {
        lemma_blocks_brackets(a.drop_last(), b.drop_last(), c);
        law_brackets_depend_on_shape(a.last(), b.last(), c);
    }
}

/// How many brackets a document is written with depends on the shape of its blocks and on
/// whether it has a title.
pub proof fn law_document_brackets_depend_on_shape(a: DocumentView, b: DocumentView, c: char)
    requires
        c == '<' || c == '>',
        same_shapes(a.blocks, b.blocks),
        a.title is Some <==> b.title is Some,
    ensures
        occurrences(html(a), c) == occurrences(html(b), c),
{
    broadcast use {lemma_occurrences_add, lemma_no_brackets};

    lemma_blocks_brackets(a.blocks, b.blocks, c);
}

/// A heading is written with one of the six tags that HTML has: that of its own level, or the
/// nearest.
pub proof fn law_headings_have_six_tags(level: u8, text: Seq<char>)
    ensures
        1 <= heading_level(level) <= 6,
        1 <= level <= 6 ==> heading_level(level) == level,
        level == 0 ==> heading_level(level) == 1,
        level > 6 ==> heading_level(level) == 6,
        html_block(BlockView::Heading { level, text }) == "<h"@ + seq![
            digit(heading_level(level)),
        ] + ">"@ + escape(text) + "</h"@ + seq![digit(heading_level(level))] + ">\n"@,
{
}

/// A container is written as its children, one after another, and a list of blocks as the one
/// part and then the other.
pub proof fn law_html_is_additive(a: Seq<BlockView>, b: Seq<BlockView>)
    ensures
        html_blocks(a + b) == html_blocks(a) + html_blocks(b),
        html_block(BlockView::Document { children: a }) == html_blocks(a),
        html_block(BlockView::Section { children: a }) == html_blocks(a),
    decreases b.len(),
{
    if b.len() == 0 {
        assert(a + b =~= a);
        assert(html_blocks(a) + html_blocks(b) =~= html_blocks(a));
    } else {
        law_html_is_additive(a, b.drop_last());
        assert((a + b).drop_last() =~= a + b.drop_last());
        assert(html_blocks(a + b) =~= html_blocks(a) + html_blocks(b));
    }
}

} // verus!
