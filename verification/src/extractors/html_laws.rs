//! What holds of HTML pages: which elements make which blocks, of what text and in what order.
use crate::bridge::html::{HtmlElementView, HtmlNodeView, HtmlPageView};
use crate::extractors::html::{
    element_text, element_texts, filled_texts, heading_level, html_blocks, html_document,
    is_stripped, language, lemma_tags_differ, named, node_blocks, node_named, node_pieces, node_raw,
    pieces, raw_text, table_rows, unless_empty,
};
use crate::ir::BlockView;
use crate::plugin::InputView;
use crate::reducers::cleanup::lemma_filter_push;
use crate::reducers::prose_laws::{law_collapsed_text_is_spaced_once, spaced_once};
use crate::text::{
    collapse, decimal, is_space, is_trimmed, join, lemma_blank_has_no_words, lemma_one_space,
    lemma_trim_is_trimmed, lemma_words_add, lemma_words_of_collapse, lower, trim, words,
};
use crate::text_laws::lemma_words_of_trim;
use vstd::prelude::*;

verus! {

// ---------------------------------------------------------------------------
// Text
// ---------------------------------------------------------------------------

/// An element that holds nodes.
pub open spec fn holder(ns: Seq<HtmlNodeView>) -> HtmlElementView {
    HtmlElementView { name: Seq::empty(), class: None, alt: None, children: ns }
}

/// The words of the text of nodes.
pub open spec fn shown_words(ns: Seq<HtmlNodeView>) -> Seq<Seq<char>> {
    words(element_text(holder(ns)))
}

/// Pieces of text stand in the order of their nodes.
proof fn lemma_pieces_add(a: Seq<HtmlNodeView>, b: Seq<HtmlNodeView>)
    ensures
        pieces(a + b) == pieces(a) + pieces(b),
        b.len() == 1 ==> pieces(b) == node_pieces(b[0]),
    decreases b.len(),
{
    if b.len() == 0 {
        assert(a + b =~= a);
        assert(pieces(a) + pieces(b) =~= pieces(a));
    } else {
        let front = b.drop_last();
        lemma_pieces_add(a, front);
        assert((a + b).drop_last() =~= a + front);
        assert(pieces(a + b) =~= pieces(a) + pieces(b));
        if b.len() == 1 {
            assert(front =~= Seq::empty());
            assert(pieces(front) =~= Seq::empty());
            assert(pieces(b) =~= node_pieces(b[0]));
        }
    }
}

/// The words of parts with blanks between them are the words of the parts.
pub proof fn lemma_words_of_parts(a: Seq<Seq<char>>, b: Seq<Seq<char>>)
    ensures
        words(join(a + b, " "@)) == words(join(a, " "@)) + words(join(b, " "@)),
    decreases b.len(),
{
    reveal_strlit(" ");
    assert(is_space(' '));
    if b.len() == 0 {
        assert(a + b =~= a);
        lemma_words_add(Seq::empty(), Seq::empty());
        lemma_blank_has_no_words(Seq::empty());
        assert(trim(Seq::<char>::empty()) =~= Seq::empty());
        assert(join(b, " "@) =~= Seq::empty());
        assert(words(join(a, " "@)) + words(join(b, " "@)) =~= words(join(a, " "@)));
    } else {
        let front = b.drop_last();
        let last = b.last();
        lemma_words_of_parts(a, front);
        lemma_words_of_last(a + front, last);
        lemma_words_of_last(front, last);
        assert((a + front).push(last) =~= a + b);
        assert(front.push(last) =~= b);
        assert(words(join(a + b, " "@)) =~= words(join(a, " "@)) + words(join(b, " "@)));
    }
}

/// One more part adds its words.
proof fn lemma_words_of_last(a: Seq<Seq<char>>, s: Seq<char>)
    ensures
        words(join(a.push(s), " "@)) == words(join(a, " "@)) + words(s),
{
    reveal_strlit(" ");
    assert(is_space(' '));
    let all = a.push(s);
    assert(all.drop_last() =~= a);
    if a.len() == 0 {
        lemma_blank_has_no_words(Seq::empty());
        assert(trim(Seq::<char>::empty()) =~= Seq::empty());
        assert(join(a, " "@) =~= Seq::empty());
        assert(words(join(a, " "@)) + words(s) =~= words(s));
    } else {
        let t = join(a, " "@);
        lemma_words_add(t, " "@);
        lemma_one_space(" "@);
        lemma_words_add(t + " "@, s);
        assert(words(t) + words(" "@) =~= words(t));
    }
}

/// The text of an element is in the words of its nodes, in order, with single blanks between
/// them: those of the one part and then of the other.
pub proof fn law_text_keeps_its_order(a: Seq<HtmlNodeView>, b: Seq<HtmlNodeView>)
    ensures
        shown_words(a + b) == shown_words(a) + shown_words(b),
        spaced_once(element_text(holder(a))),
{
    lemma_pieces_add(a, b);
    lemma_words_of_parts(pieces(a), pieces(b));
    lemma_words_of_collapse(join(pieces(a + b), " "@));
    lemma_words_of_collapse(join(pieces(a), " "@));
    lemma_words_of_collapse(join(pieces(b), " "@));
    law_collapsed_text_is_spaced_once(join(pieces(a), " "@));
}

/// Of the text of an element nothing depends on the element but what is in it.
pub proof fn law_text_is_what_is_inside(e: HtmlElementView)
    ensures
        element_text(e) == element_text(holder(e.children)),
{
}

/// A piece that is not empty has its own words.
proof fn lemma_one_piece(s: Seq<char>)
    ensures
        words(collapse(join(unless_empty(trim(s)), " "@))) == words(s),
{
    let p = unless_empty(trim(s));
    lemma_words_of_collapse(join(p, " "@));
    lemma_words_of_trim(s);
    if trim(s).len() == 0 {
        lemma_blank_has_no_words(s);
        lemma_blank_has_no_words(Seq::empty());
        assert(trim(Seq::<char>::empty()) =~= Seq::empty());
        assert(join(p, " "@) =~= Seq::empty());
        assert(words(join(p, " "@)) =~= words(s));
    }
}

/// A text shows its words; a script or style shows none, an image those of its alternative text,
/// any other element those of what is in it. Fragments, comments and the like show none.
pub proof fn law_what_a_node_shows(n: HtmlNodeView)
    ensures
        n matches HtmlNodeView::Text(t) ==> shown_words(seq![n]) == words(t),
        n matches HtmlNodeView::Fragment(_) ==> shown_words(seq![n]).len() == 0,
        n is Other ==> shown_words(seq![n]).len() == 0,
        n matches HtmlNodeView::Element(e) ==> {
            let tag = lower(e.name);
            if tag == "script"@ || tag == "style"@ {
                shown_words(seq![n]).len() == 0
            } else if tag == "img"@ {
                shown_words(seq![n]) == (match e.alt {
                    Some(a) => words(a),
                    None => Seq::empty(),
                })
            } else {
                shown_words(seq![n]) == shown_words(e.children)
            }
        },
{
    lemma_pieces_add(Seq::empty(), seq![n]);
    assert(Seq::<HtmlNodeView>::empty() + seq![n] =~= seq![n]);
    let none = Seq::<Seq<char>>::empty();
    lemma_one_piece(Seq::empty());
    assert(trim(Seq::<char>::empty()) =~= Seq::empty());
    lemma_blank_has_no_words(Seq::empty());
    match n {
        HtmlNodeView::Text(t) => lemma_one_piece(t),
        HtmlNodeView::Element(e) => {
            if let Some(a) = e.alt {
                lemma_one_piece(a);
            }
        },
        _ => {},
    }
}

// ---------------------------------------------------------------------------
// Elements of a name
// ---------------------------------------------------------------------------

/// Elements of a name are found in document order: in the one part and then in the other, an
/// outer one before those in it, at any depth.
pub proof fn law_elements_are_found_in_order(
    a: Seq<HtmlNodeView>,
    b: Seq<HtmlNodeView>,
    name: Seq<char>,
)
    ensures
        named(a + b, name) == named(a, name) + named(b, name),
        forall|t: Seq<char>| #[trigger]
            named(seq![HtmlNodeView::Text(t)], name) == Seq::<HtmlElementView>::empty(),
        forall|e: HtmlElementView|
            e.name == name ==> #[trigger] named(seq![HtmlNodeView::Element(e)], name) == seq![e]
                + named(e.children, name),
        forall|e: HtmlElementView|
            e.name != name ==> #[trigger] named(seq![HtmlNodeView::Element(e)], name) == named(
                e.children,
                name,
            ),
        forall|ns: Seq<HtmlNodeView>| #[trigger]
            named(seq![HtmlNodeView::Fragment(ns)], name) == named(ns, name),
        named(Seq::empty(), name) == Seq::<HtmlElementView>::empty(),
    decreases b.len(),
{
    let none = Seq::<HtmlElementView>::empty();
    assert forall|n: HtmlNodeView| #[trigger] named(seq![n], name) == node_named(n, name) by {
        assert(seq![n].drop_last() =~= Seq::empty());
        assert(named(seq![n].drop_last(), name) =~= none);
        assert(none + node_named(n, name) =~= node_named(n, name));
    }
    assert forall|e: HtmlElementView| e.name != name implies #[trigger] named(
        seq![HtmlNodeView::Element(e)],
        name,
    ) == named(e.children, name) by {
        assert(none + named(e.children, name) =~= named(e.children, name));
    }
    if b.len() == 0 {
        assert(a + b =~= a);
        assert(named(a, name) + named(b, name) =~= named(a, name));
    } else {
        law_elements_are_found_in_order(a, b.drop_last(), name);
        assert((a + b).drop_last() =~= a + b.drop_last());
        assert(named(a + b, name) =~= named(a, name) + named(b, name));
    }
}

/// The texts of elements that have some, in the order of the elements.
pub proof fn law_filled_texts_keep_their_order(es: Seq<HtmlElementView>)
    ensures
        filled_texts(es) == es.map_values(|e: HtmlElementView| element_text(e)).filter(
            |t: Seq<char>| t.len() > 0,
        ),
    decreases es.len(),
{
    let f = |e: HtmlElementView| element_text(e);
    let p = |t: Seq<char>| t.len() > 0;
    if es.len() == 0 {
        lemma_filter_push(es.map_values(f), Seq::empty(), p);
        assert(es.map_values(f) =~= Seq::empty());
    } else {
        let front = es.drop_last();
        let t = element_text(es.last());
        law_filled_texts_keep_their_order(front);
        lemma_filter_push(front.map_values(f), t, p);
        assert(es.map_values(f) =~= front.map_values(f).push(t));
        if t.len() > 0 {
            assert(filled_texts(es) =~= filled_texts(front).push(t));
        } else {
            assert(filled_texts(es) =~= filled_texts(front));
        }
    }
}

/// The cells of a row: the texts of its data cells.
pub open spec fn cells(tr: HtmlElementView) -> Seq<Seq<char>> {
    named(tr.children, "td"@).map_values(|e: HtmlElementView| element_text(e))
}

/// The rows of a table are the cells of its row elements that have data cells, in document
/// order: the rows of the one part and then those of the other.
pub proof fn law_rows_keep_their_order(a: Seq<HtmlElementView>, b: Seq<HtmlElementView>)
    ensures
        table_rows(a + b) == table_rows(a) + table_rows(b),
        table_rows(b) == b.map_values(|tr: HtmlElementView| cells(tr)).filter(
            |r: Seq<Seq<char>>| r.len() > 0,
        ),
    decreases b.len(),
{
    let f = |tr: HtmlElementView| cells(tr);
    let p = |r: Seq<Seq<char>>| r.len() > 0;
    if b.len() == 0 {
        lemma_filter_push(b.map_values(f), Seq::empty(), p);
        assert(b.map_values(f) =~= Seq::empty());
        assert(a + b =~= a);
        assert(table_rows(a) + table_rows(b) =~= table_rows(a));
    } else {
        let front = b.drop_last();
        let r = cells(b.last());
        law_rows_keep_their_order(a, front);
        assert((a + b).drop_last() =~= a + front);
        assert(element_texts(named(b.last().children, "td"@)) =~= r);
        lemma_filter_push(front.map_values(f), r, p);
        assert(b.map_values(f) =~= front.map_values(f).push(r));
        assert(table_rows(a + b) =~= table_rows(a) + table_rows(b));
    }
}

// ---------------------------------------------------------------------------
// Blocks
// ---------------------------------------------------------------------------

/// The blocks of a page stand in document order: those of the one part and then those of the
/// other.
pub proof fn law_html_blocks_keep_their_order(a: Seq<HtmlNodeView>, b: Seq<HtmlNodeView>)
    ensures
        html_blocks(a + b) == html_blocks(a) + html_blocks(b),
    decreases b.len(),
{
    if b.len() == 0 {
        assert(a + b =~= a);
        assert(html_blocks(a) + html_blocks(b) =~= html_blocks(a));
    } else {
        law_html_blocks_keep_their_order(a, b.drop_last());
        assert((a + b).drop_last() =~= a + b.drop_last());
        assert(html_blocks(a + b) =~= html_blocks(a) + html_blocks(b));
    }
}

/// A node by itself.
proof fn lemma_single(n: HtmlNodeView)
    ensures
        html_blocks(seq![n]) == node_blocks(n),
{
    assert(seq![n].drop_last() =~= Seq::empty());
    assert(html_blocks(seq![n].drop_last()) =~= Seq::empty());
    assert(html_blocks(seq![n]) =~= node_blocks(n));
}

/// The names of elements that are stripped and of those that make blocks differ.
proof fn lemma_names()
    ensures
        !is_stripped("p"@),
        !is_stripped("pre"@),
        !is_stripped("table"@),
        !is_stripped("ul"@),
        !is_stripped("ol"@),
        !is_stripped("blockquote"@),
        !is_stripped("h1"@),
        !is_stripped("h2"@),
        !is_stripped("h3"@),
        !is_stripped("h4"@),
        !is_stripped("h5"@),
        !is_stripped("h6"@),
        heading_level("h1"@) == Some(1u8),
        heading_level("h2"@) == Some(2u8),
        heading_level("h3"@) == Some(3u8),
        heading_level("h4"@) == Some(4u8),
        heading_level("h5"@) == Some(5u8),
        heading_level("h6"@) == Some(6u8),
{
    reveal_strlit("script");
    reveal_strlit("style");
    reveal_strlit("nav");
    reveal_strlit("header");
    reveal_strlit("footer");
    reveal_strlit("aside");
    reveal_strlit("p");
    reveal_strlit("pre");
    reveal_strlit("table");
    reveal_strlit("ul");
    reveal_strlit("ol");
    reveal_strlit("blockquote");
    reveal_strlit("h1");
    reveal_strlit("h2");
    reveal_strlit("h3");
    reveal_strlit("h4");
    reveal_strlit("h5");
    reveal_strlit("h6");
    assert("nav"@.len() == 3 && "nav"@[0] == 'n');
    assert("pre"@.len() == 3 && "pre"@[0] == 'p');
    assert("table"@.len() == 5 && "table"@[0] == 't');
    assert("style"@.len() == 5 && "style"@[0] == 's');
    assert("aside"@.len() == 5 && "aside"@[0] == 'a');
    assert("script"@.len() == 6);
    assert("header"@.len() == 6);
    assert("footer"@.len() == 6);
    assert("h1"@[1] == '1');
    assert("h2"@[1] == '2');
    assert("h3"@[1] == '3');
    assert("h4"@[1] == '4');
    assert("h5"@[1] == '5');
    assert("h6"@[1] == '6');
}

/// A text outside of elements that make blocks is a paragraph of its own, trimmed. Scripts,
/// styles, navigation, headers, footers and sidebars make nothing, nor do fragments and
/// comments.
pub proof fn law_loose_text_and_page_furniture(n: HtmlNodeView)
    ensures
        n matches HtmlNodeView::Text(t) ==> (if words(t).len() == 0 {
            html_blocks(seq![n]).len() == 0
        } else {
            html_blocks(seq![n]).len() == 1 && (html_blocks(seq![n])[0] matches BlockView::Paragraph {
                text,
            } && is_trimmed(text) && words(text) == words(t) && text == trim(t))
        }),
        n matches HtmlNodeView::Fragment(_) ==> html_blocks(seq![n]).len() == 0,
        n is Other ==> html_blocks(seq![n]).len() == 0,
        n matches HtmlNodeView::Element(e) ==> ({
            let tag = lower(e.name);
            tag == "script"@ || tag == "style"@ || tag == "nav"@ || tag == "header"@ || tag
                == "footer"@ || tag == "aside"@
        } ==> html_blocks(seq![n]).len() == 0),
{
    lemma_single(n);
    if let HtmlNodeView::Text(t) = n {
        lemma_blank_has_no_words(t);
        lemma_trim_is_trimmed(t);
        lemma_words_of_trim(t);
    }
}

/// A heading of each level is a heading of that level, a paragraph a paragraph and a quotation
/// a quote, each with the text in the element; without text there is none.
pub proof fn law_text_elements_make_blocks(e: HtmlElementView)
    ensures
        ({
            let tag = lower(e.name);
            let made = html_blocks(seq![HtmlNodeView::Element(e)]);
            let text = element_text(e);
            let is_heading = tag == "h1"@ || tag == "h2"@ || tag == "h3"@ || tag == "h4"@ || tag
                == "h5"@ || tag == "h6"@;
            &&& is_heading || tag == "p"@ || tag == "blockquote"@ ==> (made.len() == 0
                <==> shown_words(e.children).len() == 0) && made.len() <= 1
            &&& text.len() > 0 ==> {
                &&& tag == "h1"@ ==> made == seq![BlockView::Heading { level: 1, text }]
                &&& tag == "h2"@ ==> made == seq![BlockView::Heading { level: 2, text }]
                &&& tag == "h3"@ ==> made == seq![BlockView::Heading { level: 3, text }]
                &&& tag == "h4"@ ==> made == seq![BlockView::Heading { level: 4, text }]
                &&& tag == "h5"@ ==> made == seq![BlockView::Heading { level: 5, text }]
                &&& tag == "h6"@ ==> made == seq![BlockView::Heading { level: 6, text }]
                &&& tag == "p"@ ==> made == seq![BlockView::Paragraph { text }]
                &&& tag == "blockquote"@ ==> made == seq![BlockView::Quote { text }]
            }
        }),
{
    lemma_single(HtmlNodeView::Element(e));
    lemma_names();
    lemma_tags_differ();
    law_collapsed_text_is_spaced_once(join(pieces(e.children), " "@));
}

/// A list holds the texts of its items at any depth, in order, ordered as its element says; a
/// table the texts of its header cells and the cells of its rows. Empty ones make nothing.
pub proof fn law_lists_and_tables_hold_their_elements(e: HtmlElementView)
    ensures
        ({
            let tag = lower(e.name);
            let made = html_blocks(seq![HtmlNodeView::Element(e)]);
            let full = |t: Seq<char>| t.len() > 0;
            let items = named(e.children, "li"@).map_values(
                |i: HtmlElementView| element_text(i),
            ).filter(full);
            let headers = named(e.children, "th"@).map_values(
                |i: HtmlElementView| element_text(i),
            ).filter(full);
            let rows = named(e.children, "tr"@).map_values(|tr: HtmlElementView| cells(tr)).filter(
                |r: Seq<Seq<char>>| r.len() > 0,
            );
            &&& tag == "ul"@ ==> made == (if items.len() == 0 {
                Seq::empty()
            } else {
                seq![BlockView::List { ordered: false, items }]
            })
            &&& tag == "ol"@ ==> made == (if items.len() == 0 {
                Seq::empty()
            } else {
                seq![BlockView::List { ordered: true, items }]
            })
            &&& tag == "table"@ ==> made == (if headers.len() == 0 && rows.len() == 0 {
                Seq::empty()
            } else {
                seq![BlockView::Table { headers, rows }]
            })
        }),
{
    lemma_single(HtmlNodeView::Element(e));
    lemma_names();
    lemma_tags_differ();
    reveal_strlit("ul");
    reveal_strlit("ol");
    assert("ul"@[0] != "ol"@[0]);
    let f = |i: HtmlElementView| element_text(i);
    law_filled_texts_keep_their_order(named(e.children, "li"@));
    law_filled_texts_keep_their_order(named(e.children, "th"@));
    law_rows_keep_their_order(Seq::empty(), named(e.children, "tr"@));
}

/// An element that neither makes a block nor is stripped makes the blocks of what is in it.
pub proof fn law_other_elements_are_transparent(e: HtmlElementView)
    requires
        ({
            let tag = lower(e.name);
            !(tag == "script"@ || tag == "style"@ || tag == "nav"@ || tag == "header"@ || tag
                == "footer"@ || tag == "aside"@ || tag == "h1"@ || tag == "h2"@ || tag == "h3"@
                || tag == "h4"@ || tag == "h5"@ || tag == "h6"@ || tag == "p"@ || tag == "pre"@
                || tag == "table"@ || tag == "ul"@ || tag == "ol"@ || tag == "blockquote"@)
        }),
    ensures
        html_blocks(seq![HtmlNodeView::Element(e)]) == html_blocks(e.children),
{
    lemma_single(HtmlNodeView::Element(e));
}

// ---------------------------------------------------------------------------
// Code
// ---------------------------------------------------------------------------

/// The language of code is what follows `language-` in the first class that begins so; a class
/// that does not changes nothing.
pub proof fn law_language_is_the_first_class_that_names_one(classes: Seq<Seq<char>>, i: int)
    ensures
        (forall|k: int|
            0 <= k < classes.len() ==> !"language-"@.is_prefix_of(#[trigger] classes[k]))
            ==> language(classes) is None,
        0 <= i < classes.len() && "language-"@.is_prefix_of(classes[i]) && (forall|k: int|
            0 <= k < i ==> !"language-"@.is_prefix_of(#[trigger] classes[k])) ==> (language(
            classes,
        ) matches Some(l) && classes[i] == "language-"@ + l),
    decreases classes.len(),
{
    if classes.len() > 0 {
        let rest = classes.skip(1);
        law_language_is_the_first_class_that_names_one(rest, i - 1);
        if forall|k: int|
            0 <= k < classes.len() ==> !"language-"@.is_prefix_of(#[trigger] classes[k]) {
            assert forall|k: int| 0 <= k < rest.len() implies !"language-"@.is_prefix_of(
                #[trigger] rest[k],
            ) by {
                assert(rest[k] == classes[k + 1]);
            }
            assert(!"language-"@.is_prefix_of(classes[0]));
        }
        if 0 <= i < classes.len() && "language-"@.is_prefix_of(classes[i]) && (forall|k: int|
            0 <= k < i ==> !"language-"@.is_prefix_of(#[trigger] classes[k])) {
            let n = "language-"@.len() as int;
            if i == 0 {
                let l = classes[0].skip(n);
                assert(classes[0] =~= "language-"@ + l) by {
                    assert(classes[0].subrange(0, n) == "language-"@);
                    assert forall|j: int| 0 <= j < n implies classes[0][j] == "language-"@[j] by {
                        assert(classes[0].subrange(0, n)[j] == classes[0][j]);
                    }
                }
            } else {
                assert(!"language-"@.is_prefix_of(classes[0]));
                assert(rest[i - 1] == classes[i]);
                assert forall|k: int| 0 <= k < i - 1 implies !"language-"@.is_prefix_of(
                    #[trigger] rest[k],
                ) by {
                    assert(rest[k] == classes[k + 1]);
                }
            }
        }
    }
}

/// Preformatted text is a code block: of the first code element in it, with the language that its
/// classes name, or of the whole element, without one. Without text it is nothing.
pub proof fn law_preformatted_text_is_code(e: HtmlElementView)
    requires
        lower(e.name) == "pre"@,
    ensures
        ({
            let made = html_blocks(seq![HtmlNodeView::Element(e)]);
            let codes = named(e.children, "code"@);
            let from = if codes.len() == 0 {
                e
            } else {
                codes[0]
            };
            &&& element_text(from).len() == 0 ==> made.len() == 0
            &&& element_text(from).len() > 0 ==> made.len() == 1 && (made[0] matches BlockView::Code {
                lang,
                text,
            } && text == element_text(from) && lang == (if codes.len() == 0 || codes[0].class is None {
                None
            } else {
                language(words(codes[0].class->0))
            }))
        }),
{
    lemma_single(HtmlNodeView::Element(e));
    lemma_names();
    lemma_tags_differ();
}

// ---------------------------------------------------------------------------
// Pages
// ---------------------------------------------------------------------------

/// All the text in nodes is theirs in order, at any depth, character by character.
pub proof fn law_raw_text_keeps_its_order(a: Seq<HtmlNodeView>, b: Seq<HtmlNodeView>)
    ensures
        raw_text(a + b) == raw_text(a) + raw_text(b),
        raw_text(Seq::empty()) == Seq::<char>::empty(),
        forall|t: Seq<char>| #[trigger] raw_text(seq![HtmlNodeView::Text(t)]) == t,
        forall|e: HtmlElementView| #[trigger]
            raw_text(seq![HtmlNodeView::Element(e)]) == raw_text(e.children),
        forall|ns: Seq<HtmlNodeView>| #[trigger]
            raw_text(seq![HtmlNodeView::Fragment(ns)]) == raw_text(ns),
    decreases b.len(),
{
    assert forall|n: HtmlNodeView| #[trigger] raw_text(seq![n]) == node_raw(n) by {
        assert(seq![n].drop_last() =~= Seq::empty());
        assert(raw_text(seq![n].drop_last()) =~= Seq::empty());
        assert(raw_text(seq![n]) =~= node_raw(n));
    }
    if b.len() == 0 {
        assert(a + b =~= a);
        assert(raw_text(a) + raw_text(b) =~= raw_text(a));
    } else {
        law_raw_text_keeps_its_order(a, b.drop_last());
        assert((a + b).drop_last() =~= a + b.drop_last());
        assert(raw_text(a + b) =~= raw_text(a) + raw_text(b));
    }
}

/// The title of a page is the text of its title element, trimmed, and the metadata say so too; a
/// page without such text has none. The blocks are those of the body, or else of the root. Parse
/// errors make one warning, which counts them and tells the first; they cost no block.
pub proof fn law_what_a_page_says(input: InputView, page: HtmlPageView)
    ensures
        ({
            let doc = html_document(input, page);
            let titled = page.title is Some && words(raw_text(page.title->0.children)).len() > 0;
            &&& titled ==> doc.title == Some(trim(raw_text(page.title->0.children)))
                && doc.metadata.contains_pair("title"@, trim(raw_text(page.title->0.children)))
            &&& !titled ==> doc.title is None
            &&& doc.metadata.contains_pair("format"@, "html"@)
            &&& doc.blocks == (match page.body {
                Some(b) => html_blocks(b.children),
                None => html_blocks(page.root.children),
            })
            &&& doc.warnings.len() == (if page.errors.len() == 0 {
                0nat
            } else {
                1nat
            })
            &&& page.errors.len() > 0 ==> doc.warnings[0].code == "html.malformed"@
                && doc.warnings[0].message == "HTML parse errors ("@ + decimal(page.errors.len())
                + "): "@ + page.errors[0]
        }),
{
    reveal_strlit("title");
    reveal_strlit("format");
    assert("title"@.len() != "format"@.len());
    if let Some(t) = page.title {
        lemma_blank_has_no_words(raw_text(t.children));
    }
}

} // verus!
