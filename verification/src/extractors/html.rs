//! HTML: the semantic elements of a page, in order.
use crate::bridge::html::{
    html_parsed, lemma_element_view, lemma_fragment_view, node_views, parse_html, HtmlElement,
    HtmlElementView, HtmlNode, HtmlNodeView, HtmlPage, HtmlPageView,
};
use crate::bridge::unicode::lossy;
use crate::error::{ErrorView, Result};
use crate::extractors::common::{blank_document, new_document, note, with_note};
use crate::ir::{opt_view, row_views, Block, BlockView, DocumentIr, DocumentView, WarningView};
use crate::plugin::{str_views, Extraction, Extractor, Input, InputView};
use crate::registry::{ExtractorSlot, PlugExtractor};
use crate::text::{
    after_prefix, collapse, collapsed, decimal, decimal_of, join, joined, lower, lowered, same,
    split_words, trim, trimmed, views, words,
};
use vstd::prelude::*;

verus! {

// ---------------------------------------------------------------------------
// Text
// ---------------------------------------------------------------------------

/// A string in a list of its own, unless it is empty.
pub open spec fn unless_empty(s: Seq<char>) -> Seq<Seq<char>> {
    if s.len() == 0 {
        Seq::empty()
    } else {
        seq![s]
    }
}

/// The pieces of text in a node. Scripts and styles have none, nor has a fragment; an image has
/// its alternative text.
pub open spec fn node_pieces(n: HtmlNodeView) -> Seq<Seq<char>>
    decreases n,
{
    match n {
        HtmlNodeView::Text(t) => unless_empty(trim(t)),
        HtmlNodeView::Element(e) => {
            let tag = lower(e.name);
            if tag == "script"@ || tag == "style"@ {
                Seq::empty()
            } else if tag == "img"@ {
                match e.alt {
                    Some(a) => unless_empty(trim(a)),
                    None => Seq::empty(),
                }
            } else {
                pieces(e.children)
            }
        },
        HtmlNodeView::Fragment(_) => Seq::empty(),
        HtmlNodeView::Other => Seq::empty(),
    }
}

/// The pieces of text in nodes, in order.
pub open spec fn pieces(ns: Seq<HtmlNodeView>) -> Seq<Seq<char>>
    decreases ns,
{
    if ns.len() == 0 {
        Seq::empty()
    } else {
        pieces(ns.drop_last()) + node_pieces(ns.last())
    }
}

/// The text in an element, with white space collapsed.
pub open spec fn element_text(e: HtmlElementView) -> Seq<char> {
    collapse(join(pieces(e.children), " "@))
}

/// All text in a node, as it stands.
pub open spec fn node_raw(n: HtmlNodeView) -> Seq<char>
    decreases n,
{
    match n {
        HtmlNodeView::Text(t) => t,
        HtmlNodeView::Element(e) => raw_text(e.children),
        HtmlNodeView::Fragment(ns) => raw_text(ns),
        HtmlNodeView::Other => Seq::empty(),
    }
}

/// All text in nodes, as it stands.
pub open spec fn raw_text(ns: Seq<HtmlNodeView>) -> Seq<char>
    decreases ns,
{
    if ns.len() == 0 {
        Seq::empty()
    } else {
        raw_text(ns.drop_last()) + node_raw(ns.last())
    }
}

/// The elements of a given name in a node, outer ones before those within.
pub open spec fn node_named(n: HtmlNodeView, name: Seq<char>) -> Seq<HtmlElementView>
    decreases n,
{
    match n {
        HtmlNodeView::Element(e) => (if e.name == name {
            seq![e]
        } else {
            Seq::empty()
        }) + named(e.children, name),
        HtmlNodeView::Fragment(ns) => named(ns, name),
        _ => Seq::empty(),
    }
}

/// The elements of a given name in nodes, in document order.
pub open spec fn named(ns: Seq<HtmlNodeView>, name: Seq<char>) -> Seq<HtmlElementView>
    decreases ns,
{
    if ns.len() == 0 {
        Seq::empty()
    } else {
        named(ns.drop_last(), name) + node_named(ns.last(), name)
    }
}

/// Appends the pieces of text in a node.
fn push_pieces(n: &HtmlNode, out: &mut Vec<String>)
    ensures
        views(final(out)@) == views(old(out)@) + node_pieces(n@),
    decreases n,
{
    match n {
        HtmlNode::Text(t) => push_trimmed(t.as_str(), out),
        HtmlNode::Element(e) => {
            proof {
                lemma_element_view(*e);
            }
            let tag = lowered(e.name.as_str());
            if same(tag.as_str(), "script") || same(tag.as_str(), "style") {
                assert(views(out@) + Seq::<Seq<char>>::empty() =~= views(out@));
            } else if same(tag.as_str(), "img") {
                match &e.alt {
                    Some(a) => push_trimmed(a.as_str(), out),
                    None => {
                        assert(views(out@) + Seq::<Seq<char>>::empty() =~= views(out@));
                    },
                }
            } else {
                push_all_pieces(&e.children, out);
            }
        },
        HtmlNode::Fragment(_) => {
            assert(views(out@) + Seq::<Seq<char>>::empty() =~= views(out@));
        },
        HtmlNode::Other => {
            assert(views(out@) + Seq::<Seq<char>>::empty() =~= views(out@));
        },
    }
}

/// Appends the pieces of text in nodes.
fn push_all_pieces(ns: &Vec<HtmlNode>, out: &mut Vec<String>)
    ensures
        views(final(out)@) == views(old(out)@) + pieces(node_views(ns@)),
    decreases ns,
{
    let ghost all = node_views(ns@);
    let ghost start = views(out@);
    assert(start + pieces(all.take(0)) =~= start);
    for i in 0..ns.len()
        invariant
            all == node_views(ns@),
            start == views(old(out)@),
            views(out@) == start + pieces(all.take(i as int)),
    {
        proof {
            assert(all.take(i + 1).drop_last() =~= all.take(i as int));
            assert(all.take(i + 1).last() == ns@[i as int]@);
        }
        push_pieces(&ns[i], out);
        assert(views(out@) =~= start + pieces(all.take(i + 1)));
    }
    assert(all.take(ns.len() as int) =~= all);
}

/// Appends trimmed text, unless it is empty.
fn push_trimmed(s: &str, out: &mut Vec<String>)
    ensures
        views(final(out)@) == views(old(out)@) + unless_empty(trim(s@)),
{
    let t = trimmed(s);
    if t.as_str().is_empty() {
        assert(views(out@) + Seq::<Seq<char>>::empty() =~= views(out@));
    } else {
        out.push(t);
        assert(views(out@) =~= views(old(out)@) + unless_empty(trim(s@)));
    }
}

/// The text in an element, with white space collapsed.
fn collect_text(e: &HtmlElement) -> (s: String)
    ensures
        s@ == element_text(e@),
{
    proof {
        lemma_element_view(*e);
    }
    let mut parts: Vec<String> = Vec::new();
    push_all_pieces(&e.children, &mut parts);
    assert(views(parts@) =~= pieces(e@.children));
    collapsed(joined(&parts, " ").as_str())
}

/// Appends all text in a node, as it stands.
fn push_raw(n: &HtmlNode, out: &mut String)
    ensures
        final(out)@ == old(out)@ + node_raw(n@),
    decreases n,
{
    match n {
        HtmlNode::Text(t) => out.append(t.as_str()),
        HtmlNode::Element(e) => {
            proof {
                lemma_element_view(*e);
            }
            push_all_raw(&e.children, out)
        },
        HtmlNode::Fragment(ns) => {
            proof {
                lemma_fragment_view(*n);
            }
            push_all_raw(ns, out)
        },
        HtmlNode::Other => {
            assert(out@ + Seq::<char>::empty() =~= out@);
        },
    }
}

/// Appends all text in nodes, as it stands.
fn push_all_raw(ns: &Vec<HtmlNode>, out: &mut String)
    ensures
        final(out)@ == old(out)@ + raw_text(node_views(ns@)),
    decreases ns,
{
    let ghost all = node_views(ns@);
    let ghost start = out@;
    assert(start + raw_text(all.take(0)) =~= start);
    for i in 0..ns.len()
        invariant
            all == node_views(ns@),
            start == old(out)@,
            out@ == start + raw_text(all.take(i as int)),
    {
        proof {
            assert(all.take(i + 1).drop_last() =~= all.take(i as int));
            assert(all.take(i + 1).last() == ns@[i as int]@);
        }
        push_raw(&ns[i], out);
        assert(out@ =~= start + raw_text(all.take(i + 1)));
    }
    assert(all.take(ns.len() as int) =~= all);
}

/// Views of a list of borrowed elements.
pub open spec fn element_views(v: Seq<&HtmlElement>) -> Seq<HtmlElementView> {
    v.map_values(|e: &HtmlElement| e@)
}

/// Appends the elements of a given name in a node.
fn find_in_node<'a>(n: &'a HtmlNode, name: &str, out: &mut Vec<&'a HtmlElement>)
    ensures
        element_views(final(out)@) == element_views(old(out)@) + node_named(n@, name@),
    decreases n,
{
    let ghost start = element_views(out@);
    match n {
        HtmlNode::Element(e) => {
            proof {
                lemma_element_view(*e);
            }
            if same(e.name.as_str(), name) {
                out.push(e);
                assert(element_views(out@) =~= start + seq![e@]);
            } else {
                assert(element_views(out@) =~= start + Seq::empty());
            }
            let ghost middle = element_views(out@);
            find_in_nodes(&e.children, name, out);
            assert(element_views(out@) =~= start + node_named(n@, name@));
        },
        HtmlNode::Fragment(ns) => {
            proof {
                lemma_fragment_view(*n);
            }
            find_in_nodes(ns, name, out);
        },
        HtmlNode::Text(_) => {
            assert(start + Seq::<HtmlElementView>::empty() =~= start);
        },
        HtmlNode::Other => {
            assert(start + Seq::<HtmlElementView>::empty() =~= start);
        },
    }
}

/// Appends the elements of a given name in nodes.
fn find_in_nodes<'a>(ns: &'a Vec<HtmlNode>, name: &str, out: &mut Vec<&'a HtmlElement>)
    ensures
        element_views(final(out)@) == element_views(old(out)@) + named(node_views(ns@), name@),
    decreases ns,
{
    let ghost all = node_views(ns@);
    let ghost start = element_views(out@);
    assert(start + named(all.take(0), name@) =~= start);
    for i in 0..ns.len()
        invariant
            all == node_views(ns@),
            start == element_views(old(out)@),
            element_views(out@) == start + named(all.take(i as int), name@),
    {
        proof {
            assert(all.take(i + 1).drop_last() =~= all.take(i as int));
            assert(all.take(i + 1).last() == ns@[i as int]@);
        }
        find_in_node(&ns[i], name, out);
        assert(element_views(out@) =~= start + named(all.take(i + 1), name@));
    }
    assert(all.take(ns.len() as int) =~= all);
}

/// The elements of a given name within an element, in document order.
fn find_all<'a>(e: &'a HtmlElement, name: &str) -> (r: Vec<&'a HtmlElement>)
    ensures
        element_views(r@) == named(e@.children, name@),
{
    proof {
        lemma_element_view(*e);
    }
    let mut r: Vec<&'a HtmlElement> = Vec::new();
    find_in_nodes(&e.children, name, &mut r);
    assert(element_views(r@) =~= named(e@.children, name@));
    r
}

// ---------------------------------------------------------------------------
// Elements
// ---------------------------------------------------------------------------

/// Whether an element is dropped with everything in it.
pub open spec fn is_stripped(tag: Seq<char>) -> bool {
    tag == "script"@ || tag == "style"@ || tag == "nav"@ || tag == "header"@ || tag == "footer"@
        || tag == "aside"@
}

/// The level of a heading element.
pub open spec fn heading_level(tag: Seq<char>) -> Option<u8> {
    if tag == "h1"@ {
        Some(1)
    } else if tag == "h2"@ {
        Some(2)
    } else if tag == "h3"@ {
        Some(3)
    } else if tag == "h4"@ {
        Some(4)
    } else if tag == "h5"@ {
        Some(5)
    } else if tag == "h6"@ {
        Some(6)
    } else {
        None
    }
}

/// Whether an element makes a block of its own.
pub open spec fn makes_block(tag: Seq<char>) -> bool {
    heading_level(tag) is Some || tag == "p"@ || tag == "pre"@ || tag == "table"@ || tag == "ul"@
        || tag == "ol"@ || tag == "blockquote"@
}

/// The texts of elements, without the empty ones.
pub open spec fn filled_texts(es: Seq<HtmlElementView>) -> Seq<Seq<char>>
    decreases es.len(),
{
    if es.len() == 0 {
        Seq::empty()
    } else {
        filled_texts(es.drop_last()) + unless_empty(element_text(es.last()))
    }
}

/// The texts of elements.
pub open spec fn element_texts(es: Seq<HtmlElementView>) -> Seq<Seq<char>> {
    es.map_values(|e: HtmlElementView| element_text(e))
}

/// The rows of a table, without those that have no data cells.
pub open spec fn table_rows(trs: Seq<HtmlElementView>) -> Seq<Seq<Seq<char>>>
    decreases trs.len(),
{
    if trs.len() == 0 {
        Seq::empty()
    } else {
        let before = table_rows(trs.drop_last());
        let row = element_texts(named(trs.last().children, "td"@));
        if row.len() == 0 {
            before
        } else {
            before.push(row)
        }
    }
}

/// The language that the classes of a code element name.
pub open spec fn language(classes: Seq<Seq<char>>) -> Option<Seq<char>>
    decreases classes.len(),
{
    if classes.len() == 0 {
        None
    } else if "language-"@.is_prefix_of(classes[0]) {
        Some(classes[0].skip("language-"@.len() as int))
    } else {
        language(classes.skip(1))
    }
}

/// The language and the text of a preformatted element: those of the first code element in it,
/// if there is one.
pub open spec fn preformatted(e: HtmlElementView) -> (Option<Seq<char>>, Seq<char>) {
    let codes = named(e.children, "code"@);
    if codes.len() == 0 {
        (None, element_text(e))
    } else {
        (
            match codes[0].class {
                Some(c) => language(words(c)),
                None => None,
            },
            element_text(codes[0]),
        )
    }
}

/// The block of an element that makes one; nothing if it is empty.
pub open spec fn element_block(tag: Seq<char>, e: HtmlElementView) -> Seq<BlockView> {
    let text = element_text(e);
    let items = filled_texts(named(e.children, "li"@));
    let headers = filled_texts(named(e.children, "th"@));
    let rows = table_rows(named(e.children, "tr"@));
    if heading_level(tag) is Some && text.len() > 0 {
        seq![BlockView::Heading { level: heading_level(tag)->0, text }]
    } else if tag == "p"@ && text.len() > 0 {
        seq![BlockView::Paragraph { text }]
    } else if tag == "pre"@ && preformatted(e).1.len() > 0 {
        seq![BlockView::Code { lang: preformatted(e).0, text: preformatted(e).1 }]
    } else if tag == "table"@ && (headers.len() > 0 || rows.len() > 0) {
        seq![BlockView::Table { headers, rows }]
    } else if (tag == "ul"@ || tag == "ol"@) && items.len() > 0 {
        seq![BlockView::List { ordered: tag == "ol"@, items }]
    } else if tag == "blockquote"@ && text.len() > 0 {
        seq![BlockView::Quote { text }]
    } else {
        Seq::empty()
    }
}

/// The blocks of a node. A fragment makes none.
pub open spec fn node_blocks(n: HtmlNodeView) -> Seq<BlockView>
    decreases n,
{
    match n {
        HtmlNodeView::Element(e) => {
            let tag = lower(e.name);
            if is_stripped(tag) {
                Seq::empty()
            } else if makes_block(tag) {
                element_block(tag, e)
            } else {
                html_blocks(e.children)
            }
        },
        HtmlNodeView::Text(t) => if trim(t).len() == 0 {
            Seq::empty()
        } else {
            seq![BlockView::Paragraph { text: trim(t) }]
        },
        HtmlNodeView::Fragment(_) => Seq::empty(),
        HtmlNodeView::Other => Seq::empty(),
    }
}

/// The blocks of nodes, in order.
pub open spec fn html_blocks(ns: Seq<HtmlNodeView>) -> Seq<BlockView>
    decreases ns,
{
    if ns.len() == 0 {
        Seq::empty()
    } else {
        html_blocks(ns.drop_last()) + node_blocks(ns.last())
    }
}

/// The texts of elements, without the empty ones.
fn collect_filled(es: &Vec<&HtmlElement>) -> (r: Vec<String>)
    ensures
        views(r@) == filled_texts(element_views(es@)),
{
    let ghost all = element_views(es@);
    let mut r: Vec<String> = Vec::new();
    assert(all.take(0) =~= Seq::empty());
    assert(views(r@) =~= Seq::empty());
    for i in 0..es.len()
        invariant
            all == element_views(es@),
            views(r@) == filled_texts(all.take(i as int)),
    {
        let ghost before = views(r@);
        proof {
            assert(all.take(i + 1).drop_last() =~= all.take(i as int));
            assert(all.take(i + 1).last() == es@[i as int]@);
        }
        let t = collect_text(es[i]);
        if t.as_str().is_empty() {
            assert(before + Seq::<Seq<char>>::empty() =~= before);
        } else {
            r.push(t);
            assert(views(r@) =~= before + unless_empty(t@));
        }
    }
    assert(all.take(es.len() as int) =~= all);
    r
}

/// The texts of elements.
fn collect_texts(es: &Vec<&HtmlElement>) -> (r: Vec<String>)
    ensures
        views(r@) == element_texts(element_views(es@)),
{
    let mut r: Vec<String> = Vec::new();
    for i in 0..es.len()
        invariant
            r@.len() == i,
            forall|j: int| 0 <= j < i ==> (#[trigger] r@[j])@ == element_text(es@[j]@),
    {
        r.push(collect_text(es[i]));
    }
    assert(views(r@) =~= element_texts(element_views(es@)));
    r
}

/// The rows of a table, without those that have no data cells.
fn collect_rows(trs: &Vec<&HtmlElement>) -> (rows: Vec<Vec<String>>)
    ensures
        row_views(rows@) == table_rows(element_views(trs@)),
{
    let ghost all = element_views(trs@);
    let mut rows: Vec<Vec<String>> = Vec::new();
    assert(all.take(0) =~= Seq::empty());
    assert(row_views(rows@) =~= Seq::empty());
    for i in 0..trs.len()
        invariant
            all == element_views(trs@),
            row_views(rows@) == table_rows(all.take(i as int)),
    {
        proof {
            assert(all.take(i + 1).drop_last() =~= all.take(i as int));
            assert(all.take(i + 1).last() == trs@[i as int]@);
        }
        let row = collect_texts(&find_all(trs[i], "td"));
        assert(views(row@).len() == row@.len());
        if row.len() > 0 {
            assert(row_views(rows@.push(row)) =~= row_views(rows@).push(views(row@)));
            rows.push(row);
        }
    }
    assert(all.take(trs.len() as int) =~= all);
    rows
}

/// The language that the classes of a code element name.
fn find_language(class: &str) -> (r: Option<String>)
    ensures
        opt_view(r) == language(words(class@)),
{
    let classes = split_words(class);
    let ghost all = views(classes@);
    assert(all.skip(0) =~= all);
    for i in 0..classes.len()
        invariant
            all == views(classes@),
            all == words(class@),
            language(all.skip(i as int)) == language(all),
    {
        proof {
            assert(all.skip(i as int).skip(1) =~= all.skip(i + 1));
            assert(all.skip(i as int)[0] == classes@[i as int]@);
        }
        if let Some(l) = after_prefix(classes[i].as_str(), "language-") {
            return Some(l);
        }
    }
    None
}

/// The language and the text of a preformatted element.
fn read_preformatted(e: &HtmlElement) -> (r: (Option<String>, String))
    ensures
        (opt_view(r.0), r.1@) == preformatted(e@),
{
    let codes = find_all(e, "code");
    assert(element_views(codes@).len() == codes@.len());
    if codes.len() == 0 {
        return (None, collect_text(e));
    }
    let code = codes[0];
    assert(code@ == element_views(codes@)[0]);
    let lang = match &code.class {
        Some(c) => find_language(c.as_str()),
        None => None,
    };
    (lang, collect_text(code))
}

/// The level of a heading element.
fn level_of(tag: &str) -> (r: Option<u8>)
    ensures
        r == heading_level(tag@),
{
    if same(tag, "h1") {
        Some(1)
    } else if same(tag, "h2") {
        Some(2)
    } else if same(tag, "h3") {
        Some(3)
    } else if same(tag, "h4") {
        Some(4)
    } else if same(tag, "h5") {
        Some(5)
    } else if same(tag, "h6") {
        Some(6)
    } else {
        None
    }
}

/// Whether an element is dropped with everything in it.
fn is_strip_tag(tag: &str) -> (r: bool)
    ensures
        r == is_stripped(tag@),
{
    same(tag, "script") || same(tag, "style") || same(tag, "nav") || same(tag, "header") || same(
        tag,
        "footer",
    ) || same(tag, "aside")
}

/// Whether an element makes a block of its own.
fn is_block_tag(tag: &str) -> (r: bool)
    ensures
        r == makes_block(tag@),
{
    level_of(tag).is_some() || same(tag, "p") || same(tag, "pre") || same(tag, "table") || same(
        tag,
        "ul",
    ) || same(tag, "ol") || same(tag, "blockquote")
}

/// The block of an element that makes one, if it is not empty.
fn emit_block(tag: &str, e: &HtmlElement) -> (r: Option<Block>)
    requires
        makes_block(tag@),
    ensures
        element_block(tag@, e@) == match r {
            Some(b) => seq![b@],
            None => Seq::empty(),
        },
{
    proof {
        lemma_tags_differ();
    }
    if let Some(level) = level_of(tag) {
        let text = collect_text(e);
        if text.as_str().is_empty() {
            return None;
        }
        return Some(Block::Heading { level, text });
    }
    if same(tag, "pre") {
        let (lang, text) = read_preformatted(e);
        if text.as_str().is_empty() {
            return None;
        }
        return Some(Block::Code { lang, text });
    }
    if same(tag, "table") {
        let headers = collect_filled(&find_all(e, "th"));
        let rows = collect_rows(&find_all(e, "tr"));
        assert(views(headers@).len() == headers@.len());
        assert(row_views(rows@).len() == rows@.len());
        if headers.len() == 0 && rows.len() == 0 {
            return None;
        }
        return Some(Block::Table { headers, rows });
    }
    if same(tag, "ul") || same(tag, "ol") {
        let items = collect_filled(&find_all(e, "li"));
        assert(views(items@).len() == items@.len());
        if items.len() == 0 {
            return None;
        }
        return Some(Block::List { ordered: same(tag, "ol"), items });
    }
    let text = collect_text(e);
    if text.as_str().is_empty() {
        None
    } else if same(tag, "p") {
        Some(Block::Paragraph { text })
    } else {
        Some(Block::Quote { text })
    }
}

/// The names of elements that make blocks of different kinds differ.
pub proof fn lemma_tags_differ()
    ensures
        heading_level("p"@) is None,
        heading_level("pre"@) is None,
        heading_level("table"@) is None,
        heading_level("ul"@) is None,
        heading_level("ol"@) is None,
        heading_level("blockquote"@) is None,
        "p"@ != "pre"@,
        "p"@ != "table"@,
        "p"@ != "ul"@,
        "p"@ != "ol"@,
        "p"@ != "blockquote"@,
        "pre"@ != "table"@,
        "pre"@ != "ul"@,
        "pre"@ != "ol"@,
        "pre"@ != "blockquote"@,
        "table"@ != "ul"@,
        "table"@ != "ol"@,
        "table"@ != "blockquote"@,
        "ul"@ != "blockquote"@,
        "ol"@ != "blockquote"@,
{
    reveal_strlit("h1");
    reveal_strlit("h2");
    reveal_strlit("h3");
    reveal_strlit("h4");
    reveal_strlit("h5");
    reveal_strlit("h6");
    reveal_strlit("p");
    reveal_strlit("pre");
    reveal_strlit("table");
    reveal_strlit("ul");
    reveal_strlit("ol");
    reveal_strlit("blockquote");
    assert("p"@.len() == 1);
    assert("pre"@.len() == 3);
    assert("table"@.len() == 5);
    assert("blockquote"@.len() == 10);
    assert("ul"@.len() == 2 && "ul"@[0] == 'u');
    assert("ol"@.len() == 2 && "ol"@[0] == 'o');
    assert("h1"@.len() == 2 && "h1"@[0] == 'h');
    assert("h2"@.len() == 2 && "h2"@[0] == 'h');
    assert("h3"@.len() == 2 && "h3"@[0] == 'h');
    assert("h4"@.len() == 2 && "h4"@[0] == 'h');
    assert("h5"@.len() == 2 && "h5"@[0] == 'h');
    assert("h6"@.len() == 2 && "h6"@[0] == 'h');
}

/// Adds the blocks of a node.
fn walk_node(n: &HtmlNode, doc: &mut DocumentIr)
    ensures
        final(doc)@ == (DocumentView {
            blocks: old(doc)@.blocks + node_blocks(n@),
            ..old(doc)@
        }),
    decreases n,
{
    let ghost start = doc@.blocks;
    match n {
        HtmlNode::Element(e) => {
            proof {
                lemma_element_view(*e);
            }
            let tag = lowered(e.name.as_str());
            if is_strip_tag(tag.as_str()) {
                assert(start + Seq::<BlockView>::empty() =~= start);
            } else if is_block_tag(tag.as_str()) {
                match emit_block(tag.as_str(), e) {
                    Some(b) => {
                        doc.push(b);
                        assert(doc@.blocks =~= start + seq![b@]);
                    },
                    None => {
                        assert(start + Seq::<BlockView>::empty() =~= start);
                    },
                }
            } else {
                walk_nodes(&e.children, doc);
            }
        },
        HtmlNode::Text(t) => {
            let text = trimmed(t.as_str());
            if text.as_str().is_empty() {
                assert(start + Seq::<BlockView>::empty() =~= start);
            } else {
                doc.push(Block::Paragraph { text });
                assert(doc@.blocks =~= start + node_blocks(n@));
            }
        },
        HtmlNode::Fragment(_) => {
            assert(start + Seq::<BlockView>::empty() =~= start);
        },
        HtmlNode::Other => {
            assert(start + Seq::<BlockView>::empty() =~= start);
        },
    }
}

/// Adds the blocks of nodes.
fn walk_nodes(ns: &Vec<HtmlNode>, doc: &mut DocumentIr)
    ensures
        final(doc)@ == (DocumentView {
            blocks: old(doc)@.blocks + html_blocks(node_views(ns@)),
            ..old(doc)@
        }),
    decreases ns,
{
    let ghost all = node_views(ns@);
    let ghost start = doc@.blocks;
    assert(start + html_blocks(all.take(0)) =~= start);
    for i in 0..ns.len()
        invariant
            all == node_views(ns@),
            start == old(doc)@.blocks,
            doc@ == (DocumentView {
                blocks: start + html_blocks(all.take(i as int)),
                ..old(doc)@
            }),
    {
        proof {
            assert(all.take(i + 1).drop_last() =~= all.take(i as int));
            assert(all.take(i + 1).last() == ns@[i as int]@);
        }
        walk_node(&ns[i], doc);
        assert(doc@.blocks =~= start + html_blocks(all.take(i + 1)));
    }
    assert(all.take(ns.len() as int) =~= all);
}

// ---------------------------------------------------------------------------
// Pages
// ---------------------------------------------------------------------------

/// The warning about a page with parse errors.
pub open spec fn malformed_page(errors: Seq<Seq<char>>) -> WarningView {
    WarningView {
        code: "html.malformed"@,
        message: "HTML parse errors ("@ + decimal(errors.len()) + "): "@ + errors[0],
    }
}

/// The title of a page: the text of its title element, unless it is blank.
pub open spec fn page_title(page: HtmlPageView) -> Option<Seq<char>> {
    match page.title {
        Some(t) => if trim(raw_text(t.children)).len() == 0 {
            None
        } else {
            Some(trim(raw_text(t.children)))
        },
        None => None,
    }
}

/// What HTML holds, for what parsing it gave.
pub open spec fn html_document(input: InputView, page: HtmlPageView) -> DocumentView {
    let doc = with_note(blank_document(input), "format"@, "html"@);
    DocumentView {
        title: page_title(page),
        metadata: match page_title(page) {
            Some(t) => doc.metadata.insert("title"@, t),
            None => doc.metadata,
        },
        blocks: match page.body {
            Some(b) => html_blocks(b.children),
            None => html_blocks(page.root.children),
        },
        warnings: if page.errors.len() == 0 {
            Seq::empty()
        } else {
            seq![malformed_page(page.errors)]
        },
        ..doc
    }
}

/// The title of a page.
fn find_title(page: &HtmlPage) -> (r: Option<String>)
    ensures
        opt_view(r) == page_title(page@),
{
    match &page.title {
        Some(t) => {
            proof {
                lemma_element_view(*t);
            }
            let mut raw = String::new();
            push_all_raw(&t.children, &mut raw);
            assert(raw@ =~= raw_text(t@.children));
            let title = trimmed(raw.as_str());
            if title.as_str().is_empty() {
                None
            } else {
                Some(title)
            }
        },
        None => None,
    }
}

/// Makes a document of what parsing HTML gave.
pub fn read_html(input: &Input, page: &HtmlPage) -> (doc: DocumentIr)
    ensures
        doc@ == html_document(input@, page@),
{
    let mut doc = new_document(input);
    note(&mut doc, "format", "html");
    assert(doc@.warnings =~= Seq::empty());
    if page.errors.len() > 0 {
        let mut m = "HTML parse errors (".to_owned();
        m.append(decimal_of(page.errors.len() as u128).as_str());
        m.append("): ");
        m.append(page.errors[0].as_str());
        doc.warn("html.malformed", m.as_str());
        assert(doc@.warnings =~= seq![malformed_page(page@.errors)]);
    }
    if let Some(t) = find_title(page) {
        note(&mut doc, "title", t.as_str());
        doc.title = Some(t);
    }
    let ghost start = doc@;
    assert(start.blocks =~= Seq::empty());
    match &page.body {
        Some(b) => {
            proof {
                lemma_element_view(*b);
            }
            walk_nodes(&b.children, &mut doc);
        },
        None => {
            proof {
                lemma_element_view(page.root);
            }
            walk_nodes(&page.root.children, &mut doc);
        },
    }
    assert(doc@.blocks =~= html_document(input@, page@).blocks);
    doc
}

/// Maps the semantic elements of HTML to blocks.
pub struct HtmlExtractor;

impl Extractor for HtmlExtractor {
    open spec fn named(&self) -> Seq<char> {
        "html"@
    }

    open spec fn handles(&self) -> Seq<Seq<char>> {
        seq!["html"@]
    }

    open spec fn extracts(&self, input: InputView, outcome: Extraction) -> bool {
        outcome == Ok::<DocumentView, ErrorView>(
            html_document(input, html_parsed(lossy(input.bytes))),
        )
    }

    fn name(&self) -> (s: &'static str) {
        "html"
    }

    fn formats(&self) -> (r: &'static [&'static str]) {
        let keys: &'static [&'static str] = &["html"];
        assert(str_views(keys@) =~= self.handles());
        keys
    }

    fn extract(&self, input: &Input) -> (r: Result<DocumentIr>) {
        let text = input.text();
        let page = parse_html(text.as_str());
        Ok(read_html(input, &page))
    }
}

impl PlugExtractor for HtmlExtractor {
    fn plug(self) -> (s: ExtractorSlot) {
        ExtractorSlot { plugin: Box::new(self) }
    }
}

// ---------------------------------------------------------------------------
// Laws
// ---------------------------------------------------------------------------

/// A node without the stripped elements in it, as far as blocks are looked for.
pub open spec fn without_stripped_in(n: HtmlNodeView) -> HtmlNodeView
    decreases n,
{
    match n {
        HtmlNodeView::Element(e) => if makes_block(lower(e.name)) {
            n
        } else {
            HtmlNodeView::Element(
                HtmlElementView { children: without_stripped(e.children), ..e },
            )
        },
        _ => n,
    }
}

/// Nodes without stripped elements, as far as blocks are looked for.
pub open spec fn without_stripped(ns: Seq<HtmlNodeView>) -> Seq<HtmlNodeView>
    decreases ns,
{
    if ns.len() == 0 {
        Seq::empty()
    } else {
        let before = without_stripped(ns.drop_last());
        match ns.last() {
            HtmlNodeView::Element(e) => if is_stripped(lower(e.name)) {
                before
            } else {
                before.push(without_stripped_in(ns.last()))
            },
            _ => before.push(ns.last()),
        }
    }
}

/// Navigation, headers, footers, sidebars, scripts and styles make no difference to the blocks
/// of a page, wherever they stand between blocks: it is as if they were not there.
pub proof fn law_stripped_elements_do_not_matter(ns: Seq<HtmlNodeView>)
    ensures
        html_blocks(without_stripped(ns)) == html_blocks(ns),
    decreases ns,
{
    if ns.len() > 0 {
        let front = ns.drop_last();
        let before = without_stripped(front);
        law_stripped_elements_do_not_matter(front);
        assert(html_blocks(ns) == html_blocks(front) + node_blocks(ns.last()));
        match ns.last() {
            HtmlNodeView::Element(e) => {
                if is_stripped(lower(e.name)) {
                    assert(node_blocks(ns.last()) == Seq::<BlockView>::empty());
                    assert(without_stripped(ns) == before);
                    assert(html_blocks(front) + Seq::<BlockView>::empty() =~= html_blocks(front));
                } else {
                    let n = without_stripped_in(ns.last());
                    assert(before.push(n).drop_last() =~= before);
                    if !makes_block(lower(e.name)) {
                        law_stripped_elements_do_not_matter(e.children);
                        let kept = HtmlElementView { children: without_stripped(e.children), ..e };
                        assert(n == HtmlNodeView::Element(kept));
                        assert(node_blocks(n) == html_blocks(kept.children));
                    }
                    assert(node_blocks(n) == node_blocks(ns.last()));
                    assert(html_blocks(before.push(n)) == html_blocks(before) + node_blocks(n));
                }
            },
            _ => {
                assert(before.push(ns.last()).drop_last() =~= before);
                assert(html_blocks(before.push(ns.last())) == html_blocks(before) + node_blocks(
                    ns.last(),
                ));
            },
        }
    } else {
        assert(without_stripped(ns) =~= ns);
    }
}

/// Whether a block has something in it.
pub open spec fn is_filled(b: BlockView) -> bool {
    match b {
        BlockView::Heading { level, text } => 1 <= level <= 6 && text.len() > 0,
        BlockView::Paragraph { text } => text.len() > 0,
        BlockView::Quote { text } => text.len() > 0,
        BlockView::Code { text, .. } => text.len() > 0,
        BlockView::List { items, .. } => items.len() > 0,
        BlockView::Table { headers, rows } => headers.len() > 0 || rows.len() > 0,
        _ => false,
    }
}

/// Whether every block has something in it.
pub open spec fn all_filled(bs: Seq<BlockView>) -> bool {
    forall|i: int| 0 <= i < bs.len() ==> is_filled(#[trigger] bs[i])
}

/// HTML makes no empty blocks.
pub proof fn law_html_makes_no_empty_blocks(ns: Seq<HtmlNodeView>)
    ensures
        all_filled(html_blocks(ns)),
    decreases ns,
{
    if ns.len() > 0 {
        let front = html_blocks(ns.drop_last());
        let back = node_blocks(ns.last());
        law_html_makes_no_empty_blocks(ns.drop_last());
        if let HtmlNodeView::Element(e) = ns.last() {
            if !is_stripped(lower(e.name)) && !makes_block(lower(e.name)) {
                law_html_makes_no_empty_blocks(e.children);
            }
        }
        assert(all_filled(back));
        assert forall|i: int| 0 <= i < (front + back).len() implies is_filled(
            #[trigger] (front + back)[i],
        ) by {
            if i < front.len() {
                assert((front + back)[i] == front[i]);
            } else {
                assert((front + back)[i] == back[i - front.len()]);
            }
        }
    }
}

} // verus!
