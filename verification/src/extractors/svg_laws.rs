//! What holds of SVG: which text is shown, and in what order.
use crate::bridge::xml::{XmlAttributeView, XmlEventView, XmlScanView, XmlTagView};
use crate::extractors::svg::{
    bears_text, keeps_text, kept_paragraph, label_of, labels_of, local_name, svg_document,
    svg_paragraphs, text_kept, within_prefix,
};
use crate::extractors::xml_laws::{lemma_grown, lemma_pieces_push, lemma_pieces_solid, pieces_in};
use crate::ir::BlockView;
use crate::plugin::InputView;
use crate::text::{decimal, join, lemma_blank_has_no_words, lemma_leading_is, lower, trim, words};
use vstd::prelude::*;

verus! {

// ---------------------------------------------------------------------------
// Names
// ---------------------------------------------------------------------------

/// The local name of a tag is what follows its first colon, or all of it if it has none.
pub proof fn law_local_name_follows_the_colon(prefix: Seq<char>, name: Seq<char>)
    requires
        forall|i: int| 0 <= i < prefix.len() ==> (#[trigger] prefix[i]) != ':',
    ensures
        local_name(prefix + seq![':'] + name) == name,
        local_name(prefix) == prefix,
{
    let s = prefix + seq![':'] + name;
    let n = prefix.len();
    assert forall|i: int| 0 <= i < n implies within_prefix()(#[trigger] s[i]) by {
        assert(s[i] == prefix[i]);
    }
    lemma_leading_is(s, within_prefix(), n);
    assert(s.skip(n as int + 1) =~= name);
    assert forall|i: int| 0 <= i < n implies within_prefix()(#[trigger] prefix[i]) by {}
    lemma_leading_is(prefix, within_prefix(), n);
}

/// Titles, descriptions, texts and text spans bear text, whatever the case of their names; no
/// other elements do.
pub proof fn law_elements_that_bear_text(tag: XmlTagView)
    ensures
        ({
            let t = lower(local_name(tag.name));
            bears_text(tag) <==> t == "title"@ || t == "desc"@ || t == "text"@ || t == "tspan"@
        }),
{
}

// ---------------------------------------------------------------------------
// Labels
// ---------------------------------------------------------------------------

/// Labels stand in the order of the attributes: those of the one part and then those of the
/// other. An `aria-label` that has words is a paragraph of them, trimmed; any other attribute is
/// nothing.
pub proof fn law_labels_keep_their_order(
    a: Seq<Option<XmlAttributeView>>,
    b: Seq<Option<XmlAttributeView>>,
)
    ensures
        labels_of(a + b) == labels_of(a) + labels_of(b),
        forall|x: XmlAttributeView|
            #![trigger labels_of(seq![Some(x)])]
            x.key == "aria-label"@ && x.unescaped is Some && words(x.unescaped->0).len() > 0
                ==> labels_of(seq![Some(x)]) == seq![
                BlockView::Paragraph { text: trim(x.unescaped->0) },
            ],
        forall|x: XmlAttributeView|
            #![trigger labels_of(seq![Some(x)])]
            x.key != "aria-label"@ || x.unescaped is None || words(x.unescaped->0).len() == 0
                ==> labels_of(seq![Some(x)]).len() == 0,
        labels_of(seq![None]).len() == 0,
    decreases b.len(),
{
    assert forall|x: Option<XmlAttributeView>| #[trigger] labels_of(seq![x]) == label_of(x) by {
        assert(seq![x].drop_last() =~= Seq::empty());
        assert(labels_of(seq![x].drop_last()) =~= Seq::empty());
        assert(labels_of(seq![x]) =~= label_of(x));
    }
    assert forall|x: XmlAttributeView|
        #![trigger labels_of(seq![Some(x)])]
        x.unescaped is Some implies (words(x.unescaped->0).len() == 0 <==> trim(
        x.unescaped->0,
    ).len() == 0) by {
        lemma_blank_has_no_words(x.unescaped->0);
    }
    if b.len() == 0 {
        assert(a + b =~= a);
        assert(labels_of(a) + labels_of(b) =~= labels_of(a));
    } else {
        law_labels_keep_their_order(a, b.drop_last());
        assert((a + b).drop_last() =~= a + b.drop_last());
        assert(labels_of(a + b) =~= labels_of(a) + labels_of(b));
    }
}

// ---------------------------------------------------------------------------
// Text
// ---------------------------------------------------------------------------

/// Whether no element that bears text is opened, and none is closed, among events.
pub open spec fn stays_inside(es: Seq<XmlEventView>) -> bool {
    forall|i: int|
        0 <= i < es.len() ==> !((#[trigger] es[i]) is End) && (es[i] matches XmlEventView::Start {
            tag,
        } ==> !bears_text(tag))
}

/// Text since an element that bears text was opened.
proof fn lemma_text_kept(a: Seq<XmlEventView>, b: Seq<XmlEventView>)
    requires
        keeps_text(a),
        text_kept(a).len() == 0,
        stays_inside(b),
    ensures
        keeps_text(a + b),
        text_kept(a + b) == join(pieces_in(b), " "@),
    decreases b.len(),
{
    if b.len() == 0 {
        assert(a + b =~= a);
        lemma_pieces_push(b, XmlEventView::End);
        assert(b =~= Seq::empty());
        assert(text_kept(a) =~= join(pieces_in(b), " "@));
    } else {
        let front = b.drop_last();
        let e = b.last();
        assert forall|i: int| 0 <= i < front.len() implies !((#[trigger] front[i]) is End) && (
        front[i] matches XmlEventView::Start { tag } ==> !bears_text(tag)) by {
            assert(front[i] == b[i]);
        }
        lemma_text_kept(a, front);
        lemma_pieces_push(front, e);
        lemma_pieces_solid(front);
        assert(front.push(e) =~= b);
        assert((a + b).drop_last() =~= a + front);
        assert((a + b).last() == e);
        assert(e == b[b.len() - 1]);
        if e is Text {
            lemma_grown(pieces_in(front), e);
        }
    }
}

/// An element that bears text makes, when it closes, a paragraph of all pieces of text in it,
/// trimmed and in order with a blank between them, after the paragraphs so far; without text it
/// makes none.
pub proof fn law_text_elements_make_paragraphs(
    a: Seq<XmlEventView>,
    tag: XmlTagView,
    b: Seq<XmlEventView>,
)
    requires
        bears_text(tag),
        stays_inside(b),
    ensures
        ({
            let open = a.push(XmlEventView::Start { tag }) + b;
            let text = trim(join(pieces_in(b), " "@));
            let made = svg_paragraphs(open.push(XmlEventView::End));
            &&& text.len() == 0 ==> made == svg_paragraphs(open)
            &&& text.len() > 0 ==> made == svg_paragraphs(open).push(BlockView::Paragraph { text })
            &&& !keeps_text(open.push(XmlEventView::End))
        }),
{
    let start = a.push(XmlEventView::Start { tag });
    let open = start + b;
    let all = open.push(XmlEventView::End);
    assert(start.drop_last() =~= a);
    lemma_text_kept(start, b);
    assert(all.drop_last() =~= open);
    let text = join(pieces_in(b), " "@);
    assert(svg_paragraphs(all) =~= svg_paragraphs(open) + kept_paragraph(text));
    if trim(text).len() == 0 {
        assert(svg_paragraphs(open) + kept_paragraph(text) =~= svg_paragraphs(open));
    } else {
        assert(svg_paragraphs(open) + kept_paragraph(text) =~= svg_paragraphs(open).push(
            BlockView::Paragraph { text: trim(text) },
        ));
    }
}

/// A tag shows its labels where it opens an element or is one by itself; text, and anything else
/// but a tag that closes, shows nothing yet. Text outside of elements that bear text is never
/// shown.
pub proof fn law_what_an_event_shows(es: Seq<XmlEventView>, e: XmlEventView)
    ensures
        e matches XmlEventView::Start { tag } ==> svg_paragraphs(es.push(e)) == svg_paragraphs(es)
            + labels_of(tag.attributes),
        e matches XmlEventView::Empty { tag } ==> svg_paragraphs(es.push(e)) == svg_paragraphs(es)
            + labels_of(tag.attributes),
        e is Text || e is Other ==> svg_paragraphs(es.push(e)) == svg_paragraphs(es),
        e is End && !keeps_text(es) ==> svg_paragraphs(es.push(e)) == svg_paragraphs(es),
        e is End ==> !keeps_text(es.push(e)),
        e is Text && !keeps_text(es) ==> text_kept(es.push(e)) == text_kept(es),
        e is Empty || e is Other ==> text_kept(es.push(e)) == text_kept(es) && keeps_text(
            es.push(e),
        ) == keeps_text(es),
        svg_paragraphs(Seq::empty()).len() == 0,
        !keeps_text(Seq::empty()),
{
    assert(es.push(e).drop_last() =~= es);
}

/// What SVG says of itself: its format, one warning if it could be read only so far, and one if
/// it has no text.
pub proof fn law_what_svg_says(input: InputView, scan: XmlScanView)
    ensures
        ({
            let doc = svg_document(input, scan);
            let bare = svg_paragraphs(scan.events).len() == 0;
            &&& doc.blocks == svg_paragraphs(scan.events)
            &&& doc.metadata.contains_pair("format"@, "svg"@)
            &&& doc.warnings.len() == (if scan.failure is Some {
                1nat
            } else {
                0nat
            }) + (if bare {
                1nat
            } else {
                0nat
            })
            &&& bare ==> doc.warnings.last().code == "svg.no_text_content"@
                && doc.warnings.last().message == "no text content found in SVG"@
            &&& scan.failure matches Some(f) ==> doc.warnings[0].code == "svg.malformed"@
                && doc.warnings[0].message == "SVG"@ + " parse error at position "@ + decimal(
                f.position as nat,
            ) + ": "@ + f.message
        }),
{
}

} // verus!
