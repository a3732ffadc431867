//! What holds of XML: which text an element has, and which records come of it.
use crate::bridge::xml::{XmlAttributeView, XmlEventView, XmlScanView};
use crate::extractors::xml::{
    attribute_texts, closing_record, empty_record, grown, open_tags, root_name, text_met,
    xml_document, xml_records,
};
use crate::ir::BlockView;
use crate::plugin::InputView;
use crate::reducers::cleanup::lemma_filter_push;
use crate::text::{decimal, join, trim};
use vstd::prelude::*;

verus! {

// ---------------------------------------------------------------------------
// Text
// ---------------------------------------------------------------------------

/// The text of an event, trimmed; nothing if it has none.
pub open spec fn piece_of(e: XmlEventView) -> Seq<char> {
    match e {
        XmlEventView::Text { text: Some(t) } => trim(t),
        _ => Seq::empty(),
    }
}

/// The pieces of text among events that are not blank, trimmed and in order.
pub open spec fn pieces_in(es: Seq<XmlEventView>) -> Seq<Seq<char>> {
    es.map_values(|e: XmlEventView| piece_of(e)).filter(|t: Seq<char>| t.len() > 0)
}

/// Whether no tag opens or closes an element among events.
pub open spec fn no_tags(es: Seq<XmlEventView>) -> bool {
    forall|i: int| 0 <= i < es.len() ==> !((#[trigger] es[i]) is Start) && !(es[i] is End)
}

/// One more event adds its piece.
pub proof fn lemma_pieces_push(es: Seq<XmlEventView>, e: XmlEventView)
    ensures
        pieces_in(es.push(e)) == (if piece_of(e).len() > 0 {
            pieces_in(es).push(piece_of(e))
        } else {
            pieces_in(es)
        }),
        pieces_in(Seq::empty()) == Seq::<Seq<char>>::empty(),
{
    let f = |e: XmlEventView| piece_of(e);
    let p = |t: Seq<char>| t.len() > 0;
    lemma_filter_push(es.map_values(f), piece_of(e), p);
    assert(es.push(e).map_values(f) =~= es.map_values(f).push(piece_of(e)));
    assert(Seq::<XmlEventView>::empty().map_values(f) =~= Seq::empty());
}

/// Text grows by its pieces, a blank between them.
pub proof fn lemma_grown(ps: Seq<Seq<char>>, e: XmlEventView)
    requires
        forall|i: int| 0 <= i < ps.len() ==> (#[trigger] ps[i]).len() > 0,
        e is Text,
    ensures
        grown(join(ps, " "@), e->text) == join(
            if piece_of(e).len() > 0 {
                ps.push(piece_of(e))
            } else {
                ps
            },
            " "@,
        ),
{
    let p = piece_of(e);
    let all = ps.push(p);
    assert(all.drop_last() =~= ps);
    if ps.len() > 0 {
        assert(ps[ps.len() - 1].len() > 0);
        assert(join(ps, " "@).len() > 0);
    }
}

/// Pieces are not empty.
pub proof fn lemma_pieces_solid(es: Seq<XmlEventView>)
    ensures
        forall|i: int| 0 <= i < pieces_in(es).len() ==> (#[trigger] pieces_in(es)[i]).len() > 0,
    decreases es.len(),
{
    if es.len() == 0 {
        lemma_pieces_push(es, XmlEventView::End);
        assert(es =~= Seq::empty());
    } else {
        let front = es.drop_last();
        lemma_pieces_solid(front);
        lemma_pieces_push(front, es.last());
        assert(front.push(es.last()) =~= es);
    }
}

/// Text since the last tag.
proof fn lemma_text_met(a: Seq<XmlEventView>, b: Seq<XmlEventView>)
    requires
        text_met(a).len() == 0,
        no_tags(b),
    ensures
        text_met(a + b) == join(pieces_in(b), " "@),
    decreases b.len(),
{
    if b.len() == 0 {
        assert(a + b =~= a);
        lemma_pieces_push(b, XmlEventView::End);
        assert(b =~= Seq::empty());
        assert(text_met(a) =~= join(pieces_in(b), " "@));
    } else {
        let front = b.drop_last();
        let e = b.last();
        assert forall|i: int| 0 <= i < front.len() implies !((#[trigger] front[i]) is Start) && !(
        front[i] is End) by {
            assert(front[i] == b[i]);
        }
        lemma_text_met(a, front);
        lemma_pieces_push(front, e);
        lemma_pieces_solid(front);
        assert(front.push(e) =~= b);
        assert((a + b).drop_last() =~= a + front);
        assert(!(b[b.len() - 1] is Start) && !(b[b.len() - 1] is End));
        if e is Text {
            lemma_grown(pieces_in(front), e);
        }
    }
}

/// The text of an element that is open is made of all pieces of text since the last tag opened
/// or closed an element, trimmed and in order, with a blank between them, whatever else was met
/// in between.
pub proof fn law_text_is_all_since_the_last_tag(
    a: Seq<XmlEventView>,
    tag: XmlEventView,
    b: Seq<XmlEventView>,
)
    requires
        tag is Start || (tag is End && open_tags(a).len() > 0),
        no_tags(b),
    ensures
        text_met(a.push(tag) + b) == join(pieces_in(b), " "@),
        text_met(b) == join(pieces_in(b), " "@),
{
    assert(a.push(tag).drop_last() =~= a);
    lemma_text_met(a.push(tag), b);
    let none = Seq::<XmlEventView>::empty();
    lemma_text_met(none, b);
    assert(none + b =~= b);
}

// ---------------------------------------------------------------------------
// Elements
// ---------------------------------------------------------------------------

/// A tag that opens an element opens it within those that are open; one that closes an element
/// closes the innermost. Anything else opens and closes none.
pub proof fn law_elements_nest(es: Seq<XmlEventView>, e: XmlEventView)
    ensures
        e matches XmlEventView::Start { tag } ==> open_tags(es.push(e)) == open_tags(es).push(tag),
        e is End && open_tags(es).len() > 0 ==> open_tags(es.push(e)) == open_tags(es).drop_last(),
        e is End && open_tags(es).len() == 0 ==> open_tags(es.push(e)).len() == 0,
        !(e is Start) && !(e is End) ==> open_tags(es.push(e)) == open_tags(es),
        open_tags(Seq::empty()).len() == 0,
{
    assert(es.push(e).drop_last() =~= es);
    assert(open_tags(es) =~= Seq::empty() <==> open_tags(es).len() == 0);
}

/// The attributes of a tag are the well-formed ones, in order, each as its key and its value.
pub proof fn law_attributes_keep_their_order(attributes: Seq<Option<XmlAttributeView>>)
    ensures
        attribute_texts(attributes) == attributes.filter(
            |a: Option<XmlAttributeView>| a is Some,
        ).map_values(|a: Option<XmlAttributeView>| (a->0).key + seq!['='] + (a->0).value),
    decreases attributes.len(),
{
    let p = |a: Option<XmlAttributeView>| a is Some;
    let f = |a: Option<XmlAttributeView>| (a->0).key + seq!['='] + (a->0).value;
    reveal_strlit("=");
    assert("="@ =~= seq!['=']);
    if attributes.len() == 0 {
        lemma_filter_push(attributes, None, p);
        assert(attributes =~= Seq::empty());
        assert(attribute_texts(attributes) =~= attributes.filter(p).map_values(f));
    } else {
        let front = attributes.drop_last();
        law_attributes_keep_their_order(front);
        lemma_filter_push(front, attributes.last(), p);
        assert(front.push(attributes.last()) =~= attributes);
        assert(attribute_texts(attributes) =~= attributes.filter(p).map_values(f));
    }
}

/// An element that closes makes a record of its name, the text met, and its attributes if it
/// has any; without text it makes none. The records so far stay.
pub proof fn law_closing_makes_a_record(es: Seq<XmlEventView>)
    requires
        open_tags(es).len() > 0,
    ensures
        ({
            let after = xml_records(es.push(XmlEventView::End));
            let before = xml_records(es);
            let tag = open_tags(es).last();
            let t = trim(text_met(es));
            let attrs = join(attribute_texts(tag.attributes), seq![',']);
            &&& t.len() == 0 ==> after == before
            &&& t.len() > 0 ==> after.len() == before.len() + 1 && after.drop_last() == before && (
            after.last() matches BlockView::Record { fields } && {
                &&& fields.len() == (if attrs.len() > 0 {
                    3nat
                } else {
                    2nat
                })
                &&& fields[0].key == "tag"@ && fields[0].value == tag.name
                &&& fields[1].key == "text"@ && fields[1].value == t
                &&& attrs.len() > 0 ==> fields[2].key == "attrs"@ && fields[2].value == attrs
            })
        }),
{
    reveal_strlit(",");
    assert(","@ =~= seq![',']);
    let after = xml_records(es.push(XmlEventView::End));
    let before = xml_records(es);
    assert(es.push(XmlEventView::End).drop_last() =~= es);
    let made = closing_record(open_tags(es).last(), text_met(es));
    assert(after == before + made);
    if trim(text_met(es)).len() == 0 {
        assert(before + made =~= before);
    } else {
        assert((before + made).drop_last() =~= before);
    }
}

/// An element with nothing in it makes a record of its name and its attributes if it has any.
/// Tags that open, text and other events make none. The records so far stay.
pub proof fn law_empty_elements_make_records(es: Seq<XmlEventView>, e: XmlEventView)
    requires
        !(e is End),
    ensures
        !(e is Empty) ==> xml_records(es.push(e)) == xml_records(es),
        e matches XmlEventView::Empty { tag } ==> {
            let after = xml_records(es.push(e));
            let before = xml_records(es);
            let attrs = attribute_texts(tag.attributes);
            &&& attrs.len() == 0 ==> after == before
            &&& attrs.len() > 0 ==> after.len() == before.len() + 1 && after.drop_last() == before
                && (after.last() matches BlockView::Record { fields } && fields.len() == 2
                && fields[0].key == "tag"@ && fields[0].value == tag.name && fields[1].key
                == "attrs"@ && fields[1].value == join(attrs, seq![',']))
        },
{
    reveal_strlit(",");
    assert(","@ =~= seq![',']);
    assert(es.push(e).drop_last() =~= es);
    if let XmlEventView::Empty { tag } = e {
        let before = xml_records(es);
        let made = empty_record(tag);
        if made.len() == 0 {
            assert(before + made =~= before);
        } else {
            assert((before + made).drop_last() =~= before);
        }
    }
}

/// The records that events add to those before them.
pub open spec fn records_added(a: Seq<XmlEventView>, b: Seq<XmlEventView>) -> Seq<BlockView> {
    xml_records(a + b).skip(xml_records(a).len() as int)
}

/// Records only ever come to those that are there; and where the same elements are open and the
/// same text was met, the same events add the same records.
pub proof fn law_records_come_in_order(
    a: Seq<XmlEventView>,
    c: Seq<XmlEventView>,
    b: Seq<XmlEventView>,
)
    requires
        open_tags(a) == open_tags(c),
        text_met(a) == text_met(c),
    ensures
        xml_records(a + b) == xml_records(a) + records_added(a, b),
        records_added(a, b) == records_added(c, b),
        open_tags(a + b) == open_tags(c + b),
        text_met(a + b) == text_met(c + b),
    decreases b.len(),
{
    let none = Seq::<BlockView>::empty();
    if b.len() == 0 {
        assert(a + b =~= a);
        assert(c + b =~= c);
        assert(records_added(a, b) =~= none);
        assert(records_added(c, b) =~= none);
        assert(xml_records(a) + none =~= xml_records(a));
    } else {
        let front = b.drop_last();
        law_records_come_in_order(a, c, front);
        law_records_come_in_order(c, a, front);
        assert((a + b).drop_last() =~= a + front);
        assert((c + b).drop_last() =~= c + front);
        let open = open_tags(a + front);
        let made = match b.last() {
            XmlEventView::End => if open.len() > 0 {
                closing_record(open.last(), text_met(a + front))
            } else {
                none
            },
            XmlEventView::Empty { tag } => empty_record(tag),
            _ => none,
        };
        assert(xml_records(a + b) =~= xml_records(a + front) + made);
        assert(xml_records(c + b) =~= xml_records(c + front) + made);
        assert(records_added(a, b) =~= records_added(a, front) + made);
        assert(records_added(c, b) =~= records_added(c, front) + made);
        assert(xml_records(a + b) =~= xml_records(a) + records_added(a, b));
    }
}

/// An empty element without attributes, put anywhere, changes neither what is open, nor the text
/// met, nor the records; nor does anything that is neither a tag nor text.
pub proof fn law_bare_empty_elements_do_not_matter(
    a: Seq<XmlEventView>,
    e: XmlEventView,
    b: Seq<XmlEventView>,
)
    requires
        e is Other || (e matches XmlEventView::Empty { tag } && attribute_texts(
            tag.attributes,
        ).len() == 0),
    ensures
        open_tags(a.push(e) + b) == open_tags(a + b),
        text_met(a.push(e) + b) == text_met(a + b),
        xml_records(a.push(e) + b) == xml_records(a + b),
{
    assert(a.push(e).drop_last() =~= a);
    law_empty_elements_make_records(a, e);
    law_records_come_in_order(a.push(e), a, b);
    law_records_come_in_order(a, a.push(e), b);
}

/// What XML says of itself: its format, its first element if there is one, and one warning if it
/// could be read only so far; the records up to there stay.
pub proof fn law_what_xml_says(input: InputView, scan: XmlScanView)
    ensures
        ({
            let doc = xml_document(input, scan);
            &&& doc.blocks == xml_records(scan.events)
            &&& doc.metadata.contains_pair("format"@, "xml"@)
            &&& root_name(scan.events) matches Some(r) ==> doc.metadata.contains_pair(
                "root_element"@,
                r,
            )
            &&& scan.failure is None ==> doc.warnings.len() == 0
            &&& scan.failure matches Some(f) ==> doc.warnings.len() == 1 && doc.warnings[0].code
                == "xml.malformed"@ && doc.warnings[0].message == "XML"@
                + " parse error at position "@ + decimal(f.position as nat) + ": "@ + f.message
        }),
{
    reveal_strlit("format");
    reveal_strlit("root_element");
    assert("format"@.len() != "root_element"@.len());
}

} // verus!
