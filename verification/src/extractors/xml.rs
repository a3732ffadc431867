//! XML: one flat record per element with text, or with attributes and nothing in it.
use crate::bridge::unicode::lossy;
use crate::bridge::xml::{
    attribute_view, attribute_views, event_views, scan_xml, xml_scan, XmlAttribute,
    XmlAttributeView, XmlEvent, XmlEventView, XmlFailure, XmlFailureView, XmlScan, XmlScanView,
    XmlTag, XmlTagView,
};
use crate::error::{ErrorView, Result};
use crate::extractors::common::{blank_document, new_document, note, with_note};
use crate::ir::{
    field_views, opt_view, Block, BlockView, DocumentIr, DocumentView, Field, FieldView,
    WarningView,
};
use crate::plugin::{str_views, Extraction, Extractor, Input, InputView};
use crate::registry::{ExtractorSlot, PlugExtractor};
use crate::text::{
    decimal, decimal_of, is_trimmed, join, joined, lemma_trim_is_trimmed, trim, trimmed, views,
};
use vstd::prelude::*;

verus! {

// ---------------------------------------------------------------------------
// Tags and text
// ---------------------------------------------------------------------------

/// The well-formed ones among attributes, as `key=value`.
pub open spec fn attribute_texts(attributes: Seq<Option<XmlAttributeView>>) -> Seq<Seq<char>>
    decreases attributes.len(),
{
    if attributes.len() == 0 {
        Seq::empty()
    } else {
        let before = attribute_texts(attributes.drop_last());
        match attributes.last() {
            Some(a) => before.push(a.key + "="@ + a.value),
            None => before,
        }
    }
}

/// The attributes of a tag in one string.
pub open spec fn attributes_of(tag: XmlTagView) -> Seq<char> {
    join(attribute_texts(tag.attributes), ","@)
}

/// Text that grows by a piece: blank pieces count for nothing, others are set off by a blank.
pub open spec fn grown(text: Seq<char>, piece: Option<Seq<char>>) -> Seq<char> {
    let p = match piece {
        Some(t) => trim(t),
        None => Seq::empty(),
    };
    if p.len() == 0 {
        text
    } else if text.len() == 0 {
        p
    } else {
        text + " "@ + p
    }
}

/// The elements that are open after `es`, outermost first.
pub open spec fn open_tags(es: Seq<XmlEventView>) -> Seq<XmlTagView>
    decreases es.len(),
{
    if es.len() == 0 {
        Seq::empty()
    } else {
        let before = open_tags(es.drop_last());
        match es.last() {
            XmlEventView::Start { tag } => before.push(tag),
            XmlEventView::End => if before.len() > 0 {
                before.drop_last()
            } else {
                before
            },
            _ => before,
        }
    }
}

/// The text met since the last element was opened or closed.
pub open spec fn text_met(es: Seq<XmlEventView>) -> Seq<char>
    decreases es.len(),
{
    if es.len() == 0 {
        Seq::empty()
    } else {
        let before = text_met(es.drop_last());
        match es.last() {
            XmlEventView::Start { .. } => Seq::empty(),
            XmlEventView::End => if open_tags(es.drop_last()).len() > 0 {
                Seq::empty()
            } else {
                before
            },
            XmlEventView::Text { text } => grown(before, text),
            _ => before,
        }
    }
}

/// A field of a record.
pub open spec fn field(key: Seq<char>, value: Seq<char>) -> FieldView {
    FieldView { key, value }
}

/// The record of an element that closes, if there was text in it.
pub open spec fn closing_record(tag: XmlTagView, text: Seq<char>) -> Seq<BlockView> {
    let t = trim(text);
    let attrs = attributes_of(tag);
    if t.len() == 0 {
        Seq::empty()
    } else if attrs.len() == 0 {
        seq![BlockView::Record { fields: seq![field("tag"@, tag.name), field("text"@, t)] }]
    } else {
        seq![
            BlockView::Record {
                fields: seq![
                    field("tag"@, tag.name),
                    field("text"@, t),
                    field("attrs"@, attrs),
                ],
            },
        ]
    }
}

/// The record of an element that has nothing in it, if it has attributes.
pub open spec fn empty_record(tag: XmlTagView) -> Seq<BlockView> {
    if attribute_texts(tag.attributes).len() == 0 {
        Seq::empty()
    } else {
        seq![
            BlockView::Record {
                fields: seq![field("tag"@, tag.name), field("attrs"@, attributes_of(tag))],
            },
        ]
    }
}

/// The records of what was met.
pub open spec fn xml_records(es: Seq<XmlEventView>) -> Seq<BlockView>
    decreases es.len(),
{
    if es.len() == 0 {
        Seq::empty()
    } else {
        let before = xml_records(es.drop_last());
        let open = open_tags(es.drop_last());
        match es.last() {
            XmlEventView::End => if open.len() > 0 {
                before + closing_record(open.last(), text_met(es.drop_last()))
            } else {
                before
            },
            XmlEventView::Empty { tag } => before + empty_record(tag),
            _ => before,
        }
    }
}

/// The name of the first element.
pub open spec fn root_name(es: Seq<XmlEventView>) -> Option<Seq<char>>
    decreases es.len(),
{
    if es.len() == 0 {
        None
    } else {
        match root_name(es.drop_last()) {
            Some(r) => Some(r),
            None => match es.last() {
                XmlEventView::Start { tag } => Some(tag.name),
                XmlEventView::Empty { tag } => Some(tag.name),
                _ => None,
            },
        }
    }
}

/// The warning about XML that cannot be read on.
pub open spec fn malformed(code: Seq<char>, kind: Seq<char>, f: XmlFailureView) -> WarningView {
    WarningView {
        code,
        message: kind + " parse error at position "@ + decimal(f.position as nat) + ": "@
            + f.message,
    }
}

/// What XML holds, for what reading it met.
pub open spec fn xml_document(input: InputView, scan: XmlScanView) -> DocumentView {
    let doc = with_note(blank_document(input), "format"@, "xml"@);
    DocumentView {
        blocks: xml_records(scan.events),
        warnings: match scan.failure {
            Some(f) => seq![malformed("xml.malformed"@, "XML"@, f)],
            None => Seq::empty(),
        },
        metadata: match root_name(scan.events) {
            Some(r) => doc.metadata.insert("root_element"@, r),
            None => doc.metadata,
        },
        ..doc
    }
}

/// The well-formed ones among attributes, as `key=value`.
fn texts_of_attributes(attributes: &Vec<Option<XmlAttribute>>) -> (r: Vec<String>)
    ensures
        views(r@) == attribute_texts(attribute_views(attributes@)),
{
    let ghost all = attribute_views(attributes@);
    let mut r: Vec<String> = Vec::new();
    assert(all.take(0) =~= Seq::empty());
    assert(views(r@) =~= Seq::empty());
    for i in 0..attributes.len()
        invariant
            all == attribute_views(attributes@),
            views(r@) == attribute_texts(all.take(i as int)),
    {
        proof {
            assert(all.take(i + 1).drop_last() =~= all.take(i as int));
            assert(all.take(i + 1).last() == attribute_view(attributes@[i as int]));
        }
        if let Some(a) = &attributes[i] {
            let mut s = a.key.clone();
            s.append("=");
            s.append(a.value.as_str());
            assert(views(r@.push(s)) =~= views(r@).push(s@));
            r.push(s);
        }
    }
    assert(all.take(attributes.len() as int) =~= all);
    r
}

/// Lets text grow by a piece.
pub fn grow(text: &mut String, piece: &Option<String>)
    ensures
        final(text)@ == grown(old(text)@, opt_view(*piece)),
{
    if let Some(t) = piece {
        let p = trimmed(t.as_str());
        if !p.as_str().is_empty() {
            if text.as_str().is_empty() {
                text.append(p.as_str());
                assert(text@ =~= p@);
            } else {
                text.append(" ");
                text.append(p.as_str());
            }
        }
    }
}

/// Builds a field.
fn make_field(key: &str, value: &str) -> (f: Field)
    ensures
        f@ == field(key@, value@),
{
    Field { key: key.to_owned(), value: value.to_owned() }
}

/// Records an element that closes, if there was text in it.
fn push_closing(doc: &mut DocumentIr, tag: &XmlTag, text: &str)
    ensures
        final(doc)@ == (DocumentView {
            blocks: old(doc)@.blocks + closing_record(tag@, text@),
            ..old(doc)@
        }),
{
    let t = trimmed(text);
    if t.as_str().is_empty() {
        assert(doc@.blocks + Seq::<BlockView>::empty() =~= doc@.blocks);
        return;
    }
    let attrs = joined(&texts_of_attributes(&tag.attributes), ",");
    let mut fields: Vec<Field> = Vec::new();
    fields.push(make_field("tag", tag.name.as_str()));
    fields.push(make_field("text", t.as_str()));
    if !attrs.as_str().is_empty() {
        fields.push(make_field("attrs", attrs.as_str()));
        assert(field_views(fields@) =~= seq![
            field("tag"@, tag.name@),
            field("text"@, t@),
            field("attrs"@, attrs@),
        ]);
    } else {
        assert(field_views(fields@) =~= seq![field("tag"@, tag.name@), field("text"@, t@)]);
    }
    doc.push(Block::Record { fields });
    assert(doc@.blocks =~= old(doc)@.blocks + closing_record(tag@, text@));
}

/// Records an element that has nothing in it, if it has attributes.
fn push_empty(doc: &mut DocumentIr, tag: &XmlTag)
    ensures
        final(doc)@ == (DocumentView {
            blocks: old(doc)@.blocks + empty_record(tag@),
            ..old(doc)@
        }),
{
    let texts = texts_of_attributes(&tag.attributes);
    assert(views(texts@).len() == texts@.len());
    if texts.len() == 0 {
        assert(doc@.blocks + Seq::<BlockView>::empty() =~= doc@.blocks);
        return;
    }
    let mut fields: Vec<Field> = Vec::new();
    fields.push(make_field("tag", tag.name.as_str()));
    fields.push(make_field("attrs", joined(&texts, ",").as_str()));
    assert(field_views(fields@) =~= seq![
        field("tag"@, tag.name@),
        field("attrs"@, attributes_of(tag@)),
    ]);
    doc.push(Block::Record { fields });
    assert(doc@.blocks =~= old(doc)@.blocks + empty_record(tag@));
}

/// Warns about XML that cannot be read on.
pub fn warn_malformed(doc: &mut DocumentIr, code: &str, kind: &str, f: &XmlFailure)
    ensures
        final(doc)@ == (DocumentView {
            warnings: old(doc)@.warnings.push(malformed(code@, kind@, f@)),
            ..old(doc)@
        }),
{
    let mut m = kind.to_owned();
    m.append(" parse error at position ");
    m.append(decimal_of(f.position as u128).as_str());
    m.append(": ");
    m.append(f.message.as_str());
    doc.warn(code, m.as_str());
}

/// Makes a document of what reading XML met.
pub fn read_xml(input: &Input, scan: &XmlScan) -> (doc: DocumentIr)
    ensures
        doc@ == xml_document(input@, scan@),
{
    let mut doc = new_document(input);
    note(&mut doc, "format", "xml");
    let ghost start = doc@;
    let ghost all = event_views(scan.events@);
    let mut root: Option<String> = None;
    let mut stack: Vec<&XmlTag> = Vec::new();
    let mut text = String::new();
    proof {
        assert(all.take(0) =~= Seq::empty());
        assert(doc@.blocks =~= Seq::empty());
        assert(doc@.warnings =~= Seq::empty());
        assert(tag_views(stack@) =~= Seq::empty());
        assert(text@ =~= Seq::empty());
    }
    for i in 0..scan.events.len()
        invariant
            all == event_views(scan.events@),
            start.warnings.len() == 0,
            doc@ == (DocumentView { blocks: xml_records(all.take(i as int)), ..start }),
            tag_views(stack@) == open_tags(all.take(i as int)),
            text@ == text_met(all.take(i as int)),
            opt_view(root) == root_name(all.take(i as int)),
    {
        let ghost open = tag_views(stack@);
        proof {
            assert(all.take(i + 1).drop_last() =~= all.take(i as int));
            assert(all.take(i + 1).last() == scan.events@[i as int]@);
            assert(open.len() == stack@.len());
        }
        match &scan.events[i] {
            XmlEvent::Start { tag } => {
                if root.is_none() {
                    root = Some(tag.name.clone());
                }
                stack.push(tag);
                text = String::new();
                assert(tag_views(stack@) =~= open.push(tag@));
                assert(text@ =~= Seq::empty());
            },
            XmlEvent::Text { text: piece } => grow(&mut text, piece),
            XmlEvent::End => {
                if let Some(tag) = stack.pop() {
                    assert(tag@ == open.last());
                    assert(tag_views(stack@) =~= open.drop_last());
                    push_closing(&mut doc, tag, text.as_str());
                    text = String::new();
                    assert(text@ =~= Seq::empty());
                }
            },
            XmlEvent::Empty { tag } => {
                if root.is_none() {
                    root = Some(tag.name.clone());
                }
                push_empty(&mut doc, tag);
            },
            XmlEvent::Other => {},
        }
    }
    assert(all.take(scan.events.len() as int) =~= all);
    if let Some(f) = &scan.failure {
        warn_malformed(&mut doc, "xml.malformed", "XML", f);
        assert(doc@.warnings =~= seq![malformed("xml.malformed"@, "XML"@, f@)]);
    } else {
        assert(doc@.warnings =~= Seq::empty());
    }
    if let Some(r) = root {
        note(&mut doc, "root_element", r.as_str());
    }
    doc
}

/// Views of a list of borrowed tags.
pub open spec fn tag_views(v: Seq<&XmlTag>) -> Seq<XmlTagView> {
    v.map_values(|t: &XmlTag| t@)
}

/// Extracts flat records from XML.
pub struct XmlExtractor;

impl Extractor for XmlExtractor {
    open spec fn named(&self) -> Seq<char> {
        "xml"@
    }

    open spec fn handles(&self) -> Seq<Seq<char>> {
        seq!["xml"@]
    }

    open spec fn extracts(&self, input: InputView, outcome: Extraction) -> bool {
        outcome == Ok::<DocumentView, ErrorView>(
            xml_document(input, xml_scan(lossy(input.bytes), true)),
        )
    }

    fn name(&self) -> (s: &'static str) {
        "xml"
    }

    fn formats(&self) -> (r: &'static [&'static str]) {
        let keys: &'static [&'static str] = &["xml"];
        assert(str_views(keys@) =~= self.handles());
        keys
    }

    fn extract(&self, input: &Input) -> (r: Result<DocumentIr>) {
        let text = input.text();
        let scan = scan_xml(text.as_str(), true);
        Ok(read_xml(input, &scan))
    }
}

impl PlugExtractor for XmlExtractor {
    fn plug(self) -> (s: ExtractorSlot) {
        ExtractorSlot { plugin: Box::new(self) }
    }
}

// ---------------------------------------------------------------------------
// Laws
// ---------------------------------------------------------------------------

/// The keys of the fields of a record, in order.
pub open spec fn field_keys(fields: Seq<FieldView>) -> Seq<Seq<char>> {
    fields.map_values(|f: FieldView| f.key)
}

/// Whether a block is a record of an element: its name and its text, its name, its text and
/// its attributes, or its name and its attributes. The text and the attributes are not empty,
/// and the text is trimmed.
pub open spec fn is_element_record(b: BlockView) -> bool {
    b matches BlockView::Record { fields } && {
        ||| field_keys(fields) == seq!["tag"@, "text"@] && is_trimmed(fields[1].value)
        ||| field_keys(fields) == seq!["tag"@, "text"@, "attrs"@] && is_trimmed(fields[1].value)
            && fields[2].value.len() > 0
        ||| field_keys(fields) == seq!["tag"@, "attrs"@] && fields[1].value.len() > 0
    }
}

/// Attributes, if there are any, are not written as nothing.
proof fn lemma_attributes_show(attributes: Seq<Option<XmlAttributeView>>)
    ensures
        attribute_texts(attributes).len() > 0 ==> join(attribute_texts(attributes), ","@).len() > 0,
    decreases attributes.len(),
{
    reveal_strlit(",");
    reveal_strlit("=");
    if attributes.len() > 0 {
        lemma_attributes_show(attributes.drop_last());
        let before = attribute_texts(attributes.drop_last());
        let all = attribute_texts(attributes);
        if let Some(a) = attributes.last() {
            assert(all.drop_last() =~= before);
            assert(all.last().len() > 0);
        }
    }
}

/// A record that closing or empty elements make is one of an element.
proof fn lemma_element_records(tag: XmlTagView, text: Seq<char>, i: int)
    ensures
        0 <= i < closing_record(tag, text).len() ==> is_element_record(
            closing_record(tag, text)[i],
        ),
        0 <= i < empty_record(tag).len() ==> is_element_record(empty_record(tag)[i]),
{
    lemma_trim_is_trimmed(text);
    lemma_attributes_show(tag.attributes);
    if 0 <= i < closing_record(tag, text).len() {
        let fields = closing_record(tag, text)[i]->fields;
        if fields.len() == 2 {
            assert(field_keys(fields) =~= seq!["tag"@, "text"@]);
        } else {
            assert(field_keys(fields) =~= seq!["tag"@, "text"@, "attrs"@]);
        }
    }
    if 0 <= i < empty_record(tag).len() {
        let fields = empty_record(tag)[i]->fields;
        assert(field_keys(fields) =~= seq!["tag"@, "attrs"@]);
    }
}

/// XML makes records of elements only, and none for an element without text and attributes.
pub proof fn law_xml_makes_records(es: Seq<XmlEventView>)
    ensures
        forall|i: int|
            0 <= i < xml_records(es).len() ==> is_element_record(#[trigger] xml_records(es)[i]),
    decreases es.len(),
{
    if es.len() > 0 {
        let front = es.drop_last();
        let before = xml_records(front);
        law_xml_makes_records(front);
        let added = match es.last() {
            XmlEventView::End => if open_tags(front).len() > 0 {
                closing_record(open_tags(front).last(), text_met(front))
            } else {
                Seq::empty()
            },
            XmlEventView::Empty { tag } => empty_record(tag),
            _ => Seq::empty(),
        };
        assert(xml_records(es) =~= before + added);
        assert forall|i: int| 0 <= i < xml_records(es).len() implies is_element_record(
            #[trigger] xml_records(es)[i],
        ) by {
            if i < before.len() {
                assert(xml_records(es)[i] == before[i]);
            } else {
                let k = i - before.len();
                assert(xml_records(es)[i] == added[k]);
                match es.last() {
                    XmlEventView::End => {
                        lemma_element_records(open_tags(front).last(), text_met(front), k);
                    },
                    XmlEventView::Empty { tag } => lemma_element_records(tag, Seq::empty(), k),
                    _ => {},
                }
            }
        }
    }
}

/// The tag of an event, if it opens an element or is one by itself.
pub open spec fn tag_met(e: XmlEventView) -> Option<XmlTagView> {
    match e {
        XmlEventView::Start { tag } => Some(tag),
        XmlEventView::Empty { tag } => Some(tag),
        _ => None,
    }
}

/// Where no tag opens an element or stands alone, there is no first element.
pub proof fn law_no_root_without_a_tag(es: Seq<XmlEventView>)
    requires
        forall|i: int| 0 <= i < es.len() ==> tag_met(#[trigger] es[i]) is None,
    ensures
        root_name(es) is None,
    decreases es.len(),
{
    if es.len() > 0 {
        let front = es.drop_last();
        assert forall|i: int| 0 <= i < front.len() implies tag_met(#[trigger] front[i]) is None by {
            assert(front[i] == es[i]);
        }
        law_no_root_without_a_tag(front);
        assert(tag_met(es[es.len() - 1]) is None);
    }
}

/// The name of the first element is that of the first tag that opens one or stands alone.
pub proof fn law_root_is_the_first_tag(es: Seq<XmlEventView>, i: int)
    requires
        0 <= i < es.len(),
        tag_met(es[i]) is Some,
        forall|j: int| 0 <= j < i ==> tag_met(#[trigger] es[j]) is None,
    ensures
        root_name(es) == Some((tag_met(es[i])->0).name),
    decreases es.len(),
{
    let front = es.drop_last();
    assert forall|j: int| 0 <= j < i implies tag_met(#[trigger] front[j]) is None by {
        assert(front[j] == es[j]);
    }
    if i < front.len() {
        law_root_is_the_first_tag(front, i);
    } else {
        law_no_root_without_a_tag(front);
    }
}

} // verus!
