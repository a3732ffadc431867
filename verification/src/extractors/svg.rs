//! SVG: the text of titles, descriptions, text elements and `aria-label` attributes.
//!
//! Geometry is left out.
use crate::bridge::unicode::lossy;
use crate::bridge::xml::{
    attribute_view, attribute_views, event_views, scan_xml, xml_scan, XmlAttribute,
    XmlAttributeView, XmlEvent, XmlEventView, XmlScan, XmlScanView, XmlTag, XmlTagView,
};
use crate::error::{ErrorView, Result};
use crate::extractors::common::{blank_document, new_document, note, with_note};
use crate::extractors::xml::{grow, grown, malformed, warn_malformed};
use crate::ir::{Block, BlockView, DocumentIr, DocumentView, WarningView};
use crate::plugin::{str_views, Extraction, Extractor, Input, InputView};
use crate::registry::{ExtractorSlot, PlugExtractor};
use crate::text::{
    chars_of, is_trimmed, leading, lemma_leading_is, lemma_trim_is_trimmed, lemma_trimmed_stays,
    lower, lowered, same, slice_of, trim, trimmed,
};
use vstd::prelude::*;

verus! {

// ---------------------------------------------------------------------------
// Tags and labels
// ---------------------------------------------------------------------------

/// Every character but the colon.
pub open spec fn within_prefix() -> spec_fn(char) -> bool {
    |c: char| c != ':'
}

/// The name of a tag without its namespace: what follows the first colon, if there is one.
pub open spec fn local_name(name: Seq<char>) -> Seq<char> {
    let n = leading(name, within_prefix()) as int;
    if n < name.len() {
        name.skip(n + 1)
    } else {
        name
    }
}

/// Whether the text in an element is for people to read.
pub open spec fn bears_text(tag: XmlTagView) -> bool {
    let t = lower(local_name(tag.name));
    t == "title"@ || t == "desc"@ || t == "text"@ || t == "tspan"@
}

/// The paragraph of an attribute, if it is a label that is not blank.
pub open spec fn label_of(a: Option<XmlAttributeView>) -> Seq<BlockView> {
    match a {
        Some(a) => {
            let text = match a.unescaped {
                Some(v) => trim(v),
                None => Seq::empty(),
            };
            if a.key == "aria-label"@ && text.len() > 0 {
                seq![BlockView::Paragraph { text }]
            } else {
                Seq::empty()
            }
        },
        None => Seq::empty(),
    }
}

/// The paragraphs of the labels among attributes.
pub open spec fn labels_of(attributes: Seq<Option<XmlAttributeView>>) -> Seq<BlockView>
    decreases attributes.len(),
{
    if attributes.len() == 0 {
        Seq::empty()
    } else {
        labels_of(attributes.drop_last()) + label_of(attributes.last())
    }
}

/// Whether text met after `es` is to be kept: an element that bears text was opened, and no
/// element has closed since.
pub open spec fn keeps_text(es: Seq<XmlEventView>) -> bool
    decreases es.len(),
{
    if es.len() == 0 {
        false
    } else {
        let before = keeps_text(es.drop_last());
        match es.last() {
            XmlEventView::Start { tag } => before || bears_text(tag),
            XmlEventView::End => false,
            _ => before,
        }
    }
}

/// The text kept so far, since an element that bears text was opened.
pub open spec fn text_kept(es: Seq<XmlEventView>) -> Seq<char>
    decreases es.len(),
{
    if es.len() == 0 {
        Seq::empty()
    } else {
        let before = text_kept(es.drop_last());
        let keeps = keeps_text(es.drop_last());
        match es.last() {
            XmlEventView::Start { tag } => if bears_text(tag) {
                Seq::empty()
            } else {
                before
            },
            XmlEventView::Text { text } => if keeps {
                grown(before, text)
            } else {
                before
            },
            XmlEventView::End => if keeps {
                Seq::empty()
            } else {
                before
            },
            _ => before,
        }
    }
}

/// The paragraph of kept text, if it is not blank.
pub open spec fn kept_paragraph(text: Seq<char>) -> Seq<BlockView> {
    if trim(text).len() == 0 {
        Seq::empty()
    } else {
        seq![BlockView::Paragraph { text: trim(text) }]
    }
}

/// The paragraphs of what was met.
pub open spec fn svg_paragraphs(es: Seq<XmlEventView>) -> Seq<BlockView>
    decreases es.len(),
{
    if es.len() == 0 {
        Seq::empty()
    } else {
        let before = svg_paragraphs(es.drop_last());
        match es.last() {
            XmlEventView::Start { tag } => before + labels_of(tag.attributes),
            XmlEventView::Empty { tag } => before + labels_of(tag.attributes),
            XmlEventView::End => if keeps_text(es.drop_last()) {
                before + kept_paragraph(text_kept(es.drop_last()))
            } else {
                before
            },
            _ => before,
        }
    }
}

/// The warning about SVG without text.
pub open spec fn no_text() -> WarningView {
    WarningView { code: "svg.no_text_content"@, message: "no text content found in SVG"@ }
}

/// What SVG holds, for what reading it met.
pub open spec fn svg_document(input: InputView, scan: XmlScanView) -> DocumentView {
    let blocks = svg_paragraphs(scan.events);
    let failure = match scan.failure {
        Some(f) => seq![malformed("svg.malformed"@, "SVG"@, f)],
        None => Seq::empty(),
    };
    DocumentView {
        blocks,
        warnings: if blocks.len() == 0 {
            failure.push(no_text())
        } else {
            failure
        },
        ..with_note(blank_document(input), "format"@, "svg"@)
    }
}

/// The name of a tag without its namespace.
fn local_part(name: &str) -> (r: String)
    ensures
        r@ == local_name(name@),
{
    let v = chars_of(name);
    let mut n: usize = 0;
    while n < v.len() && v[n] != ':'
        invariant
            n <= v@.len(),
            forall|i: int| 0 <= i < n ==> (#[trigger] v@[i]) != ':',
        decreases v@.len() - n,
    {
        n = n + 1;
    }
    proof {
        lemma_leading_is(v@, within_prefix(), n as nat);
    }
    if n < v.len() {
        let r = slice_of(&v, n + 1, v.len());
        assert(r@ =~= name@.skip(n + 1));
        r
    } else {
        name.to_owned()
    }
}

/// Whether the text in an element is for people to read.
fn is_text_tag(tag: &XmlTag) -> (r: bool)
    ensures
        r == bears_text(tag@),
{
    let t = lowered(local_part(tag.name.as_str()).as_str());
    same(t.as_str(), "title") || same(t.as_str(), "desc") || same(t.as_str(), "text") || same(
        t.as_str(),
        "tspan",
    )
}

/// Adds the paragraph of an attribute, if it is a label that is not blank.
fn push_label(doc: &mut DocumentIr, a: &Option<XmlAttribute>)
    ensures
        final(doc)@ == (DocumentView {
            blocks: old(doc)@.blocks + label_of(attribute_view(*a)),
            ..old(doc)@
        }),
{
    if let Some(a) = a {
        if same(a.key.as_str(), "aria-label") {
            if let Some(v) = &a.unescaped {
                let text = trimmed(v.as_str());
                if !text.as_str().is_empty() {
                    doc.push(Block::Paragraph { text });
                    assert(doc@.blocks =~= old(doc)@.blocks + seq![
                        BlockView::Paragraph { text: text@ },
                    ]);
                    return;
                }
            }
        }
    }
    assert(doc@.blocks + Seq::<BlockView>::empty() =~= doc@.blocks);
}

/// Adds the paragraphs of the labels among attributes.
fn push_labels(doc: &mut DocumentIr, attributes: &Vec<Option<XmlAttribute>>)
    ensures
        final(doc)@ == (DocumentView {
            blocks: old(doc)@.blocks + labels_of(attribute_views(attributes@)),
            ..old(doc)@
        }),
{
    let ghost all = attribute_views(attributes@);
    let ghost start = doc@.blocks;
    assert(all.take(0) =~= Seq::empty());
    assert(start + labels_of(all.take(0)) =~= start);
    for i in 0..attributes.len()
        invariant
            all == attribute_views(attributes@),
            start == old(doc)@.blocks,
            doc@ == (DocumentView {
                blocks: start + labels_of(all.take(i as int)),
                ..old(doc)@
            }),
    {
        proof {
            assert(all.take(i + 1).drop_last() =~= all.take(i as int));
            assert(all.take(i + 1).last() == attribute_view(attributes@[i as int]));
        }
        push_label(doc, &attributes[i]);
        assert(doc@.blocks =~= start + labels_of(all.take(i + 1)));
    }
    assert(all.take(attributes.len() as int) =~= all);
}

/// Adds the paragraph of kept text, if it is not blank.
fn push_kept(doc: &mut DocumentIr, text: &str)
    ensures
        final(doc)@ == (DocumentView {
            blocks: old(doc)@.blocks + kept_paragraph(text@),
            ..old(doc)@
        }),
{
    let t = trimmed(text);
    if t.as_str().is_empty() {
        assert(doc@.blocks + Seq::<BlockView>::empty() =~= doc@.blocks);
    } else {
        doc.push(Block::Paragraph { text: t });
        assert(doc@.blocks =~= old(doc)@.blocks + kept_paragraph(text@));
    }
}

/// Makes a document of what reading SVG met.
pub fn read_svg(input: &Input, scan: &XmlScan) -> (doc: DocumentIr)
    ensures
        doc@ == svg_document(input@, scan@),
{
    let mut doc = new_document(input);
    note(&mut doc, "format", "svg");
    let ghost start = doc@;
    let ghost all = event_views(scan.events@);
    let mut keeps = false;
    let mut text = String::new();
    proof {
        assert(all.take(0) =~= Seq::empty());
        assert(doc@.blocks =~= Seq::empty());
        assert(doc@.warnings =~= Seq::empty());
        assert(text@ =~= Seq::empty());
    }
    for i in 0..scan.events.len()
        invariant
            all == event_views(scan.events@),
            doc@ == (DocumentView { blocks: svg_paragraphs(all.take(i as int)), ..start }),
            keeps == keeps_text(all.take(i as int)),
            text@ == text_kept(all.take(i as int)),
    {
        proof {
            assert(all.take(i + 1).drop_last() =~= all.take(i as int));
            assert(all.take(i + 1).last() == scan.events@[i as int]@);
        }
        match &scan.events[i] {
            XmlEvent::Start { tag } => {
                push_labels(&mut doc, &tag.attributes);
                if is_text_tag(tag) {
                    keeps = true;
                    text = String::new();
                    assert(text@ =~= Seq::empty());
                }
            },
            XmlEvent::Text { text: piece } => {
                if keeps {
                    grow(&mut text, piece);
                }
            },
            XmlEvent::End => {
                if keeps {
                    push_kept(&mut doc, text.as_str());
                    keeps = false;
                    text = String::new();
                    assert(text@ =~= Seq::empty());
                }
            },
            XmlEvent::Empty { tag } => push_labels(&mut doc, &tag.attributes),
            XmlEvent::Other => {},
        }
    }
    assert(all.take(scan.events.len() as int) =~= all);
    if let Some(f) = &scan.failure {
        warn_malformed(&mut doc, "svg.malformed", "SVG", f);
        assert(doc@.warnings =~= seq![malformed("svg.malformed"@, "SVG"@, f@)]);
    } else {
        assert(doc@.warnings =~= Seq::empty());
    }
    assert(doc@.blocks.len() == doc.blocks@.len());
    if doc.blocks.len() == 0 {
        doc.warn("svg.no_text_content", "no text content found in SVG");
    }
    doc
}

/// Extracts human-readable text from SVG.
pub struct SvgExtractor;

impl Extractor for SvgExtractor {
    open spec fn named(&self) -> Seq<char> {
        "svg"@
    }

    open spec fn handles(&self) -> Seq<Seq<char>> {
        seq!["svg"@]
    }

    open spec fn extracts(&self, input: InputView, outcome: Extraction) -> bool {
        outcome == Ok::<DocumentView, ErrorView>(
            svg_document(input, xml_scan(lossy(input.bytes), true)),
        )
    }

    fn name(&self) -> (s: &'static str) {
        "svg"
    }

    fn formats(&self) -> (r: &'static [&'static str]) {
        let keys: &'static [&'static str] = &["svg"];
        assert(str_views(keys@) =~= self.handles());
        keys
    }

    fn extract(&self, input: &Input) -> (r: Result<DocumentIr>) {
        let text = input.text();
        let scan = scan_xml(text.as_str(), true);
        Ok(read_svg(input, &scan))
    }
}

impl PlugExtractor for SvgExtractor {
    fn plug(self) -> (s: ExtractorSlot) {
        ExtractorSlot { plugin: Box::new(self) }
    }
}

// ---------------------------------------------------------------------------
// Laws
// ---------------------------------------------------------------------------

/// Whether a block is a paragraph with something in it and no white space around it.
pub open spec fn is_solid_paragraph(b: BlockView) -> bool {
    b matches BlockView::Paragraph { text } && is_trimmed(text) && trim(text) == text
}

/// Whether blocks are paragraphs with something in them and no white space around it.
pub open spec fn solid_paragraphs(bs: Seq<BlockView>) -> bool {
    forall|i: int| 0 <= i < bs.len() ==> is_solid_paragraph(#[trigger] bs[i])
}

/// Two lists of paragraphs make one.
proof fn lemma_solid_add(a: Seq<BlockView>, b: Seq<BlockView>)
    requires
        solid_paragraphs(a),
        solid_paragraphs(b),
    ensures
        solid_paragraphs(a + b),
{
    assert forall|i: int| 0 <= i < (a + b).len() implies is_solid_paragraph(
        #[trigger] (a + b)[i],
    ) by {
        if i < a.len() {
            assert((a + b)[i] == a[i]);
        } else {
            assert((a + b)[i] == b[i - a.len()]);
        }
    }
}

/// A trimmed text that is not empty makes such a paragraph.
proof fn lemma_solid_text(s: Seq<char>)
    ensures
        trim(s).len() > 0 ==> is_solid_paragraph(BlockView::Paragraph { text: trim(s) }),
{
    lemma_trim_is_trimmed(s);
    if trim(s).len() > 0 {
        lemma_trimmed_stays(trim(s));
    }
}

/// Labels make such paragraphs.
proof fn lemma_labels_solid(attributes: Seq<Option<XmlAttributeView>>)
    ensures
        solid_paragraphs(labels_of(attributes)),
    decreases attributes.len(),
{
    if attributes.len() > 0 {
        lemma_labels_solid(attributes.drop_last());
        if let Some(a) = attributes.last() {
            if let Some(v) = a.unescaped {
                lemma_solid_text(v);
            }
        }
        lemma_solid_add(labels_of(attributes.drop_last()), label_of(attributes.last()));
    }
}

/// SVG makes paragraphs only. None of them is empty, and each text is trimmed.
pub proof fn law_svg_makes_paragraphs(es: Seq<XmlEventView>)
    ensures
        solid_paragraphs(svg_paragraphs(es)),
    decreases es.len(),
{
    if es.len() > 0 {
        let front = es.drop_last();
        let before = svg_paragraphs(front);
        law_svg_makes_paragraphs(front);
        match es.last() {
            XmlEventView::Start { tag } => {
                lemma_labels_solid(tag.attributes);
                lemma_solid_add(before, labels_of(tag.attributes));
            },
            XmlEventView::Empty { tag } => {
                lemma_labels_solid(tag.attributes);
                lemma_solid_add(before, labels_of(tag.attributes));
            },
            XmlEventView::End => {
                lemma_solid_text(text_kept(front));
                lemma_solid_add(before, kept_paragraph(text_kept(front)));
            },
            _ => {},
        }
    }
}

/// SVG is said to have no text exactly if it makes no block.
pub proof fn law_no_text_means_no_blocks(input: InputView, scan: XmlScanView)
    ensures
        svg_document(input, scan).warnings.contains(no_text()) <==> svg_document(
            input,
            scan,
        ).blocks.len() == 0,
{
    let w = svg_document(input, scan).warnings;
    if svg_paragraphs(scan.events).len() == 0 {
        assert(w[w.len() - 1] == no_text());
    } else {
        reveal_strlit("svg.malformed");
        reveal_strlit("svg.no_text_content");
        assert("svg.malformed"@.len() != "svg.no_text_content"@.len());
    }
}

} // verus!
