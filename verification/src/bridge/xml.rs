//! XML, by `quick-xml`.
use quick_xml::events::{BytesStart, Event};
use quick_xml::reader::Reader;
use vstd::prelude::*;

verus! {

// ---------------------------------------------------------------------------
// Plain values
// ---------------------------------------------------------------------------

/// View of an [`XmlAttribute`].
#[verifier::ext_equal]
pub struct XmlAttributeView {
    pub key: Seq<char>,
    pub value: Seq<char>,
    pub unescaped: Option<Seq<char>>,
}

/// View of an [`XmlTag`].
#[verifier::ext_equal]
pub struct XmlTagView {
    pub name: Seq<char>,
    pub attributes: Seq<Option<XmlAttributeView>>,
}

/// View of an [`XmlEvent`].
#[verifier::ext_equal]
pub enum XmlEventView {
    Start { tag: XmlTagView },
    Empty { tag: XmlTagView },
    Text { text: Option<Seq<char>> },
    End,
    Other,
}

/// View of an [`XmlFailure`].
#[verifier::ext_equal]
pub struct XmlFailureView {
    pub position: u64,
    pub message: Seq<char>,
}

/// View of an [`XmlScan`].
#[verifier::ext_equal]
pub struct XmlScanView {
    pub events: Seq<XmlEventView>,
    pub failure: Option<XmlFailureView>,
}

/// An attribute: its key, its value as it stands, and its value with entities resolved, where
/// they can be.
#[derive(Debug)]
pub struct XmlAttribute {
    pub key: String,
    pub value: String,
    pub unescaped: Option<String>,
}

/// A tag: its name and its attributes, with nothing in place of a malformed one.
#[derive(Debug)]
pub struct XmlTag {
    pub name: String,
    pub attributes: Vec<Option<XmlAttribute>>,
}

/// What is met in XML. Text comes with entities resolved, where they can be.
#[derive(Debug)]
pub enum XmlEvent {
    Start { tag: XmlTag },
    Empty { tag: XmlTag },
    Text { text: Option<String> },
    End,
    Other,
}

/// Where and why reading XML ended early.
#[derive(Debug)]
pub struct XmlFailure {
    pub position: u64,
    pub message: String,
}

/// Everything met in XML, up to its end or to the first failure.
#[derive(Debug)]
pub struct XmlScan {
    pub events: Vec<XmlEvent>,
    pub failure: Option<XmlFailure>,
}

/// View of an optional attribute.
pub open spec fn attribute_view(a: Option<XmlAttribute>) -> Option<XmlAttributeView> {
    match a {
        Some(a) => Some(a@),
        None => None,
    }
}

/// Views of a list of attributes.
pub open spec fn attribute_views(v: Seq<Option<XmlAttribute>>) -> Seq<Option<XmlAttributeView>> {
    v.map_values(|a: Option<XmlAttribute>| attribute_view(a))
}

/// Views of a list of events.
pub open spec fn event_views(v: Seq<XmlEvent>) -> Seq<XmlEventView> {
    v.map_values(|e: XmlEvent| e@)
}

impl View for XmlAttribute {
    type V = XmlAttributeView;

    open spec fn view(&self) -> XmlAttributeView {
        XmlAttributeView {
            key: self.key@,
            value: self.value@,
            unescaped: crate::ir::opt_view(self.unescaped),
        }
    }
}

impl View for XmlTag {
    type V = XmlTagView;

    open spec fn view(&self) -> XmlTagView {
        XmlTagView { name: self.name@, attributes: attribute_views(self.attributes@) }
    }
}

impl View for XmlEvent {
    type V = XmlEventView;

    open spec fn view(&self) -> XmlEventView {
        match *self {
            XmlEvent::Start { tag } => XmlEventView::Start { tag: tag@ },
            XmlEvent::Empty { tag } => XmlEventView::Empty { tag: tag@ },
            XmlEvent::Text { text } => XmlEventView::Text { text: crate::ir::opt_view(text) },
            XmlEvent::End => XmlEventView::End,
            XmlEvent::Other => XmlEventView::Other,
        }
    }
}

impl View for XmlFailure {
    type V = XmlFailureView;

    open spec fn view(&self) -> XmlFailureView {
        XmlFailureView { position: self.position, message: self.message@ }
    }
}

/// View of an optional failure.
pub open spec fn failure_view(f: Option<XmlFailure>) -> Option<XmlFailureView> {
    match f {
        Some(f) => Some(f@),
        None => None,
    }
}

impl View for XmlScan {
    type V = XmlScanView;

    open spec fn view(&self) -> XmlScanView {
        XmlScanView { events: event_views(self.events@), failure: failure_view(self.failure) }
    }
}

// ---------------------------------------------------------------------------
// Reader
// ---------------------------------------------------------------------------

/// The XML reader of `quick-xml`.
#[verifier::external_type_specification]
#[verifier::external_body]
#[verifier::reject_recursive_types(R)]
pub struct ExReader<R>(Reader<R>);

/// An opening or self-closing tag of `quick-xml`.
#[verifier::external_type_specification]
#[verifier::external_body]
pub struct ExBytesStart<'a>(BytesStart<'a>);

/// What `quick-xml` meets in `text`, up to its end or to the first error, when text is trimmed
/// or not.
pub uninterp spec fn xml_scan(text: Seq<char>, trim_text: bool) -> XmlScanView;

/// What a reader has yet to meet.
pub uninterp spec fn xml_pending(reader: Reader<&[u8]>) -> XmlScanView;

/// What a tag holds.
pub uninterp spec fn xml_tag(tag: BytesStart<'_>) -> XmlTagView;

/// One step of a reader.
pub(crate) enum Step<'a> {
    Start(BytesStart<'a>),
    Empty(BytesStart<'a>),
    Text(Option<String>),
    End,
    Other,
    Eof,
    Failed(XmlFailure),
}

/// The event of a step that is neither the end nor a failure.
pub(crate) open spec fn step_event(s: Step) -> Option<XmlEventView> {
    match s {
        Step::Start(t) => Some(XmlEventView::Start { tag: xml_tag(t) }),
        Step::Empty(t) => Some(XmlEventView::Empty { tag: xml_tag(t) }),
        Step::Text(t) => Some(XmlEventView::Text { text: crate::ir::opt_view(t) }),
        Step::End => Some(XmlEventView::End),
        Step::Other => Some(XmlEventView::Other),
        Step::Eof => None,
        Step::Failed(_) => None,
    }
}

/// Whether a step takes a reader from what it had yet to meet to what is left after it.
pub(crate) open spec fn steps(before: XmlScanView, s: Step, after: XmlScanView) -> bool {
    match step_event(s) {
        Some(e) => {
            &&& before.events.len() > 0
            &&& e == before.events[0]
            &&& after == (XmlScanView { events: before.events.skip(1), ..before })
        },
        None => {
            &&& before.events.len() == 0
            &&& s matches Step::Failed(f) ==> before.failure == Some(f@)
            &&& s is Eof ==> before.failure is None
        },
    }
}

/// `Reader::from_str`, with `Config::trim_text` set: what the reader has yet to meet is a
/// function of the text and the setting.
#[verifier::external_body]
fn open_reader<'a>(text: &'a str, trim_text: bool) -> (r: Reader<&'a [u8]>)
    ensures
        xml_pending(r) == xml_scan(text@, trim_text),
{
    let mut reader = Reader::from_str(text);
    reader.config_mut().trim_text(trim_text);
    reader
}

/// `Reader::read_event`: it takes the first of what is yet to be met, and says so when there
/// is nothing left but the end or an error. Every event that is not the end takes some input,
/// so there are finitely many.
#[verifier::external_body]
fn read_step<'a>(reader: &mut Reader<&'a [u8]>) -> (s: Step<'a>)
    ensures
        steps(xml_pending(*old(reader)), s, xml_pending(*final(reader))),
{
    match reader.read_event() {
        Ok(Event::Start(e)) => Step::Start(e),
        Ok(Event::Empty(e)) => Step::Empty(e),
        Ok(Event::Text(e)) => Step::Text(e.unescape().ok().map(|t| t.into_owned())),
        Ok(Event::End(_)) => Step::End,
        Ok(Event::Eof) => Step::Eof,
        Ok(_) => Step::Other,
        Err(e) => Step::Failed(
            XmlFailure { position: reader.error_position(), message: e.to_string() },
        ),
    }
}

/// `BytesStart::name`: the name of a tag, which is valid UTF-8 because the text is.
#[verifier::external_body]
fn tag_name(tag: &BytesStart<'_>) -> (r: String)
    ensures
        r@ == xml_tag(*tag).name,
{
    String::from_utf8_lossy(tag.name().as_ref()).into_owned()
}

/// `BytesStart::attributes`: the attributes of a tag in order, each with its value as it
/// stands and as `Attribute::unescape_value` gives it; nothing in place of an error.
#[verifier::external_body]
fn tag_attributes(tag: &BytesStart<'_>) -> (r: Vec<Option<XmlAttribute>>)
    ensures
        attribute_views(r@) == xml_tag(*tag).attributes,
{
    let attribute = |a: quick_xml::events::attributes::Attribute| XmlAttribute {
        key: String::from_utf8_lossy(a.key.as_ref()).into_owned(),
        value: String::from_utf8_lossy(a.value.as_ref()).into_owned(),
        unescaped: a.unescape_value().ok().map(|v| v.into_owned()),
    };
    tag.attributes().map(|a| a.ok().map(attribute)).collect()
}

/// The plain value of a tag.
fn plain_tag(tag: &BytesStart<'_>) -> (r: XmlTag)
    ensures
        r@ == xml_tag(*tag),
{
    XmlTag { name: tag_name(tag), attributes: tag_attributes(tag) }
}

/// Reads XML up to its end or to the first failure.
pub fn scan_xml(text: &str, trim_text: bool) -> (r: XmlScan)
    ensures
        r@ == xml_scan(text@, trim_text),
{
    let ghost whole = xml_scan(text@, trim_text);
    let mut reader = open_reader(text, trim_text);
    let mut events: Vec<XmlEvent> = Vec::new();
    assert(event_views(events@) + whole.events =~= whole.events);
    loop
        invariant
            whole == xml_scan(text@, trim_text),
            event_views(events@) + xml_pending(reader).events == whole.events,
            xml_pending(reader).failure == whole.failure,
        decreases xml_pending(reader).events.len(),
    {
        let ghost before = xml_pending(reader).events;
        let ghost done = event_views(events@);
        let event = match read_step(&mut reader) {
            Step::Start(tag) => XmlEvent::Start { tag: plain_tag(&tag) },
            Step::Empty(tag) => XmlEvent::Empty { tag: plain_tag(&tag) },
            Step::Text(text) => XmlEvent::Text { text },
            Step::End => XmlEvent::End,
            Step::Other => XmlEvent::Other,
            Step::Eof => {
                assert(done + before =~= done);
                return XmlScan { events, failure: None };
            },
            Step::Failed(f) => {
                assert(done + before =~= done);
                return XmlScan { events, failure: Some(f) };
            },
        };
        events.push(event);
        proof {
            assert(event_views(events@) =~= done.push(before[0]));
            assert(done.push(before[0]) + before.skip(1) =~= done + before);
        }
    }
}

} // verus!
