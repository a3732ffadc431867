//! JSON output: one line per block, or one line per document.
use crate::bridge::json::{json_string, quoted};
use crate::emitters::json_back::{
    jsonl_says, law_jsonl_reads_back, law_ndjson_reads_back, read_ndjson,
};
use crate::error::{ErrorView, Result};
use crate::ir::{
    block_views, field_views, lemma_children_view, opt_view, row_views, warning_views, Block,
    BlockView, DocumentIr, DocumentView, Field, FieldView, SourceInfo, SourceView, Warning,
    WarningView,
};
use crate::plugin::{Emission, Emitter};
use crate::profile::OutputFormat;
use crate::registry::{EmitterSlot, PlugEmitter};
use crate::text::{
    concat, decimal, decimal_of, join, joined, lemma_add_assoc, lemma_concat_ends,
    lemma_concat_step, views,
};
use crate::text_map::{is_listing, listing, pair_views, TextMap};
use vstd::prelude::*;

verus! {

// ---------------------------------------------------------------------------
// Values
// ---------------------------------------------------------------------------

/// An array of JSON values.
pub open spec fn json_array(parts: Seq<Seq<char>>) -> Seq<char> {
    "["@ + join(parts, ","@) + "]"@
}

/// Each string as JSON.
pub open spec fn json_strings(s: Seq<Seq<char>>) -> Seq<Seq<char>> {
    s.map_values(|t: Seq<char>| json_string(t))
}

/// Each row as a JSON array.
pub open spec fn json_rows(rows: Seq<Seq<Seq<char>>>) -> Seq<Seq<char>> {
    rows.map_values(|r: Seq<Seq<char>>| json_array(json_strings(r)))
}

/// A field as a JSON object.
pub open spec fn json_field(f: FieldView) -> Seq<char> {
    "{\"key\":"@ + json_string(f.key) + ",\"value\":"@ + json_string(f.value) + "}"@
}

/// Each field as a JSON object.
pub open spec fn json_fields(fields: Seq<FieldView>) -> Seq<Seq<char>> {
    fields.map_values(|f: FieldView| json_field(f))
}

/// A truth value.
pub open spec fn json_bool(b: bool) -> Seq<char> {
    if b {
        "true"@
    } else {
        "false"@
    }
}

/// A block as a JSON object, tagged by its kind.
pub open spec fn json_block(b: BlockView) -> Seq<char>
    decreases b,
{
    match b {
        BlockView::Document { children } => "{\"kind\":\"document\",\"children\":"@ + json_array(
            json_blocks(children),
        ) + "}"@,
        BlockView::Section { children } => "{\"kind\":\"section\",\"children\":"@ + json_array(
            json_blocks(children),
        ) + "}"@,
        BlockView::Heading { level, text } => "{\"kind\":\"heading\",\"level\":"@ + decimal(
            level as nat,
        ) + ",\"text\":"@ + json_string(text) + "}"@,
        BlockView::Paragraph { text } => "{\"kind\":\"paragraph\",\"text\":"@ + json_string(text)
            + "}"@,
        BlockView::List { ordered, items } => "{\"kind\":\"list\",\"ordered\":"@ + json_bool(
            ordered,
        ) + ",\"items\":"@ + json_array(json_strings(items)) + "}"@,
        BlockView::Table { headers, rows } => "{\"kind\":\"table\",\"headers\":"@ + json_array(
            json_strings(headers),
        ) + ",\"rows\":"@ + json_array(json_rows(rows)) + "}"@,
        BlockView::Record { fields } => "{\"kind\":\"record\",\"fields\":"@ + json_array(
            json_fields(fields),
        ) + "}"@,
        BlockView::Code { lang, text } => "{\"kind\":\"code\""@ + (match lang {
            Some(l) => ",\"lang\":"@ + json_string(l),
            None => Seq::empty(),
        }) + ",\"text\":"@ + json_string(text) + "}"@,
        BlockView::Quote { text } => "{\"kind\":\"quote\",\"text\":"@ + json_string(text) + "}"@,
        BlockView::Unsupported { note } => "{\"kind\":\"unsupported\",\"note\":"@ + json_string(
            note,
        ) + "}"@,
    }
}

/// Each block as a JSON object.
pub open spec fn json_blocks(bs: Seq<BlockView>) -> Seq<Seq<char>>
    decreases bs,
{
    if bs.len() == 0 {
        Seq::empty()
    } else {
        json_blocks(bs.drop_last()).push(json_block(bs.last()))
    }
}

/// Writes an array of JSON values.
fn array_of(parts: &Vec<String>) -> (s: String)
    ensures
        s@ == json_array(views(parts@)),
{
    let mut s = "[".to_owned();
    s.append(joined(parts, ",").as_str());
    s.append("]");
    s
}

/// Writes an array of strings.
fn string_array(items: &Vec<String>) -> (s: String)
    ensures
        s@ == json_array(json_strings(views(items@))),
{
    let mut parts: Vec<String> = Vec::new();
    for i in 0..items.len()
        invariant
            parts@.len() == i,
            forall|j: int| 0 <= j < i ==> parts@[j]@ == json_string(items@[j]@),
    {
        parts.push(quoted(items[i].as_str()));
    }
    assert(views(parts@) =~= json_strings(views(items@)));
    array_of(&parts)
}

/// Writes an array of rows.
fn row_array(rows: &Vec<Vec<String>>) -> (s: String)
    ensures
        s@ == json_array(json_rows(row_views(rows@))),
{
    let mut parts: Vec<String> = Vec::new();
    for i in 0..rows.len()
        invariant
            parts@.len() == i,
            forall|j: int|
                0 <= j < i ==> parts@[j]@ == json_array(json_strings(views(rows@[j]@))),
    {
        parts.push(string_array(&rows[i]));
    }
    assert(views(parts@) =~= json_rows(row_views(rows@)));
    array_of(&parts)
}

/// Writes a field.
fn field_object(f: &Field) -> (s: String)
    ensures
        s@ == json_field(f@),
{
    let mut s = "{\"key\":".to_owned();
    s.append(quoted(f.key.as_str()).as_str());
    s.append(",\"value\":");
    s.append(quoted(f.value.as_str()).as_str());
    s.append("}");
    s
}

/// Writes an array of fields.
fn field_array(fields: &Vec<Field>) -> (s: String)
    ensures
        s@ == json_array(json_fields(field_views(fields@))),
{
    let mut parts: Vec<String> = Vec::new();
    for i in 0..fields.len()
        invariant
            parts@.len() == i,
            forall|j: int| 0 <= j < i ==> parts@[j]@ == json_field(fields@[j]@),
    {
        parts.push(field_object(&fields[i]));
    }
    assert(views(parts@) =~= json_fields(field_views(fields@)));
    array_of(&parts)
}

/// Writes an object of one member after its `head`.
fn object_of(head: &str, value: &str) -> (s: String)
    ensures
        s@ == head@ + value@ + "}"@,
{
    let mut s = head.to_owned();
    s.append(value);
    s.append("}");
    s
}

/// Writes a code block; a language that is not given is left out.
fn code_object(lang: &Option<String>, text: &str) -> (s: String)
    ensures
        s@ == json_block(BlockView::Code { lang: opt_view(*lang), text: text@ }),
{
    let mut s = "{\"kind\":\"code\"".to_owned();
    let ghost head = s@;
    if let Some(l) = lang {
        s.append(",\"lang\":");
        s.append(quoted(l.as_str()).as_str());
        assert(s@ =~= head + (",\"lang\":"@ + json_string(l@)));
    } else {
        assert(s@ =~= head + Seq::empty());
    }
    s.append(",\"text\":");
    s.append(quoted(text).as_str());
    s.append("}");
    s
}

/// Writes a block as a JSON object, tagged by its kind.
fn block_object(b: &Block) -> (s: String)
    ensures
        s@ == json_block(b@),
    decreases b,
{
    proof {
        lemma_children_view(*b);
    }
    match b {
        Block::Document { children } => object_of(
            "{\"kind\":\"document\",\"children\":",
            array_of(&block_objects(children)).as_str(),
        ),
        Block::Section { children } => object_of(
            "{\"kind\":\"section\",\"children\":",
            array_of(&block_objects(children)).as_str(),
        ),
        Block::Heading { level, text } => {
            let mut s = "{\"kind\":\"heading\",\"level\":".to_owned();
            s.append(decimal_of(*level as u128).as_str());
            s.append(",\"text\":");
            s.append(quoted(text.as_str()).as_str());
            s.append("}");
            s
        },
        Block::Paragraph { text } => object_of(
            "{\"kind\":\"paragraph\",\"text\":",
            quoted(text.as_str()).as_str(),
        ),
        Block::List { ordered, items } => {
            let mut s = "{\"kind\":\"list\",\"ordered\":".to_owned();
            s.append(
                if *ordered {
                    "true"
                } else {
                    "false"
                },
            );
            s.append(",\"items\":");
            s.append(string_array(items).as_str());
            s.append("}");
            s
        },
        Block::Table { headers, rows } => {
            let mut s = "{\"kind\":\"table\",\"headers\":".to_owned();
            s.append(string_array(headers).as_str());
            s.append(",\"rows\":");
            s.append(row_array(rows).as_str());
            s.append("}");
            s
        },
        Block::Record { fields } => object_of(
            "{\"kind\":\"record\",\"fields\":",
            field_array(fields).as_str(),
        ),
        Block::Code { lang, text } => code_object(lang, text.as_str()),
        Block::Quote { text } => object_of(
            "{\"kind\":\"quote\",\"text\":",
            quoted(text.as_str()).as_str(),
        ),
        Block::Unsupported { note } => object_of(
            "{\"kind\":\"unsupported\",\"note\":",
            quoted(note.as_str()).as_str(),
        ),
    }
}

/// Writes each block as a JSON object.
fn block_objects(blocks: &Vec<Block>) -> (parts: Vec<String>)
    ensures
        views(parts@) == json_blocks(block_views(blocks@)),
    decreases blocks,
{
    let mut parts: Vec<String> = Vec::new();
    for i in 0..blocks.len()
        invariant
            parts@.len() == i,
            forall|j: int| 0 <= j < i ==> parts@[j]@ == json_block(blocks@[j]@),
    {
        parts.push(block_object(&blocks[i]));
    }
    proof {
        lemma_json_blocks(block_views(blocks@));
        assert(views(parts@) =~= json_blocks(block_views(blocks@)));
    }
    parts
}

/// Each block has its object.
pub proof fn lemma_json_blocks(bs: Seq<BlockView>)
    ensures
        json_blocks(bs).len() == bs.len(),
        forall|i: int| 0 <= i < bs.len() ==> #[trigger] json_blocks(bs)[i] == json_block(bs[i]),
    decreases bs.len(),
{
    if bs.len() > 0 {
        lemma_json_blocks(bs.drop_last());
    }
}

// ---------------------------------------------------------------------------
// Documents
// ---------------------------------------------------------------------------

/// A member of an object, if its value is given; the separator follows the value.
pub open spec fn json_leading_member(key: Seq<char>, value: Option<Seq<char>>) -> Seq<char> {
    match value {
        Some(v) => key + json_string(v) + ","@,
        None => Seq::empty(),
    }
}

/// A member of an object, if its value is given; the separator stands before it.
pub open spec fn json_trailing_member(key: Seq<char>, value: Option<Seq<char>>) -> Seq<char> {
    match value {
        Some(v) => ","@ + key + json_string(v),
        None => Seq::empty(),
    }
}

/// Provenance as a JSON object. What is not given is left out.
pub open spec fn json_source(s: SourceView) -> Seq<char> {
    "{"@ + json_leading_member("\"path\":"@, s.path) + json_leading_member(
        "\"media_type\":"@,
        s.media_type,
    ) + "\"detected_format\":"@ + json_string(s.detected_format) + ",\"bytes\":"@ + decimal(
        s.bytes as nat,
    ) + "}"@
}

/// Provenance as a JSON object whose members stand in order of their keys.
pub open spec fn json_sorted_source(s: SourceView) -> Seq<char> {
    "{\"bytes\":"@ + decimal(s.bytes as nat) + ",\"detected_format\":"@ + json_string(
        s.detected_format,
    ) + json_trailing_member("\"media_type\":"@, s.media_type) + json_trailing_member(
        "\"path\":"@,
        s.path,
    ) + "}"@
}

/// A metadata entry as a member of an object.
pub open spec fn json_entry(e: (Seq<char>, Seq<char>)) -> Seq<char> {
    json_string(e.0) + ":"@ + json_string(e.1)
}

/// Each metadata entry, in order of the keys.
pub open spec fn json_entries(m: Map<Seq<char>, Seq<char>>) -> Seq<Seq<char>> {
    listing(m).map_values(|e: (Seq<char>, Seq<char>)| json_entry(e))
}

/// Metadata as a JSON object. Without entries it is empty.
pub open spec fn json_metadata(m: Map<Seq<char>, Seq<char>>) -> Seq<char> {
    if listing(m).len() == 0 {
        "{}"@
    } else {
        "{\"extra\":{"@ + join(json_entries(m), ","@) + "}}"@
    }
}

/// A warning as a JSON object.
pub open spec fn json_warning(w: WarningView) -> Seq<char> {
    "{\"code\":"@ + json_string(w.code) + ",\"message\":"@ + json_string(w.message) + "}"@
}

/// Each warning as a JSON object.
pub open spec fn json_warnings(ws: Seq<WarningView>) -> Seq<Seq<char>> {
    ws.map_values(|w: WarningView| json_warning(w))
}

/// A document as a JSON object. A title that is not given, and warnings when there are none,
/// are left out.
pub open spec fn json_document(doc: DocumentView) -> Seq<char> {
    "{\"id\":"@ + json_string(doc.id) + ",\"source\":"@ + json_source(doc.source)
        + json_trailing_member("\"title\":"@, doc.title) + ",\"metadata\":"@ + json_metadata(
        doc.metadata,
    ) + ",\"blocks\":"@ + json_array(json_blocks(doc.blocks)) + (if doc.warnings.len() == 0 {
        Seq::empty()
    } else {
        ",\"warnings\":"@ + json_array(json_warnings(doc.warnings))
    }) + "}"@
}

/// The header line of a document, its members in order of their keys.
pub open spec fn json_header(doc: DocumentView) -> Seq<char> {
    "{\"id\":"@ + json_string(doc.id) + ",\"source\":"@ + json_sorted_source(doc.source)
        + ",\"title\":"@ + (match doc.title {
        Some(t) => json_string(t),
        None => "null"@,
    }) + ",\"type\":\"document\"}"@
}

/// A line of JSON.
pub open spec fn json_line() -> spec_fn(int, Seq<char>) -> Seq<char> {
    |i: int, s: Seq<char>| s + "\n"@
}

/// What JSONL output of a document is: a header, then one line for each top-level block.
pub open spec fn jsonl(doc: DocumentView) -> Seq<char> {
    json_header(doc) + "\n"@ + concat(json_blocks(doc.blocks), json_line())
}

/// What NDJSON output of a document is: the whole document on one line.
pub open spec fn ndjson(doc: DocumentView) -> Seq<char> {
    json_document(doc) + "\n"@
}

/// Appends a member and its separator, if the value is given.
fn push_leading_member(key: &str, value: &Option<String>, o: &mut String)
    ensures
        final(o)@ == old(o)@ + json_leading_member(key@, opt_view(*value)),
{
    if let Some(v) = value {
        o.append(key);
        o.append(quoted(v.as_str()).as_str());
        o.append(",");
        assert(o@ =~= old(o)@ + (key@ + json_string(v@) + ","@));
    } else {
        assert(o@ =~= old(o)@ + Seq::empty());
    }
}

/// Appends a separator and a member, if the value is given.
fn push_trailing_member(key: &str, value: &Option<String>, o: &mut String)
    ensures
        final(o)@ == old(o)@ + json_trailing_member(key@, opt_view(*value)),
{
    if let Some(v) = value {
        o.append(",");
        o.append(key);
        o.append(quoted(v.as_str()).as_str());
        assert(o@ =~= old(o)@ + (","@ + key@ + json_string(v@)));
    } else {
        assert(o@ =~= old(o)@ + Seq::empty());
    }
}

/// Writes provenance as a JSON object.
fn source_object(s: &SourceInfo) -> (o: String)
    ensures
        o@ == json_source(s@),
{
    let mut o = "{".to_owned();
    push_leading_member("\"path\":", &s.path, &mut o);
    push_leading_member("\"media_type\":", &s.media_type, &mut o);
    o.append("\"detected_format\":");
    o.append(quoted(s.detected_format.as_str()).as_str());
    o.append(",\"bytes\":");
    o.append(decimal_of(s.bytes as u128).as_str());
    o.append("}");
    o
}

/// Writes provenance as a JSON object whose members stand in order of their keys.
fn sorted_source_object(s: &SourceInfo) -> (o: String)
    ensures
        o@ == json_sorted_source(s@),
{
    let mut o = "{\"bytes\":".to_owned();
    o.append(decimal_of(s.bytes as u128).as_str());
    o.append(",\"detected_format\":");
    o.append(quoted(s.detected_format.as_str()).as_str());
    push_trailing_member("\"media_type\":", &s.media_type, &mut o);
    push_trailing_member("\"path\":", &s.path, &mut o);
    o.append("}");
    o
}

/// Writes a metadata entry as a member of an object.
fn entry_member(key: &str, value: &str) -> (o: String)
    ensures
        o@ == json_entry((key@, value@)),
{
    let mut o = quoted(key);
    o.append(":");
    o.append(quoted(value).as_str());
    o
}

/// Writes metadata as a JSON object.
fn metadata_object(m: &TextMap) -> (o: String)
    ensures
        o@ == json_metadata(m@),
        is_listing(listing(m@), m@),
{
    let entries = m.entries();
    if entries.len() == 0 {
        assert(listing(m@).len() == 0);
        return "{}".to_owned();
    }
    let mut parts: Vec<String> = Vec::new();
    for i in 0..entries.len()
        invariant
            pair_views(entries@) == listing(m@),
            parts@.len() == i,
            forall|j: int| 0 <= j < i ==> parts@[j]@ == json_entry(pair_views(entries@)[j]),
    {
        let part = entry_member(entries[i].0.as_str(), entries[i].1.as_str());
        assert(part@ == json_entry(pair_views(entries@)[i as int]));
        parts.push(part);
    }
    assert(views(parts@) =~= json_entries(m@));
    let mut o = "{\"extra\":{".to_owned();
    o.append(joined(&parts, ",").as_str());
    o.append("}}");
    o
}

/// Writes a warning as a JSON object.
fn warning_object(w: &Warning) -> (o: String)
    ensures
        o@ == json_warning(w@),
{
    let mut o = "{\"code\":".to_owned();
    o.append(quoted(w.code.as_str()).as_str());
    o.append(",\"message\":");
    o.append(quoted(w.message.as_str()).as_str());
    o.append("}");
    o
}

/// Writes an array of warnings.
fn warning_array(ws: &Vec<Warning>) -> (s: String)
    ensures
        s@ == json_array(json_warnings(warning_views(ws@))),
{
    let mut parts: Vec<String> = Vec::new();
    for i in 0..ws.len()
        invariant
            parts@.len() == i,
            forall|j: int| 0 <= j < i ==> parts@[j]@ == json_warning(ws@[j]@),
    {
        parts.push(warning_object(&ws[i]));
    }
    assert(views(parts@) =~= json_warnings(warning_views(ws@)));
    array_of(&parts)
}

/// Writes a document as a JSON object.
fn document_object(doc: &DocumentIr) -> (o: String)
    ensures
        o@ == json_document(doc@),
        is_listing(listing(doc@.metadata), doc@.metadata),
{
    let mut o = "{\"id\":".to_owned();
    o.append(quoted(doc.id.as_str()).as_str());
    o.append(",\"source\":");
    o.append(source_object(&doc.source).as_str());
    push_trailing_member("\"title\":", &doc.title, &mut o);
    o.append(",\"metadata\":");
    o.append(metadata_object(&doc.metadata.extra).as_str());
    o.append(",\"blocks\":");
    o.append(array_of(&block_objects(&doc.blocks)).as_str());
    let ghost head = o@;
    if doc.warnings.len() > 0 {
        o.append(",\"warnings\":");
        o.append(warning_array(&doc.warnings).as_str());
        assert(o@ =~= head + (",\"warnings\":"@ + json_array(json_warnings(doc@.warnings))));
    } else {
        assert(doc@.warnings.len() == 0);
        assert(o@ =~= head + Seq::empty());
    }
    o.append("}");
    o
}

/// Writes the header line of a document.
fn header_object(doc: &DocumentIr) -> (o: String)
    ensures
        o@ == json_header(doc@),
{
    let mut o = "{\"id\":".to_owned();
    o.append(quoted(doc.id.as_str()).as_str());
    o.append(",\"source\":");
    o.append(sorted_source_object(&doc.source).as_str());
    o.append(",\"title\":");
    match &doc.title {
        Some(t) => {
            o.append(quoted(t.as_str()).as_str());
        },
        None => {
            o.append("null");
        },
    }
    o.append(",\"type\":\"document\"}");
    o
}

/// Appends each part as a line.
fn push_lines(parts: &Vec<String>, o: &mut String)
    ensures
        final(o)@ == old(o)@ + concat(views(parts@), json_line()),
{
    broadcast use lemma_add_assoc;

    let ghost all = views(parts@);
    proof {
        lemma_concat_ends(all, json_line());
    }
    for i in 0..parts.len()
        invariant
            all == views(parts@),
            o@ == old(o)@ + concat(all.take(i as int), json_line()),
    {
        proof {
            lemma_concat_step(all, json_line(), i as int);
        }
        o.append(parts[i].as_str());
        o.append("\n");
    }
}

/// Writes JSONL: a header line, then one line per top-level block.
pub struct JsonlEmitter;

impl Emitter for JsonlEmitter {
    open spec fn named(&self) -> Seq<char> {
        "jsonl"@
    }

    open spec fn writes(&self) -> OutputFormat {
        OutputFormat::Jsonl
    }

    open spec fn emits(&self, doc: DocumentView, outcome: Emission) -> bool {
        outcome == Ok::<Seq<char>, ErrorView>(jsonl(doc))
    }

    fn name(&self) -> (s: &'static str) {
        "jsonl"
    }

    fn format(&self) -> (f: OutputFormat) {
        OutputFormat::Jsonl
    }

    fn emit(&self, doc: &DocumentIr) -> (r: Result<String>)
        ensures
            r matches Ok(s) && jsonl_says(s@, doc@),
    {
        let mut o = header_object(doc);
        o.append("\n");
        push_lines(&block_objects(&doc.blocks), &mut o);
        proof {
            law_jsonl_reads_back(doc@);
        }
        Ok(o)
    }
}

impl PlugEmitter for JsonlEmitter {
    fn plug(self) -> (s: EmitterSlot) {
        EmitterSlot { plugin: Box::new(self) }
    }
}

/// Writes NDJSON: the whole document on one line.
pub struct NdjsonEmitter;

impl Emitter for NdjsonEmitter {
    open spec fn named(&self) -> Seq<char> {
        "ndjson"@
    }

    open spec fn writes(&self) -> OutputFormat {
        OutputFormat::Ndjson
    }

    open spec fn emits(&self, doc: DocumentView, outcome: Emission) -> bool {
        outcome == Ok::<Seq<char>, ErrorView>(ndjson(doc))
    }

    fn name(&self) -> (s: &'static str) {
        "ndjson"
    }

    fn format(&self) -> (f: OutputFormat) {
        OutputFormat::Ndjson
    }

    fn emit(&self, doc: &DocumentIr) -> (r: Result<String>)
        ensures
            r matches Ok(s) && read_ndjson(s@) == Some(doc@),
    {
        let mut o = document_object(doc);
        o.append("\n");
        proof {
            law_ndjson_reads_back(doc@);
        }
        Ok(o)
    }
}

impl PlugEmitter for NdjsonEmitter {
    fn plug(self) -> (s: EmitterSlot) {
        EmitterSlot { plugin: Box::new(self) }
    }
}

} // verus!
