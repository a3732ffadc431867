//! What holds of JSON output: it reads back as what was written.
use crate::bridge::json::json_string;
use crate::emitters::json::{
    json_array, json_block, json_blocks, json_bool, json_document, json_entries, json_entry,
    json_field, json_fields, json_header, json_leading_member, json_metadata, json_rows,
    json_sorted_source, json_source, json_strings, json_trailing_member, json_warning,
    json_warnings, jsonl, lemma_json_blocks, ndjson,
};
use crate::emitters::json_laws::law_jsonl_has_a_line_per_block;
use crate::emitters::json_reading::{
    each_reads, is_plain, key_text, lemma_array, lemma_bool, lemma_comma, lemma_empty_object,
    lemma_end, lemma_first, lemma_leading, lemma_member, lemma_next, lemma_null, lemma_number,
    lemma_object, lemma_plain, lemma_read_json, lemma_string, lemma_trailing, member,
    optional_member, read_json, read_value, reads, reads_members, reads_more, Tree, TreeMember,
};
use crate::ir::{BlockView, DocumentView, FieldView, SourceView, WarningView};
use crate::text::{decimal, join, lemma_add_assoc, lemma_join_front, lines};
use crate::text_map::{is_listing, listing, lookup, map_of};
use vstd::prelude::*;

verus! {

// ---------------------------------------------------------------------------
// From trees to documents
// ---------------------------------------------------------------------------

/// The value of the first member with a key.
pub open spec fn find(ms: Seq<TreeMember>, key: Seq<char>) -> Option<Tree>
    decreases ms.len(),
{
    if ms.len() == 0 {
        None
    } else if ms[0].key == key {
        Some(ms[0].value)
    } else {
        find(ms.skip(1), key)
    }
}

/// The value that an object has for a key.
pub open spec fn value_at(t: Tree, key: Seq<char>) -> Option<Tree> {
    match t {
        Tree::Object(ms) => find(ms, key),
        _ => None,
    }
}

/// A string.
pub open spec fn text_of(t: Tree) -> Option<Seq<char>> {
    match t {
        Tree::Text(s) => Some(s),
        _ => None,
    }
}

/// The string that an object has for a key.
pub open spec fn text_at(t: Tree, key: Seq<char>) -> Option<Seq<char>> {
    match value_at(t, key) {
        Some(v) => text_of(v),
        None => None,
    }
}

/// The string that an object may have for a key.
pub open spec fn optional_text_at(t: Tree, key: Seq<char>) -> Option<Option<Seq<char>>> {
    match value_at(t, key) {
        Some(Tree::Text(s)) => Some(Some(s)),
        Some(Tree::Null) => Some(None),
        Some(_) => None,
        None => Some(None),
    }
}

/// What `f` makes of each value, if it makes something of all of them.
pub open spec fn each<A>(ts: Seq<Tree>, f: spec_fn(Tree) -> Option<A>) -> Option<Seq<A>> {
    if forall|i: int| 0 <= i < ts.len() ==> f(#[trigger] ts[i]) is Some {
        Some(ts.map_values(|t: Tree| f(t)->0))
    } else {
        None
    }
}

/// What `f` makes of each value of an array.
pub open spec fn list_of<A>(t: Tree, f: spec_fn(Tree) -> Option<A>) -> Option<Seq<A>> {
    match t {
        Tree::Array(ts) => each(ts, f),
        _ => None,
    }
}

/// What `f` makes of each value of the array that an object has for a key.
pub open spec fn list_at<A>(t: Tree, key: Seq<char>, f: spec_fn(Tree) -> Option<A>) -> Option<
    Seq<A>,
> {
    match value_at(t, key) {
        Some(v) => list_of(v, f),
        None => None,
    }
}

/// A list of strings.
pub open spec fn texts_of(t: Tree) -> Option<Seq<Seq<char>>> {
    list_of(t, |u: Tree| text_of(u))
}

/// A field of a record.
pub open spec fn field_of(t: Tree) -> Option<FieldView> {
    match (text_at(t, "key"@), text_at(t, "value"@)) {
        (Some(key), Some(value)) => Some(FieldView { key, value }),
        _ => None,
    }
}

/// A warning.
pub open spec fn warning_of(t: Tree) -> Option<WarningView> {
    match (text_at(t, "code"@), text_at(t, "message"@)) {
        (Some(code), Some(message)) => Some(WarningView { code, message }),
        _ => None,
    }
}

/// A heading.
pub open spec fn heading_of(t: Tree) -> Option<BlockView> {
    match (value_at(t, "level"@), text_at(t, "text"@)) {
        (Some(Tree::Number(n)), Some(text)) => if n <= u8::MAX {
            Some(BlockView::Heading { level: n as u8, text })
        } else {
            None
        },
        _ => None,
    }
}

/// A list.
pub open spec fn list_block_of(t: Tree) -> Option<BlockView> {
    match (value_at(t, "ordered"@), list_at(t, "items"@, |u: Tree| text_of(u))) {
        (Some(Tree::Bool(ordered)), Some(items)) => Some(BlockView::List { ordered, items }),
        _ => None,
    }
}

/// A table.
pub open spec fn table_of(t: Tree) -> Option<BlockView> {
    match (
        list_at(t, "headers"@, |u: Tree| text_of(u)),
        list_at(t, "rows"@, |u: Tree| texts_of(u)),
    ) {
        (Some(headers), Some(rows)) => Some(BlockView::Table { headers, rows }),
        _ => None,
    }
}

/// A code block.
pub open spec fn code_of(t: Tree) -> Option<BlockView> {
    match (optional_text_at(t, "lang"@), text_at(t, "text"@)) {
        (Some(lang), Some(text)) => Some(BlockView::Code { lang, text }),
        _ => None,
    }
}

/// A block, by its kind.
pub open spec fn block_of(t: Tree) -> Option<BlockView>
    decreases t, 1nat,
{
    let kind = text_at(t, "kind"@);
    if kind == Some("document"@) {
        match children_of(t) {
            Some(children) => Some(BlockView::Document { children }),
            None => None,
        }
    } else if kind == Some("section"@) {
        match children_of(t) {
            Some(children) => Some(BlockView::Section { children }),
            None => None,
        }
    } else if kind == Some("heading"@) {
        heading_of(t)
    } else if kind == Some("paragraph"@) {
        match text_at(t, "text"@) {
            Some(text) => Some(BlockView::Paragraph { text }),
            None => None,
        }
    } else if kind == Some("list"@) {
        list_block_of(t)
    } else if kind == Some("table"@) {
        table_of(t)
    } else if kind == Some("record"@) {
        match list_at(t, "fields"@, |u: Tree| field_of(u)) {
            Some(fields) => Some(BlockView::Record { fields }),
            None => None,
        }
    } else if kind == Some("code"@) {
        code_of(t)
    } else if kind == Some("quote"@) {
        match text_at(t, "text"@) {
            Some(text) => Some(BlockView::Quote { text }),
            None => None,
        }
    } else if kind == Some("unsupported"@) {
        match text_at(t, "note"@) {
            Some(note) => Some(BlockView::Unsupported { note }),
            None => None,
        }
    } else {
        None
    }
}

/// The blocks that an object holds as its children.
pub open spec fn children_of(t: Tree) -> Option<Seq<BlockView>>
    decreases t, 0nat,
{
    proof {
        lemma_value_below(t, "children"@);
    }
    match value_at(t, "children"@) {
        Some(Tree::Array(ts)) => blocks_of(ts),
        _ => None,
    }
}

/// Each value as a block.
pub open spec fn blocks_of(ts: Seq<Tree>) -> Option<Seq<BlockView>>
    decreases ts, 1nat,
{
    if ts.len() == 0 {
        Some(Seq::empty())
    } else {
        match (blocks_of(ts.drop_last()), block_of(ts.last())) {
            (Some(bs), Some(b)) => Some(bs.push(b)),
            _ => None,
        }
    }
}

/// What an object has for a key is part of the object.
pub proof fn lemma_value_below(t: Tree, key: Seq<char>)
    ensures
        value_at(t, key) matches Some(v) ==> decreases_to!(t => v),
{
    if let Tree::Object(ms) = t {
        lemma_find_below(ms, key);
        if find(ms, key) is Some {
            let i = choose|i: int|
                0 <= i < ms.len() && find(ms, key) == Some((#[trigger] ms[i]).value);
            assert(decreases_to!(t => t->Object_0));
            assert(decreases_to!(ms => ms[i]));
            let m = ms[i];
            assert(decreases_to!(m => m.value));
        }
    }
}

/// What is found is the value of some member.
proof fn lemma_find_below(ms: Seq<TreeMember>, key: Seq<char>)
    ensures
        find(ms, key) is Some ==> exists|i: int|
            0 <= i < ms.len() && find(ms, key) == Some((#[trigger] ms[i]).value),
    decreases ms.len(),
{
    if ms.len() > 0 && ms[0].key != key {
        lemma_find_below(ms.skip(1), key);
        if find(ms, key) is Some {
            let i = choose|i: int|
                0 <= i < ms.skip(1).len() && find(ms.skip(1), key) == Some(
                    (#[trigger] ms.skip(1)[i]).value,
                );
            assert(ms.skip(1)[i] == ms[i + 1]);
        }
    }
}

/// Provenance.
pub open spec fn source_of(t: Tree) -> Option<SourceView> {
    match (
        optional_text_at(t, "path"@),
        optional_text_at(t, "media_type"@),
        text_at(t, "detected_format"@),
        value_at(t, "bytes"@),
    ) {
        (Some(path), Some(media_type), Some(detected_format), Some(Tree::Number(n))) => if n
            <= u64::MAX {
            Some(SourceView { path, media_type, detected_format, bytes: n as u64 })
        } else {
            None
        },
        _ => None,
    }
}

/// Members whose values are strings, as pairs.
pub open spec fn pairs_of(ms: Seq<TreeMember>) -> Option<Seq<(Seq<char>, Seq<char>)>> {
    if forall|i: int| 0 <= i < ms.len() ==> (#[trigger] ms[i]).value is Text {
        Some(ms.map_values(|m: TreeMember| (m.key, m.value->Text_0)))
    } else {
        None
    }
}

/// Metadata. Without entries the object that holds them is not given.
pub open spec fn metadata_of(t: Tree) -> Option<Map<Seq<char>, Seq<char>>> {
    match value_at(t, "extra"@) {
        Some(Tree::Object(ms)) => match pairs_of(ms) {
            Some(p) => Some(map_of(p)),
            None => None,
        },
        Some(_) => None,
        None => Some(Map::empty()),
    }
}

/// The metadata of a document.
pub open spec fn metadata_at(t: Tree) -> Option<Map<Seq<char>, Seq<char>>> {
    match value_at(t, "metadata"@) {
        Some(v) => metadata_of(v),
        None => None,
    }
}

/// The provenance of a document.
pub open spec fn source_at(t: Tree) -> Option<SourceView> {
    match value_at(t, "source"@) {
        Some(v) => source_of(v),
        None => None,
    }
}

/// The blocks of a document.
pub open spec fn blocks_at(t: Tree) -> Option<Seq<BlockView>> {
    match value_at(t, "blocks"@) {
        Some(Tree::Array(ts)) => blocks_of(ts),
        _ => None,
    }
}

/// The warnings of a document. When there are none they are not given.
pub open spec fn warnings_at(t: Tree) -> Option<Seq<WarningView>> {
    match value_at(t, "warnings"@) {
        Some(v) => list_of(v, |u: Tree| warning_of(u)),
        None => Some(Seq::empty()),
    }
}

/// A document.
pub open spec fn document_of(t: Tree) -> Option<DocumentView> {
    match (
        text_at(t, "id"@),
        source_at(t),
        optional_text_at(t, "title"@),
        metadata_at(t),
        blocks_at(t),
        warnings_at(t),
    ) {
        (Some(id), Some(source), Some(title), Some(metadata), Some(blocks), Some(warnings)) => Some(
            DocumentView { id, source, title, metadata, blocks, warnings },
        ),
        _ => None,
    }
}

/// What the header of a document says: its identifier, its provenance and its title.
#[verifier::ext_equal]
pub struct HeaderView {
    pub id: Seq<char>,
    pub source: SourceView,
    pub title: Option<Seq<char>>,
}

/// The header of a document, marked as such.
pub open spec fn header_of(t: Tree) -> Option<HeaderView> {
    match (
        text_at(t, "type"@),
        text_at(t, "id"@),
        source_at(t),
        optional_text_at(t, "title"@),
    ) {
        (Some(mark), Some(id), Some(source), Some(title)) => if mark == "document"@ {
            Some(HeaderView { id, source, title })
        } else {
            None
        },
        _ => None,
    }
}

/// The block that a line of JSON says.
pub open spec fn read_block(line: Seq<char>) -> Option<BlockView> {
    match read_json(line) {
        Some(t) => block_of(t),
        None => None,
    }
}

/// The header that a line of JSON says.
pub open spec fn read_header(line: Seq<char>) -> Option<HeaderView> {
    match read_json(line) {
        Some(t) => header_of(t),
        None => None,
    }
}

/// The document that NDJSON says: one value, and a line feed.
pub open spec fn read_ndjson(s: Seq<char>) -> Option<DocumentView> {
    match read_value(s) {
        Some((t, rest)) => if rest == "\n"@ {
            document_of(t)
        } else {
            None
        },
        None => None,
    }
}

/// Whether the lines of JSONL say what `doc` holds: the first its header, each that follows a
/// top-level block of it.
pub open spec fn jsonl_says(s: Seq<char>, doc: DocumentView) -> bool {
    &&& lines(s).len() == doc.blocks.len() + 1
    &&& read_header(lines(s)[0]) == Some(
        HeaderView { id: doc.id, source: doc.source, title: doc.title },
    )
    &&& forall|i: int|
        0 <= i < doc.blocks.len() ==> read_block(lines(s)[i + 1]) == Some(#[trigger] doc.blocks[i])
}

// ---------------------------------------------------------------------------
// Keys
// ---------------------------------------------------------------------------

/// Looking for a key from the first member on.
broadcast proof fn lemma_find_member(k: Seq<char>, v: Tree, ms: Seq<TreeMember>, key: Seq<char>)
    ensures
        #[trigger] find(member(k, v) + ms, key) == (if k == key {
            Some(v)
        } else {
            find(ms, key)
        }),
{
    let all = member(k, v) + ms;
    assert(all[0] == TreeMember { key: k, value: v });
    assert(all.skip(1) =~= ms);
}

/// Looking for a key from a member on that may not be given.
broadcast proof fn lemma_find_optional(
    k: Seq<char>,
    v: Option<Seq<char>>,
    ms: Seq<TreeMember>,
    key: Seq<char>,
)
    ensures
        #[trigger] find(optional_member(k, v) + ms, key) == (if k == key && v is Some {
            Some(Tree::Text(v->0))
        } else {
            find(ms, key)
        }),
{
    match v {
        Some(s) => lemma_find_member(k, Tree::Text(s), ms, key),
        None => {
            assert(optional_member(k, v) + ms =~= ms);
        },
    }
}

/// The letters that keys and kinds begin with.
proof fn lemma_initials()
    ensures
        "kind"@.len() == 4 && "kind"@[0] == 'k',
        "children"@.len() == 8 && "children"@[0] == 'c',
        "level"@.len() == 5 && "level"@[0] == 'l',
        "text"@.len() == 4 && "text"@[0] == 't',
        "ordered"@.len() == 7 && "ordered"@[0] == 'o',
        "items"@.len() == 5 && "items"@[0] == 'i',
        "headers"@.len() == 7 && "headers"@[0] == 'h',
        "rows"@.len() == 4 && "rows"@[0] == 'r',
        "fields"@.len() == 6 && "fields"@[0] == 'f',
        "lang"@.len() == 4 && "lang"@[0] == 'l',
        "note"@.len() == 4 && "note"@[0] == 'n',
        "key"@.len() == 3 && "key"@[0] == 'k',
        "value"@.len() == 5 && "value"@[0] == 'v',
        "code"@.len() == 4 && "code"@[0] == 'c',
        "message"@.len() == 7 && "message"@[0] == 'm',
        "id"@.len() == 2 && "id"@[0] == 'i',
        "source"@.len() == 6 && "source"@[0] == 's',
        "title"@.len() == 5 && "title"@[0] == 't',
        "metadata"@.len() == 8 && "metadata"@[0] == 'm',
        "blocks"@.len() == 6 && "blocks"@[0] == 'b',
        "warnings"@.len() == 8 && "warnings"@[0] == 'w',
        "path"@.len() == 4 && "path"@[0] == 'p',
        "media_type"@.len() == 10 && "media_type"@[0] == 'm',
        "detected_format"@.len() == 15 && "detected_format"@[0] == 'd',
        "bytes"@.len() == 5 && "bytes"@[0] == 'b',
        "extra"@.len() == 5 && "extra"@[0] == 'e',
        "type"@.len() == 4 && "type"@[0] == 't',
        "document"@.len() == 8 && "document"@[0] == 'd',
        "section"@.len() == 7 && "section"@[0] == 's',
        "heading"@.len() == 7 && "heading"@[0] == 'h',
        "paragraph"@.len() == 9 && "paragraph"@[0] == 'p',
        "list"@.len() == 4 && "list"@[0] == 'l',
        "table"@.len() == 5 && "table"@[0] == 't',
        "record"@.len() == 6 && "record"@[0] == 'r',
        "quote"@.len() == 5 && "quote"@[0] == 'q',
        "unsupported"@.len() == 11 && "unsupported"@[0] == 'u',
{
    reveal_strlit("kind");
    reveal_strlit("children");
    reveal_strlit("level");
    reveal_strlit("text");
    reveal_strlit("ordered");
    reveal_strlit("items");
    reveal_strlit("headers");
    reveal_strlit("rows");
    reveal_strlit("fields");
    reveal_strlit("lang");
    reveal_strlit("note");
    reveal_strlit("key");
    reveal_strlit("value");
    reveal_strlit("code");
    reveal_strlit("message");
    reveal_strlit("id");
    reveal_strlit("source");
    reveal_strlit("title");
    reveal_strlit("metadata");
    reveal_strlit("blocks");
    reveal_strlit("warnings");
    reveal_strlit("path");
    reveal_strlit("media_type");
    reveal_strlit("detected_format");
    reveal_strlit("bytes");
    reveal_strlit("extra");
    reveal_strlit("type");
    reveal_strlit("document");
    reveal_strlit("section");
    reveal_strlit("heading");
    reveal_strlit("paragraph");
    reveal_strlit("list");
    reveal_strlit("table");
    reveal_strlit("record");
    reveal_strlit("quote");
    reveal_strlit("unsupported");
}

/// A key is written between quotation marks, with its colon.
proof fn lemma_key(key: Seq<char>)
    requires
        is_plain(key),
    ensures
        key_text(key) == seq!['"'] + key + seq!['"', ':'],
{
    reveal_strlit(":");
    lemma_plain(key);
    assert(key_text(key) =~= seq!['"'] + key + seq!['"', ':']);
}

/// How members of blocks are led in.
proof fn lemma_block_leads()
    ensures
        ",\"text\":"@ == ","@ + key_text("text"@),
        ",\"items\":"@ == ","@ + key_text("items"@),
        ",\"rows\":"@ == ","@ + key_text("rows"@),
        "{\"key\":"@ == "{"@ + key_text("key"@),
        ",\"value\":"@ == ","@ + key_text("value"@),
{
    reveal_strlit(",");
    reveal_strlit("{");
    reveal_strlit("text");
    reveal_strlit(",\"text\":");
    lemma_key("text"@);
    assert(",\"text\":"@ =~= ","@ + key_text("text"@));
    reveal_strlit("items");
    reveal_strlit(",\"items\":");
    lemma_key("items"@);
    assert(",\"items\":"@ =~= ","@ + key_text("items"@));
    reveal_strlit("rows");
    reveal_strlit(",\"rows\":");
    lemma_key("rows"@);
    assert(",\"rows\":"@ =~= ","@ + key_text("rows"@));
    reveal_strlit("key");
    reveal_strlit("{\"key\":");
    lemma_key("key"@);
    assert("{\"key\":"@ =~= "{"@ + key_text("key"@));
    reveal_strlit("value");
    reveal_strlit(",\"value\":");
    lemma_key("value"@);
    assert(",\"value\":"@ =~= ","@ + key_text("value"@));
}

/// How members of warnings are led in.
proof fn lemma_warning_leads()
    ensures
        "{\"code\":"@ == "{"@ + key_text("code"@),
        ",\"message\":"@ == ","@ + key_text("message"@),
{
    reveal_strlit(",");
    reveal_strlit("{");
    reveal_strlit("code");
    reveal_strlit("{\"code\":");
    lemma_key("code"@);
    assert("{\"code\":"@ =~= "{"@ + key_text("code"@));
    reveal_strlit("message");
    reveal_strlit(",\"message\":");
    lemma_key("message"@);
    assert(",\"message\":"@ =~= ","@ + key_text("message"@));
}

/// How members of provenance are led in.
proof fn lemma_source_leads()
    ensures
        "\"path\":"@ == key_text("path"@),
        "\"media_type\":"@ == key_text("media_type"@),
        "\"detected_format\":"@ == key_text("detected_format"@),
        ",\"bytes\":"@ == ","@ + key_text("bytes"@),
        "{\"bytes\":"@ == "{"@ + key_text("bytes"@),
        ",\"detected_format\":"@ == ","@ + key_text("detected_format"@),
{
    reveal_strlit(",");
    reveal_strlit("{");
    reveal_strlit("path");
    reveal_strlit("\"path\":");
    lemma_key("path"@);
    assert("\"path\":"@ =~= key_text("path"@));
    reveal_strlit("media_type");
    reveal_strlit("\"media_type\":");
    lemma_key("media_type"@);
    assert("\"media_type\":"@ =~= key_text("media_type"@));
    reveal_strlit("detected_format");
    reveal_strlit("\"detected_format\":");
    lemma_key("detected_format"@);
    assert("\"detected_format\":"@ =~= key_text("detected_format"@));
    reveal_strlit("bytes");
    reveal_strlit(",\"bytes\":");
    lemma_key("bytes"@);
    assert(",\"bytes\":"@ =~= ","@ + key_text("bytes"@));
    reveal_strlit("bytes");
    reveal_strlit("{\"bytes\":");
    lemma_key("bytes"@);
    assert("{\"bytes\":"@ =~= "{"@ + key_text("bytes"@));
    reveal_strlit("detected_format");
    reveal_strlit(",\"detected_format\":");
    lemma_key("detected_format"@);
    assert(",\"detected_format\":"@ =~= ","@ + key_text("detected_format"@));
}

/// How members of documents are led in.
proof fn lemma_document_leads()
    ensures
        "{\"id\":"@ == "{"@ + key_text("id"@),
        ",\"source\":"@ == ","@ + key_text("source"@),
        "\"title\":"@ == key_text("title"@),
        ",\"title\":"@ == ","@ + key_text("title"@),
        ",\"metadata\":"@ == ","@ + key_text("metadata"@),
        ",\"blocks\":"@ == ","@ + key_text("blocks"@),
        ",\"warnings\":"@ == ","@ + key_text("warnings"@),
{
    reveal_strlit(",");
    reveal_strlit("{");
    reveal_strlit("id");
    reveal_strlit("{\"id\":");
    lemma_key("id"@);
    assert("{\"id\":"@ =~= "{"@ + key_text("id"@));
    reveal_strlit("source");
    reveal_strlit(",\"source\":");
    lemma_key("source"@);
    assert(",\"source\":"@ =~= ","@ + key_text("source"@));
    reveal_strlit("title");
    reveal_strlit("\"title\":");
    lemma_key("title"@);
    assert("\"title\":"@ =~= key_text("title"@));
    reveal_strlit("title");
    reveal_strlit(",\"title\":");
    lemma_key("title"@);
    assert(",\"title\":"@ =~= ","@ + key_text("title"@));
    reveal_strlit("metadata");
    reveal_strlit(",\"metadata\":");
    lemma_key("metadata"@);
    assert(",\"metadata\":"@ =~= ","@ + key_text("metadata"@));
    reveal_strlit("blocks");
    reveal_strlit(",\"blocks\":");
    lemma_key("blocks"@);
    assert(",\"blocks\":"@ =~= ","@ + key_text("blocks"@));
    reveal_strlit("warnings");
    reveal_strlit(",\"warnings\":");
    lemma_key("warnings"@);
    assert(",\"warnings\":"@ =~= ","@ + key_text("warnings"@));
}

/// How a block is led in: its kind and its first key.
spec fn tagged(kind: Seq<char>, key: Seq<char>) -> Seq<char> {
    "{"@ + key_text("kind"@) + json_string(kind) + (","@ + key_text(key))
}

/// How a block is led in, letter by letter.
proof fn lemma_tagged_text(kind: Seq<char>, key: Seq<char>)
    requires
        is_plain(kind),
        is_plain(key),
    ensures
        tagged(kind, key) == "{\"kind\":\""@ + kind + "\",\""@ + key + "\":"@,
{
    reveal_strlit("{");
    reveal_strlit(",");
    reveal_strlit("kind");
    reveal_strlit("{\"kind\":\"");
    reveal_strlit("\",\"");
    reveal_strlit("\":");
    lemma_key("kind"@);
    lemma_key(key);
    lemma_plain(kind);
    assert(tagged(kind, key) =~= "{\"kind\":\""@ + kind + "\",\""@ + key + "\":"@);
}

/// How a block of the kind "document" is led in.
proof fn lemma_document_tag()
    ensures
        "{\"kind\":\"document\",\"children\":"@ == tagged("document"@, "children"@),
{
    reveal_strlit("{\"kind\":\"document\",\"children\":");
    reveal_strlit("document");
    reveal_strlit("children");
    reveal_strlit("{\"kind\":\"");
    reveal_strlit("\",\"");
    reveal_strlit("\":");
    lemma_tagged_text("document"@, "children"@);
    assert("{\"kind\":\"document\",\"children\":"@ =~= tagged("document"@, "children"@));
}

/// How a block of the kind "section" is led in.
proof fn lemma_section_tag()
    ensures
        "{\"kind\":\"section\",\"children\":"@ == tagged("section"@, "children"@),
{
    reveal_strlit("{\"kind\":\"section\",\"children\":");
    reveal_strlit("section");
    reveal_strlit("children");
    reveal_strlit("{\"kind\":\"");
    reveal_strlit("\",\"");
    reveal_strlit("\":");
    lemma_tagged_text("section"@, "children"@);
    assert("{\"kind\":\"section\",\"children\":"@ =~= tagged("section"@, "children"@));
}

/// How a block of the kind "heading" is led in.
proof fn lemma_heading_tag()
    ensures
        "{\"kind\":\"heading\",\"level\":"@ == tagged("heading"@, "level"@),
{
    reveal_strlit("{\"kind\":\"heading\",\"level\":");
    reveal_strlit("heading");
    reveal_strlit("level");
    reveal_strlit("{\"kind\":\"");
    reveal_strlit("\",\"");
    reveal_strlit("\":");
    lemma_tagged_text("heading"@, "level"@);
    assert("{\"kind\":\"heading\",\"level\":"@ =~= tagged("heading"@, "level"@));
}

/// How a block of the kind "paragraph" is led in.
proof fn lemma_paragraph_tag()
    ensures
        "{\"kind\":\"paragraph\",\"text\":"@ == tagged("paragraph"@, "text"@),
{
    reveal_strlit("{\"kind\":\"paragraph\",\"text\":");
    reveal_strlit("paragraph");
    reveal_strlit("text");
    reveal_strlit("{\"kind\":\"");
    reveal_strlit("\",\"");
    reveal_strlit("\":");
    lemma_tagged_text("paragraph"@, "text"@);
    assert("{\"kind\":\"paragraph\",\"text\":"@ =~= tagged("paragraph"@, "text"@));
}

/// How a block of the kind "list" is led in.
proof fn lemma_list_tag()
    ensures
        "{\"kind\":\"list\",\"ordered\":"@ == tagged("list"@, "ordered"@),
{
    reveal_strlit("{\"kind\":\"list\",\"ordered\":");
    reveal_strlit("list");
    reveal_strlit("ordered");
    reveal_strlit("{\"kind\":\"");
    reveal_strlit("\",\"");
    reveal_strlit("\":");
    lemma_tagged_text("list"@, "ordered"@);
    assert("{\"kind\":\"list\",\"ordered\":"@ =~= tagged("list"@, "ordered"@));
}

/// How a block of the kind "table" is led in.
proof fn lemma_table_tag()
    ensures
        "{\"kind\":\"table\",\"headers\":"@ == tagged("table"@, "headers"@),
{
    reveal_strlit("{\"kind\":\"table\",\"headers\":");
    reveal_strlit("table");
    reveal_strlit("headers");
    reveal_strlit("{\"kind\":\"");
    reveal_strlit("\",\"");
    reveal_strlit("\":");
    lemma_tagged_text("table"@, "headers"@);
    assert("{\"kind\":\"table\",\"headers\":"@ =~= tagged("table"@, "headers"@));
}

/// How a block of the kind "record" is led in.
proof fn lemma_record_tag()
    ensures
        "{\"kind\":\"record\",\"fields\":"@ == tagged("record"@, "fields"@),
{
    reveal_strlit("{\"kind\":\"record\",\"fields\":");
    reveal_strlit("record");
    reveal_strlit("fields");
    reveal_strlit("{\"kind\":\"");
    reveal_strlit("\",\"");
    reveal_strlit("\":");
    lemma_tagged_text("record"@, "fields"@);
    assert("{\"kind\":\"record\",\"fields\":"@ =~= tagged("record"@, "fields"@));
}

/// How a block of the kind "code" is led in, "text" first.
proof fn lemma_code_text_tag()
    ensures
        "{\"kind\":\"code\""@ + ",\"text\":"@ == tagged("code"@, "text"@),
{
    reveal_strlit("{\"kind\":\"code\"");
    reveal_strlit(",\"text\":");
    reveal_strlit("code");
    reveal_strlit("text");
    reveal_strlit("{\"kind\":\"");
    reveal_strlit("\",\"");
    reveal_strlit("\":");
    lemma_tagged_text("code"@, "text"@);
    assert("{\"kind\":\"code\""@ + ",\"text\":"@ =~= tagged("code"@, "text"@));
}

/// How a block of the kind "code" is led in, "lang" first.
proof fn lemma_code_lang_tag()
    ensures
        "{\"kind\":\"code\""@ + ",\"lang\":"@ == tagged("code"@, "lang"@),
{
    reveal_strlit("{\"kind\":\"code\"");
    reveal_strlit(",\"lang\":");
    reveal_strlit("code");
    reveal_strlit("lang");
    reveal_strlit("{\"kind\":\"");
    reveal_strlit("\",\"");
    reveal_strlit("\":");
    lemma_tagged_text("code"@, "lang"@);
    assert("{\"kind\":\"code\""@ + ",\"lang\":"@ =~= tagged("code"@, "lang"@));
}

/// How a block of the kind "quote" is led in.
proof fn lemma_quote_tag()
    ensures
        "{\"kind\":\"quote\",\"text\":"@ == tagged("quote"@, "text"@),
{
    reveal_strlit("{\"kind\":\"quote\",\"text\":");
    reveal_strlit("quote");
    reveal_strlit("text");
    reveal_strlit("{\"kind\":\"");
    reveal_strlit("\",\"");
    reveal_strlit("\":");
    lemma_tagged_text("quote"@, "text"@);
    assert("{\"kind\":\"quote\",\"text\":"@ =~= tagged("quote"@, "text"@));
}

/// How a block of the kind "unsupported" is led in.
proof fn lemma_unsupported_tag()
    ensures
        "{\"kind\":\"unsupported\",\"note\":"@ == tagged("unsupported"@, "note"@),
{
    reveal_strlit("{\"kind\":\"unsupported\",\"note\":");
    reveal_strlit("unsupported");
    reveal_strlit("note");
    reveal_strlit("{\"kind\":\"");
    reveal_strlit("\",\"");
    reveal_strlit("\":");
    lemma_tagged_text("unsupported"@, "note"@);
    assert("{\"kind\":\"unsupported\",\"note\":"@ =~= tagged("unsupported"@, "note"@));
}

/// A block is read as its kind and its members.
proof fn lemma_tagged(
    kind: Seq<char>,
    key: Seq<char>,
    value: Seq<char>,
    t: Tree,
    tail: Seq<char>,
    ms: Seq<TreeMember>,
)
    requires
        reads(value, t),
        reads_more(tail, ms),
    ensures
        reads(
            tagged(kind, key) + value + tail,
            Tree::Object(member("kind"@, Tree::Text(kind)) + (member(key, t) + ms)),
        ),
{
    let lead = "{"@ + key_text("kind"@);
    let next = ","@ + key_text(key);
    lemma_next(next, key, value, t, tail, ms);
    lemma_string(kind);
    lemma_first(
        lead,
        "kind"@,
        json_string(kind),
        Tree::Text(kind),
        next + value + tail,
        member(key, t) + ms,
    );
    lemma_add_assoc(lead + json_string(kind), next, value);
    lemma_add_assoc(lead + json_string(kind), next + value, tail);
}

// ---------------------------------------------------------------------------
// Parts of blocks
// ---------------------------------------------------------------------------

/// A list of which every value is read as it was written.
proof fn lemma_list<A>(ts: Seq<Tree>, f: spec_fn(Tree) -> Option<A>, vs: Seq<A>)
    requires
        ts.len() == vs.len(),
        forall|i: int| 0 <= i < ts.len() ==> f(#[trigger] ts[i]) == Some(vs[i]),
    ensures
        each(ts, f) == Some(vs),
        list_of(Tree::Array(ts), f) == Some(vs),
{
    assert(ts.map_values(|t: Tree| f(t)->0) =~= vs);
}

/// A list of strings, as a tree.
spec fn texts_tree(s: Seq<Seq<char>>) -> Tree {
    Tree::Array(s.map_values(|t: Seq<char>| Tree::Text(t)))
}

/// A list of strings reads back.
proof fn lemma_texts(s: Seq<Seq<char>>)
    ensures
        reads(json_array(json_strings(s)), texts_tree(s)),
        list_of(texts_tree(s), |u: Tree| text_of(u)) == Some(s),
{
    let parts = json_strings(s);
    let ts = s.map_values(|t: Seq<char>| Tree::Text(t));
    assert forall|i: int| 0 <= i < parts.len() implies reads(#[trigger] parts[i], ts[i]) by {
        lemma_string(s[i]);
    }
    lemma_array(parts, ts);
    lemma_list(ts, |u: Tree| text_of(u), s);
}

/// A list of rows reads back.
proof fn lemma_rows(rows: Seq<Seq<Seq<char>>>) -> (t: Tree)
    ensures
        reads(json_array(json_rows(rows)), t),
        list_of(t, |u: Tree| texts_of(u)) == Some(rows),
{
    let parts = json_rows(rows);
    let ts = rows.map_values(|r: Seq<Seq<char>>| texts_tree(r));
    let f = |u: Tree| texts_of(u);
    assert forall|i: int| 0 <= i < parts.len() implies reads(#[trigger] parts[i], ts[i]) by {
        lemma_texts(rows[i]);
    }
    lemma_array(parts, ts);
    assert forall|i: int| 0 <= i < ts.len() implies f(#[trigger] ts[i]) == Some(rows[i]) by {
        lemma_texts(rows[i]);
    }
    lemma_list(ts, f, rows);
    Tree::Array(ts)
}

/// An object of two strings, as a tree.
spec fn pair_tree(j: Seq<char>, a: Seq<char>, k: Seq<char>, b: Seq<char>) -> Tree {
    Tree::Object(member(j, Tree::Text(a)) + (member(k, Tree::Text(b)) + Seq::empty()))
}

/// An object of two strings is read as it was written.
proof fn lemma_pair(j: Seq<char>, a: Seq<char>, k: Seq<char>, b: Seq<char>)
    ensures
        reads(
            "{"@ + key_text(j) + json_string(a) + (","@ + key_text(k)) + json_string(b) + "}"@,
            pair_tree(j, a, k, b),
        ),
{
    let first = "{"@ + key_text(j);
    let next = ","@ + key_text(k);
    let none = Seq::<TreeMember>::empty();
    lemma_string(a);
    lemma_string(b);
    lemma_end();
    lemma_next(next, k, json_string(b), Tree::Text(b), "}"@, none);
    lemma_first(
        first,
        j,
        json_string(a),
        Tree::Text(a),
        next + json_string(b) + "}"@,
        member(k, Tree::Text(b)) + none,
    );
    lemma_add_assoc(first + json_string(a), next, json_string(b));
    lemma_add_assoc(first + json_string(a), next + json_string(b), "}"@);
}

/// A list of fields reads back.
proof fn lemma_fields(fields: Seq<FieldView>) -> (t: Tree)
    ensures
        reads(json_array(json_fields(fields)), t),
        list_of(t, |u: Tree| field_of(u)) == Some(fields),
{
    broadcast use lemma_find_member;

    let parts = json_fields(fields);
    let ts = fields.map_values(|f: FieldView| pair_tree("key"@, f.key, "value"@, f.value));
    let f = |u: Tree| field_of(u);
    lemma_block_leads();
    lemma_initials();
    assert forall|i: int| 0 <= i < parts.len() implies reads(#[trigger] parts[i], ts[i]) by {
        assert(parts[i] == json_field(fields[i]));
        lemma_pair("key"@, fields[i].key, "value"@, fields[i].value);
    }
    lemma_array(parts, ts);
    assert forall|i: int| 0 <= i < ts.len() implies f(#[trigger] ts[i]) == Some(fields[i]) by {
        assert(ts[i] == pair_tree("key"@, fields[i].key, "value"@, fields[i].value));
        assert(text_at(ts[i], "key"@) == Some(fields[i].key));
        assert(text_at(ts[i], "value"@) == Some(fields[i].value));
    }
    lemma_list(ts, f, fields);
    Tree::Array(ts)
}

/// A list of warnings reads back.
proof fn lemma_warnings(ws: Seq<WarningView>) -> (t: Tree)
    ensures
        reads(json_array(json_warnings(ws)), t),
        list_of(t, |u: Tree| warning_of(u)) == Some(ws),
{
    broadcast use lemma_find_member;

    let parts = json_warnings(ws);
    let ts = ws.map_values(|w: WarningView| pair_tree("code"@, w.code, "message"@, w.message));
    let f = |u: Tree| warning_of(u);
    lemma_warning_leads();
    lemma_initials();
    assert forall|i: int| 0 <= i < parts.len() implies reads(#[trigger] parts[i], ts[i]) by {
        assert(parts[i] == json_warning(ws[i]));
        lemma_pair("code"@, ws[i].code, "message"@, ws[i].message);
    }
    lemma_array(parts, ts);
    assert forall|i: int| 0 <= i < ts.len() implies f(#[trigger] ts[i]) == Some(ws[i]) by {
        assert(ts[i] == pair_tree("code"@, ws[i].code, "message"@, ws[i].message));
        assert(text_at(ts[i], "code"@) == Some(ws[i].code));
        assert(text_at(ts[i], "message"@) == Some(ws[i].message));
    }
    lemma_list(ts, f, ws);
    Tree::Array(ts)
}

// ---------------------------------------------------------------------------
// Blocks
// ---------------------------------------------------------------------------

/// A block of one member, as a tree.
spec fn block_tree(kind: Seq<char>, key: Seq<char>, value: Tree, ms: Seq<TreeMember>) -> Tree {
    Tree::Object(member("kind"@, Tree::Text(kind)) + (member(key, value) + ms))
}

/// A block of one member is read as it was written.
proof fn lemma_one(kind: Seq<char>, key: Seq<char>, value: Seq<char>, t: Tree)
    requires
        reads(value, t),
        key != "kind"@,
    ensures
        reads(tagged(kind, key) + value + "}"@, block_tree(kind, key, t, Seq::empty())),
        text_at(block_tree(kind, key, t, Seq::empty()), "kind"@) == Some(kind),
        value_at(block_tree(kind, key, t, Seq::empty()), key) == Some(t),
{
    broadcast use lemma_find_member;

    lemma_end();
    lemma_tagged(kind, key, value, t, "}"@, Seq::empty());
}

/// A block of two members is read as it was written.
proof fn lemma_two(
    kind: Seq<char>,
    key: Seq<char>,
    value: Seq<char>,
    t: Tree,
    other: Seq<char>,
    more: Seq<char>,
    u: Tree,
) -> (tree: Tree)
    requires
        reads(value, t),
        reads(more, u),
        key != "kind"@,
        other != "kind"@,
        key != other,
    ensures
        reads(tagged(kind, key) + value + (","@ + key_text(other)) + more + "}"@, tree),
        text_at(tree, "kind"@) == Some(kind),
        value_at(tree, key) == Some(t),
        value_at(tree, other) == Some(u),
{
    broadcast use lemma_find_member;

    let next = ","@ + key_text(other);
    let none = Seq::<TreeMember>::empty();
    let ms = member(other, u) + none;
    lemma_end();
    lemma_next(next, other, more, u, "}"@, none);
    lemma_tagged(kind, key, value, t, next + more + "}"@, ms);
    lemma_add_assoc(tagged(kind, key) + value, next, more);
    lemma_add_assoc(tagged(kind, key) + value, next + more, "}"@);
    block_tree(kind, key, t, ms)
}

/// A block reads back.
proof fn lemma_block(b: BlockView) -> (t: Tree)
    ensures
        reads(json_block(b), t),
        block_of(t) == Some(b),
    decreases b, 1nat,
{
    lemma_initials();
    match b {
        BlockView::Document { children } => {
            let ts = lemma_blocks(children);
            lemma_document_tag();
            lemma_one("document"@, "children"@, json_array(json_blocks(children)), Tree::Array(ts));
            block_tree("document"@, "children"@, Tree::Array(ts), Seq::empty())
        },
        BlockView::Section { children } => {
            let ts = lemma_blocks(children);
            lemma_section_tag();
            lemma_one("section"@, "children"@, json_array(json_blocks(children)), Tree::Array(ts));
            block_tree("section"@, "children"@, Tree::Array(ts), Seq::empty())
        },
        BlockView::Heading { level, text } => lemma_heading(level, text),
        BlockView::Paragraph { text } => {
            lemma_string(text);
            lemma_paragraph_tag();
            lemma_one("paragraph"@, "text"@, json_string(text), Tree::Text(text));
            block_tree("paragraph"@, "text"@, Tree::Text(text), Seq::empty())
        },
        BlockView::List { ordered, items } => lemma_list_block(ordered, items),
        BlockView::Table { headers, rows } => lemma_table(headers, rows),
        BlockView::Record { fields } => {
            let t = lemma_fields(fields);
            lemma_record_tag();
            lemma_one("record"@, "fields"@, json_array(json_fields(fields)), t);
            block_tree("record"@, "fields"@, t, Seq::empty())
        },
        BlockView::Code { lang, text } => lemma_code(lang, text),
        BlockView::Quote { text } => {
            lemma_string(text);
            lemma_quote_tag();
            lemma_one("quote"@, "text"@, json_string(text), Tree::Text(text));
            block_tree("quote"@, "text"@, Tree::Text(text), Seq::empty())
        },
        BlockView::Unsupported { note } => {
            lemma_string(note);
            lemma_unsupported_tag();
            lemma_one("unsupported"@, "note"@, json_string(note), Tree::Text(note));
            block_tree("unsupported"@, "note"@, Tree::Text(note), Seq::empty())
        },
    }
}

/// A heading reads back.
proof fn lemma_heading(level: u8, text: Seq<char>) -> (t: Tree)
    ensures
        reads(json_block(BlockView::Heading { level, text }), t),
        block_of(t) == Some(BlockView::Heading { level, text }),
{
    lemma_initials();
    lemma_heading_tag();
    lemma_block_leads();
    lemma_number(level as nat);
    lemma_string(text);
    let t = lemma_two(
        "heading"@,
        "level"@,
        decimal(level as nat),
        Tree::Number(level as nat),
        "text"@,
        json_string(text),
        Tree::Text(text),
    );
    assert(heading_of(t) == Some(BlockView::Heading { level, text }));
    t
}

/// A list reads back.
proof fn lemma_list_block(ordered: bool, items: Seq<Seq<char>>) -> (t: Tree)
    ensures
        reads(json_block(BlockView::List { ordered, items }), t),
        block_of(t) == Some(BlockView::List { ordered, items }),
{
    lemma_initials();
    lemma_list_tag();
    lemma_block_leads();
    lemma_bool(ordered);
    lemma_texts(items);
    let t = lemma_two(
        "list"@,
        "ordered"@,
        json_bool(ordered),
        Tree::Bool(ordered),
        "items"@,
        json_array(json_strings(items)),
        texts_tree(items),
    );
    assert(list_block_of(t) == Some(BlockView::List { ordered, items }));
    t
}

/// A table reads back.
proof fn lemma_table(headers: Seq<Seq<char>>, rows: Seq<Seq<Seq<char>>>) -> (t: Tree)
    ensures
        reads(json_block(BlockView::Table { headers, rows }), t),
        block_of(t) == Some(BlockView::Table { headers, rows }),
{
    lemma_initials();
    lemma_table_tag();
    lemma_block_leads();
    lemma_texts(headers);
    let u = lemma_rows(rows);
    let t = lemma_two(
        "table"@,
        "headers"@,
        json_array(json_strings(headers)),
        texts_tree(headers),
        "rows"@,
        json_array(json_rows(rows)),
        u,
    );
    assert(table_of(t) == Some(BlockView::Table { headers, rows }));
    t
}

/// A code block reads back.
proof fn lemma_code(lang: Option<Seq<char>>, text: Seq<char>) -> (t: Tree)
    ensures
        reads(json_block(BlockView::Code { lang, text }), t),
        block_of(t) == Some(BlockView::Code { lang, text }),
{
    broadcast use lemma_find_member;

    let head = "{\"kind\":\"code\""@;
    lemma_initials();
    lemma_block_leads();
    lemma_string(text);
    match lang {
        Some(l) => {
            lemma_code_lang_tag();
            lemma_string(l);
            let t = lemma_two(
                "code"@,
                "lang"@,
                json_string(l),
                Tree::Text(l),
                "text"@,
                json_string(text),
                Tree::Text(text),
            );
            lemma_add_assoc(head, ",\"lang\":"@, json_string(l));
            assert(code_of(t) == Some(BlockView::Code { lang, text }));
            t
        },
        None => {
            lemma_code_text_tag();
            lemma_one("code"@, "text"@, json_string(text), Tree::Text(text));
            let t = block_tree("code"@, "text"@, Tree::Text(text), Seq::empty());
            assert(head + Seq::<char>::empty() =~= head);
            assert(code_of(t) == Some(BlockView::Code { lang, text }));
            t
        },
    }
}

/// A list of blocks reads back.
proof fn lemma_blocks(bs: Seq<BlockView>) -> (ts: Seq<Tree>)
    ensures
        reads(json_array(json_blocks(bs)), Tree::Array(ts)),
        each_reads(json_blocks(bs), ts),
        blocks_of(ts) == Some(bs),
    decreases bs, 0nat,
{
    lemma_json_blocks(bs);
    if bs.len() == 0 {
        let ts = Seq::<Tree>::empty();
        assert(bs =~= Seq::empty());
        lemma_array(json_blocks(bs), ts);
        ts
    } else {
        let front = lemma_blocks(bs.drop_last());
        let t = lemma_block(bs.last());
        let ts = front.push(t);
        let parts = json_blocks(bs);
        assert forall|i: int| 0 <= i < parts.len() implies reads(#[trigger] parts[i], ts[i]) by {
            if i < front.len() {
                assert(reads(json_blocks(bs.drop_last())[i], front[i]));
            }
        }
        lemma_array(parts, ts);
        assert(ts.drop_last() =~= front);
        assert(bs.drop_last().push(bs.last()) =~= bs);
        ts
    }
}

/// A line of JSON that is written for a block reads back as the block.
pub proof fn law_json_blocks_read_back(b: BlockView)
    ensures
        read_block(json_block(b)) == Some(b),
{
    let t = lemma_block(b);
    lemma_read_json(json_block(b), t);
}

/// Two blocks that are written as the same JSON are one.
pub proof fn law_json_blocks_lose_nothing(a: BlockView, b: BlockView)
    requires
        json_block(a) == json_block(b),
    ensures
        a == b,
{
    law_json_blocks_read_back(a);
    law_json_blocks_read_back(b);
}

// ---------------------------------------------------------------------------
// Documents
// ---------------------------------------------------------------------------

/// Provenance reads back.
proof fn lemma_source(s: SourceView) -> (t: Tree)
    ensures
        reads(json_source(s), t),
        source_of(t) == Some(s),
{
    broadcast use {lemma_find_member, lemma_find_optional};

    let a = "{"@;
    let b = json_leading_member("\"path\":"@, s.path);
    let c = json_leading_member("\"media_type\":"@, s.media_type);
    let k = "\"detected_format\":"@;
    let d = json_string(s.detected_format);
    let n = ",\"bytes\":"@;
    let v = decimal(s.bytes as nat);
    let none = Seq::<TreeMember>::empty();
    let size = member("bytes"@, Tree::Number(s.bytes as nat)) + none;
    let format = member("detected_format"@, Tree::Text(s.detected_format)) + size;
    let media = optional_member("media_type"@, s.media_type) + format;
    let all = optional_member("path"@, s.path) + media;
    let tail = n + v + "}"@;
    lemma_initials();
    lemma_source_leads();
    lemma_number(s.bytes as nat);
    lemma_string(s.detected_format);
    lemma_end();
    lemma_next(n, "bytes"@, v, Tree::Number(s.bytes as nat), "}"@, none);
    lemma_member("detected_format"@, d, Tree::Text(s.detected_format), tail, size);
    lemma_leading("media_type"@, s.media_type, k + d + tail, format);
    lemma_leading("path"@, s.path, c + (k + d + tail), media);
    lemma_object(b + (c + (k + d + tail)), all);
    assert(json_source(s) == a + (b + (c + (k + d + tail)))) by {
        lemma_add_assoc(a + b + c + k + d, n, v);
        lemma_add_assoc(a + b + c + k + d, n + v, "}"@);
        lemma_add_assoc(a + b + c, k, d);
        lemma_add_assoc(a + b + c, k + d, tail);
        lemma_add_assoc(a + b, c, k + d + tail);
        lemma_add_assoc(a, b, c + (k + d + tail));
    }
    let t = Tree::Object(all);
    assert(optional_text_at(t, "path"@) == Some(s.path));
    assert(optional_text_at(t, "media_type"@) == Some(s.media_type));
    assert(text_at(t, "detected_format"@) == Some(s.detected_format));
    assert(value_at(t, "bytes"@) == Some(Tree::Number(s.bytes as nat)));
    t
}

/// Provenance whose members stand in order of their keys reads back.
proof fn lemma_sorted_source(s: SourceView) -> (t: Tree)
    ensures
        reads(json_sorted_source(s), t),
        source_of(t) == Some(s),
{
    broadcast use {lemma_find_member, lemma_find_optional};

    let h = "{\"bytes\":"@;
    let v = decimal(s.bytes as nat);
    let n = ",\"detected_format\":"@;
    let d = json_string(s.detected_format);
    let c = json_trailing_member("\"media_type\":"@, s.media_type);
    let b = json_trailing_member("\"path\":"@, s.path);
    let none = Seq::<TreeMember>::empty();
    let path = optional_member("path"@, s.path) + none;
    let media = optional_member("media_type"@, s.media_type) + path;
    let format = member("detected_format"@, Tree::Text(s.detected_format)) + media;
    let all = member("bytes"@, Tree::Number(s.bytes as nat)) + format;
    let tail = c + (b + "}"@);
    lemma_initials();
    lemma_source_leads();
    lemma_number(s.bytes as nat);
    lemma_string(s.detected_format);
    lemma_end();
    lemma_trailing("path"@, s.path, "}"@, none);
    lemma_trailing("media_type"@, s.media_type, b + "}"@, path);
    lemma_next(n, "detected_format"@, d, Tree::Text(s.detected_format), tail, media);
    lemma_first(h, "bytes"@, v, Tree::Number(s.bytes as nat), n + d + tail, format);
    assert(json_sorted_source(s) == h + v + (n + d + tail)) by {
        lemma_add_assoc(h + v + n + d + c, b, "}"@);
        lemma_add_assoc(h + v + n + d, c, b + "}"@);
        lemma_add_assoc(h + v, n, d);
        lemma_add_assoc(h + v, n + d, tail);
    }
    let t = Tree::Object(all);
    assert(optional_text_at(t, "path"@) == Some(s.path));
    assert(optional_text_at(t, "media_type"@) == Some(s.media_type));
    assert(text_at(t, "detected_format"@) == Some(s.detected_format));
    assert(value_at(t, "bytes"@) == Some(Tree::Number(s.bytes as nat)));
    t
}

/// Pairs, as members.
spec fn pair_members(p: Seq<(Seq<char>, Seq<char>)>) -> Seq<TreeMember> {
    p.map_values(|e: (Seq<char>, Seq<char>)| TreeMember { key: e.0, value: Tree::Text(e.1) })
}

/// Pairs are read as they were written.
proof fn lemma_entries(p: Seq<(Seq<char>, Seq<char>)>, parts: Seq<Seq<char>>)
    requires
        p.len() > 0,
        parts.len() == p.len(),
        forall|i: int| 0 <= i < p.len() ==> #[trigger] parts[i] == json_entry(p[i]),
    ensures
        reads_members(join(parts, ","@) + "}"@, pair_members(p)),
    decreases p.len(),
{
    let ms = pair_members(p);
    let first = member(p[0].0, Tree::Text(p[0].1));
    let value = json_string(p[0].1);
    let none = Seq::<TreeMember>::empty();
    assert(parts[0] == key_text(p[0].0) + value);
    lemma_string(p[0].1);
    if p.len() == 1 {
        lemma_end();
        lemma_member(p[0].0, value, Tree::Text(p[0].1), "}"@, none);
        assert(first + none =~= ms);
    } else {
        let below = join(parts.skip(1), ","@) + "}"@;
        assert forall|i: int| 0 <= i < p.skip(1).len() implies #[trigger] parts.skip(1)[i]
            == json_entry(p.skip(1)[i]) by {
            assert(parts[i + 1] == json_entry(p[i + 1]));
        }
        lemma_entries(p.skip(1), parts.skip(1));
        lemma_comma(below, pair_members(p.skip(1)));
        lemma_member(
            p[0].0,
            value,
            Tree::Text(p[0].1),
            ","@ + below,
            pair_members(p.skip(1)),
        );
        lemma_join_front(parts, ","@);
        assert(join(parts, ","@) + "}"@ =~= parts[0] + (","@ + below));
        assert(first + pair_members(p.skip(1)) =~= ms);
    }
}

/// Metadata reads back.
proof fn lemma_metadata(m: Map<Seq<char>, Seq<char>>) -> (t: Tree)
    requires
        is_listing(listing(m), m),
    ensures
        reads(json_metadata(m), t),
        metadata_of(t) == Some(m),
{
    broadcast use lemma_find_member;

    let p = listing(m);
    let none = Seq::<TreeMember>::empty();
    if p.len() == 0 {
        lemma_empty_object();
        assert(map_of(p) =~= Map::empty()) by {
            assert(forall|k: Seq<char>| lookup(p, k) is None);
        }
        Tree::Object(none)
    } else {
        let ms = pair_members(p);
        let inside = join(json_entries(m), ","@);
        let inner = "{"@ + (inside + "}"@);
        let lead = "{"@ + key_text("extra"@);
        lemma_entries(p, json_entries(m));
        lemma_object(inside + "}"@, ms);
        lemma_end();
        lemma_first(lead, "extra"@, inner, Tree::Object(ms), "}"@, none);
        lemma_extra_lead();
        reveal_strlit("}");
        reveal_strlit("}}");
        assert("}}"@ =~= "}"@ + "}"@);
        assert(json_metadata(m) =~= lead + inner + "}"@);
        let t = Tree::Object(member("extra"@, Tree::Object(ms)) + none);
        assert(ms.map_values(|e: TreeMember| (e.key, e.value->Text_0)) =~= p);
        assert(pairs_of(ms) == Some(p));
        t
    }
}

/// How the entries of metadata are led in.
proof fn lemma_extra_lead()
    ensures
        "{\"extra\":{"@ == "{"@ + key_text("extra"@) + "{"@,
{
    reveal_strlit("{");
    reveal_strlit("extra");
    reveal_strlit("{\"extra\":{");
    lemma_key("extra"@);
    assert("{\"extra\":{"@ =~= "{"@ + key_text("extra"@) + "{"@);
}

/// The end of a document: its warnings, if there are any.
spec fn from_warnings(ws: Seq<WarningView>) -> Seq<char> {
    (if ws.len() == 0 {
        Seq::empty()
    } else {
        ",\"warnings\":"@ + json_array(json_warnings(ws))
    }) + "}"@
}

/// The end of a document is read as it was written.
proof fn lemma_from_warnings(ws: Seq<WarningView>) -> (ms: Seq<TreeMember>)
    ensures
        reads_more(from_warnings(ws), ms),
        forall|key: Seq<char>| key != "warnings"@ ==> #[trigger] find(ms, key) is None,
        match find(ms, "warnings"@) {
            Some(v) => list_of(v, |u: Tree| warning_of(u)) == Some(ws),
            None => ws.len() == 0,
        },
{
    broadcast use lemma_find_member;

    let none = Seq::<TreeMember>::empty();
    lemma_end();
    if ws.len() == 0 {
        assert(from_warnings(ws) =~= "}"@);
        none
    } else {
        let t = lemma_warnings(ws);
        lemma_document_leads();
        lemma_next(
            ",\"warnings\":"@,
            "warnings"@,
            json_array(json_warnings(ws)),
            t,
            "}"@,
            none,
        );
        let ms = member("warnings"@, t) + none;
        assert forall|key: Seq<char>| key != "warnings"@ implies #[trigger] find(ms, key)
            is None by {
            assert(find(none, key) is None);
        }
        ms
    }
}

/// A document from its metadata on.
spec fn from_metadata(doc: DocumentView) -> Seq<char> {
    ",\"metadata\":"@ + json_metadata(doc.metadata) + (",\"blocks\":"@ + json_array(
        json_blocks(doc.blocks),
    ) + from_warnings(doc.warnings))
}

/// A document, part by part.
proof fn lemma_document_parts(doc: DocumentView)
    ensures
        json_document(doc) == "{\"id\":"@ + json_string(doc.id) + (",\"source\":"@ + json_source(
            doc.source,
        ) + (json_trailing_member("\"title\":"@, doc.title) + from_metadata(doc))),
{
    let a = "{\"id\":"@ + json_string(doc.id);
    let b = ",\"source\":"@ + json_source(doc.source);
    let c = json_trailing_member("\"title\":"@, doc.title);
    let d = ",\"metadata\":"@ + json_metadata(doc.metadata);
    let e = ",\"blocks\":"@ + json_array(json_blocks(doc.blocks));
    let v = if doc.warnings.len() == 0 {
        Seq::empty()
    } else {
        ",\"warnings\":"@ + json_array(json_warnings(doc.warnings))
    };
    let w = from_warnings(doc.warnings);
    lemma_add_assoc(a, ",\"source\":"@, json_source(doc.source));
    lemma_add_assoc(a + b + c, ",\"metadata\":"@, json_metadata(doc.metadata));
    lemma_add_assoc(a + b + c + d, ",\"blocks\":"@, json_array(json_blocks(doc.blocks)));
    lemma_add_assoc(a + b + c + d + e, v, "}"@);
    assert(json_document(doc) == a + b + c + d + e + w);
    lemma_add_assoc(a + b + c + d, e, w);
    lemma_add_assoc(a + b + c, d, e + w);
    lemma_add_assoc(a + b, c, d + (e + w));
    lemma_add_assoc(a, b, c + (d + (e + w)));
}

/// A document reads back.
proof fn lemma_document(doc: DocumentView) -> (t: Tree)
    requires
        is_listing(listing(doc.metadata), doc.metadata),
    ensures
        reads(json_document(doc), t),
        document_of(t) == Some(doc),
{
    broadcast use {lemma_find_member, lemma_find_optional};

    let end = lemma_from_warnings(doc.warnings);
    let ts = lemma_blocks(doc.blocks);
    let u = lemma_metadata(doc.metadata);
    let s = lemma_source(doc.source);
    let blocks = member("blocks"@, Tree::Array(ts)) + end;
    let metadata = member("metadata"@, u) + blocks;
    let title = optional_member("title"@, doc.title) + metadata;
    let source = member("source"@, s) + title;
    let all = member("id"@, Tree::Text(doc.id)) + source;
    let from_blocks = ",\"blocks\":"@ + json_array(json_blocks(doc.blocks)) + from_warnings(
        doc.warnings,
    );
    let from_title = json_trailing_member("\"title\":"@, doc.title) + from_metadata(doc);
    let from_source = ",\"source\":"@ + json_source(doc.source) + from_title;
    lemma_initials();
    lemma_document_leads();
    lemma_next(
        ",\"blocks\":"@,
        "blocks"@,
        json_array(json_blocks(doc.blocks)),
        Tree::Array(ts),
        from_warnings(doc.warnings),
        end,
    );
    lemma_next(
        ",\"metadata\":"@,
        "metadata"@,
        json_metadata(doc.metadata),
        u,
        from_blocks,
        blocks,
    );
    lemma_trailing("title"@, doc.title, from_metadata(doc), metadata);
    lemma_next(",\"source\":"@, "source"@, json_source(doc.source), s, from_title, title);
    lemma_string(doc.id);
    lemma_first(
        "{\"id\":"@,
        "id"@,
        json_string(doc.id),
        Tree::Text(doc.id),
        from_source,
        source,
    );
    lemma_document_parts(doc);
    let t = Tree::Object(all);
    assert(text_at(t, "id"@) == Some(doc.id));
    assert(source_at(t) == Some(doc.source));
    assert(optional_text_at(t, "title"@) == Some(doc.title));
    assert(metadata_at(t) == Some(doc.metadata));
    assert(blocks_at(t) == Some(doc.blocks));
    assert(warnings_at(t) == Some(doc.warnings)) by {
        assert(value_at(t, "warnings"@) == find(end, "warnings"@));
        if doc.warnings.len() == 0 {
            assert(doc.warnings =~= Seq::empty());
        }
    }
    t
}

/// The header of a document reads back.
proof fn lemma_header(doc: DocumentView) -> (t: Tree)
    ensures
        reads(json_header(doc), t),
        header_of(t) == Some(HeaderView { id: doc.id, source: doc.source, title: doc.title }),
{
    broadcast use lemma_find_member;

    let none = Seq::<TreeMember>::empty();
    let s = lemma_sorted_source(doc.source);
    let v = match doc.title {
        Some(t) => json_string(t),
        None => "null"@,
    };
    let u = match doc.title {
        Some(t) => Tree::Text(t),
        None => Tree::Null,
    };
    match doc.title {
        Some(t) => lemma_string(t),
        None => lemma_null(),
    }
    let mark = member("type"@, Tree::Text("document"@)) + none;
    let title = member("title"@, u) + mark;
    let source = member("source"@, s) + title;
    let all = member("id"@, Tree::Text(doc.id)) + source;
    let a = "{\"id\":"@ + json_string(doc.id);
    let b = ",\"source\":"@ + json_sorted_source(doc.source);
    let c = ",\"title\":"@ + v;
    let end = ",\"type\":\"document\"}"@;
    lemma_initials();
    lemma_document_leads();
    lemma_mark();
    lemma_string("document"@);
    lemma_end();
    lemma_next(
        ","@ + key_text("type"@),
        "type"@,
        json_string("document"@),
        Tree::Text("document"@),
        "}"@,
        none,
    );
    lemma_next(",\"title\":"@, "title"@, v, u, end, mark);
    lemma_next(",\"source\":"@, "source"@, json_sorted_source(doc.source), s, c + end, title);
    lemma_string(doc.id);
    lemma_first(
        "{\"id\":"@,
        "id"@,
        json_string(doc.id),
        Tree::Text(doc.id),
        b + (c + end),
        source,
    );
    assert(json_header(doc) == a + (b + (c + end))) by {
        lemma_add_assoc(a, ",\"source\":"@, json_sorted_source(doc.source));
        lemma_add_assoc(a + b, ",\"title\":"@, v);
        lemma_add_assoc(a + b, c, end);
        lemma_add_assoc(a, b, c + end);
    }
    let t = Tree::Object(all);
    reveal_strlit("title");
    reveal_strlit("type");
    assert("title"@.len() != "type"@.len());
    assert(text_at(t, "id"@) == Some(doc.id));
    assert(source_at(t) == Some(doc.source));
    assert(optional_text_at(t, "title"@) == Some(doc.title));
    assert(text_at(t, "type"@) == Some("document"@));
    t
}

/// How a header is marked.
proof fn lemma_mark()
    ensures
        ",\"type\":\"document\"}"@ == ","@ + key_text("type"@) + json_string("document"@) + "}"@,
{
    reveal_strlit(",");
    reveal_strlit("}");
    reveal_strlit("type");
    reveal_strlit("document");
    reveal_strlit(",\"type\":\"document\"}");
    lemma_key("type"@);
    lemma_plain("document"@);
    assert(",\"type\":\"document\"}"@ =~= ","@ + key_text("type"@) + json_string("document"@)
        + "}"@);
}

/// NDJSON reads back as the document that was written: the same identifier, provenance, title,
/// metadata, blocks and warnings.
pub proof fn law_ndjson_reads_back(doc: DocumentView)
    requires
        exists|p: Seq<(Seq<char>, Seq<char>)>| is_listing(p, doc.metadata),
    ensures
        read_ndjson(ndjson(doc)) == Some(doc),
{
    let t = lemma_document(doc);
    lemma_read_json(json_document(doc), t);
}

/// JSONL reads back line by line: the first as the header, each that follows as its block.
pub proof fn law_jsonl_reads_back(doc: DocumentView)
    ensures
        jsonl_says(jsonl(doc), doc),
{
    law_jsonl_has_a_line_per_block(doc);
    lemma_json_blocks(doc.blocks);
    let t = lemma_header(doc);
    lemma_read_json(json_header(doc), t);
    assert forall|i: int| 0 <= i < doc.blocks.len() implies read_block(
        lines(jsonl(doc))[i + 1],
    ) == Some(#[trigger] doc.blocks[i]) by {
        assert(lines(jsonl(doc))[i + 1] == json_blocks(doc.blocks)[i]);
        law_json_blocks_read_back(doc.blocks[i]);
    }
}

/// Two documents that are written as the same NDJSON are one.
pub proof fn law_ndjson_loses_nothing(a: DocumentView, b: DocumentView)
    requires
        exists|p: Seq<(Seq<char>, Seq<char>)>| is_listing(p, a.metadata),
        exists|p: Seq<(Seq<char>, Seq<char>)>| is_listing(p, b.metadata),
        ndjson(a) == ndjson(b),
    ensures
        a == b,
{
    law_ndjson_reads_back(a);
    law_ndjson_reads_back(b);
}

} // verus!
