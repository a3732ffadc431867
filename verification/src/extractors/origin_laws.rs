//! What holds of every extracted document: it says where it came from, and what it was.
use crate::bridge::csv::RowView;
use crate::bridge::html::HtmlPageView;
use crate::bridge::json::JsonView;
use crate::bridge::xml::XmlScanView;
use crate::extractors::delimited::delimited_document;
use crate::extractors::html::html_document;
use crate::extractors::json::json_document;
use crate::extractors::jsonl::{jsonl_document, JsonLineView};
use crate::extractors::markdown::markdown_document;
use crate::extractors::plain::plain_document;
use crate::extractors::svg::svg_document;
use crate::extractors::xml::xml_document;
use crate::ir::DocumentView;
use crate::plugin::InputView;
use crate::reducers::from_json;
use crate::text::file_name;
use vstd::prelude::*;

verus! {

/// Whether a document says where it came from: its id is the file name, if there is a path, and
/// its source tells the path, the format, the media type and the size of the input.
pub open spec fn comes_from(doc: DocumentView, input: InputView) -> bool {
    &&& input.path matches Some(p) ==> doc.id == file_name(p)
    &&& input.path is None ==> doc.id == "document"@
    &&& doc.source.path == input.path
    &&& doc.source.media_type == input.detected.media_type
    &&& doc.source.detected_format == input.detected.format
    &&& doc.source.bytes == input.bytes.len() as u64
}

/// Whether the metadata name the file exactly if there is a path.
pub open spec fn names_file(doc: DocumentView, input: InputView) -> bool {
    &&& input.path matches Some(p) ==> doc.metadata.contains_pair("filename"@, file_name(p))
    &&& input.path is None ==> !doc.metadata.contains_key("filename"@)
}

/// Values come from their input, name its file and have no title. They count as JSON if they
/// were read as such.
pub proof fn law_values_say_where_they_come_from(
    input: InputView,
    parsed: std::result::Result<JsonView, Seq<char>>,
    ls: Seq<JsonLineView>,
    format: Seq<char>,
    headers: RowView,
    records: Seq<RowView>,
)
    requires
        format == "csv"@ || format == "tsv"@,
    ensures
        comes_from(json_document(input, parsed), input),
        comes_from(jsonl_document(input, ls), input),
        comes_from(delimited_document(input, format, headers, records), input),
        names_file(json_document(input, parsed), input),
        names_file(jsonl_document(input, ls), input),
        names_file(delimited_document(input, format, headers, records), input),
        json_document(input, parsed).title is None,
        jsonl_document(input, ls).title is None,
        delimited_document(input, format, headers, records).title is None,
        from_json(json_document(input, parsed).metadata) <==> parsed is Ok,
        from_json(jsonl_document(input, ls).metadata),
        !from_json(delimited_document(input, format, headers, records).metadata),
{
    lemma_keys_differ();
    reveal_strlit("csv");
    reveal_strlit("tsv");
    reveal_strlit("json");
    reveal_strlit("jsonl");
    assert("csv"@.len() == 3 && "tsv"@.len() == 3);
    assert("json"@.len() == 4 && "jsonl"@.len() == 5);
}

/// No two keys of the metadata are the same.
proof fn lemma_keys_differ()
    ensures
        "filename"@[0] == 'f' && "filename"@.len() == 8,
        "format"@[0] == 'f' && "format"@.len() == 6,
        "record_count"@[0] == 'r' && "record_count"@.len() == 12,
        "line_count"@[0] == 'l' && "line_count"@.len() == 10,
        "error_count"@[0] == 'e' && "error_count"@.len() == 11,
        "row_count"@[0] == 'r' && "row_count"@.len() == 9,
        "col_count"@[0] == 'c' && "col_count"@.len() == 9,
        "title"@[0] == 't' && "title"@.len() == 5,
        "root_element"@[0] == 'r' && "root_element"@.len() == 12,
{
    reveal_strlit("filename");
    reveal_strlit("format");
    reveal_strlit("record_count");
    reveal_strlit("line_count");
    reveal_strlit("error_count");
    reveal_strlit("row_count");
    reveal_strlit("col_count");
    reveal_strlit("title");
    reveal_strlit("root_element");
}

/// Marked-up and plain text come from their input too. Only a page and Markdown have titles, and
/// none of them counts as JSON.
pub proof fn law_texts_say_where_they_come_from(
    input: InputView,
    page: HtmlPageView,
    scan: XmlScanView,
    text: Seq<char>,
)
    ensures
        comes_from(html_document(input, page), input),
        comes_from(xml_document(input, scan), input),
        comes_from(svg_document(input, scan), input),
        comes_from(markdown_document(input, text), input),
        comes_from(plain_document(input, text), input),
        xml_document(input, scan).title is None,
        svg_document(input, scan).title is None,
        plain_document(input, text).title is None,
        !from_json(html_document(input, page).metadata),
        !from_json(xml_document(input, scan).metadata),
        !from_json(svg_document(input, scan).metadata),
        markdown_document(input, text).metadata == Map::<Seq<char>, Seq<char>>::empty(),
        plain_document(input, text).metadata == Map::<Seq<char>, Seq<char>>::empty(),
        markdown_document(input, text).warnings.len() == 0,
        plain_document(input, text).warnings.len() == 0,
{
    lemma_keys_differ();
    reveal_strlit("html");
    reveal_strlit("xml");
    reveal_strlit("svg");
    reveal_strlit("json");
    reveal_strlit("jsonl");
    assert("html"@[0] != "json"@[0]);
    assert("html"@.len() == 4 && "xml"@.len() == 3 && "svg"@.len() == 3);
    assert("json"@.len() == 4 && "jsonl"@.len() == 5);
}

} // verus!
