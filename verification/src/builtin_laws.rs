//! What holds of the built-in pipeline: each format is read in its own way, and every text goes
//! through all stages.
use crate::bridge::csv::{csv_headers, csv_records};
use crate::bridge::html::html_parsed;
use crate::bridge::json::json_parsed;
use crate::bridge::unicode::{lossy, nfc};
use crate::bridge::xml::xml_scan;
use crate::builtin::{builtin_document, builtin_outcome, builtin_reduction};
use crate::detect::ContentClass;
use crate::emitters::html::{html, HtmlEmitter};
use crate::emitters::json::{jsonl, ndjson, JsonlEmitter, NdjsonEmitter};
use crate::emitters::markdown::{markdown, MarkdownEmitter};
use crate::emitters::plain::{plain, TextEmitter};
use crate::error::ErrorView;
use crate::extractors::delimited::{
    delimited_document, CsvExtractor, PsvExtractor, TsvExtractor,
};
use crate::extractors::html::{html_document, HtmlExtractor};
use crate::extractors::json::{json_document, JsonExtractor};
use crate::extractors::jsonl::{jsonl_document, parsed_lines, JsonlExtractor};
use crate::extractors::markdown::{markdown_document, MarkdownExtractor};
use crate::extractors::plain::{plain_document, TextExtractor};
use crate::extractors::svg::{svg_document, SvgExtractor};
use crate::extractors::xml::{xml_document, XmlExtractor};
use crate::ir::DocumentView;
use crate::normalize::nfc_document;
use crate::pipeline::OutputView;
use crate::plugin::{Emitter, Extractor, InputView, Reducer};
use crate::profile::{OutputFormat, Profile};
use crate::reducers::{compact, human, llm, CompactReducer, HumanReducer, LlmReducer};
use crate::text::lines;
use vstd::prelude::*;

verus! {

/// What a run gives on text: the document, reduced and written, with the warnings of the
/// extraction.
pub open spec fn comes_to(
    input: InputView,
    profile: Profile,
    format: OutputFormat,
    content: Seq<char>,
    warned: DocumentView,
) -> bool {
    builtin_outcome(input, profile, format) matches Ok(o) && o.content == content && o.warnings
        == warned.warnings && o.format == format
}

/// The bytes of a text format are decoded and read by what the format calls for; a format that
/// none is for is read as plain text.
pub proof fn law_each_format_is_read_in_its_way(input: InputView, key: Seq<char>)
    ensures
        ({
            let text = lossy(input.bytes);
            let b = input.bytes;
            &&& builtin_document("markdown"@, input) == markdown_document(input, text)
            &&& builtin_document("text"@, input) == plain_document(input, text)
            &&& builtin_document("html"@, input) == html_document(input, html_parsed(text))
            &&& builtin_document("xml"@, input) == xml_document(input, xml_scan(text, true))
            &&& builtin_document("svg"@, input) == svg_document(input, xml_scan(text, true))
            &&& builtin_document("json"@, input) == json_document(input, json_parsed(text))
            &&& builtin_document("jsonl"@, input) == jsonl_document(
                input,
                parsed_lines(lines(text)),
            )
            &&& builtin_document("csv"@, input) == delimited_document(
                input,
                "csv"@,
                csv_headers(b, ',' as u8, true, true),
                csv_records(b, ',' as u8, true, true),
            )
            &&& builtin_document("tsv"@, input) == delimited_document(
                input,
                "tsv"@,
                csv_headers(b, '\t' as u8, true, true),
                csv_records(b, '\t' as u8, true, true),
            )
            &&& builtin_document("psv"@, input) == delimited_document(
                input,
                "psv"@,
                csv_headers(b, '|' as u8, true, true),
                csv_records(b, '|' as u8, true, true),
            )
        }),
        builtin_document("ndjson"@, input) == builtin_document("jsonl"@, input),
        key != "markdown"@ && key != "html"@ && key != "xml"@ && key != "svg"@ && key != "json"@
            && key != "jsonl"@ && key != "ndjson"@ && key != "csv"@ && key != "tsv"@ && key
            != "psv"@ ==> builtin_document(key, input) == builtin_document("text"@, input),
{
    reveal_strlit("markdown");
    reveal_strlit("text");
    reveal_strlit("html");
    reveal_strlit("xml");
    reveal_strlit("svg");
    reveal_strlit("json");
    reveal_strlit("jsonl");
    reveal_strlit("ndjson");
    reveal_strlit("csv");
    reveal_strlit("tsv");
    reveal_strlit("psv");
    assert("markdown"@.len() == 8 && "jsonl"@.len() == 5 && "ndjson"@.len() == 6);
    assert("text"@.len() == 4 && "html"@.len() == 4 && "json"@.len() == 4);
    assert("text"@[0] == 't' && "html"@[0] == 'h' && "json"@[0] == 'j');
    assert("xml"@.len() == 3 && "svg"@.len() == 3 && "csv"@.len() == 3);
    assert("tsv"@.len() == 3 && "psv"@.len() == 3);
    assert("xml"@[0] == 'x' && "svg"@[0] == 's' && "csv"@[0] == 'c');
    assert("tsv"@[0] == 't' && "psv"@[0] == 'p');
}

/// Text is extracted, normalized, reduced by its profile and written in its output format, in this
/// order, and its warnings are those of the extraction.
pub proof fn law_text_goes_through_every_stage(input: InputView)
    requires
        input.detected.class == ContentClass::Text,
    ensures
        ({
            let read = builtin_document(input.detected.format, input);
            let doc = nfc_document(read);
            let (h, l, c) = (Profile::Human, Profile::Llm, Profile::Compact);
            let md = OutputFormat::Markdown;
            let nd = OutputFormat::Ndjson;
            let (jl, tx, ht) = (OutputFormat::Jsonl, OutputFormat::Text, OutputFormat::Html);
            &&& comes_to(input, h, md, markdown(human(doc)), read)
            &&& comes_to(input, l, md, markdown(llm(doc)), read)
            &&& comes_to(input, c, md, markdown(compact(doc)), read)
            &&& comes_to(input, h, tx, plain(human(doc)), read)
            &&& comes_to(input, l, tx, plain(llm(doc)), read)
            &&& comes_to(input, c, tx, plain(compact(doc)), read)
            &&& comes_to(input, h, ht, html(human(doc)), read)
            &&& comes_to(input, l, ht, html(llm(doc)), read)
            &&& comes_to(input, c, ht, html(compact(doc)), read)
            &&& comes_to(input, h, jl, jsonl(human(doc)), read)
            &&& comes_to(input, l, jl, jsonl(llm(doc)), read)
            &&& comes_to(input, c, jl, jsonl(compact(doc)), read)
            &&& comes_to(input, h, nd, ndjson(human(doc)), read)
            &&& comes_to(input, l, nd, ndjson(llm(doc)), read)
            &&& comes_to(input, c, nd, ndjson(compact(doc)), read)
        }),
        forall|format: OutputFormat| #[trigger]
            builtin_outcome(input, Profile::Debug, format) == Err::<OutputView, ErrorView>(
                ErrorView::NoReducer(Profile::Debug),
            ),
{
}

/// Reducing changes blocks alone, and normalizing blocks and the title.
pub proof fn law_stages_keep_the_rest(doc: DocumentView, profile: Profile)
    ensures
        builtin_reduction(profile, doc) matches Some(r) ==> r.id == doc.id && r.source == doc.source
            && r.title == doc.title && r.metadata == doc.metadata && r.warnings == doc.warnings,
        ({
            let n = nfc_document(doc);
            &&& n.id == doc.id && n.source == doc.source
            &&& n.metadata == doc.metadata && n.warnings == doc.warnings
            &&& n.title == (match doc.title {
                Some(t) => Some(nfc(t)),
                None => None,
            })
        }),
{
}

/// Every built-in plugin bears the name of what it is for, and is for nothing else but that JSON
/// lines go by two names.
pub proof fn law_plugins_say_what_they_are_for()
    ensures
        Extractor::named(&MarkdownExtractor) == "markdown"@ && MarkdownExtractor.handles() == seq![
            "markdown"@,
        ],
        Extractor::named(&TextExtractor) == "text"@ && TextExtractor.handles() == seq!["text"@],
        Extractor::named(&HtmlExtractor) == "html"@ && HtmlExtractor.handles() == seq!["html"@],
        Extractor::named(&XmlExtractor) == "xml"@ && XmlExtractor.handles() == seq!["xml"@],
        Extractor::named(&SvgExtractor) == "svg"@ && SvgExtractor.handles() == seq!["svg"@],
        Extractor::named(&JsonExtractor) == "json"@ && JsonExtractor.handles() == seq!["json"@],
        Extractor::named(&JsonlExtractor) == "jsonl"@ && JsonlExtractor.handles() == seq![
            "jsonl"@,
            "ndjson"@,
        ],
        Extractor::named(&CsvExtractor) == "csv"@ && CsvExtractor.handles() == seq!["csv"@],
        Extractor::named(&TsvExtractor) == "tsv"@ && TsvExtractor.handles() == seq!["tsv"@],
        Extractor::named(&PsvExtractor) == "psv"@ && PsvExtractor.handles() == seq!["psv"@],
        Reducer::named(&HumanReducer) == "human"@ && HumanReducer.serves() == Profile::Human,
        Reducer::named(&LlmReducer) == "llm"@ && LlmReducer.serves() == Profile::Llm,
        Reducer::named(&CompactReducer) == "compact"@ && CompactReducer.serves()
            == Profile::Compact,
        Emitter::named(&MarkdownEmitter) == "markdown"@ && MarkdownEmitter.writes()
            == OutputFormat::Markdown,
        Emitter::named(&JsonlEmitter) == "jsonl"@ && JsonlEmitter.writes() == OutputFormat::Jsonl,
        Emitter::named(&NdjsonEmitter) == "ndjson"@ && NdjsonEmitter.writes()
            == OutputFormat::Ndjson,
        Emitter::named(&TextEmitter) == "text"@ && TextEmitter.writes() == OutputFormat::Text,
        Emitter::named(&HtmlEmitter) == "html"@ && HtmlEmitter.writes() == OutputFormat::Html,
{
}

} // verus!
