//! The built-in plugins, wired together.
use crate::bridge::html::html_parsed;
use crate::bridge::json::json_parsed;
use crate::bridge::unicode::lossy;
use crate::bridge::xml::xml_scan;
use crate::detect::{detection, ContentClass};
use crate::emitters::html::{html, HtmlEmitter};
use crate::emitters::json::{jsonl, ndjson, JsonlEmitter, NdjsonEmitter};
use crate::emitters::markdown::{markdown, MarkdownEmitter};
use crate::emitters::plain::{plain, TextEmitter};
use crate::error::ErrorView;
use crate::extractors::delimited::{
    delimited_extraction, CsvExtractor, PsvExtractor, TsvExtractor, COMMA, PIPE, TAB,
};
use crate::extractors::html::{html_document, HtmlExtractor};
use crate::extractors::json::{json_document, JsonExtractor};
use crate::extractors::jsonl::{jsonl_document, parsed_lines, JsonlExtractor};
use crate::extractors::markdown::{markdown_document, MarkdownExtractor};
use crate::extractors::plain::{plain_document, TextExtractor};
use crate::extractors::svg::{svg_document, SvgExtractor};
use crate::extractors::xml::{xml_document, XmlExtractor};
use crate::ir::DocumentView;
use crate::normalize::nfc_document;
use crate::pipeline::{
    emit_stage, picks_extractor, product, reduce_stage, runs, unrecognized, Outcome, OutputView,
};
use crate::plugin::{Emission, Extraction, InputView, Reduction};
use crate::profile::{OutputFormat, Profile};
use crate::reducers::{compact, human, llm, CompactReducer, HumanReducer, LlmReducer};
use crate::registry::{
    emits_as, extracts_as, first_emitter, first_extractor, first_reducer, no_emitter, no_extractor,
    no_reducer, reduces_as, Registry,
};
use crate::text::lines;
use vstd::prelude::*;

verus! {

/// Whether a registry holds the built-in plugins, in their order, and no others.
pub open spec fn is_builtin(r: Registry) -> bool {
    &&& r.extractors().len() == 10
    &&& extracts_as(r.extractors()[0], MarkdownExtractor)
    &&& extracts_as(r.extractors()[1], TextExtractor)
    &&& extracts_as(r.extractors()[2], HtmlExtractor)
    &&& extracts_as(r.extractors()[3], XmlExtractor)
    &&& extracts_as(r.extractors()[4], SvgExtractor)
    &&& extracts_as(r.extractors()[5], JsonExtractor)
    &&& extracts_as(r.extractors()[6], JsonlExtractor)
    &&& extracts_as(r.extractors()[7], CsvExtractor)
    &&& extracts_as(r.extractors()[8], TsvExtractor)
    &&& extracts_as(r.extractors()[9], PsvExtractor)
    &&& r.reducers().len() == 3
    &&& reduces_as(r.reducers()[0], HumanReducer)
    &&& reduces_as(r.reducers()[1], LlmReducer)
    &&& reduces_as(r.reducers()[2], CompactReducer)
    &&& r.emitters().len() == 5
    &&& emits_as(r.emitters()[0], MarkdownEmitter)
    &&& emits_as(r.emitters()[1], JsonlEmitter)
    &&& emits_as(r.emitters()[2], NdjsonEmitter)
    &&& emits_as(r.emitters()[3], TextEmitter)
    &&& emits_as(r.emitters()[4], HtmlEmitter)
}

/// Whether a built-in extractor is named after `key`.
pub open spec fn is_builtin_format(key: Seq<char>) -> bool {
    key == "markdown"@ || key == "text"@ || key == "html"@ || key == "xml"@ || key == "svg"@ || key
        == "json"@ || key == "jsonl"@ || key == "csv"@ || key == "tsv"@ || key == "psv"@
}

/// The name of the built-in reducer for a profile.
pub open spec fn reducer_name(profile: Profile) -> Seq<char> {
    match profile {
        Profile::Human => "human"@,
        Profile::Llm => "llm"@,
        Profile::Compact => "compact"@,
        Profile::Debug => Seq::empty(),
    }
}

/// The name of the built-in emitter for a format.
pub open spec fn emitter_name(format: OutputFormat) -> Seq<char> {
    match format {
        OutputFormat::Markdown => "markdown"@,
        OutputFormat::Jsonl => "jsonl"@,
        OutputFormat::Ndjson => "ndjson"@,
        OutputFormat::Text => "text"@,
        OutputFormat::Html => "html"@,
    }
}

/// Whether every built-in plugin is found, and bears the name of what it is found for.
pub open spec fn finds_builtins(r: Registry) -> bool {
    &&& forall|key: Seq<char>|
        is_builtin_format(key) ==> !(#[trigger] no_extractor(r.extractors(), key))
    &&& forall|key: Seq<char>, i: int|
        is_builtin_format(key) && #[trigger] first_extractor(r.extractors(), key, i)
            ==> r.extractors()[i].plugin.named() == key
    &&& forall|p: Profile| #[trigger] no_reducer(r.reducers(), p) <==> p == Profile::Debug
    &&& forall|p: Profile, i: int| #[trigger]
        first_reducer(r.reducers(), p, i) ==> r.reducers()[i].plugin.named() == reducer_name(p)
    &&& forall|f: OutputFormat| !(#[trigger] no_emitter(r.emitters(), f))
    &&& forall|f: OutputFormat, i: int| #[trigger]
        first_emitter(r.emitters(), f, i) ==> r.emitters()[i].plugin.named() == emitter_name(f)
}

/// Builds the registry of built-in plugins: the single place where all three stages are wired.
pub fn registry() -> (r: Registry)
    ensures
        is_builtin(r),
        finds_builtins(r),
{
    let r = Registry::new()
        .extractor(MarkdownExtractor)
        .extractor(TextExtractor)
        .extractor(HtmlExtractor)
        .extractor(XmlExtractor)
        .extractor(SvgExtractor)
        .extractor(JsonExtractor)
        .extractor(JsonlExtractor)
        .extractor(CsvExtractor)
        .extractor(TsvExtractor)
        .extractor(PsvExtractor)
        .reducer(HumanReducer)
        .reducer(LlmReducer)
        .reducer(CompactReducer)
        .emitter(MarkdownEmitter)
        .emitter(JsonlEmitter)
        .emitter(NdjsonEmitter)
        .emitter(TextEmitter)
        .emitter(HtmlEmitter);
    proof {
        law_builtin_plugins_are_found(r);
    }
    r
}

// ---------------------------------------------------------------------------
// What the built-in pipeline does
// ---------------------------------------------------------------------------

/// What is extracted from text input of a given format. A format without an extractor of its
/// own is read as plain text.
pub open spec fn builtin_document(key: Seq<char>, input: InputView) -> DocumentView {
    let text = lossy(input.bytes);
    if key == "markdown"@ {
        markdown_document(input, text)
    } else if key == "html"@ {
        html_document(input, html_parsed(text))
    } else if key == "xml"@ {
        xml_document(input, xml_scan(text, true))
    } else if key == "svg"@ {
        svg_document(input, xml_scan(text, true))
    } else if key == "json"@ {
        json_document(input, json_parsed(text))
    } else if key == "jsonl"@ || key == "ndjson"@ {
        jsonl_document(input, parsed_lines(lines(text)))
    } else if key == "csv"@ {
        delimited_extraction(input, COMMA, "csv"@)
    } else if key == "tsv"@ {
        delimited_extraction(input, TAB, "tsv"@)
    } else if key == "psv"@ {
        delimited_extraction(input, PIPE, "psv"@)
    } else {
        plain_document(input, text)
    }
}

/// What a profile makes of a document; nothing if no reducer serves it.
pub open spec fn builtin_reduction(profile: Profile, doc: DocumentView) -> Option<DocumentView> {
    match profile {
        Profile::Human => Some(human(doc)),
        Profile::Llm => Some(llm(doc)),
        Profile::Compact => Some(compact(doc)),
        Profile::Debug => None,
    }
}

/// What a document is written as.
pub open spec fn builtin_emission(format: OutputFormat, doc: DocumentView) -> Seq<char> {
    match format {
        OutputFormat::Markdown => markdown(doc),
        OutputFormat::Jsonl => jsonl(doc),
        OutputFormat::Ndjson => ndjson(doc),
        OutputFormat::Text => plain(doc),
        OutputFormat::Html => html(doc),
    }
}

/// What the built-in pipeline comes to.
pub open spec fn builtin_outcome(
    input: InputView,
    profile: Profile,
    format: OutputFormat,
) -> Outcome {
    match input.detected.class {
        ContentClass::Image => Err(ErrorView::ImagePipelineUnavailable),
        ContentClass::Unknown => Err(unrecognized()),
        ContentClass::Text => {
            let doc = nfc_document(builtin_document(input.detected.format, input));
            match builtin_reduction(profile, doc) {
                Some(reduced) => Ok(
                    product(input, reduced, format, builtin_emission(format, reduced)),
                ),
                None => Err(ErrorView::NoReducer(profile)),
            }
        },
    }
}

/// The format keys of the built-in extractors differ.
proof fn lemma_keys_differ()
    ensures
        "markdown"@.len() == 8,
        "text"@.len() == 4 && "text"@[0] == 't',
        "html"@.len() == 4 && "html"@[0] == 'h',
        "json"@.len() == 4 && "json"@[0] == 'j',
        "xml"@.len() == 3 && "xml"@[0] == 'x',
        "svg"@.len() == 3 && "svg"@[0] == 's',
        "csv"@.len() == 3 && "csv"@[0] == 'c',
        "tsv"@.len() == 3 && "tsv"@[0] == 't',
        "psv"@.len() == 3 && "psv"@[0] == 'p',
        "jsonl"@.len() == 5,
        "ndjson"@.len() == 6,
{
    reveal_strlit("markdown");
    reveal_strlit("text");
    reveal_strlit("html");
    reveal_strlit("json");
    reveal_strlit("xml");
    reveal_strlit("svg");
    reveal_strlit("csv");
    reveal_strlit("tsv");
    reveal_strlit("psv");
    reveal_strlit("jsonl");
    reveal_strlit("ndjson");
}

/// Which formats each built-in extractor handles.
proof fn lemma_handles(key: Seq<char>)
    ensures
        seq!["markdown"@].contains(key) <==> key == "markdown"@,
        seq!["text"@].contains(key) <==> key == "text"@,
        seq!["html"@].contains(key) <==> key == "html"@,
        seq!["xml"@].contains(key) <==> key == "xml"@,
        seq!["svg"@].contains(key) <==> key == "svg"@,
        seq!["json"@].contains(key) <==> key == "json"@,
        seq!["jsonl"@, "ndjson"@].contains(key) <==> key == "jsonl"@ || key == "ndjson"@,
        seq!["csv"@].contains(key) <==> key == "csv"@,
        seq!["tsv"@].contains(key) <==> key == "tsv"@,
        seq!["psv"@].contains(key) <==> key == "psv"@,
{
    assert(seq!["markdown"@][0] == "markdown"@);
    assert(seq!["text"@][0] == "text"@);
    assert(seq!["html"@][0] == "html"@);
    assert(seq!["xml"@][0] == "xml"@);
    assert(seq!["svg"@][0] == "svg"@);
    assert(seq!["json"@][0] == "json"@);
    assert(seq!["jsonl"@, "ndjson"@][0] == "jsonl"@);
    assert(seq!["jsonl"@, "ndjson"@][1] == "ndjson"@);
    assert(seq!["csv"@][0] == "csv"@);
    assert(seq!["tsv"@][0] == "tsv"@);
    assert(seq!["psv"@][0] == "psv"@);
}

/// The format keys of the built-in extractors, one by one.
proof fn lemma_builtin_handles(r: Registry)
    requires
        is_builtin(r),
    ensures
        r.extractors()[0].plugin.handles() == seq!["markdown"@],
        r.extractors()[1].plugin.handles() == seq!["text"@],
        r.extractors()[2].plugin.handles() == seq!["html"@],
        r.extractors()[3].plugin.handles() == seq!["xml"@],
        r.extractors()[4].plugin.handles() == seq!["svg"@],
        r.extractors()[5].plugin.handles() == seq!["json"@],
        r.extractors()[6].plugin.handles() == seq!["jsonl"@, "ndjson"@],
        r.extractors()[7].plugin.handles() == seq!["csv"@],
        r.extractors()[8].plugin.handles() == seq!["tsv"@],
        r.extractors()[9].plugin.handles() == seq!["psv"@],
{
}

/// The built-in extractor for a format is there, and gives what the format holds.
proof fn lemma_builtin_extracts(r: Registry, key: Seq<char>, i: int, input: InputView)
    requires
        is_builtin(r),
    ensures
        !no_extractor(r.extractors(), "text"@),
        picks_extractor(r, key, i) ==> forall|o: Extraction| #[trigger]
            r.extractors()[i].plugin.extracts(input, o) <==> o == Ok::<DocumentView, ErrorView>(
                builtin_document(key, input),
            ),
{
    let s = r.extractors();
    lemma_keys_differ();
    lemma_handles(key);
    lemma_handles("text"@);
    assert(s[1].plugin.handles().contains("text"@));
    if picks_extractor(r, key, i) {
        lemma_builtin_handles(r);
        if no_extractor(s, key) {
            assert(i == 1);
            assert(builtin_document(key, input) == plain_document(input, lossy(input.bytes)));
        }
        assert(0 <= i < 10);
        assert(i == 0 || i == 1 || i == 2 || i == 3 || i == 4 || i == 5 || i == 6 || i == 7 || i == 8
            || i == 9);
    }
}

/// The built-in reducer for a profile is there, unless the profile is `debug`, and does what
/// the profile says.
proof fn lemma_builtin_reduces(r: Registry, profile: Profile, i: int, doc: DocumentView)
    requires
        is_builtin(r),
    ensures
        no_reducer(r.reducers(), profile) <==> builtin_reduction(profile, doc) is None,
        first_reducer(r.reducers(), profile, i) ==> forall|after: DocumentView, o: Reduction|
            #[trigger]
            r.reducers()[i].plugin.reduces(doc, after, o) <==> o is Ok && Some(after)
                == builtin_reduction(profile, doc),
{
    let s = r.reducers();
    assert(s[0].plugin.serves() == Profile::Human);
    assert(s[1].plugin.serves() == Profile::Llm);
    assert(s[2].plugin.serves() == Profile::Compact);
    if first_reducer(s, profile, i) {
        assert(i == 0 || i == 1 || i == 2);
    }
}

/// The built-in emitter for a format is there, and writes what the format says.
proof fn lemma_builtin_emits(r: Registry, format: OutputFormat, i: int, doc: DocumentView)
    requires
        is_builtin(r),
    ensures
        !no_emitter(r.emitters(), format),
        first_emitter(r.emitters(), format, i) ==> forall|o: Emission| #[trigger]
            r.emitters()[i].plugin.emits(doc, o) <==> o == Ok::<Seq<char>, ErrorView>(
                builtin_emission(format, doc),
            ),
{
    let s = r.emitters();
    assert(s[0].plugin.writes() == OutputFormat::Markdown);
    assert(s[1].plugin.writes() == OutputFormat::Jsonl);
    assert(s[2].plugin.writes() == OutputFormat::Ndjson);
    assert(s[3].plugin.writes() == OutputFormat::Text);
    assert(s[4].plugin.writes() == OutputFormat::Html);
    if first_emitter(s, format, i) {
        assert(i == 0 || i == 1 || i == 2 || i == 3 || i == 4);
    }
}

/// A run of the built-in pipeline can come to one thing only: the document of the input's
/// format, normalized, reduced by the profile and written in the output format.
pub proof fn law_builtin_runs_are_determined(
    r: Registry,
    input: InputView,
    profile: Profile,
    format: OutputFormat,
    outcome: Outcome,
)
    requires
        is_builtin(r),
        runs(r, input, profile, format, outcome),
    ensures
        outcome == builtin_outcome(input, profile, format),
{
    if input.detected.class == ContentClass::Text {
        let key = input.detected.format;
        lemma_builtin_extracts(r, key, 0, input);
        let (i, extracted): (int, Extraction) = choose|i: int, extracted: Extraction| #[trigger]
            picks_extractor(r, key, i) && #[trigger] r.extractors()[i].plugin.extracts(
                input,
                extracted,
            ) && match extracted {
                Ok(doc) => reduce_stage(r, input, profile, format, nfc_document(doc), outcome),
                Err(e) => outcome == Err::<OutputView, ErrorView>(e),
            };
        lemma_builtin_extracts(r, key, i, input);
        let doc = nfc_document(builtin_document(key, input));
        assert(reduce_stage(r, input, profile, format, doc, outcome));
        lemma_builtin_reduces(r, profile, 0, doc);
        if builtin_reduction(profile, doc) is Some {
            let (j, after, reduced): (int, DocumentView, Reduction) =
                choose|j: int, after: DocumentView, reduced: Reduction| #[trigger]
                first_reducer(r.reducers(), profile, j) && #[trigger] r.reducers()[j].plugin.reduces(
                    doc,
                    after,
                    reduced,
                ) && match reduced {
                    Ok(_) => emit_stage(r, input, format, after, outcome),
                    Err(e) => outcome == Err::<OutputView, ErrorView>(e),
                };
            lemma_builtin_reduces(r, profile, j, doc);
            assert(emit_stage(r, input, format, after, outcome));
            lemma_builtin_emits(r, format, 0, after);
            let (k, emitted): (int, Emission) = choose|k: int, emitted: Emission| #[trigger]
                first_emitter(r.emitters(), format, k) && #[trigger] r.emitters()[k].plugin.emits(
                    after,
                    emitted,
                ) && outcome == match emitted {
                    Ok(content) => Ok::<OutputView, ErrorView>(
                        product(input, after, format, content),
                    ),
                    Err(e) => Err(e),
                };
            lemma_builtin_emits(r, format, k, after);
        }
    }
}

/// The built-in pipeline fails on input that is not text, and on a profile that no reducer
/// serves, and on nothing else.
pub proof fn law_builtin_pipeline_succeeds_on_text(
    input: InputView,
    profile: Profile,
    format: OutputFormat,
)
    ensures
        builtin_outcome(input, profile, format) is Ok <==> input.detected.class
            == ContentClass::Text && profile != Profile::Debug,
{
}

/// Every text format that detection can tell has a built-in extractor of its own.
pub proof fn law_detected_text_has_an_extractor(
    r: Registry,
    path: Option<Seq<char>>,
    bytes: Seq<u8>,
)
    requires
        is_builtin(r),
        detection(path, bytes).class == ContentClass::Text,
    ensures
        !no_extractor(r.extractors(), detection(path, bytes).format),
{
    let key = detection(path, bytes).format;
    let s = r.extractors();
    lemma_handles(key);
    lemma_builtin_handles(r);
}

/// Where the built-in extractor for a format stands.
spec fn builtin_place(key: Seq<char>) -> int {
    if key == "markdown"@ {
        0
    } else if key == "text"@ {
        1
    } else if key == "html"@ {
        2
    } else if key == "xml"@ {
        3
    } else if key == "svg"@ {
        4
    } else if key == "json"@ {
        5
    } else if key == "jsonl"@ {
        6
    } else if key == "csv"@ {
        7
    } else if key == "tsv"@ {
        8
    } else {
        9
    }
}

/// The registry of built-in plugins finds an extractor for each of its formats, a reducer for
/// every profile but `debug` and an emitter for every output format, each under its own name.
pub proof fn law_builtin_plugins_are_found(r: Registry)
    requires
        is_builtin(r),
    ensures
        finds_builtins(r),
{
    let s = r.extractors();
    let t = r.reducers();
    let u = r.emitters();
    lemma_keys_differ();
    assert forall|key: Seq<char>| is_builtin_format(key) implies !(#[trigger] no_extractor(s, key)) by {
        lemma_handles(key);
        lemma_builtin_handles(r);
        let j = builtin_place(key);
        assert(s[j].plugin.handles().contains(key));
    }
    assert forall|key: Seq<char>, i: int|
        is_builtin_format(key) && #[trigger] first_extractor(s, key, i) implies s[i].plugin.named()
        == key by {
        lemma_handles(key);
        lemma_builtin_handles(r);
        assert(i == builtin_place(key));
    }
    assert(t[0].plugin.serves() == Profile::Human);
    assert(t[1].plugin.serves() == Profile::Llm);
    assert(t[2].plugin.serves() == Profile::Compact);
    assert(u[0].plugin.writes() == OutputFormat::Markdown);
    assert(u[1].plugin.writes() == OutputFormat::Jsonl);
    assert(u[2].plugin.writes() == OutputFormat::Ndjson);
    assert(u[3].plugin.writes() == OutputFormat::Text);
    assert(u[4].plugin.writes() == OutputFormat::Html);
}

} // verus!
