//! The pipeline: route, extract, normalize, reduce, emit.
use crate::bridge::unicode::lossy;
use crate::detect::{
    detection, format_of_extension, law_unknown_class, lower_extension, ContentClass,
};
use crate::error::{error_message, Error, ErrorView, Result};
use crate::ir::{copied_warnings, warning_views, DocumentView, Warning, WarningView};
use crate::normalize::{nfc_document, normalize_nfc};
use crate::plugin::{extraction_view, Emission, Extraction, Extractor, Input, InputView, Reduction};
use crate::profile::{OutputFormat, Profile};
use crate::registry::{
    first_emitter, first_extractor, first_reducer, no_emitter, no_extractor, no_reducer, Registry,
};
use crate::tokens::{approx_tokens, tokens};
use vstd::prelude::*;
use vstd::utf8::{encode_utf8, valid_utf8};

verus! {

/// The product of a pipeline run: serialized output plus metrics before and after.
#[derive(Debug)]
pub struct Output {
    pub content: String,
    pub format: OutputFormat,
    pub bytes_in: u64,
    pub bytes_out: u64,
    pub tokens_in: usize,
    pub tokens_out: usize,
    pub warnings: Vec<Warning>,
}

/// View of an [`Output`].
#[verifier::ext_equal]
pub struct OutputView {
    pub content: Seq<char>,
    pub format: OutputFormat,
    pub bytes_in: nat,
    pub bytes_out: nat,
    pub tokens_in: nat,
    pub tokens_out: nat,
    pub warnings: Seq<WarningView>,
}

impl View for Output {
    type V = OutputView;

    open spec fn view(&self) -> OutputView {
        OutputView {
            content: self.content@,
            format: self.format,
            bytes_in: self.bytes_in as nat,
            bytes_out: self.bytes_out as nat,
            tokens_in: self.tokens_in as nat,
            tokens_out: self.tokens_out as nat,
            warnings: warning_views(self.warnings@),
        }
    }
}

impl Clone for Output {
    /// The same output.
    fn clone(&self) -> (o: Self)
        ensures
            o@ == self@,
    {
        Output {
            content: self.content.clone(),
            format: self.format,
            bytes_in: self.bytes_in,
            bytes_out: self.bytes_out,
            tokens_in: self.tokens_in,
            tokens_out: self.tokens_out,
            warnings: copied_warnings(&self.warnings),
        }
    }
}

/// What came of a pipeline run.
pub type Outcome = std::result::Result<OutputView, ErrorView>;

/// The outcome of a pipeline run, viewed.
pub open spec fn outcome_view(r: Result<Output>) -> Outcome {
    match r {
        Ok(o) => Ok(o@),
        Err(e) => Err(e@),
    }
}

/// What the router says of input that is neither text nor an image.
pub open spec fn unrecognized() -> ErrorView {
    ErrorView::UnsupportedInput(
        "input is neither valid UTF-8 text nor a recognized image format"@,
    )
}

/// Whether `i` is the extractor for `format`: the first that handles it or, where none does,
/// the first that handles plain text.
pub open spec fn picks_extractor(reg: Registry, format: Seq<char>, i: int) -> bool {
    if no_extractor(reg.extractors(), format) {
        first_extractor(reg.extractors(), "text"@, i)
    } else {
        first_extractor(reg.extractors(), format, i)
    }
}

/// The output for `content`, emitted from `doc`.
pub open spec fn product(
    input: InputView,
    doc: DocumentView,
    format: OutputFormat,
    content: Seq<char>,
) -> OutputView {
    OutputView {
        content,
        format,
        bytes_in: input.bytes.len(),
        bytes_out: encode_utf8(content).len(),
        tokens_in: tokens(lossy(input.bytes)),
        tokens_out: tokens(content),
        warnings: doc.warnings,
    }
}

/// Whether emitting the reduced `doc` may end in `outcome`.
pub open spec fn emit_stage(
    reg: Registry,
    input: InputView,
    format: OutputFormat,
    doc: DocumentView,
    outcome: Outcome,
) -> bool {
    if no_emitter(reg.emitters(), format) {
        outcome == Err::<OutputView, ErrorView>(ErrorView::NoEmitter(format))
    } else {
        exists|i: int, emitted: Emission| #[trigger]
            first_emitter(reg.emitters(), format, i) && #[trigger] reg.emitters()[i].plugin.emits(
                doc,
                emitted,
            ) && outcome == match emitted {
                Ok(content) => Ok::<OutputView, ErrorView>(product(input, doc, format, content)),
                Err(e) => Err(e),
            }
    }
}

/// Whether reducing and emitting the normalized `doc` may end in `outcome`.
pub open spec fn reduce_stage(
    reg: Registry,
    input: InputView,
    profile: Profile,
    format: OutputFormat,
    doc: DocumentView,
    outcome: Outcome,
) -> bool {
    if no_reducer(reg.reducers(), profile) {
        outcome == Err::<OutputView, ErrorView>(ErrorView::NoReducer(profile))
    } else {
        exists|i: int, after: DocumentView, reduced: Reduction| #[trigger]
            first_reducer(reg.reducers(), profile, i) && #[trigger] reg.reducers()[i].plugin.reduces(
                doc,
                after,
                reduced,
            ) && match reduced {
                Ok(_) => emit_stage(reg, input, format, after, outcome),
                Err(e) => outcome == Err::<OutputView, ErrorView>(e),
            }
    }
}

/// Whether a run on text input may end in `outcome`.
pub open spec fn text_stage(
    reg: Registry,
    input: InputView,
    profile: Profile,
    format: OutputFormat,
    outcome: Outcome,
) -> bool {
    let key = input.detected.format;
    if no_extractor(reg.extractors(), key) && no_extractor(reg.extractors(), "text"@) {
        outcome == Err::<OutputView, ErrorView>(ErrorView::NoExtractor(key))
    } else {
        exists|i: int, extracted: Extraction| #[trigger]
            picks_extractor(reg, key, i) && #[trigger] reg.extractors()[i].plugin.extracts(
                input,
                extracted,
            ) && match extracted {
                Ok(doc) => reduce_stage(reg, input, profile, format, nfc_document(doc), outcome),
                Err(e) => outcome == Err::<OutputView, ErrorView>(e),
            }
    }
}

/// Whether a run may end in `outcome`: only text gets past the router.
pub open spec fn runs(
    reg: Registry,
    input: InputView,
    profile: Profile,
    format: OutputFormat,
    outcome: Outcome,
) -> bool {
    match input.detected.class {
        ContentClass::Image => outcome == Err::<OutputView, ErrorView>(
            ErrorView::ImagePipelineUnavailable,
        ),
        ContentClass::Unknown => outcome == Err::<OutputView, ErrorView>(unrecognized()),
        ContentClass::Text => text_stage(reg, input, profile, format, outcome),
    }
}

/// The extractor for `format`, with plain text to fall back on.
fn pick_extractor<'a>(reg: &'a Registry, format: &str) -> (r: Option<&'a dyn Extractor>)
    ensures
        r is None <==> no_extractor(reg.extractors(), format@) && no_extractor(
            reg.extractors(),
            "text"@,
        ),
        r matches Some(e) ==> exists|i: int| #[trigger]
            picks_extractor(*reg, format@, i) && e == &*reg.extractors()[i].plugin,
{
    let first = reg.find_extractor(format);
    if first.is_some() {
        proof {
            let i = choose|i: int| #[trigger]
                first_extractor(reg.extractors(), format@, i) && first->0
                    == &*reg.extractors()[i].plugin;
            assert(picks_extractor(*reg, format@, i));
        }
        return first;
    }
    let second = reg.find_extractor("text");
    proof {
        if second is Some {
            let i = choose|i: int| #[trigger]
                first_extractor(reg.extractors(), "text"@, i) && second->0
                    == &*reg.extractors()[i].plugin;
            assert(picks_extractor(*reg, format@, i));
        }
    }
    second
}

/// Runs the full pipeline: route, extract, normalize, reduce, emit.
///
/// The metrics compare the raw input with the output. Input that is not text is rejected
/// rather than decoded into replacement characters.
pub fn run(reg: &Registry, input: Input, profile: Profile, format: OutputFormat) -> (r: Result<
    Output,
>)
    ensures
        runs(*reg, input@, profile, format, outcome_view(r)),
{
    let bytes_in: u64 = input.bytes.len() as u64;
    let raw = input.text();
    let tokens_in: usize = approx_tokens(raw.as_str());

    match input.detected.class {
        ContentClass::Image => {
            return Err(Error::ImagePipelineUnavailable);
        },
        ContentClass::Unknown => {
            return Err(
                Error::UnsupportedInput(
                    "input is neither valid UTF-8 text nor a recognized image format".to_owned(),
                ),
            );
        },
        ContentClass::Text => {},
    }

    let extractor = match pick_extractor(reg, input.detected.format.as_str()) {
        Some(e) => e,
        None => {
            return Err(Error::NoExtractor(input.detected.format.clone()));
        },
    };
    let ghost at = choose|i: int| #[trigger]
        picks_extractor(*reg, input@.detected.format, i) && extractor
            == &*reg.extractors()[i].plugin;
    assert(picks_extractor(*reg, input@.detected.format, at));
    let extracted = extractor.extract(&input);
    assert(reg.extractors()[at].plugin.extracts(input@, extraction_view(extracted)));
    let mut doc = match extracted {
        Ok(doc) => doc,
        Err(e) => {
            return Err(e);
        },
    };

    normalize_nfc(&mut doc);
    let ghost normal = doc@;

    let reducer = match reg.find_reducer(profile) {
        Some(e) => e,
        None => {
            let failed: Result<Output> = Err(Error::NoReducer(profile));
            assert(reduce_stage(*reg, input@, profile, format, normal, outcome_view(failed)));
            return failed;
        },
    };
    let reduced = reducer.reduce(&mut doc);
    match reduced {
        Ok(_) => {},
        Err(e) => {
            let failed: Result<Output> = Err(e);
            assert(reduce_stage(*reg, input@, profile, format, normal, outcome_view(failed)));
            return failed;
        },
    }

    let done = match reg.find_emitter(format) {
        None => Err(Error::NoEmitter(format)),
        Some(emitter) => match emitter.emit(&doc) {
            Err(e) => Err(e),
            Ok(content) => {
                let bytes_out: u64 = content.as_str().as_bytes().len() as u64;
                let tokens_out: usize = approx_tokens(content.as_str());
                Ok(
                    Output {
                        content,
                        format,
                        bytes_in,
                        bytes_out,
                        tokens_in,
                        tokens_out,
                        warnings: copied_warnings(&doc.warnings),
                    },
                )
            },
        },
    };
    assert(emit_stage(*reg, input@, format, doc@, outcome_view(done)));
    assert(reduce_stage(*reg, input@, profile, format, normal, outcome_view(done)));
    done
}

// ---------------------------------------------------------------------------
// Laws
// ---------------------------------------------------------------------------

/// Whatever is registered, an image and input of unknown class are refused, each with its own
/// error.
pub proof fn law_only_text_is_routed(
    reg: Registry,
    input: InputView,
    profile: Profile,
    format: OutputFormat,
    outcome: Outcome,
)
    requires
        runs(reg, input, profile, format, outcome),
    ensures
        input.detected.class == ContentClass::Image ==> outcome == Err::<OutputView, ErrorView>(
            ErrorView::ImagePipelineUnavailable,
        ),
        input.detected.class == ContentClass::Unknown ==> outcome == Err::<OutputView, ErrorView>(
            unrecognized(),
        ),
{
}

/// Bytes that are not valid UTF-8, under a path whose extension tells no format, are refused
/// rather than decoded.
pub proof fn law_binary_is_refused(
    reg: Registry,
    input: InputView,
    profile: Profile,
    format: OutputFormat,
    outcome: Outcome,
)
    requires
        input.detected == detection(input.path, input.bytes),
        !valid_utf8(input.bytes),
        lower_extension(input.path) matches Some(e) ==> format_of_extension(e) is None,
        runs(reg, input, profile, format, outcome),
    ensures
        outcome == Err::<OutputView, ErrorView>(unrecognized()),
{
    law_unknown_class(input.path, input.bytes);
}

/// The metrics of a run that succeeds are those of the raw input and of what was emitted,
/// whatever the plugins.
pub proof fn law_metrics_compare_input_with_output(
    reg: Registry,
    input: InputView,
    profile: Profile,
    format: OutputFormat,
    o: OutputView,
)
    requires
        runs(reg, input, profile, format, Ok(o)),
    ensures
        input.detected.class == ContentClass::Text,
        o.format == format,
        o.bytes_in == input.bytes.len(),
        o.bytes_out == encode_utf8(o.content).len(),
        o.tokens_in == tokens(lossy(input.bytes)),
        o.tokens_out == tokens(o.content),
{
    let key = input.detected.format;
    let outcome: Outcome = Ok(o);
    let (i, extracted): (int, Extraction) = choose|i: int, extracted: Extraction| #[trigger]
        picks_extractor(reg, key, i) && #[trigger] reg.extractors()[i].plugin.extracts(
            input,
            extracted,
        ) && match extracted {
            Ok(doc) => reduce_stage(reg, input, profile, format, nfc_document(doc), outcome),
            Err(e) => outcome == Err::<OutputView, ErrorView>(e),
        };
    let doc = nfc_document(extracted->Ok_0);
    assert(reduce_stage(reg, input, profile, format, doc, outcome));
    let (j, after, reduced): (int, DocumentView, Reduction) =
        choose|j: int, after: DocumentView, reduced: Reduction| #[trigger]
        first_reducer(reg.reducers(), profile, j) && #[trigger] reg.reducers()[j].plugin.reduces(
            doc,
            after,
            reduced,
        ) && match reduced {
            Ok(_) => emit_stage(reg, input, format, after, outcome),
            Err(e) => outcome == Err::<OutputView, ErrorView>(e),
        };
    assert(emit_stage(reg, input, format, after, outcome));
}

/// What is neither text nor an image is refused in these words, whatever it is.
pub proof fn law_refusal_tells_why()
    ensures
        error_message(unrecognized()) == "unrecognized input: "@
            + "input is neither valid UTF-8 text nor a recognized image format"@,
{
}

} // verus!
