//! Errors of the pipeline.
use crate::profile::{format_label, profile_label, OutputFormat, Profile};
use vstd::prelude::*;

verus! {

/// Why a pipeline run failed.
#[derive(Debug)]
pub enum Error {
    /// No extractor handles this format.
    NoExtractor(String),
    /// No reducer is registered for this profile.
    NoReducer(Profile),
    /// No emitter is registered for this output format.
    NoEmitter(OutputFormat),
    /// The input is an image.
    ImagePipelineUnavailable,
    /// The input is neither text nor an image.
    UnsupportedInput(String),
    /// Any other failure, in words.
    Other(String),
}

/// What a fallible step of the pipeline returns.
pub type Result<T> = std::result::Result<T, Error>;

/// View of an [`Error`].
#[verifier::ext_equal]
pub enum ErrorView {
    NoExtractor(Seq<char>),
    NoReducer(Profile),
    NoEmitter(OutputFormat),
    ImagePipelineUnavailable,
    UnsupportedInput(Seq<char>),
    Other(Seq<char>),
}

impl View for Error {
    type V = ErrorView;

    open spec fn view(&self) -> ErrorView {
        match *self {
            Error::NoExtractor(f) => ErrorView::NoExtractor(f@),
            Error::NoReducer(p) => ErrorView::NoReducer(p),
            Error::NoEmitter(f) => ErrorView::NoEmitter(f),
            Error::ImagePipelineUnavailable => ErrorView::ImagePipelineUnavailable,
            Error::UnsupportedInput(m) => ErrorView::UnsupportedInput(m@),
            Error::Other(m) => ErrorView::Other(m@),
        }
    }
}

/// The message of an error.
pub open spec fn error_message(e: ErrorView) -> Seq<char> {
    match e {
        ErrorView::NoExtractor(f) => "no extractor registered for format `"@ + f + "`"@,
        ErrorView::NoReducer(p) => "no reducer registered for profile `"@ + profile_label(p)
            + "`"@,
        ErrorView::NoEmitter(f) => "no emitter registered for format `"@ + format_label(f) + "`"@,
        ErrorView::ImagePipelineUnavailable =>
            "image pipeline is not available yet (planned for P6)"@,
        ErrorView::UnsupportedInput(m) => "unrecognized input: "@ + m,
        ErrorView::Other(m) => m,
    }
}

impl Error {
    /// The message of this error, for a person to read.
    pub fn message(&self) -> (s: String)
        ensures
            s@ == error_message(self@),
    {
        match self {
            Error::NoExtractor(f) => {
                let mut s = "no extractor registered for format `".to_owned();
                s.append(f.as_str());
                s.append("`");
                s
            },
            Error::NoReducer(p) => {
                let mut s = "no reducer registered for profile `".to_owned();
                s.append(p.label());
                s.append("`");
                s
            },
            Error::NoEmitter(f) => {
                let mut s = "no emitter registered for format `".to_owned();
                s.append(f.label());
                s.append("`");
                s
            },
            Error::ImagePipelineUnavailable => {
                "image pipeline is not available yet (planned for P6)".to_owned()
            },
            Error::UnsupportedInput(m) => {
                let mut s = "unrecognized input: ".to_owned();
                s.append(m.as_str());
                s
            },
            Error::Other(m) => m.clone(),
        }
    }
}

/// A message tells what is missing, or what is wrong with the input.
pub proof fn law_messages(e: ErrorView)
    ensures
        e matches ErrorView::NoExtractor(f) ==> error_message(e)
            == "no extractor registered for format `"@ + f + "`"@,
        e == ErrorView::NoReducer(Profile::Human) ==> error_message(e)
            == "no reducer registered for profile `"@ + "Human"@ + "`"@,
        e == ErrorView::NoReducer(Profile::Llm) ==> error_message(e)
            == "no reducer registered for profile `"@ + "Llm"@ + "`"@,
        e == ErrorView::NoReducer(Profile::Compact) ==> error_message(e)
            == "no reducer registered for profile `"@ + "Compact"@ + "`"@,
        e == ErrorView::NoReducer(Profile::Debug) ==> error_message(e)
            == "no reducer registered for profile `"@ + "Debug"@ + "`"@,
        e == ErrorView::NoEmitter(OutputFormat::Markdown) ==> error_message(e)
            == "no emitter registered for format `"@ + "Markdown"@ + "`"@,
        e == ErrorView::NoEmitter(OutputFormat::Jsonl) ==> error_message(e)
            == "no emitter registered for format `"@ + "Jsonl"@ + "`"@,
        e == ErrorView::NoEmitter(OutputFormat::Ndjson) ==> error_message(e)
            == "no emitter registered for format `"@ + "Ndjson"@ + "`"@,
        e == ErrorView::NoEmitter(OutputFormat::Text) ==> error_message(e)
            == "no emitter registered for format `"@ + "Text"@ + "`"@,
        e == ErrorView::NoEmitter(OutputFormat::Html) ==> error_message(e)
            == "no emitter registered for format `"@ + "Html"@ + "`"@,
        e is ImagePipelineUnavailable ==> error_message(e)
            == "image pipeline is not available yet (planned for P6)"@,
        e matches ErrorView::UnsupportedInput(m) ==> error_message(e) == "unrecognized input: "@ + m,
        e matches ErrorView::Other(m) ==> error_message(e) == m,
{
}

} // verus!
