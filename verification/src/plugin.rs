//! The plugin traits of the three stages, and the unit of work they share.
use crate::bridge::unicode::{decode_lossy, lossy};
use crate::detect::{Detected, DetectedView};
use crate::error::{ErrorView, Result};
use crate::ir::{opt_view, DocumentIr, DocumentView};
use crate::profile::{OutputFormat, Profile};
use vstd::prelude::*;

verus! {

// ---------------------------------------------------------------------------
// Input
// ---------------------------------------------------------------------------

/// One unit of work handed to an [`Extractor`].
#[derive(Debug)]
pub struct Input {
    pub path: Option<String>,
    pub bytes: Vec<u8>,
    pub detected: Detected,
}

/// View of an [`Input`].
#[verifier::ext_equal]
pub struct InputView {
    pub path: Option<Seq<char>>,
    pub bytes: Seq<u8>,
    pub detected: DetectedView,
}

impl View for Input {
    type V = InputView;

    open spec fn view(&self) -> InputView {
        InputView {
            path: opt_view(self.path),
            bytes: self.bytes@,
            detected: self.detected@,
        }
    }
}

impl Input {
    /// The raw bytes as text. Decoding is lossy: invalid UTF-8 becomes U+FFFD.
    pub fn text(&self) -> (s: String)
        ensures
            s@ == lossy(self@.bytes),
            vstd::utf8::valid_utf8(self@.bytes) ==> s@ == vstd::utf8::decode_utf8(self@.bytes),
    {
        decode_lossy(self.bytes.as_slice())
    }
}

// ---------------------------------------------------------------------------
// Traits
// ---------------------------------------------------------------------------

/// Views of a list of borrowed strings.
pub open spec fn str_views(v: Seq<&'static str>) -> Seq<Seq<char>> {
    v.map_values(|s: &'static str| s@)
}

/// The name of a plugin.
pub type PluginName = Seq<char>;

/// The format keys that an extractor handles.
pub type FormatKeys = Seq<Seq<char>>;

/// What came of an extraction.
pub type Extraction = std::result::Result<DocumentView, ErrorView>;

/// What came of a reduction.
pub type Reduction = std::result::Result<(), ErrorView>;

/// What came of an emission.
pub type Emission = std::result::Result<Seq<char>, ErrorView>;

/// The outcome of an extraction, viewed.
pub open spec fn extraction_view(r: Result<DocumentIr>) -> Extraction {
    match r {
        Ok(doc) => Ok(doc@),
        Err(e) => Err(e@),
    }
}

/// The outcome of a reduction, viewed.
pub open spec fn reduction_view(r: Result<()>) -> Reduction {
    match r {
        Ok(u) => Ok(u),
        Err(e) => Err(e@),
    }
}

/// The outcome of an emission, viewed.
pub open spec fn emission_view(r: Result<String>) -> Emission {
    match r {
        Ok(s) => Ok(s@),
        Err(e) => Err(e@),
    }
}

/// Turns raw input into a [`DocumentIr`]. Does not reduce or serialize.
pub trait Extractor: Send + Sync {
    /// The name of this extractor.
    spec fn named(&self) -> PluginName;

    /// The format keys that this extractor handles.
    spec fn handles(&self) -> FormatKeys;

    /// Whether `outcome` may come of extracting `input`.
    spec fn extracts(&self, input: InputView, outcome: Extraction) -> bool;

    /// The name of this extractor.
    fn name(&self) -> (s: &'static str)
        ensures
            s@ == self.named(),
    ;

    /// The format keys that this extractor handles.
    fn formats(&self) -> (r: &'static [&'static str])
        ensures
            str_views(r@) == self.handles(),
    ;

    /// Extracts one document.
    fn extract(&self, input: &Input) -> (r: Result<DocumentIr>)
        ensures
            self.extracts(input@, extraction_view(r)),
    ;
}

/// Changes a [`DocumentIr`] in place according to a [`Profile`]. Does not serialize.
pub trait Reducer: Send + Sync {
    /// The name of this reducer.
    spec fn named(&self) -> PluginName;

    /// The profile that this reducer serves.
    spec fn serves(&self) -> Profile;

    /// Whether reducing `before` may leave `after` and return `outcome`.
    spec fn reduces(&self, before: DocumentView, after: DocumentView, outcome: Reduction) -> bool;

    /// The name of this reducer.
    fn name(&self) -> (s: &'static str)
        ensures
            s@ == self.named(),
    ;

    /// The profile that this reducer serves.
    fn profile(&self) -> (p: Profile)
        ensures
            p == self.serves(),
    ;

    /// Reduces one document.
    fn reduce(&self, doc: &mut DocumentIr) -> (r: Result<()>)
        ensures
            self.reduces(old(doc)@, final(doc)@, reduction_view(r)),
    ;
}

/// Serializes a [`DocumentIr`] to a string in one [`OutputFormat`]. Does not extract.
pub trait Emitter: Send + Sync {
    /// The name of this emitter.
    spec fn named(&self) -> PluginName;

    /// The format that this emitter writes.
    spec fn writes(&self) -> OutputFormat;

    /// Whether `outcome` may come of emitting `doc`.
    spec fn emits(&self, doc: DocumentView, outcome: Emission) -> bool;

    /// The name of this emitter.
    fn name(&self) -> (s: &'static str)
        ensures
            s@ == self.named(),
    ;

    /// The format that this emitter writes.
    fn format(&self) -> (f: OutputFormat)
        ensures
            f == self.writes(),
    ;

    /// Serializes one document.
    fn emit(&self, doc: &DocumentIr) -> (r: Result<String>)
        ensures
            self.emits(doc@, emission_view(r)),
    ;
}

} // verus!
