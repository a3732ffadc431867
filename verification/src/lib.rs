//! Semantic compression: text out of common file types, written compactly for people and for
//! language models.
//!
//! A file goes through three stages, each a set of plugins:
//!
//! ```text
//! detect -> route -> extract -> normalize -> reduce -> emit
//! ```
//!
//! An [`Extractor`] turns bytes into a [`DocumentIr`], a [`Reducer`] compresses it according to
//! a [`Profile`], and an [`Emitter`] writes it in an [`OutputFormat`]. The built-in plugins are
//! wired in [`builtin`], and [`run`] takes one input through all of it.
//!
//! Contracts speak of views made of character sequences. What holds of the library as a whole
//! stands in the proof functions whose names begin with `law_`.
pub mod bridge;
pub mod builtin;
pub mod builtin_laws;
pub mod detect;
pub mod emitters;
pub mod error;
pub mod extractors;
pub mod ir;
pub mod normalize;
pub mod pipeline;
pub mod plugin;
pub mod profile;
pub mod reducers;
pub mod registry;
pub mod text;
pub mod text_laws;
pub mod text_map;
pub mod tokens;

pub use detect::{detect, ContentClass, Detected};
pub use emitters::html::HtmlEmitter;
pub use emitters::json::{JsonlEmitter, NdjsonEmitter};
pub use emitters::markdown::MarkdownEmitter;
pub use emitters::plain::TextEmitter;
pub use error::{Error, Result};
pub use extractors::delimited::{CsvExtractor, PsvExtractor, TsvExtractor};
pub use extractors::html::HtmlExtractor;
pub use extractors::json::JsonExtractor;
pub use extractors::jsonl::JsonlExtractor;
pub use extractors::markdown::MarkdownExtractor;
pub use extractors::plain::TextExtractor;
pub use extractors::svg::SvgExtractor;
pub use extractors::xml::XmlExtractor;
pub use ir::{Block, DocumentIr, Field, Metadata, SourceInfo, Warning};
pub use pipeline::{run, Output};
pub use plugin::{Emitter, Extractor, Input, Reducer};
pub use profile::{OutputFormat, Profile};
pub use reducers::{CompactReducer, HumanReducer, LlmReducer};
pub use registry::Registry;
pub use tokens::approx_tokens;
