//! What every extractor says of its input.
use crate::ir::{copied_option, empty_document, DocumentIr, DocumentView, SourceInfo, SourceView};
use crate::plugin::{Input, InputView};
use crate::text::{file_name, name_of};
use vstd::prelude::*;

verus! {

/// The provenance of what is extracted from `input`.
pub open spec fn source_of(input: InputView) -> SourceView {
    SourceView {
        path: input.path,
        media_type: input.detected.media_type,
        detected_format: input.detected.format,
        bytes: input.bytes.len() as u64,
    }
}

/// The id of what is extracted from `input`: its file name, or `document`.
pub open spec fn id_of(input: InputView) -> Seq<char> {
    match input.path {
        Some(p) => file_name(p),
        None => "document"@,
    }
}

/// A document that holds nothing yet but where it came from.
pub open spec fn blank_document(input: InputView) -> DocumentView {
    empty_document(id_of(input), source_of(input))
}

/// Builds the provenance of what is extracted from `input`.
pub fn source(input: &Input) -> (s: SourceInfo)
    ensures
        s@ == source_of(input@),
{
    SourceInfo {
        path: copied_option(&input.path),
        media_type: copied_option(&input.detected.media_type),
        detected_format: input.detected.format.clone(),
        bytes: input.bytes.len() as u64,
    }
}

/// Derives a stable document id from the file name.
pub fn doc_id(input: &Input) -> (id: String)
    ensures
        id@ == id_of(input@),
{
    match &input.path {
        Some(p) => name_of(p.as_str()),
        None => "document".to_owned(),
    }
}

/// Begins the document of `input`.
pub fn new_document(input: &Input) -> (doc: DocumentIr)
    ensures
        doc@ == blank_document(input@),
{
    DocumentIr::new(doc_id(input).as_str(), source(input))
}

/// `doc` with one more metadata entry.
pub open spec fn with_note(doc: DocumentView, key: Seq<char>, value: Seq<char>) -> DocumentView {
    DocumentView { metadata: doc.metadata.insert(key, value), ..doc }
}

/// `doc` with the file name of `input` in its metadata, if it has one.
pub open spec fn with_filename(doc: DocumentView, input: InputView) -> DocumentView {
    match input.path {
        Some(p) => with_note(doc, "filename"@, file_name(p)),
        None => doc,
    }
}

/// Adds a metadata entry.
pub fn note(doc: &mut DocumentIr, key: &str, value: &str)
    ensures
        final(doc)@ == with_note(old(doc)@, key@, value@),
{
    let _ = doc.metadata.extra.insert(key.to_owned(), value.to_owned());
}

/// Adds the file name to the metadata.
pub fn note_filename(doc: &mut DocumentIr, input: &Input)
    ensures
        final(doc)@ == with_filename(old(doc)@, input@),
{
    if let Some(p) = &input.path {
        note(doc, "filename", name_of(p.as_str()).as_str());
    }
}

} // verus!
