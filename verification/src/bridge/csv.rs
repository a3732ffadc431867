//! Delimited values, by `csv`.
use crate::text::views;
use vstd::prelude::*;

verus! {

/// A row, or what was wrong with it.
pub type RowView = Result<Seq<Seq<char>>, Seq<char>>;

/// View of a row.
pub open spec fn row_result(r: Result<Vec<String>, String>) -> RowView {
    match r {
        Ok(fields) => Ok(views(fields@)),
        Err(e) => Err(e@),
    }
}

/// Views of a list of rows.
pub open spec fn row_results(rows: Seq<Result<Vec<String>, String>>) -> Seq<RowView> {
    rows.map_values(|r: Result<Vec<String>, String>| row_result(r))
}

/// What `csv::Reader::headers` returns for `bytes`, an error as its message.
pub uninterp spec fn csv_headers(
    bytes: Seq<u8>,
    delimiter: u8,
    flexible: bool,
    has_headers: bool,
) -> RowView;

/// What `csv::Reader::records` goes through for `bytes` once the headers are read, each error
/// as its message.
pub uninterp spec fn csv_records(
    bytes: Seq<u8>,
    delimiter: u8,
    flexible: bool,
    has_headers: bool,
) -> Seq<RowView>;

/// `csv::Reader::headers` of a reader over `bytes`: a function of the bytes, the delimiter,
/// whether rows may differ in length and whether the first row names the columns.
#[verifier::external_body]
pub(crate) fn read_headers(
    bytes: &[u8],
    delimiter: u8,
    flexible: bool,
    has_headers: bool,
) -> (r: Result<Vec<String>, String>)
    ensures
        row_result(r) == csv_headers(bytes@, delimiter, flexible, has_headers),
{
    let mut reader = csv::ReaderBuilder::new()
        .delimiter(delimiter)
        .flexible(flexible)
        .has_headers(has_headers)
        .from_reader(bytes);
    match reader.headers() {
        Ok(h) => Ok(h.iter().map(|s| s.to_string()).collect()),
        Err(e) => Err(e.to_string()),
    }
}

/// `csv::Reader::records` of a reader over `bytes` whose headers are read: a function of the
/// bytes, the delimiter, whether rows may differ in length and whether the first row names the
/// columns.
#[verifier::external_body]
pub(crate) fn read_records(
    bytes: &[u8],
    delimiter: u8,
    flexible: bool,
    has_headers: bool,
) -> (r: Vec<Result<Vec<String>, String>>)
    ensures
        row_results(r@) == csv_records(bytes@, delimiter, flexible, has_headers),
{
    let mut reader = csv::ReaderBuilder::new()
        .delimiter(delimiter)
        .flexible(flexible)
        .has_headers(has_headers)
        .from_reader(bytes);
    let _ = reader.headers();
    let row = |r: csv::Result<csv::StringRecord>| match r {
        Ok(fields) => Ok(fields.iter().map(|s| s.to_string()).collect()),
        Err(e) => Err(e.to_string()),
    };
    reader.records().map(row).collect()
}

} // verus!
