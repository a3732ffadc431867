//! Delimited values: CSV, TSV and PSV (separated by pipes).
//!
//! The first row names the columns, the other rows are the data. A row of another length is
//! warned about, and padded with empty cells or cut to the number of columns.
use crate::bridge::csv::{
    csv_headers, csv_records, read_headers, read_records, row_result, row_results, RowView,
};
use crate::error::{ErrorView, Result};
use crate::extractors::common::{blank_document, new_document, note, note_filename, with_filename};
use crate::ir::{row_views, Block, BlockView, DocumentIr, DocumentView, WarningView};
use crate::plugin::{str_views, Extraction, Extractor, Input, InputView};
use crate::registry::{ExtractorSlot, PlugExtractor};
use crate::text::{decimal, decimal_of, views};
use vstd::prelude::*;

verus! {

// ---------------------------------------------------------------------------
// Rows
// ---------------------------------------------------------------------------

/// A row of exactly `n` cells: padded with empty ones, or cut.
pub open spec fn fit(row: Seq<Seq<char>>, n: nat) -> Seq<Seq<char>> {
    Seq::new(
        n,
        |i: int|
            if i < row.len() {
                row[i]
            } else {
                Seq::empty()
            },
    )
}

/// The rows that could be read, each of `n` cells.
pub open spec fn fitted_rows(records: Seq<RowView>, n: nat) -> Seq<Seq<Seq<char>>>
    decreases records.len(),
{
    if records.len() == 0 {
        Seq::empty()
    } else {
        let rows = fitted_rows(records.drop_last(), n);
        match records.last() {
            Ok(row) => rows.push(fit(row, n)),
            Err(_) => rows,
        }
    }
}

/// The warning about a row of `len` fields where `n` were due; `line` counts from one, the
/// headers included.
pub open spec fn ragged(line: nat, len: nat, n: nat) -> WarningView {
    WarningView {
        code: "csv.ragged_row"@,
        message: "row "@ + decimal(line) + " has "@ + decimal(len) + " field(s), expected "@
            + decimal(n),
    }
}

/// The warning about a row that could not be read.
pub open spec fn unread(line: nat, e: Seq<char>) -> WarningView {
    WarningView { code: "csv.read_error"@, message: "row "@ + decimal(line) + ": "@ + e }
}

/// The warnings about the rows, in order.
pub open spec fn row_warnings(records: Seq<RowView>, n: nat) -> Seq<WarningView>
    decreases records.len(),
{
    if records.len() == 0 {
        Seq::empty()
    } else {
        let warnings = row_warnings(records.drop_last(), n);
        let line = records.len() + 1;
        match records.last() {
            Ok(row) => if row.len() == n {
                warnings
            } else {
                warnings.push(ragged(line, row.len(), n))
            },
            Err(e) => warnings.push(unread(line, e)),
        }
    }
}

/// The table of headers and rows, unless there is nothing in it.
pub open spec fn table_blocks(
    headers: Seq<Seq<char>>,
    rows: Seq<Seq<Seq<char>>>,
) -> Seq<BlockView> {
    if headers.len() == 0 && rows.len() == 0 {
        Seq::empty()
    } else {
        seq![BlockView::Table { headers, rows }]
    }
}

/// What delimited values hold, for what reading the headers and the records gave.
pub open spec fn delimited_document(
    input: InputView,
    format: Seq<char>,
    headers: RowView,
    records: Seq<RowView>,
) -> DocumentView {
    let doc = with_filename(blank_document(input), input);
    match headers {
        Err(e) => DocumentView {
            warnings: seq![
                WarningView {
                    code: "csv.read_error"@,
                    message: "failed to read headers: "@ + e,
                },
            ],
            ..doc
        },
        Ok(h) => {
            let rows = fitted_rows(records, h.len());
            DocumentView {
                blocks: table_blocks(h, rows),
                warnings: row_warnings(records, h.len()),
                metadata: doc.metadata.insert("format"@, format).insert(
                    "row_count"@,
                    decimal(rows.len()),
                ).insert("col_count"@, decimal(h.len())),
                ..doc
            }
        },
    }
}

/// Makes a row exactly `n` cells long.
fn fit_row(row: Vec<String>, n: usize) -> (r: Vec<String>)
    ensures
        views(r@) == fit(views(row@), n as nat),
{
    let mut r = row;
    if r.len() > n {
        r.truncate(n);
    }
    while r.len() < n
        invariant
            r@.len() <= n,
            r@.len() >= row@.len() || r@.len() == n,
            forall|i: int|
                0 <= i < r@.len() ==> (#[trigger] r@[i])@ == if i < row@.len() {
                    row@[i]@
                } else {
                    Seq::empty()
                },
        decreases n - r@.len(),
    {
        r.push(String::new());
    }
    assert(views(r@) =~= fit(views(row@), n as nat));
    r
}

/// Warns about a row of the wrong length.
fn warn_ragged(doc: &mut DocumentIr, line: u128, len: usize, n: usize)
    ensures
        final(doc)@ == (DocumentView {
            warnings: old(doc)@.warnings.push(ragged(line as nat, len as nat, n as nat)),
            ..old(doc)@
        }),
{
    let mut m = "row ".to_owned();
    m.append(decimal_of(line).as_str());
    m.append(" has ");
    m.append(decimal_of(len as u128).as_str());
    m.append(" field(s), expected ");
    m.append(decimal_of(n as u128).as_str());
    doc.warn("csv.ragged_row", m.as_str());
}

/// Warns about a row that could not be read.
fn warn_unread(doc: &mut DocumentIr, line: u128, e: &str)
    ensures
        final(doc)@ == (DocumentView {
            warnings: old(doc)@.warnings.push(unread(line as nat, e@)),
            ..old(doc)@
        }),
{
    let mut m = "row ".to_owned();
    m.append(decimal_of(line).as_str());
    m.append(": ");
    m.append(e);
    doc.warn("csv.read_error", m.as_str());
}

/// Makes a document of what reading the headers and the records gave.
pub fn read_delimited(
    input: &Input,
    format: &str,
    headers: std::result::Result<Vec<String>, String>,
    records: Vec<std::result::Result<Vec<String>, String>>,
) -> (doc: DocumentIr)
    ensures
        doc@ == delimited_document(
            input@,
            format@,
            row_result(headers),
            row_results(records@),
        ),
{
    let mut doc = new_document(input);
    note_filename(&mut doc, input);
    let ghost start = doc@;
    let headers = match headers {
        Ok(h) => h,
        Err(e) => {
            let mut m = "failed to read headers: ".to_owned();
            m.append(e.as_str());
            doc.warn("csv.read_error", m.as_str());
            assert(doc@.warnings =~= seq![
                WarningView { code: "csv.read_error"@, message: "failed to read headers: "@ + e@ },
            ]);
            return doc;
        },
    };
    let n: usize = headers.len();
    let ghost all = row_results(records@);
    let mut rows: Vec<Vec<String>> = Vec::new();
    let mut i: u128 = 0;
    proof {
        assert(all.take(0) =~= Seq::empty());
        assert(row_views(rows@) =~= Seq::empty());
        assert(doc@.warnings =~= Seq::empty());
        assert(all.take(all.len() as int) =~= all);
    }
    for record in it: records
        invariant
            it.seq() == records@,
            all == row_results(records@),
            i == it.index(),
            i <= records.len(),
            row_views(rows@) == fitted_rows(all.take(it.index()), n as nat),
            doc@ == (DocumentView {
                warnings: row_warnings(all.take(it.index()), n as nat),
                ..start
            }),
    {
        proof {
            assert(all.take(it.index() + 1).drop_last() =~= all.take(it.index()));
            assert(all.take(it.index() + 1).last() == row_result(record));
        }
        match record {
            Ok(row) => {
                let len: usize = row.len();
                if len != n {
                    warn_ragged(&mut doc, i + 2, len, n);
                }
                let fitted = fit_row(row, n);
                assert(row_views(rows@.push(fitted)) =~= row_views(rows@).push(views(fitted@)));
                rows.push(fitted);
            },
            Err(e) => warn_unread(&mut doc, i + 2, e.as_str()),
        }
        i = i + 1;
    }
    let row_count: usize = rows.len();
    if n > 0 || row_count > 0 {
        doc.push(Block::Table { headers, rows });
    }
    assert(doc@.blocks =~= table_blocks(views(headers@), row_views(rows@)));
    note(&mut doc, "format", format);
    note(&mut doc, "row_count", decimal_of(row_count as u128).as_str());
    note(&mut doc, "col_count", decimal_of(n as u128).as_str());
    doc
}

/// The byte of a comma.
pub const COMMA: u8 = 0x2c;

/// The byte of a tab.
pub const TAB: u8 = 0x09;

/// The byte of a pipe.
pub const PIPE: u8 = 0x7c;

/// What delimited input holds. Rows may be ragged, and the first one names the columns.
pub open spec fn delimited_extraction(
    input: InputView,
    delimiter: u8,
    format: Seq<char>,
) -> DocumentView {
    delimited_document(
        input,
        format,
        csv_headers(input.bytes, delimiter, true, true),
        csv_records(input.bytes, delimiter, true, true),
    )
}

/// Extracts delimited input.
fn extract_delimited(input: &Input, delimiter: u8, format: &str) -> (doc: DocumentIr)
    ensures
        doc@ == delimited_extraction(input@, delimiter, format@),
{
    let headers = read_headers(input.bytes.as_slice(), delimiter, true, true);
    let records = read_records(input.bytes.as_slice(), delimiter, true, true);
    read_delimited(input, format, headers, records)
}

/// Reads values separated by commas.
pub struct CsvExtractor;

impl Extractor for CsvExtractor {
    open spec fn named(&self) -> Seq<char> {
        "csv"@
    }

    open spec fn handles(&self) -> Seq<Seq<char>> {
        seq!["csv"@]
    }

    open spec fn extracts(&self, input: InputView, outcome: Extraction) -> bool {
        outcome == Ok::<DocumentView, ErrorView>(
            delimited_extraction(input, COMMA, "csv"@),
        )
    }

    fn name(&self) -> (s: &'static str) {
        "csv"
    }

    fn formats(&self) -> (r: &'static [&'static str]) {
        let keys: &'static [&'static str] = &["csv"];
        assert(str_views(keys@) =~= self.handles());
        keys
    }

    fn extract(&self, input: &Input) -> (r: Result<DocumentIr>) {
        Ok(extract_delimited(input, COMMA, "csv"))
    }
}

impl PlugExtractor for CsvExtractor {
    fn plug(self) -> (s: ExtractorSlot) {
        ExtractorSlot { plugin: Box::new(self) }
    }
}

/// Reads values separated by tabs.
pub struct TsvExtractor;

impl Extractor for TsvExtractor {
    open spec fn named(&self) -> Seq<char> {
        "tsv"@
    }

    open spec fn handles(&self) -> Seq<Seq<char>> {
        seq!["tsv"@]
    }

    open spec fn extracts(&self, input: InputView, outcome: Extraction) -> bool {
        outcome == Ok::<DocumentView, ErrorView>(
            delimited_extraction(input, TAB, "tsv"@),
        )
    }

    fn name(&self) -> (s: &'static str) {
        "tsv"
    }

    fn formats(&self) -> (r: &'static [&'static str]) {
        let keys: &'static [&'static str] = &["tsv"];
        assert(str_views(keys@) =~= self.handles());
        keys
    }

    fn extract(&self, input: &Input) -> (r: Result<DocumentIr>) {
        Ok(extract_delimited(input, TAB, "tsv"))
    }
}

impl PlugExtractor for TsvExtractor {
    fn plug(self) -> (s: ExtractorSlot) {
        ExtractorSlot { plugin: Box::new(self) }
    }
}

/// Reads values separated by pipes.
pub struct PsvExtractor;

impl Extractor for PsvExtractor {
    open spec fn named(&self) -> Seq<char> {
        "psv"@
    }

    open spec fn handles(&self) -> Seq<Seq<char>> {
        seq!["psv"@]
    }

    open spec fn extracts(&self, input: InputView, outcome: Extraction) -> bool {
        outcome == Ok::<DocumentView, ErrorView>(
            delimited_extraction(input, PIPE, "psv"@),
        )
    }

    fn name(&self) -> (s: &'static str) {
        "psv"
    }

    fn formats(&self) -> (r: &'static [&'static str]) {
        let keys: &'static [&'static str] = &["psv"];
        assert(str_views(keys@) =~= self.handles());
        keys
    }

    fn extract(&self, input: &Input) -> (r: Result<DocumentIr>) {
        Ok(extract_delimited(input, PIPE, "psv"))
    }
}

impl PlugExtractor for PsvExtractor {
    fn plug(self) -> (s: ExtractorSlot) {
        ExtractorSlot { plugin: Box::new(self) }
    }
}

// ---------------------------------------------------------------------------
// Laws
// ---------------------------------------------------------------------------

/// How many rows could not be read.
pub open spec fn unread_count(records: Seq<RowView>) -> nat
    decreases records.len(),
{
    if records.len() == 0 {
        0
    } else {
        unread_count(records.drop_last()) + if records.last() is Err {
            1nat
        } else {
            0nat
        }
    }
}

/// Every row of the table is as wide as its headers, and no row is lost: each is in the table
/// or was warned about.
pub proof fn law_rows_fit_the_headers(records: Seq<RowView>, n: nat)
    ensures
        forall|i: int|
            0 <= i < fitted_rows(records, n).len() ==> (#[trigger] fitted_rows(records, n)[i]).len()
                == n,
        fitted_rows(records, n).len() + unread_count(records) == records.len(),
        unread_count(records) <= row_warnings(records, n).len() <= records.len(),
    decreases records.len(),
{
    if records.len() > 0 {
        law_rows_fit_the_headers(records.drop_last(), n);
    }
}

/// Rows that all have the width of the headers are kept as they are, without a warning.
pub proof fn law_even_rows_are_kept(records: Seq<RowView>, n: nat)
    requires
        forall|i: int| 0 <= i < records.len() ==> ((#[trigger] records[i]) matches Ok(r) && r.len() == n),
    ensures
        row_warnings(records, n).len() == 0,
        fitted_rows(records, n).len() == records.len(),
        forall|i: int|
            0 <= i < records.len() ==> #[trigger] fitted_rows(records, n)[i] == records[i]->Ok_0,
    decreases records.len(),
{
    if records.len() > 0 {
        let front = records.drop_last();
        assert forall|i: int| 0 <= i < front.len() implies ((#[trigger] front[i]) matches Ok(r) && r.len() == n) by {
            assert(front[i] == records[i]);
        }
        law_even_rows_are_kept(front, n);
        let last = records[records.len() - 1]->Ok_0;
        assert(fit(last, n) =~= last);
        assert forall|i: int| 0 <= i < records.len() implies #[trigger] fitted_rows(records, n)[i]
            == records[i]->Ok_0 by {
            if i < front.len() {
                assert(fitted_rows(front, n)[i] == front[i]->Ok_0);
            }
        }
    }
}

} // verus!
