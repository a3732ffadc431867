//! What holds of delimited values: which row comes of which record, and what is warned about.
use crate::bridge::csv::{csv_headers, csv_records, RowView};
use crate::error::ErrorView;
use crate::extractors::delimited::{
    delimited_document, fit, fitted_rows, row_warnings, CsvExtractor, PsvExtractor, TsvExtractor,
};
use crate::ir::{BlockView, DocumentView};
use crate::plugin::{Extractor, InputView};
use crate::text::decimal;
use vstd::prelude::*;

verus! {

/// Whether `row` is a record brought to `n` cells: its cells in their columns, as far as there
/// are columns, and empty ones after them.
pub open spec fn is_fitted(record: Seq<Seq<char>>, row: Seq<Seq<char>>, n: nat) -> bool {
    &&& row.len() == n
    &&& forall|i: int| 0 <= i < n && i < record.len() ==> #[trigger] row[i] == record[i]
    &&& forall|i: int| record.len() <= i < n ==> (#[trigger] row[i]).len() == 0
}

/// The rows of a table are those of the records that could be read, in order: those of the one
/// part and then those of the other, each cell in the column that it stood in.
pub proof fn law_rows_keep_their_order(a: Seq<RowView>, b: Seq<RowView>, n: nat)
    ensures
        fitted_rows(a + b, n) == fitted_rows(a, n) + fitted_rows(b, n),
        forall|r: Seq<Seq<char>>|
            (#[trigger] fitted_rows(seq![Ok::<Seq<Seq<char>>, Seq<char>>(r)], n)).len() == 1
                && is_fitted(r, fitted_rows(seq![Ok::<Seq<Seq<char>>, Seq<char>>(r)], n)[0], n),
        forall|e: Seq<char>|
            (#[trigger] fitted_rows(seq![Err::<Seq<Seq<char>>, Seq<char>>(e)], n)).len() == 0,
    decreases b.len(),
{
    assert forall|r: RowView| #[trigger] fitted_rows(seq![r], n) == (match r {
        Ok(row) => seq![fit(row, n)],
        Err(_) => Seq::empty(),
    }) by {
        assert(seq![r].drop_last() =~= Seq::empty());
        assert(fitted_rows(seq![r].drop_last(), n) =~= Seq::empty());
        assert(fitted_rows(seq![r], n) =~= (match r {
            Ok(row) => seq![fit(row, n)],
            Err(_) => Seq::empty(),
        }));
    }
    if b.len() == 0 {
        assert(a + b =~= a);
        assert(fitted_rows(a, n) + fitted_rows(b, n) =~= fitted_rows(a, n));
    } else {
        law_rows_keep_their_order(a, b.drop_last(), n);
        assert((a + b).drop_last() =~= a + b.drop_last());
        assert(fitted_rows(a + b, n) =~= fitted_rows(a, n) + fitted_rows(b, n));
    }
}

/// Each record is warned about by its line, the headers being the first: one that could not be
/// read, and one that has not as many fields as there are headers. No other is.
pub proof fn law_each_bad_row_is_warned_about(records: Seq<RowView>, r: RowView, n: nat)
    ensures
        ({
            let before = row_warnings(records, n);
            let after = row_warnings(records.push(r), n);
            let line = decimal(records.len() + 2);
            match r {
                Ok(row) => if row.len() == n {
                    after == before
                } else {
                    &&& after.len() == before.len() + 1
                    &&& after.drop_last() == before
                    &&& after.last().code == "csv.ragged_row"@
                    &&& after.last().message == "row "@ + line + " has "@ + decimal(row.len())
                        + " field(s), expected "@ + decimal(n)
                },
                Err(e) => {
                    &&& after.len() == before.len() + 1
                    &&& after.drop_last() == before
                    &&& after.last().code == "csv.read_error"@
                    &&& after.last().message == "row "@ + line + ": "@ + e
                },
            }
        }),
        row_warnings(Seq::empty(), n).len() == 0,
{
    assert(records.push(r).drop_last() =~= records);
    let before = row_warnings(records, n);
    let after = row_warnings(records.push(r), n);
    if after.len() > before.len() {
        assert(after.drop_last() =~= before);
    }
}

/// Delimited values make one table of the headers and the rows, unless both are missing. The
/// metadata count rows and columns. Without headers there is nothing but a warning.
pub proof fn law_what_delimited_values_say(
    input: InputView,
    format: Seq<char>,
    headers: RowView,
    records: Seq<RowView>,
)
    ensures
        ({
            let doc = delimited_document(input, format, headers, records);
            match headers {
                Err(e) => doc.blocks.len() == 0 && doc.warnings.len() == 1 && doc.warnings[0].code
                    == "csv.read_error"@ && doc.warnings[0].message == "failed to read headers: "@
                    + e,
                Ok(h) => {
                    let rows = fitted_rows(records, h.len());
                    &&& h.len() == 0 && rows.len() == 0 ==> doc.blocks.len() == 0
                    &&& h.len() > 0 || rows.len() > 0 ==> doc.blocks == seq![
                        BlockView::Table { headers: h, rows },
                    ]
                    &&& doc.warnings == row_warnings(records, h.len())
                    &&& doc.metadata.contains_pair("format"@, format)
                    &&& doc.metadata.contains_pair("row_count"@, decimal(rows.len()))
                    &&& doc.metadata.contains_pair("col_count"@, decimal(h.len()))
                },
            }
        }),
{
    reveal_strlit("format");
    reveal_strlit("row_count");
    reveal_strlit("col_count");
    assert("format"@.len() == 6);
    assert("row_count"@.len() == 9 && "row_count"@[0] == 'r');
    assert("col_count"@.len() == 9 && "col_count"@[0] == 'c');
}

/// Each format is read with its own delimiter: a comma, a tab or a pipe. The first record names
/// the columns, and rows may differ in length.
pub proof fn law_each_format_has_its_delimiter(input: InputView)
    ensures
        CsvExtractor.extracts(
            input,
            Ok::<DocumentView, ErrorView>(
                delimited_document(
                    input,
                    "csv"@,
                    csv_headers(input.bytes, ',' as u8, true, true),
                    csv_records(input.bytes, ',' as u8, true, true),
                ),
            ),
        ),
        TsvExtractor.extracts(
            input,
            Ok::<DocumentView, ErrorView>(
                delimited_document(
                    input,
                    "tsv"@,
                    csv_headers(input.bytes, '\t' as u8, true, true),
                    csv_records(input.bytes, '\t' as u8, true, true),
                ),
            ),
        ),
        PsvExtractor.extracts(
            input,
            Ok::<DocumentView, ErrorView>(
                delimited_document(
                    input,
                    "psv"@,
                    csv_headers(input.bytes, '|' as u8, true, true),
                    csv_records(input.bytes, '|' as u8, true, true),
                ),
            ),
        ),
{
}

} // verus!
