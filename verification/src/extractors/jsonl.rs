//! JSON lines: one block per line of valid JSON.
//!
//! A line that is not valid JSON is warned about, and the others are still read.
use crate::bridge::json::{json_parsed, lemma_json_view, parse_json, parsed_view, Json, JsonView};
use crate::bridge::unicode::lossy;
use crate::error::{ErrorView, Result};
use crate::extractors::common::{
    blank_document, new_document, note, note_filename, with_filename,
};
use crate::extractors::json::{record_fields, sorted_fields, value_text, value_to_string};
use crate::extractors::plain::blank;
use crate::ir::{Block, BlockView, DocumentIr, DocumentView, WarningView};
use crate::plugin::{str_views, Extraction, Extractor, Input, InputView};
use crate::registry::{ExtractorSlot, PlugExtractor};
use crate::text::{decimal, decimal_of, is_blank, lines, split_lines, trim, trimmed, views};
use vstd::prelude::*;

verus! {

/// View of a [`JsonLine`].
#[verifier::ext_equal]
pub struct JsonLineView {
    pub number: nat,
    pub parsed: std::result::Result<JsonView, Seq<char>>,
}

/// A line that is not blank: its number, from one, and what parsing it gave.
#[derive(Debug)]
pub struct JsonLine {
    pub number: usize,
    pub parsed: std::result::Result<Json, String>,
}

impl View for JsonLine {
    type V = JsonLineView;

    open spec fn view(&self) -> JsonLineView {
        JsonLineView { number: self.number as nat, parsed: parsed_view(self.parsed) }
    }
}

/// Views of a list of lines.
pub open spec fn json_line_views(v: Seq<JsonLine>) -> Seq<JsonLineView> {
    v.map_values(|l: JsonLine| l@)
}

/// The lines that are not blank, numbered and parsed.
pub open spec fn parsed_lines(ls: Seq<Seq<char>>) -> Seq<JsonLineView>
    decreases ls.len(),
{
    if ls.len() == 0 {
        Seq::empty()
    } else {
        let before = parsed_lines(ls.drop_last());
        if blank(ls.last()) {
            before
        } else {
            before.push(JsonLineView { number: ls.len(), parsed: json_parsed(trim(ls.last())) })
        }
    }
}

/// The block of a line: an object makes a record, anything else a paragraph.
pub open spec fn line_block(v: JsonView) -> BlockView {
    match v {
        JsonView::Object { members, .. } => BlockView::Record { fields: record_fields(members) },
        _ => BlockView::Paragraph { text: value_text(v) },
    }
}

/// The blocks of the lines that are valid.
pub open spec fn line_blocks(ls: Seq<JsonLineView>) -> Seq<BlockView>
    decreases ls.len(),
{
    if ls.len() == 0 {
        Seq::empty()
    } else {
        let before = line_blocks(ls.drop_last());
        match ls.last().parsed {
            Ok(v) => before.push(line_block(v)),
            Err(_) => before,
        }
    }
}

/// The warning about a line that is not valid.
pub open spec fn bad_line(number: nat, e: Seq<char>) -> WarningView {
    WarningView {
        code: "jsonl.bad_line"@,
        message: "line "@ + decimal(number) + ": failed to parse JSON: "@ + e,
    }
}

/// The warnings about the lines that are not valid.
pub open spec fn line_warnings(ls: Seq<JsonLineView>) -> Seq<WarningView>
    decreases ls.len(),
{
    if ls.len() == 0 {
        Seq::empty()
    } else {
        let before = line_warnings(ls.drop_last());
        match ls.last().parsed {
            Ok(_) => before,
            Err(e) => before.push(bad_line(ls.last().number, e)),
        }
    }
}

/// What JSON lines hold, for what parsing them gave.
pub open spec fn jsonl_document(input: InputView, ls: Seq<JsonLineView>) -> DocumentView {
    let doc = with_filename(blank_document(input), input);
    DocumentView {
        blocks: line_blocks(ls),
        warnings: line_warnings(ls),
        metadata: doc.metadata.insert("format"@, "jsonl"@).insert(
            "line_count"@,
            decimal(ls.len()),
        ).insert("error_count"@, decimal(line_warnings(ls).len())),
        ..doc
    }
}

/// Makes a block of a line: an object makes a record, anything else a paragraph.
fn json_value_to_block(v: &Json) -> (b: Block)
    ensures
        b@ == line_block(v@),
{
    proof {
        lemma_json_view(*v);
    }
    match v {
        Json::Object { members, .. } => Block::Record { fields: sorted_fields(members) },
        _ => Block::Paragraph { text: value_to_string(v) },
    }
}

/// Parses the lines that are not blank.
fn parse_lines(text: &str) -> (r: Vec<JsonLine>)
    ensures
        json_line_views(r@) == parsed_lines(lines(text@)),
{
    let ls = split_lines(text);
    let ghost all = views(ls@);
    let mut r: Vec<JsonLine> = Vec::new();
    assert(all.take(0) =~= Seq::empty());
    assert(json_line_views(r@) =~= Seq::empty());
    for i in 0..ls.len()
        invariant
            all == views(ls@),
            json_line_views(r@) == parsed_lines(all.take(i as int)),
    {
        proof {
            assert(all.take(i + 1).drop_last() =~= all.take(i as int));
            assert(all.take(i + 1).last() == ls@[i as int]@);
        }
        if !is_blank(ls[i].as_str()) {
            let line = JsonLine {
                number: i + 1,
                parsed: parse_json(trimmed(ls[i].as_str()).as_str()),
            };
            assert(json_line_views(r@.push(line)) =~= json_line_views(r@).push(line@));
            r.push(line);
        }
    }
    assert(all.take(ls.len() as int) =~= all);
    r
}

/// Makes a document of what parsing each line gave.
pub fn read_jsonl(input: &Input, parsed: Vec<JsonLine>) -> (doc: DocumentIr)
    ensures
        doc@ == jsonl_document(input@, json_line_views(parsed@)),
{
    let mut doc = new_document(input);
    note_filename(&mut doc, input);
    let ghost start = doc@;
    let ghost all = json_line_views(parsed@);
    let mut error_count: usize = 0;
    proof {
        assert(all.take(0) =~= Seq::empty());
        assert(doc@.blocks =~= Seq::empty());
        assert(doc@.warnings =~= Seq::empty());
    }
    for i in 0..parsed.len()
        invariant
            all == json_line_views(parsed@),
            doc@ == (DocumentView {
                blocks: line_blocks(all.take(i as int)),
                warnings: line_warnings(all.take(i as int)),
                ..start
            }),
            error_count == line_warnings(all.take(i as int)).len(),
            error_count <= i,
    {
        proof {
            assert(all.take(i + 1).drop_last() =~= all.take(i as int));
            assert(all.take(i + 1).last() == parsed@[i as int]@);
        }
        match &parsed[i].parsed {
            Ok(v) => doc.push(json_value_to_block(v)),
            Err(e) => {
                error_count = error_count + 1;
                let mut m = "line ".to_owned();
                m.append(decimal_of(parsed[i].number as u128).as_str());
                m.append(": failed to parse JSON: ");
                m.append(e.as_str());
                doc.warn("jsonl.bad_line", m.as_str());
            },
        }
    }
    assert(all.take(parsed.len() as int) =~= all);
    note(&mut doc, "format", "jsonl");
    note(&mut doc, "line_count", decimal_of(parsed.len() as u128).as_str());
    note(&mut doc, "error_count", decimal_of(error_count as u128).as_str());
    doc
}

/// Reads JSON lines.
pub struct JsonlExtractor;

impl Extractor for JsonlExtractor {
    open spec fn named(&self) -> Seq<char> {
        "jsonl"@
    }

    open spec fn handles(&self) -> Seq<Seq<char>> {
        seq!["jsonl"@, "ndjson"@]
    }

    open spec fn extracts(&self, input: InputView, outcome: Extraction) -> bool {
        outcome == Ok::<DocumentView, ErrorView>(
            jsonl_document(input, parsed_lines(lines(lossy(input.bytes)))),
        )
    }

    fn name(&self) -> (s: &'static str) {
        "jsonl"
    }

    fn formats(&self) -> (r: &'static [&'static str]) {
        let keys: &'static [&'static str] = &["jsonl", "ndjson"];
        assert(str_views(keys@) =~= self.handles());
        keys
    }

    fn extract(&self, input: &Input) -> (r: Result<DocumentIr>) {
        let text = input.text();
        Ok(read_jsonl(input, parse_lines(text.as_str())))
    }
}

impl PlugExtractor for JsonlExtractor {
    fn plug(self) -> (s: ExtractorSlot) {
        ExtractorSlot { plugin: Box::new(self) }
    }
}

// ---------------------------------------------------------------------------
// Laws
// ---------------------------------------------------------------------------

/// Every line that is not blank makes a block or a warning, never both.
pub proof fn law_each_line_counts_once(ls: Seq<JsonLineView>)
    ensures
        line_blocks(ls).len() + line_warnings(ls).len() == ls.len(),
    decreases ls.len(),
{
    if ls.len() > 0 {
        law_each_line_counts_once(ls.drop_last());
    }
}

/// The lines that are valid.
pub open spec fn valid_lines(ls: Seq<JsonLineView>) -> Seq<JsonLineView> {
    ls.filter(|l: JsonLineView| l.parsed is Ok)
}

/// The lines that are not valid.
pub open spec fn bad_lines(ls: Seq<JsonLineView>) -> Seq<JsonLineView> {
    ls.filter(|l: JsonLineView| l.parsed is Err)
}

/// Lines that are not valid give one warning each, in order, and no block; the blocks are those
/// of the other lines, in order.
pub proof fn law_bad_lines_give_a_warning_each(ls: Seq<JsonLineView>)
    ensures
        line_warnings(ls) == bad_lines(ls).map_values(
            |l: JsonLineView| bad_line(l.number, l.parsed->Err_0),
        ),
        line_blocks(ls) == valid_lines(ls).map_values(|l: JsonLineView| line_block(l.parsed->Ok_0)),
        line_blocks(ls) == line_blocks(valid_lines(ls)),
    decreases ls.len(),
{
    reveal(Seq::filter);
    let warn = |l: JsonLineView| bad_line(l.number, l.parsed->Err_0);
    let make = |l: JsonLineView| line_block(l.parsed->Ok_0);
    if ls.len() == 0 {
        assert(line_warnings(ls) =~= bad_lines(ls).map_values(warn));
        assert(line_blocks(ls) =~= valid_lines(ls).map_values(make));
    } else {
        let front = ls.drop_last();
        let last = ls.last();
        law_bad_lines_give_a_warning_each(front);
        match last.parsed {
            Ok(_) => {
                assert(valid_lines(ls) == valid_lines(front).push(last));
                assert(bad_lines(ls) == bad_lines(front));
                assert(valid_lines(ls).drop_last() =~= valid_lines(front));
                assert(line_blocks(ls) =~= valid_lines(ls).map_values(make));
            },
            Err(_) => {
                assert(valid_lines(ls) == valid_lines(front));
                assert(bad_lines(ls) == bad_lines(front).push(last));
                assert(line_warnings(ls) =~= bad_lines(ls).map_values(warn));
            },
        }
    }
}

/// A line that is not valid changes nothing about the other lines: were it blank, there would be
/// the same blocks, and the same warnings but for the one about it.
pub proof fn law_bad_line_leaves_the_others(ls: Seq<Seq<char>>, i: int)
    requires
        0 <= i < ls.len(),
        !blank(ls[i]),
        json_parsed(trim(ls[i])) is Err,
    ensures
        line_blocks(parsed_lines(ls)) == line_blocks(parsed_lines(ls.update(i, Seq::empty()))),
        line_warnings(parsed_lines(ls)) == line_warnings(
            parsed_lines(ls.update(i, Seq::empty())),
        ).insert(
            line_warnings(parsed_lines(ls.take(i))).len() as int,
            bad_line((i + 1) as nat, json_parsed(trim(ls[i]))->Err_0),
        ),
        line_warnings(parsed_lines(ls.take(i))).len() <= line_warnings(
            parsed_lines(ls.update(i, Seq::empty())),
        ).len(),
    decreases ls.len(),
{
    let none = Seq::<char>::empty();
    let other = ls.update(i, none);
    let k = line_warnings(parsed_lines(ls.take(i))).len() as int;
    let w = bad_line((i + 1) as nat, json_parsed(trim(ls[i]))->Err_0);
    let front = parsed_lines(ls.drop_last());
    if i == ls.len() - 1 {
        assert(ls.take(i) =~= ls.drop_last());
        assert(other.drop_last() =~= ls.drop_last());
        assert(blank(none));
        assert(parsed_lines(ls).drop_last() =~= front);
        assert(line_warnings(parsed_lines(ls)) == line_warnings(front).push(w));
        assert(line_warnings(front).push(w) =~= line_warnings(front).insert(k, w));
    } else {
        let others = parsed_lines(other.drop_last());
        assert(ls.drop_last().update(i, none) =~= other.drop_last());
        assert(ls.drop_last().take(i) =~= ls.take(i));
        law_bad_line_leaves_the_others(ls.drop_last(), i);
        if !blank(ls.last()) {
            let last = JsonLineView { number: ls.len(), parsed: json_parsed(trim(ls.last())) };
            assert(front.push(last).drop_last() =~= front);
            assert(others.push(last).drop_last() =~= others);
            assert(parsed_lines(ls) == front.push(last));
            assert(parsed_lines(other) == others.push(last));
            if let Err(e) = last.parsed {
                let v = bad_line(last.number, e);
                assert(line_warnings(others).insert(k, w).push(v) =~= line_warnings(others).push(
                    v,
                ).insert(k, w));
            }
        }
    }
}

} // verus!
