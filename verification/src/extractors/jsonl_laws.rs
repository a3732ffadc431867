//! What holds of JSON lines: how they are numbered, and what each of them makes.
use crate::bridge::json::{json_parsed, JsonView};
use crate::extractors::json::value_text;
use crate::extractors::json_laws::{is_block_of, lemma_block_of};
use crate::extractors::jsonl::{
    bad_line, jsonl_document, line_block, line_blocks, line_warnings, parsed_lines, JsonLineView,
};
use crate::ir::BlockView;
use crate::plugin::InputView;
use crate::text::{decimal, lemma_blank_has_no_words, trim, words};
use vstd::prelude::*;

verus! {

/// A line is numbered by its place, from one on, and parsed without the white space around it.
/// Lines without words are left out, and all others are there, in order.
pub proof fn law_lines_are_numbered(ls: Seq<Seq<char>>)
    ensures
        forall|k: int|
            0 <= k < parsed_lines(ls).len() ==> {
                let l = #[trigger] parsed_lines(ls)[k];
                1 <= l.number <= ls.len() && words(ls[l.number - 1]).len() > 0 && l.parsed
                    == json_parsed(trim(ls[l.number - 1]))
            },
        forall|j: int, k: int|
            0 <= j < k < parsed_lines(ls).len() ==> (#[trigger] parsed_lines(ls)[j]).number < (
            #[trigger] parsed_lines(ls)[k]).number,
        forall|i: int|
            0 <= i < ls.len() && words(#[trigger] ls[i]).len() > 0 ==> parsed_lines(ls).contains(
                JsonLineView { number: (i + 1) as nat, parsed: json_parsed(trim(ls[i])) },
            ),
    decreases ls.len(),
{
    if ls.len() > 0 {
        let front = ls.drop_last();
        let before = parsed_lines(front);
        let all = parsed_lines(ls);
        law_lines_are_numbered(front);
        lemma_blank_has_no_words(ls.last());
        let n = before.len() as int;
        assert forall|k: int| 0 <= k < all.len() implies {
            let l = #[trigger] all[k];
            1 <= l.number <= ls.len() && words(ls[l.number - 1]).len() > 0 && l.parsed
                == json_parsed(trim(ls[l.number - 1]))
        } by {
            if k < n {
                assert(all[k] == before[k]);
                assert(front[before[k].number - 1] == ls[before[k].number - 1]);
            }
        }
        assert forall|j: int, k: int| 0 <= j < k < all.len() implies (#[trigger] all[j]).number < (
        #[trigger] all[k]).number by {
            assert(all[j] == before[j]);
            if k < n {
                assert(all[k] == before[k]);
            }
        }
        assert forall|i: int| 0 <= i < ls.len() && words(#[trigger] ls[i]).len() > 0 implies
            all.contains(
            JsonLineView { number: (i + 1) as nat, parsed: json_parsed(trim(ls[i])) },
        ) by {
            let l = JsonLineView { number: (i + 1) as nat, parsed: json_parsed(trim(ls[i])) };
            if i < front.len() {
                assert(front[i] == ls[i]);
                assert(before.contains(l));
                let k = before.index_of(l);
                assert(all[k] == l);
            } else {
                assert(all[n] == l);
            }
        }
    }
}

/// An object makes a record of its members. Any other value makes a paragraph, also an array.
pub proof fn law_objects_make_records(v: JsonView)
    ensures
        v is Object ==> line_block(v) is Record && is_block_of(v, line_block(v)),
        !(v is Object) ==> line_block(v) == (BlockView::Paragraph { text: value_text(v) }),
{
    lemma_block_of(v);
}

/// Lines after lines make the blocks and the warnings of the ones and then of the others; a
/// warning tells the number of the line and what is wrong with it.
pub proof fn law_lines_keep_their_order(
    a: Seq<JsonLineView>,
    b: Seq<JsonLineView>,
    l: JsonLineView,
)
    ensures
        line_blocks(a + b) == line_blocks(a) + line_blocks(b),
        line_warnings(a + b) == line_warnings(a) + line_warnings(b),
        l.parsed matches Ok(v) ==> line_blocks(seq![l]) == seq![line_block(v)] && line_warnings(
            seq![l],
        ).len() == 0,
        l.parsed matches Err(e) ==> line_blocks(seq![l]).len() == 0 && line_warnings(seq![l]).len()
            == 1 && line_warnings(seq![l])[0].code == "jsonl.bad_line"@ && line_warnings(
            seq![l],
        )[0].message == "line "@ + decimal(l.number) + ": failed to parse JSON: "@ + e,
    decreases b.len(),
{
    assert(seq![l].drop_last() =~= Seq::empty());
    assert(line_blocks(Seq::empty()) =~= Seq::empty());
    assert(line_warnings(Seq::empty()) =~= Seq::empty());
    if let Ok(v) = l.parsed {
        assert(line_blocks(seq![l]) =~= seq![line_block(v)]);
        assert(line_warnings(seq![l]) =~= Seq::empty());
    }
    if let Err(e) = l.parsed {
        assert(line_blocks(seq![l]) =~= Seq::empty());
        assert(line_warnings(seq![l]) =~= seq![bad_line(l.number, e)]);
    }
    if b.len() == 0 {
        assert(a + b =~= a);
        assert(line_blocks(a) + line_blocks(b) =~= line_blocks(a));
        assert(line_warnings(a) + line_warnings(b) =~= line_warnings(a));
    } else {
        law_lines_keep_their_order(a, b.drop_last(), l);
        assert((a + b).drop_last() =~= a + b.drop_last());
        assert(line_blocks(a + b) =~= line_blocks(a) + line_blocks(b));
        assert(line_warnings(a + b) =~= line_warnings(a) + line_warnings(b));
    }
}

/// The blocks and the warnings are those of the lines, and the metadata count the lines that are
/// not blank and those that cannot be read.
pub proof fn law_what_json_lines_say(input: InputView, ls: Seq<JsonLineView>)
    ensures
        ({
            let doc = jsonl_document(input, ls);
            &&& doc.blocks == line_blocks(ls)
            &&& doc.warnings == line_warnings(ls)
            &&& doc.metadata.contains_pair("format"@, "jsonl"@)
            &&& doc.metadata.contains_pair("line_count"@, decimal(ls.len()))
            &&& doc.metadata.contains_pair("error_count"@, decimal(doc.warnings.len()))
        }),
{
    reveal_strlit("format");
    reveal_strlit("line_count");
    reveal_strlit("error_count");
    assert("format"@.len() == 6 && "line_count"@.len() == 10 && "error_count"@.len() == 11);
}

} // verus!
