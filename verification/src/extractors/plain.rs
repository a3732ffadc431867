//! Plain text: paragraphs between blank lines.
use crate::bridge::unicode::lossy;
use crate::error::{ErrorView, Result};
use crate::extractors::common::{blank_document, new_document};
use crate::ir::{block_views, Block, BlockView, DocumentIr, DocumentView};
use crate::plugin::{str_views, Extraction, Extractor, Input, InputView};
use crate::reducers::cleanup::lemma_block_views_push;
use crate::registry::{ExtractorSlot, PlugExtractor};
use crate::text::{
    alike, collapse, collapsed, is_blank, join, joined, lemma_blank_has_no_words,
    lemma_collapse_solid, lemma_crlf_lines_alike, lemma_join_alike, lemma_join_front,
    lemma_solid_in, lines, split_lines, to_crlf, trim, views, words,
};
use vstd::prelude::*;

verus! {

/// Whether a line holds nothing but white space.
pub open spec fn blank(line: Seq<char>) -> bool {
    trim(line).len() == 0
}

/// How many lines that are not blank stand at the front.
pub open spec fn solid_len(ls: Seq<Seq<char>>) -> nat
    decreases ls.len(),
{
    if ls.len() > 0 && !blank(ls[0]) {
        1 + solid_len(ls.skip(1))
    } else {
        0
    }
}

/// A run of lines lies within the lines.
pub proof fn lemma_solid_len_bound(ls: Seq<Seq<char>>)
    ensures
        solid_len(ls) <= ls.len(),
    decreases ls.len(),
{
    if ls.len() > 0 && !blank(ls[0]) {
        lemma_solid_len_bound(ls.skip(1));
    }
}

/// The paragraph that a run of lines makes.
pub open spec fn paragraph_of(ls: Seq<Seq<char>>) -> BlockView {
    BlockView::Paragraph { text: collapse(join(ls, " "@)) }
}

/// Each maximal run of lines that are not blank, as a paragraph.
pub open spec fn paragraphs(ls: Seq<Seq<char>>) -> Seq<BlockView>
    decreases ls.len(),
{
    if ls.len() == 0 {
        Seq::empty()
    } else if blank(ls[0]) {
        paragraphs(ls.skip(1))
    } else {
        proof {
            lemma_solid_len_bound(ls.skip(1));
        }
        let n = 1 + solid_len(ls.skip(1));
        seq![paragraph_of(ls.take(n as int))] + paragraphs(ls.skip(n as int))
    }
}

/// What plain text holds.
pub open spec fn plain_document(input: InputView, text: Seq<char>) -> DocumentView {
    DocumentView { blocks: paragraphs(lines(text)), ..blank_document(input) }
}

/// A run of lines ends where the first blank one stands.
proof fn lemma_solid_len(run: Seq<Seq<char>>, rest: Seq<Seq<char>>)
    requires
        forall|i: int| 0 <= i < run.len() ==> !blank(#[trigger] run[i]),
        rest.len() > 0 ==> blank(rest[0]),
    ensures
        solid_len(run + rest) == run.len(),
    decreases run.len(),
{
    let all = run + rest;
    if run.len() == 0 {
        assert(all =~= rest);
    } else {
        assert forall|i: int| 0 <= i < run.skip(1).len() implies !blank(#[trigger] run.skip(1)[i]) by {
            assert(run.skip(1)[i] == run[i + 1]);
        }
        lemma_solid_len(run.skip(1), rest);
        assert(all.skip(1) =~= run.skip(1) + rest);
        assert(all[0] == run[0]);
    }
}

/// A run of lines makes a paragraph by itself.
pub proof fn lemma_paragraph(run: Seq<Seq<char>>, rest: Seq<Seq<char>>)
    requires
        run.len() > 0,
        forall|i: int| 0 <= i < run.len() ==> !blank(#[trigger] run[i]),
        rest.len() > 0 ==> blank(rest[0]),
    ensures
        paragraphs(run + rest) == seq![paragraph_of(run)] + paragraphs(rest),
{
    let all = run + rest;
    assert forall|i: int| 0 <= i < run.skip(1).len() implies !blank(#[trigger] run.skip(1)[i]) by {
        assert(run.skip(1)[i] == run[i + 1]);
    }
    lemma_solid_len(run.skip(1), rest);
    assert(all.skip(1) =~= run.skip(1) + rest);
    assert(all[0] == run[0]);
    assert(!blank(run[0]));
    assert(all.take(run.len() as int) =~= run);
    assert(all.skip(run.len() as int) =~= rest);
}

/// Makes the accumulated lines a paragraph, unless there are none, and forgets them.
fn push_paragraph(blocks: &mut Vec<Block>, lines: &mut Vec<String>)
    ensures
        final(lines)@.len() == 0,
        block_views(final(blocks)@) == if old(lines)@.len() == 0 {
            block_views(old(blocks)@)
        } else {
            block_views(old(blocks)@).push(paragraph_of(views(old(lines)@)))
        },
{
    broadcast use lemma_block_views_push;

    if lines.len() > 0 {
        let text = collapsed(joined(lines, " ").as_str());
        lines.clear();
        blocks.push(Block::Paragraph { text });
    }
}

/// Splits text into paragraphs on blank lines.
fn split_paragraphs(text: &str) -> (blocks: Vec<Block>)
    ensures
        block_views(blocks@) == paragraphs(lines(text@)),
{
    let all_lines = split_lines(text);
    let ghost all = views(all_lines@);
    let mut blocks: Vec<Block> = Vec::new();
    let mut para: Vec<String> = Vec::new();
    proof {
        assert(views(para@) + all.skip(0) =~= all);
        assert(block_views(blocks@) + paragraphs(all) =~= paragraphs(all));
    }
    for line in it: all_lines
        invariant
            it.seq() == all_lines@,
            all == views(all_lines@),
            forall|j: int| 0 <= j < para@.len() ==> !blank(#[trigger] views(para@)[j]),
            block_views(blocks@) + paragraphs(views(para@) + all.skip(it.index())) == paragraphs(
                all,
            ),
    {
        let ghost i = it.index();
        let ghost run = views(para@);
        let ghost rest = all.skip(i + 1);
        let ghost done = block_views(blocks@);
        assert(all.skip(i) =~= seq![line@] + rest);
        if is_blank(line.as_str()) {
            proof {
                if run.len() > 0 {
                    lemma_paragraph(run, all.skip(i));
                    assert(done + (seq![paragraph_of(run)] + paragraphs(all.skip(i))) =~= done.push(
                        paragraph_of(run),
                    ) + paragraphs(all.skip(i)));
                } else {
                    assert(run + all.skip(i) =~= all.skip(i));
                }
                assert(all.skip(i).skip(1) =~= rest);
            }
            push_paragraph(&mut blocks, &mut para);
            assert(views(para@) + rest =~= rest);
        } else {
            para.push(line);
            assert(views(para@) =~= run.push(line@));
            assert(views(para@) + rest =~= run + all.skip(i));
        }
    }
    let ghost run = views(para@);
    let ghost done = block_views(blocks@);
    proof {
        assert(run + all.skip(all.len() as int) =~= run + Seq::empty());
        if run.len() > 0 {
            lemma_paragraph(run, Seq::empty());
            assert(done + (seq![paragraph_of(run)] + paragraphs(Seq::empty())) =~= done.push(
                paragraph_of(run),
            ));
        } else {
            assert(run + Seq::empty() =~= Seq::empty());
            assert(done + paragraphs(Seq::empty()) =~= done);
        }
    }
    push_paragraph(&mut blocks, &mut para);
    blocks
}

/// Makes plain text a document.
pub fn read_plain(input: &Input, text: &str) -> (doc: DocumentIr)
    ensures
        doc@ == plain_document(input@, text@),
{
    let mut doc = new_document(input);
    doc.blocks = split_paragraphs(text);
    doc
}

/// Splits plain text into paragraphs on blank lines.
pub struct TextExtractor;

impl Extractor for TextExtractor {
    open spec fn named(&self) -> Seq<char> {
        "text"@
    }

    open spec fn handles(&self) -> Seq<Seq<char>> {
        seq!["text"@]
    }

    open spec fn extracts(&self, input: InputView, outcome: Extraction) -> bool {
        outcome == Ok::<DocumentView, ErrorView>(plain_document(input, lossy(input.bytes)))
    }

    fn name(&self) -> (s: &'static str) {
        "text"
    }

    fn formats(&self) -> (r: &'static [&'static str]) {
        let keys: &'static [&'static str] = &["text"];
        assert(str_views(keys@) =~= self.handles());
        keys
    }

    fn extract(&self, input: &Input) -> (r: Result<DocumentIr>) {
        let text = input.text();
        Ok(read_plain(input, text.as_str()))
    }
}

impl PlugExtractor for TextExtractor {
    fn plug(self) -> (s: ExtractorSlot) {
        ExtractorSlot { plugin: Box::new(self) }
    }
}

// ---------------------------------------------------------------------------
// Laws
// ---------------------------------------------------------------------------

/// Plain text makes paragraphs only, and none of them is empty.
pub proof fn law_paragraphs_are_not_empty(ls: Seq<Seq<char>>)
    ensures
        forall|i: int|
            0 <= i < paragraphs(ls).len() ==> (#[trigger] paragraphs(ls)[i] matches BlockView::Paragraph {
                text,
            } && text.len() > 0),
    decreases ls.len(),
{
    if ls.len() > 0 {
        if blank(ls[0]) {
            law_paragraphs_are_not_empty(ls.skip(1));
        } else {
            lemma_solid_len_bound(ls.skip(1));
            let n = 1 + solid_len(ls.skip(1));
            let run = ls.take(n as int);
            let rest = ls.skip(n as int);
            law_paragraphs_are_not_empty(rest);
            let i = lemma_solid_in(run[0]);
            if run.len() >= 2 {
                lemma_join_front(run, " "@);
            }
            assert(join(run, " "@)[i] == run[0][i]);
            lemma_collapse_solid(join(run, " "@), i);
            assert forall|k: int| 0 <= k < paragraphs(ls).len() implies (
            #[trigger] paragraphs(ls)[k] matches BlockView::Paragraph { text } && text.len() > 0) by {
                if k > 0 {
                    assert(paragraphs(ls)[k] == paragraphs(rest)[k - 1]);
                }
            }
        }
    }
}

/// Lines with the same words make the same paragraphs.
proof fn lemma_paragraphs_alike(a: Seq<Seq<char>>, b: Seq<Seq<char>>)
    requires
        alike(a, b),
    ensures
        solid_len(a) == solid_len(b),
        paragraphs(a) == paragraphs(b),
    decreases a.len(),
{
    if a.len() > 0 {
        assert(words(a[0]) == words(b[0]));
        lemma_blank_has_no_words(a[0]);
        lemma_blank_has_no_words(b[0]);
        lemma_alike_parts(a, b, 1);
        lemma_paragraphs_alike(a.skip(1), b.skip(1));
        if !blank(a[0]) {
            let n = 1 + solid_len(a.skip(1)) as int;
            lemma_solid_len_bound(a.skip(1));
            lemma_alike_parts(a, b, n);
            lemma_join_alike(a.take(n), b.take(n));
            lemma_paragraphs_alike(a.skip(n), b.skip(n));
        }
    }
}

/// The parts of lists that are alike are alike.
proof fn lemma_alike_parts(a: Seq<Seq<char>>, b: Seq<Seq<char>>, n: int)
    requires
        alike(a, b),
        0 <= n <= a.len(),
    ensures
        alike(a.take(n), b.take(n)),
        alike(a.skip(n), b.skip(n)),
{
    assert forall|i: int| 0 <= i < a.take(n).len() implies words(#[trigger] a.take(n)[i]) == words(
        b.take(n)[i],
    ) by {
        assert(words(a[i]) == words(b[i]));
    }
    assert forall|i: int| 0 <= i < a.skip(n).len() implies words(#[trigger] a.skip(n)[i]) == words(
        b.skip(n)[i],
    ) by {
        assert(words(a[i + n]) == words(b[i + n]));
    }
}

/// Windows line ends make no difference to the paragraphs of plain text.
pub proof fn law_crlf_has_the_same_paragraphs(input: InputView, text: Seq<char>)
    ensures
        plain_document(input, to_crlf(text)) == plain_document(input, text),
{
    lemma_crlf_lines_alike(text);
    lemma_paragraphs_alike(lines(to_crlf(text)), lines(text));
}

} // verus!
