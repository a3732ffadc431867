//! Plain text output.
use crate::emitters::ending::{closed_string, closed_text, end_line, push_end_line};
use crate::error::{ErrorView, Result};
use crate::ir::{
    block_views, field_views, lemma_children_view, row_views, Block, BlockView, DocumentIr,
    DocumentView, Field, FieldView,
};
use crate::plugin::{Emission, Emitter};
use crate::profile::OutputFormat;
use crate::registry::{EmitterSlot, PlugEmitter};
use crate::text::{
    concat, join, joined, lemma_add_assoc, lemma_concat_ends, lemma_concat_step, views,
};
use vstd::prelude::*;

verus! {

/// A list item on its own line.
pub open spec fn plain_item() -> spec_fn(int, Seq<char>) -> Seq<char> {
    |i: int, item: Seq<char>| "- "@ + item + "\n"@
}

/// A table row, its cells separated by tabs.
pub open spec fn plain_row() -> spec_fn(int, Seq<Seq<char>>) -> Seq<char> {
    |i: int, row: Seq<Seq<char>>| join(row, "\t"@) + "\n"@
}

/// A field of a record on its own line.
pub open spec fn plain_field() -> spec_fn(int, FieldView) -> Seq<char> {
    |i: int, f: FieldView| f.key + ": "@ + f.value + "\n"@
}

/// A block in plain text.
pub open spec fn plain_block(b: BlockView) -> Seq<char>
    decreases b,
{
    match b {
        BlockView::Document { children } => plain_blocks(children),
        BlockView::Section { children } => plain_blocks(children),
        BlockView::Heading { text, .. } => text + "\n\n"@,
        BlockView::Paragraph { text } => text + "\n\n"@,
        BlockView::Quote { text } => text + "\n\n"@,
        BlockView::List { items, .. } => concat(items, plain_item()) + "\n"@,
        BlockView::Code { text, .. } => text + end_line(text) + "\n"@,
        BlockView::Table { headers, rows } => join(headers, "\t"@) + "\n"@ + concat(
            rows,
            plain_row(),
        ) + "\n"@,
        BlockView::Record { fields } => concat(fields, plain_field()) + "\n"@,
        BlockView::Unsupported { note } => note + "\n\n"@,
    }
}

/// Each block in plain text.
pub open spec fn plain_blocks(bs: Seq<BlockView>) -> Seq<char>
    decreases bs,
{
    if bs.len() == 0 {
        Seq::empty()
    } else {
        plain_blocks(bs.drop_last()) + plain_block(bs.last())
    }
}

/// Appends the items of a list.
fn push_items(items: &Vec<String>, o: &mut String)
    ensures
        final(o)@ == old(o)@ + concat(views(items@), plain_item()),
{
    broadcast use lemma_add_assoc;

    let ghost all = views(items@);
    proof {
        lemma_concat_ends(all, plain_item());
    }
    for i in 0..items.len()
        invariant
            all == views(items@),
            o@ == old(o)@ + concat(all.take(i as int), plain_item()),
    {
        proof {
            lemma_concat_step(all, plain_item(), i as int);
        }
        o.append("- ");
        o.append(items[i].as_str());
        o.append("\n");
    }
}

/// Appends the rows of a table.
fn push_rows(rows: &Vec<Vec<String>>, o: &mut String)
    ensures
        final(o)@ == old(o)@ + concat(row_views(rows@), plain_row()),
{
    broadcast use lemma_add_assoc;

    let ghost all = row_views(rows@);
    proof {
        lemma_concat_ends(all, plain_row());
    }
    for i in 0..rows.len()
        invariant
            all == row_views(rows@),
            o@ == old(o)@ + concat(all.take(i as int), plain_row()),
    {
        proof {
            lemma_concat_step(all, plain_row(), i as int);
        }
        o.append(joined(&rows[i], "\t").as_str());
        o.append("\n");
    }
}

/// Appends the fields of a record.
fn push_fields(fields: &Vec<Field>, o: &mut String)
    ensures
        final(o)@ == old(o)@ + concat(field_views(fields@), plain_field()),
{
    broadcast use lemma_add_assoc;

    let ghost all = field_views(fields@);
    proof {
        lemma_concat_ends(all, plain_field());
    }
    for i in 0..fields.len()
        invariant
            all == field_views(fields@),
            o@ == old(o)@ + concat(all.take(i as int), plain_field()),
    {
        proof {
            lemma_concat_step(all, plain_field(), i as int);
        }
        o.append(fields[i].key.as_str());
        o.append(": ");
        o.append(fields[i].value.as_str());
        o.append("\n");
    }
}

/// Appends a block in plain text.
pub fn emit_text(b: &Block, o: &mut String)
    ensures
        final(o)@ == old(o)@ + plain_block(b@),
    decreases b,
{
    broadcast use lemma_add_assoc;

    proof {
        lemma_children_view(*b);
    }
    match b {
        Block::Document { children } => emit_text_all(children, o),
        Block::Section { children } => emit_text_all(children, o),
        Block::Heading { text, .. } => {
            o.append(text.as_str());
            o.append("\n\n");
        },
        Block::Paragraph { text } => {
            o.append(text.as_str());
            o.append("\n\n");
        },
        Block::Quote { text } => {
            o.append(text.as_str());
            o.append("\n\n");
        },
        Block::List { items, .. } => {
            push_items(items, o);
            o.append("\n");
        },
        Block::Code { text, .. } => {
            o.append(text.as_str());
            push_end_line(text.as_str(), o);
            o.append("\n");
        },
        Block::Table { headers, rows } => {
            o.append(joined(headers, "\t").as_str());
            o.append("\n");
            push_rows(rows, o);
            o.append("\n");
        },
        Block::Record { fields } => {
            push_fields(fields, o);
            o.append("\n");
        },
        Block::Unsupported { note } => {
            o.append(note.as_str());
            o.append("\n\n");
        },
    }
}

/// Appends each block in plain text.
fn emit_text_all(blocks: &Vec<Block>, o: &mut String)
    ensures
        final(o)@ == old(o)@ + plain_blocks(block_views(blocks@)),
    decreases blocks,
{
    broadcast use lemma_add_assoc;

    let ghost all = block_views(blocks@);
    assert(all.take(all.len() as int) =~= all);
    assert(o@ + plain_blocks(all.take(0)) =~= o@);
    for i in 0..blocks.len()
        invariant
            all == block_views(blocks@),
            o@ == old(o)@ + plain_blocks(all.take(i as int)),
    {
        assert(all.take(i + 1).drop_last() =~= all.take(i as int));
        emit_text(&blocks[i], o);
    }
}

/// What plain text output of a document is.
pub open spec fn plain(doc: DocumentView) -> Seq<char> {
    closed_text(plain_blocks(doc.blocks))
}

/// Writes plain text.
pub struct TextEmitter;

impl Emitter for TextEmitter {
    open spec fn named(&self) -> Seq<char> {
        "text"@
    }

    open spec fn writes(&self) -> OutputFormat {
        OutputFormat::Text
    }

    open spec fn emits(&self, doc: DocumentView, outcome: Emission) -> bool {
        outcome == Ok::<Seq<char>, ErrorView>(plain(doc))
    }

    fn name(&self) -> (s: &'static str) {
        "text"
    }

    fn format(&self) -> (f: OutputFormat) {
        OutputFormat::Text
    }

    fn emit(&self, doc: &DocumentIr) -> (r: Result<String>) {
        let mut o = String::new();
        emit_text_all(&doc.blocks, &mut o);
        assert(o@ =~= plain_blocks(doc@.blocks));
        Ok(closed_string(o.as_str()))
    }
}

impl PlugEmitter for TextEmitter {
    fn plug(self) -> (s: EmitterSlot) {
        EmitterSlot { plugin: Box::new(self) }
    }
}

/// A container is written as its children, one after another, and a list of blocks as the one
/// part and then the other.
pub proof fn law_plain_output_is_additive(a: Seq<BlockView>, b: Seq<BlockView>)
    ensures
        plain_blocks(a + b) == plain_blocks(a) + plain_blocks(b),
        plain_block(BlockView::Document { children: a }) == plain_blocks(a),
        plain_block(BlockView::Section { children: a }) == plain_blocks(a),
    decreases b.len(),
{
    if b.len() == 0 {
        assert(a + b =~= a);
        assert(plain_blocks(a) + plain_blocks(b) =~= plain_blocks(a));
    } else {
        law_plain_output_is_additive(a, b.drop_last());
        assert((a + b).drop_last() =~= a + b.drop_last());
        assert(plain_blocks(a + b) =~= plain_blocks(a) + plain_blocks(b));
    }
}

} // verus!
