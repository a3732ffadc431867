//! Markdown output.
use crate::emitters::ending::{closed_string, closed_text, end_line, push_end_line};
use crate::error::{ErrorView, Result};
use crate::ir::{
    block_views, field_views, lemma_children_view, row_views, Block, BlockView,
    DocumentIr, DocumentView, Field, FieldView,
};
use crate::plugin::{Emission, Emitter};
use crate::profile::OutputFormat;
use crate::registry::{EmitterSlot, PlugEmitter};
use crate::text::{
    concat, decimal, decimal_of, join, joined, lemma_add_assoc, lemma_concat_ends,
    lemma_concat_step, views,
};
use vstd::prelude::*;

verus! {

/// As many hashes as the level of a heading.
pub open spec fn hashes(level: nat) -> Seq<char> {
    Seq::new(level, |i: int| '#')
}

/// A list item on its own line, numbered from one in an ordered list.
pub open spec fn md_item(ordered: bool) -> spec_fn(int, Seq<char>) -> Seq<char> {
    |i: int, item: Seq<char>|
        (if ordered {
            decimal((i + 1) as nat) + ". "@
        } else {
            "- "@
        }) + item + "\n"@
}

/// A table row between bars.
pub open spec fn md_row() -> spec_fn(int, Seq<Seq<char>>) -> Seq<char> {
    |i: int, row: Seq<Seq<char>>| "| "@ + join(row, " | "@) + " |\n"@
}

/// The rule under one table header.
pub open spec fn md_rule() -> spec_fn(int, Seq<char>) -> Seq<char> {
    |i: int, h: Seq<char>| " --- |"@
}

/// A field of a record as a list item.
pub open spec fn md_field() -> spec_fn(int, FieldView) -> Seq<char> {
    |i: int, f: FieldView| "- **"@ + f.key + "**: "@ + f.value + "\n"@
}

/// A block in Markdown.
pub open spec fn md_block(b: BlockView) -> Seq<char>
    decreases b,
{
    match b {
        BlockView::Document { children } => md_blocks(children),
        BlockView::Section { children } => md_blocks(children),
        BlockView::Heading { level, text } => hashes(level as nat) + " "@ + text + "\n\n"@,
        BlockView::Paragraph { text } => text + "\n\n"@,
        BlockView::Quote { text } => "> "@ + text + "\n\n"@,
        BlockView::List { ordered, items } => concat(items, md_item(ordered)) + "\n"@,
        BlockView::Code { lang, text } => "```"@ + (match lang {
            Some(l) => l,
            None => Seq::empty(),
        }) + "\n"@ + text + end_line(text) + "```\n\n"@,
        BlockView::Table { headers, rows } => "| "@ + join(headers, " | "@) + " |\n|"@ + concat(
            headers,
            md_rule(),
        ) + "\n"@ + concat(rows, md_row()) + "\n"@,
        BlockView::Record { fields } => concat(fields, md_field()) + "\n"@,
        BlockView::Unsupported { note } => "> [!warning] "@ + note + "\n\n"@,
    }
}

/// Each block in Markdown.
pub open spec fn md_blocks(bs: Seq<BlockView>) -> Seq<char>
    decreases bs,
{
    if bs.len() == 0 {
        Seq::empty()
    } else {
        md_blocks(bs.drop_last()) + md_block(bs.last())
    }
}

/// Appends the hashes of a heading.
fn push_hashes(level: u8, o: &mut String)
    ensures
        final(o)@ == old(o)@ + hashes(level as nat),
{
    assert(o@ + hashes(0) =~= o@);
    for i in 0..level
        invariant
            o@ == old(o)@ + hashes(i as nat),
    {
        o.push('#');
        assert(o@ =~= old(o)@ + hashes((i + 1) as nat));
    }
}

/// Appends the items of a list.
fn push_items(ordered: bool, items: &Vec<String>, o: &mut String)
    ensures
        final(o)@ == old(o)@ + concat(views(items@), md_item(ordered)),
{
    broadcast use lemma_add_assoc;

    let ghost all = views(items@);
    proof {
        lemma_concat_ends(all, md_item(ordered));
    }
    for i in 0..items.len()
        invariant
            all == views(items@),
            o@ == old(o)@ + concat(all.take(i as int), md_item(ordered)),
    {
        proof {
            lemma_concat_step(all, md_item(ordered), i as int);
        }
        if ordered {
            o.append(decimal_of(i as u128 + 1).as_str());
            o.append(". ");
        } else {
            o.append("- ");
        }
        o.append(items[i].as_str());
        o.append("\n");
    }
}

/// Appends the rules under the headers of a table.
fn push_rules(headers: &Vec<String>, o: &mut String)
    ensures
        final(o)@ == old(o)@ + concat(views(headers@), md_rule()),
{
    broadcast use lemma_add_assoc;

    let ghost all = views(headers@);
    proof {
        lemma_concat_ends(all, md_rule());
    }
    for i in 0..headers.len()
        invariant
            all == views(headers@),
            o@ == old(o)@ + concat(all.take(i as int), md_rule()),
    {
        proof {
            lemma_concat_step(all, md_rule(), i as int);
        }
        o.append(" --- |");
    }
}

/// Appends the rows of a table.
fn push_rows(rows: &Vec<Vec<String>>, o: &mut String)
    ensures
        final(o)@ == old(o)@ + concat(row_views(rows@), md_row()),
{
    broadcast use lemma_add_assoc;

    let ghost all = row_views(rows@);
    proof {
        lemma_concat_ends(all, md_row());
    }
    for i in 0..rows.len()
        invariant
            all == row_views(rows@),
            o@ == old(o)@ + concat(all.take(i as int), md_row()),
    {
        proof {
            lemma_concat_step(all, md_row(), i as int);
        }
        o.append("| ");
        o.append(joined(&rows[i], " | ").as_str());
        o.append(" |\n");
    }
}

/// Appends the fields of a record.
fn push_fields(fields: &Vec<Field>, o: &mut String)
    ensures
        final(o)@ == old(o)@ + concat(field_views(fields@), md_field()),
{
    broadcast use lemma_add_assoc;

    let ghost all = field_views(fields@);
    proof {
        lemma_concat_ends(all, md_field());
    }
    for i in 0..fields.len()
        invariant
            all == field_views(fields@),
            o@ == old(o)@ + concat(all.take(i as int), md_field()),
    {
        proof {
            lemma_concat_step(all, md_field(), i as int);
        }
        o.append("- **");
        o.append(fields[i].key.as_str());
        o.append("**: ");
        o.append(fields[i].value.as_str());
        o.append("\n");
    }
}

/// Appends a block in Markdown.
pub fn emit_md(b: &Block, o: &mut String)
    ensures
        final(o)@ == old(o)@ + md_block(b@),
    decreases b,
{
    broadcast use lemma_add_assoc;

    proof {
        lemma_children_view(*b);
        lemma_concat_ends(Seq::<Seq<char>>::empty(), md_rule());
    }
    match b {
        Block::Document { children } => emit_md_all(children, o),
        Block::Section { children } => emit_md_all(children, o),
        Block::Heading { level, text } => {
            push_hashes(*level, o);
            o.append(" ");
            o.append(text.as_str());
            o.append("\n\n");
        },
        Block::Paragraph { text } => {
            o.append(text.as_str());
            o.append("\n\n");
        },
        Block::Quote { text } => {
            o.append("> ");
            o.append(text.as_str());
            o.append("\n\n");
        },
        Block::List { ordered, items } => {
            push_items(*ordered, items, o);
            o.append("\n");
        },
        Block::Code { lang, text } => {
            o.append("```");
            if let Some(l) = lang {
                o.append(l.as_str());
            }
            o.append("\n");
            o.append(text.as_str());
            push_end_line(text.as_str(), o);
            o.append("```\n\n");
        },
        Block::Table { headers, rows } => {
            o.append("| ");
            o.append(joined(headers, " | ").as_str());
            o.append(" |\n|");
            push_rules(headers, o);
            o.append("\n");
            push_rows(rows, o);
            o.append("\n");
        },
        Block::Record { fields } => {
            push_fields(fields, o);
            o.append("\n");
        },
        Block::Unsupported { note } => {
            o.append("> [!warning] ");
            o.append(note.as_str());
            o.append("\n\n");
        },
    }
}

/// Appends each block in Markdown.
fn emit_md_all(blocks: &Vec<Block>, o: &mut String)
    ensures
        final(o)@ == old(o)@ + md_blocks(block_views(blocks@)),
    decreases blocks,
{
    broadcast use lemma_add_assoc;

    let ghost all = block_views(blocks@);
    assert(all.take(all.len() as int) =~= all);
    assert(o@ + md_blocks(all.take(0)) =~= o@);
    for i in 0..blocks.len()
        invariant
            all == block_views(blocks@),
            o@ == old(o)@ + md_blocks(all.take(i as int)),
    {
        assert(all.take(i + 1).drop_last() =~= all.take(i as int));
        emit_md(&blocks[i], o);
    }
}

/// What Markdown output of a document is.
pub open spec fn markdown(doc: DocumentView) -> Seq<char> {
    closed_text(md_blocks(doc.blocks))
}

/// Writes Markdown.
pub struct MarkdownEmitter;

impl Emitter for MarkdownEmitter {
    open spec fn named(&self) -> Seq<char> {
        "markdown"@
    }

    open spec fn writes(&self) -> OutputFormat {
        OutputFormat::Markdown
    }

    open spec fn emits(&self, doc: DocumentView, outcome: Emission) -> bool {
        outcome == Ok::<Seq<char>, ErrorView>(markdown(doc))
    }

    fn name(&self) -> (s: &'static str) {
        "markdown"
    }

    fn format(&self) -> (f: OutputFormat) {
        OutputFormat::Markdown
    }

    fn emit(&self, doc: &DocumentIr) -> (r: Result<String>) {
        let mut o = String::new();
        emit_md_all(&doc.blocks, &mut o);
        assert(o@ =~= md_blocks(doc@.blocks));
        Ok(closed_string(o.as_str()))
    }
}

impl PlugEmitter for MarkdownEmitter {
    fn plug(self) -> (s: EmitterSlot) {
        EmitterSlot { plugin: Box::new(self) }
    }
}

} // verus!
