//! Minimal HTML output.
use crate::error::{ErrorView, Result};
use crate::ir::{
    block_views, field_views, lemma_children_view, row_views, Block, BlockView, DocumentIr,
    DocumentView, Field, FieldView,
};
use crate::plugin::{Emission, Emitter};
use crate::profile::OutputFormat;
use crate::registry::{EmitterSlot, PlugEmitter};
use crate::text::{
    concat, decimal, decimal_of, lemma_add_assoc, lemma_concat_ends, lemma_concat_step, views,
};
use vstd::prelude::*;

verus! {

// ---------------------------------------------------------------------------
// Escapes
// ---------------------------------------------------------------------------

/// A character, with the three that HTML reserves written as entities.
pub open spec fn escape_char(c: char) -> Seq<char> {
    if c == '&' {
        "&amp;"@
    } else if c == '<' {
        "&lt;"@
    } else if c == '>' {
        "&gt;"@
    } else {
        seq![c]
    }
}

/// `escape_char`, for use in a concatenation.
pub open spec fn escapes() -> spec_fn(int, char) -> Seq<char> {
    |i: int, c: char| escape_char(c)
}

/// Text with the characters that HTML reserves written as entities.
pub open spec fn escape(s: Seq<char>) -> Seq<char> {
    concat(s, escapes())
}

/// Text with the characters that HTML reserves written as entities.
pub fn esc(s: &str) -> (r: String)
    ensures
        r@ == escape(s@),
{
    let mut r = String::new();
    proof {
        lemma_concat_ends(s@, escapes());
    }
    for c in it: s.chars()
        invariant
            it.seq() == s@,
            r@ == concat(s@.take(it.index()), escapes()),
    {
        let ghost before = r@;
        proof {
            lemma_concat_step(s@, escapes(), it.index());
        }
        if c == '&' {
            r.append("&amp;");
        } else if c == '<' {
            r.append("&lt;");
        } else if c == '>' {
            r.append("&gt;");
        } else {
            r.push(c);
            assert(r@ =~= before + seq![c]);
        }
    }
    r
}

// ---------------------------------------------------------------------------
// Blocks
// ---------------------------------------------------------------------------

/// The level of a heading, brought between one and six.
pub open spec fn heading_level(level: u8) -> nat {
    if level < 1 {
        1
    } else if level > 6 {
        6
    } else {
        level as nat
    }
}

/// The tag of a list.
pub open spec fn list_tag(ordered: bool) -> Seq<char> {
    if ordered {
        "ol"@
    } else {
        "ul"@
    }
}

/// A list item.
pub open spec fn html_item() -> spec_fn(int, Seq<char>) -> Seq<char> {
    |i: int, item: Seq<char>| "  <li>"@ + escape(item) + "</li>\n"@
}

/// A header cell.
pub open spec fn html_header() -> spec_fn(int, Seq<char>) -> Seq<char> {
    |i: int, h: Seq<char>| "<th>"@ + escape(h) + "</th>"@
}

/// A body cell.
pub open spec fn html_cell() -> spec_fn(int, Seq<char>) -> Seq<char> {
    |i: int, c: Seq<char>| "<td>"@ + escape(c) + "</td>"@
}

/// A table row.
pub open spec fn html_row() -> spec_fn(int, Seq<Seq<char>>) -> Seq<char> {
    |i: int, row: Seq<Seq<char>>| "<tr>"@ + concat(row, html_cell()) + "</tr>\n"@
}

/// A field of a record.
pub open spec fn html_field() -> spec_fn(int, FieldView) -> Seq<char> {
    |i: int, f: FieldView|
        "  <dt>"@ + escape(f.key) + "</dt><dd>"@ + escape(f.value) + "</dd>\n"@
}

/// A block in HTML.
pub open spec fn html_block(b: BlockView) -> Seq<char>
    decreases b,
{
    match b {
        BlockView::Document { children } => html_blocks(children),
        BlockView::Section { children } => html_blocks(children),
        BlockView::Heading { level, text } => "<h"@ + decimal(heading_level(level)) + ">"@ + escape(
            text,
        ) + "</h"@ + decimal(heading_level(level)) + ">\n"@,
        BlockView::Paragraph { text } => "<p>"@ + escape(text) + "</p>\n"@,
        BlockView::Quote { text } => "<blockquote>"@ + escape(text) + "</blockquote>\n"@,
        BlockView::List { ordered, items } => "<"@ + list_tag(ordered) + ">\n"@ + concat(
            items,
            html_item(),
        ) + "</"@ + list_tag(ordered) + ">\n"@,
        BlockView::Code { text, .. } => "<pre><code>"@ + escape(text) + "</code></pre>\n"@,
        BlockView::Table { headers, rows } => "<table>\n<thead><tr>"@ + concat(
            headers,
            html_header(),
        ) + "</tr></thead>\n<tbody>\n"@ + concat(rows, html_row()) + "</tbody>\n</table>\n"@,
        BlockView::Record { fields } => "<dl>\n"@ + concat(fields, html_field()) + "</dl>\n"@,
        BlockView::Unsupported { note } => "<!-- unsupported: "@ + escape(note) + " -->\n"@,
    }
}

/// Each block in HTML.
pub open spec fn html_blocks(bs: Seq<BlockView>) -> Seq<char>
    decreases bs,
{
    if bs.len() == 0 {
        Seq::empty()
    } else {
        html_blocks(bs.drop_last()) + html_block(bs.last())
    }
}

/// Appends text between an opening and a closing tag.
fn push_wrapped(open: &str, text: &str, close: &str, o: &mut String)
    ensures
        final(o)@ == old(o)@ + (open@ + escape(text@) + close@),
{
    broadcast use lemma_add_assoc;

    o.append(open);
    o.append(esc(text).as_str());
    o.append(close);
}

/// Appends the items of a list.
fn push_items(items: &Vec<String>, o: &mut String)
    ensures
        final(o)@ == old(o)@ + concat(views(items@), html_item()),
{
    broadcast use lemma_add_assoc;

    let ghost all = views(items@);
    proof {
        lemma_concat_ends(all, html_item());
    }
    for i in 0..items.len()
        invariant
            all == views(items@),
            o@ == old(o)@ + concat(all.take(i as int), html_item()),
    {
        proof {
            lemma_concat_step(all, html_item(), i as int);
        }
        push_wrapped("  <li>", items[i].as_str(), "</li>\n", o);
    }
}

/// Appends the headers of a table.
fn push_headers(headers: &Vec<String>, o: &mut String)
    ensures
        final(o)@ == old(o)@ + concat(views(headers@), html_header()),
{
    broadcast use lemma_add_assoc;

    let ghost all = views(headers@);
    proof {
        lemma_concat_ends(all, html_header());
    }
    for i in 0..headers.len()
        invariant
            all == views(headers@),
            o@ == old(o)@ + concat(all.take(i as int), html_header()),
    {
        proof {
            lemma_concat_step(all, html_header(), i as int);
        }
        push_wrapped("<th>", headers[i].as_str(), "</th>", o);
    }
}

/// Appends the cells of a row.
fn push_cells(row: &Vec<String>, o: &mut String)
    ensures
        final(o)@ == old(o)@ + concat(views(row@), html_cell()),
{
    broadcast use lemma_add_assoc;

    let ghost all = views(row@);
    proof {
        lemma_concat_ends(all, html_cell());
    }
    for i in 0..row.len()
        invariant
            all == views(row@),
            o@ == old(o)@ + concat(all.take(i as int), html_cell()),
    {
        proof {
            lemma_concat_step(all, html_cell(), i as int);
        }
        push_wrapped("<td>", row[i].as_str(), "</td>", o);
    }
}

/// Appends the rows of a table.
fn push_rows(rows: &Vec<Vec<String>>, o: &mut String)
    ensures
        final(o)@ == old(o)@ + concat(row_views(rows@), html_row()),
{
    broadcast use lemma_add_assoc;

    let ghost all = row_views(rows@);
    proof {
        lemma_concat_ends(all, html_row());
    }
    for i in 0..rows.len()
        invariant
            all == row_views(rows@),
            o@ == old(o)@ + concat(all.take(i as int), html_row()),
    {
        proof {
            lemma_concat_step(all, html_row(), i as int);
        }
        o.append("<tr>");
        push_cells(&rows[i], o);
        o.append("</tr>\n");
    }
}

/// Appends the fields of a record.
fn push_fields(fields: &Vec<Field>, o: &mut String)
    ensures
        final(o)@ == old(o)@ + concat(field_views(fields@), html_field()),
{
    broadcast use lemma_add_assoc;

    let ghost all = field_views(fields@);
    proof {
        lemma_concat_ends(all, html_field());
    }
    for i in 0..fields.len()
        invariant
            all == field_views(fields@),
            o@ == old(o)@ + concat(all.take(i as int), html_field()),
    {
        proof {
            lemma_concat_step(all, html_field(), i as int);
        }
        o.append("  <dt>");
        o.append(esc(fields[i].key.as_str()).as_str());
        o.append("</dt><dd>");
        o.append(esc(fields[i].value.as_str()).as_str());
        o.append("</dd>\n");
    }
}

/// Appends a block in HTML.
pub fn emit_html(b: &Block, o: &mut String)
    ensures
        final(o)@ == old(o)@ + html_block(b@),
    decreases b,
{
    broadcast use lemma_add_assoc;

    proof {
        lemma_children_view(*b);
    }
    match b {
        Block::Document { children } => emit_html_all(children, o),
        Block::Section { children } => emit_html_all(children, o),
        Block::Heading { level, text } => {
            let l: u8 = if *level < 1 {
                1
            } else if *level > 6 {
                6
            } else {
                *level
            };
            let digits = decimal_of(l as u128);
            o.append("<h");
            o.append(digits.as_str());
            o.append(">");
            o.append(esc(text.as_str()).as_str());
            o.append("</h");
            o.append(digits.as_str());
            o.append(">\n");
        },
        Block::Paragraph { text } => push_wrapped("<p>", text.as_str(), "</p>\n", o),
        Block::Quote { text } => push_wrapped(
            "<blockquote>",
            text.as_str(),
            "</blockquote>\n",
            o,
        ),
        Block::List { ordered, items } => {
            let tag = if *ordered {
                "ol"
            } else {
                "ul"
            };
            o.append("<");
            o.append(tag);
            o.append(">\n");
            push_items(items, o);
            o.append("</");
            o.append(tag);
            o.append(">\n");
        },
        Block::Code { text, .. } => push_wrapped(
            "<pre><code>",
            text.as_str(),
            "</code></pre>\n",
            o,
        ),
        Block::Table { headers, rows } => {
            o.append("<table>\n<thead><tr>");
            push_headers(headers, o);
            o.append("</tr></thead>\n<tbody>\n");
            push_rows(rows, o);
            o.append("</tbody>\n</table>\n");
        },
        Block::Record { fields } => {
            o.append("<dl>\n");
            push_fields(fields, o);
            o.append("</dl>\n");
        },
        Block::Unsupported { note } => push_wrapped(
            "<!-- unsupported: ",
            note.as_str(),
            " -->\n",
            o,
        ),
    }
}

/// Appends each block in HTML.
fn emit_html_all(blocks: &Vec<Block>, o: &mut String)
    ensures
        final(o)@ == old(o)@ + html_blocks(block_views(blocks@)),
    decreases blocks,
{
    broadcast use lemma_add_assoc;

    let ghost all = block_views(blocks@);
    assert(all.take(all.len() as int) =~= all);
    assert(o@ + html_blocks(all.take(0)) =~= o@);
    for i in 0..blocks.len()
        invariant
            all == block_views(blocks@),
            o@ == old(o)@ + html_blocks(all.take(i as int)),
    {
        assert(all.take(i + 1).drop_last() =~= all.take(i as int));
        emit_html(&blocks[i], o);
    }
}

/// What HTML output of a document is.
pub open spec fn html(doc: DocumentView) -> Seq<char> {
    "<!doctype html>\n<html>\n<head><meta charset=\"utf-8\">"@ + (match doc.title {
        Some(t) => "<title>"@ + escape(t) + "</title>"@,
        None => Seq::empty(),
    }) + "</head>\n<body>\n"@ + html_blocks(doc.blocks) + "</body>\n</html>\n"@
}

/// Writes minimal HTML.
pub struct HtmlEmitter;

impl Emitter for HtmlEmitter {
    open spec fn named(&self) -> Seq<char> {
        "html"@
    }

    open spec fn writes(&self) -> OutputFormat {
        OutputFormat::Html
    }

    open spec fn emits(&self, doc: DocumentView, outcome: Emission) -> bool {
        outcome == Ok::<Seq<char>, ErrorView>(html(doc))
    }

    fn name(&self) -> (s: &'static str) {
        "html"
    }

    fn format(&self) -> (f: OutputFormat) {
        OutputFormat::Html
    }

    fn emit(&self, doc: &DocumentIr) -> (r: Result<String>) {
        broadcast use lemma_add_assoc;

        proof {
            lemma_concat_ends(Seq::<char>::empty(), escapes());
        }
        let mut o = "<!doctype html>\n<html>\n<head><meta charset=\"utf-8\">".to_owned();
        if let Some(t) = &doc.title {
            push_wrapped("<title>", t.as_str(), "</title>", &mut o);
        }
        o.append("</head>\n<body>\n");
        emit_html_all(&doc.blocks, &mut o);
        o.append("</body>\n</html>\n");
        Ok(o)
    }
}

impl PlugEmitter for HtmlEmitter {
    fn plug(self) -> (s: EmitterSlot) {
        EmitterSlot { plugin: Box::new(self) }
    }
}

} // verus!
