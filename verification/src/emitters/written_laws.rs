//! What holds of written blocks: every part of a block is written, in order and in its own way.
use crate::bridge::json::json_string;
use crate::emitters::ending::closed_text;
use crate::emitters::html::{
    escape, heading_level, html, html_block, html_blocks, html_cell, html_field, html_header,
    html_item, html_row,
};
use crate::emitters::json::{
    json_blocks, json_document, json_header, json_source, json_trailing_member, jsonl,
};
use crate::emitters::markdown::{
    markdown, md_block, md_blocks, md_field, md_item, md_row, md_rule,
};
use crate::emitters::plain::{
    plain, plain_block, plain_blocks, plain_field, plain_item, plain_row,
};
use crate::ir::{
    block_text, blocks_text, field_lines, line, row_lines, text_lines, BlockView, DocumentView,
    FieldView,
};
use crate::text::{
    concat, decimal, is_space, join, lemma_trailing_bounds, spaces, trim_end,
};
use crate::text_map::listing;
use vstd::prelude::*;

verus! {

/// What `g` makes of each element, one after the other.
pub open spec fn one_by_one<A>(s: Seq<A>, g: spec_fn(A) -> Seq<char>) -> Seq<char> {
    s.map_values(g).flatten()
}

/// A concatenation is what its function makes of each element.
proof fn lemma_one_by_one<A>(
    s: Seq<A>,
    f: spec_fn(int, A) -> Seq<char>,
    g: spec_fn(A) -> Seq<char>,
)
    requires
        forall|i: int, x: A| #[trigger] f(i, x) == g(x),
    ensures
        concat(s, f) == one_by_one(s, g),
    decreases s.len(),
{
    if s.len() > 0 {
        let front = s.drop_last();
        lemma_one_by_one(front, f, g);
        front.map_values(g).lemma_flatten_push(g(s.last()));
        assert(front.map_values(g).push(g(s.last())) =~= s.map_values(g));
        assert(f(s.len() - 1, s.last()) == g(s.last()));
    }
}

/// What is made of each part, one after the other.
proof fn lemma_numbered(s: Seq<Seq<char>>, f: spec_fn(int, Seq<char>) -> Seq<char>)
    ensures
        concat(s, f) == Seq::new(s.len(), |i: int| f(i, s[i])).flatten(),
    decreases s.len(),
{
    let parts = Seq::new(s.len(), |i: int| f(i, s[i]));
    if s.len() > 0 {
        let front = s.drop_last();
        let before = Seq::new(front.len(), |i: int| f(i, front[i]));
        lemma_numbered(front, f);
        before.lemma_flatten_push(f(s.len() - 1, s.last()));
        assert(before.push(f(s.len() - 1, s.last())) =~= parts);
    } else {
        assert(parts =~= Seq::empty());
    }
}

// ---------------------------------------------------------------------------
// Plain text
// ---------------------------------------------------------------------------

/// In plain text, prose and notes are written as they are with a blank line after them, list
/// items after dashes, rows with tabs between their cells and fields after their keys, all of
/// them in order, and code as it is.
pub proof fn law_plain_text_writes_every_part(b: BlockView)
    ensures
        b matches BlockView::Heading { text, .. } ==> plain_block(b) == text + "\n\n"@,
        b matches BlockView::Paragraph { text } ==> plain_block(b) == text + "\n\n"@,
        b matches BlockView::Quote { text } ==> plain_block(b) == text + "\n\n"@,
        b matches BlockView::Unsupported { note } ==> plain_block(b) == note + "\n\n"@,
        b matches BlockView::Code { text, .. } ==> plain_block(b) == (if text.len() > 0
            && text.last() == '\n' {
            text + "\n"@
        } else {
            text + "\n"@ + "\n"@
        }),
        b matches BlockView::List { items, .. } ==> plain_block(b) == one_by_one(
            items,
            |t: Seq<char>| "- "@ + t + "\n"@,
        ) + "\n"@,
        b matches BlockView::Table { headers, rows } ==> plain_block(b) == one_by_one(
            seq![headers] + rows,
            |r: Seq<Seq<char>>| join(r, "\t"@) + "\n"@,
        ) + "\n"@,
        b matches BlockView::Record { fields } ==> plain_block(b) == one_by_one(
            fields,
            |f: FieldView| f.key + ": "@ + f.value + "\n"@,
        ) + "\n"@,
{
    match b {
        BlockView::List { items, .. } => {
            lemma_one_by_one(items, plain_item(), |t: Seq<char>| "- "@ + t + "\n"@);
        },
        BlockView::Table { headers, rows } => {
            let g = |r: Seq<Seq<char>>| join(r, "\t"@) + "\n"@;
            lemma_one_by_one(rows, plain_row(), g);
            let all = seq![headers] + rows;
            assert(all.map_values(g).first() == g(headers));
            assert(all.map_values(g).drop_first() =~= rows.map_values(g));
        },
        BlockView::Record { fields } => {
            lemma_one_by_one(
                fields,
                plain_field(),
                |f: FieldView| f.key + ": "@ + f.value + "\n"@,
            );
        },
        BlockView::Code { text, .. } => {
            if text.len() > 0 && text.last() == '\n' {
                assert(text + Seq::<char>::empty() =~= text);
            }
        },
        _ => {},
    }
}

// ---------------------------------------------------------------------------
// Markdown
// ---------------------------------------------------------------------------

/// In Markdown, a heading stands behind as many hashes as its level, a quote behind its mark, a
/// list item behind a dash or, in an ordered list, its number from one on; cells stand between
/// bars, under the headers a rule for each, fields behind their keys in bold, code between
/// fences; all of them in order.
pub proof fn law_markdown_writes_every_part(b: BlockView)
    ensures
        b matches BlockView::Heading { level, text } ==> md_block(b) == Seq::new(
            level as nat,
            |i: int| '#',
        ) + " "@ + text + "\n\n"@,
        b matches BlockView::Paragraph { text } ==> md_block(b) == text + "\n\n"@,
        b matches BlockView::Quote { text } ==> md_block(b) == "> "@ + text + "\n\n"@,
        b matches BlockView::Unsupported { note } ==> md_block(b) == "> [!warning] "@ + note
            + "\n\n"@,
        b matches BlockView::Code { lang, text } ==> md_block(b) == "```"@ + (match lang {
            Some(l) => l,
            None => Seq::empty(),
        }) + "\n"@ + text + (if text.len() > 0 && text.last() == '\n' {
            Seq::empty()
        } else {
            "\n"@
        }) + "```\n\n"@,
        b matches BlockView::List { ordered: false, items } ==> md_block(b) == one_by_one(
            items,
            |t: Seq<char>| "- "@ + t + "\n"@,
        ) + "\n"@,
        b matches BlockView::List { ordered: true, items } ==> md_block(b) == Seq::new(
            items.len(),
            |i: int| decimal((i + 1) as nat) + ". "@ + items[i] + "\n"@,
        ).flatten() + "\n"@,
        b matches BlockView::Table { headers, rows } ==> md_block(b) == "| "@ + join(
            headers,
            " | "@,
        ) + " |\n|"@ + one_by_one(headers, |h: Seq<char>| " --- |"@) + "\n"@ + one_by_one(
            rows,
            |r: Seq<Seq<char>>| "| "@ + join(r, " | "@) + " |\n"@,
        ) + "\n"@,
        b matches BlockView::Record { fields } ==> md_block(b) == one_by_one(
            fields,
            |f: FieldView| "- **"@ + f.key + "**: "@ + f.value + "\n"@,
        ) + "\n"@,
{
    match b {
        BlockView::Heading { level, .. } => {
            assert(crate::emitters::markdown::hashes(level as nat) =~= Seq::new(
                level as nat,
                |i: int| '#',
            ));
        },
        BlockView::List { ordered, items } => {
            if ordered {
                lemma_numbered(items, md_item(true));
                assert(Seq::new(items.len(), |i: int| md_item(true)(i, items[i])) =~= Seq::new(
                    items.len(),
                    |i: int| decimal((i + 1) as nat) + ". "@ + items[i] + "\n"@,
                ));
            } else {
                lemma_one_by_one(items, md_item(false), |t: Seq<char>| "- "@ + t + "\n"@);
            }
        },
        BlockView::Table { headers, rows } => {
            lemma_one_by_one(headers, md_rule(), |h: Seq<char>| " --- |"@);
            lemma_one_by_one(
                rows,
                md_row(),
                |r: Seq<Seq<char>>| "| "@ + join(r, " | "@) + " |\n"@,
            );
        },
        BlockView::Record { fields } => {
            lemma_one_by_one(
                fields,
                md_field(),
                |f: FieldView| "- **"@ + f.key + "**: "@ + f.value + "\n"@,
            );
        },
        _ => {},
    }
}

// ---------------------------------------------------------------------------
// HTML
// ---------------------------------------------------------------------------

/// In HTML, each kind of block is an element of its own, and each text, item, cell, key and value
/// is escaped in an element of its own, all of them in order. A heading keeps its level as far as
/// there are elements for it, and a note is a comment.
pub proof fn law_html_writes_every_part(b: BlockView)
    ensures
        b matches BlockView::Heading { level, text } ==> {
            let tag = "h"@ + decimal(
                if level == 0 {
                    1nat
                } else if level >= 6 {
                    6nat
                } else {
                    level as nat
                },
            );
            html_block(b) == "<"@ + tag + ">"@ + escape(text) + "</"@ + tag + ">\n"@
        },
        b matches BlockView::Paragraph { text } ==> html_block(b) == "<p>"@ + escape(text)
            + "</p>\n"@,
        b matches BlockView::Quote { text } ==> html_block(b) == "<blockquote>"@ + escape(text)
            + "</blockquote>\n"@,
        b matches BlockView::Code { text, .. } ==> html_block(b) == "<pre><code>"@ + escape(text)
            + "</code></pre>\n"@,
        b matches BlockView::Unsupported { note } ==> html_block(b) == "<!-- unsupported: "@
            + escape(note) + " -->\n"@,
        b matches BlockView::List { ordered, items } ==> html_block(b) == "<"@ + (if ordered {
            "ol"@
        } else {
            "ul"@
        }) + ">\n"@ + one_by_one(items, |t: Seq<char>| "  <li>"@ + escape(t) + "</li>\n"@) + "</"@ + (
        if ordered {
            "ol"@
        } else {
            "ul"@
        }) + ">\n"@,
        b matches BlockView::Table { headers, rows } ==> html_block(b)
            == "<table>\n<thead><tr>"@ + one_by_one(
            headers,
            |h: Seq<char>| "<th>"@ + escape(h) + "</th>"@,
        ) + "</tr></thead>\n<tbody>\n"@ + one_by_one(
            rows,
            |r: Seq<Seq<char>>|
                "<tr>"@ + one_by_one(r, |c: Seq<char>| "<td>"@ + escape(c) + "</td>"@)
                    + "</tr>\n"@,
        ) + "</tbody>\n</table>\n"@,
        b matches BlockView::Record { fields } ==> html_block(b) == "<dl>\n"@ + one_by_one(
            fields,
            |f: FieldView|
                "  <dt>"@ + escape(f.key) + "</dt><dd>"@ + escape(f.value) + "</dd>\n"@,
        ) + "</dl>\n"@,
{
    match b {
        BlockView::Heading { level, text } => {
            reveal_strlit("<h");
            reveal_strlit("<");
            reveal_strlit("h");
            reveal_strlit("</h");
            reveal_strlit("</");
            let n = decimal(heading_level(level));
            assert("<h"@ + n =~= "<"@ + ("h"@ + n));
            let front = "<"@ + ("h"@ + n) + ">"@ + escape(text);
            assert(front + "</h"@ + n =~= front + "</"@ + ("h"@ + n));
        },
        BlockView::List { items, .. } => {
            lemma_one_by_one(
                items,
                html_item(),
                |t: Seq<char>| "  <li>"@ + escape(t) + "</li>\n"@,
            );
        },
        BlockView::Table { headers, rows } => {
            lemma_one_by_one(
                headers,
                html_header(),
                |h: Seq<char>| "<th>"@ + escape(h) + "</th>"@,
            );
            let cell = |c: Seq<char>| "<td>"@ + escape(c) + "</td>"@;
            let g = |r: Seq<Seq<char>>|
                "<tr>"@ + one_by_one(r, |c: Seq<char>| "<td>"@ + escape(c) + "</td>"@)
                    + "</tr>\n"@;
            assert forall|i: int, r: Seq<Seq<char>>| #[trigger] html_row()(i, r) == g(r) by {
                lemma_one_by_one(r, html_cell(), cell);
            }
            lemma_one_by_one(rows, html_row(), g);
        },
        BlockView::Record { fields } => {
            lemma_one_by_one(
                fields,
                html_field(),
                |f: FieldView|
                    "  <dt>"@ + escape(f.key) + "</dt><dd>"@ + escape(f.value) + "</dd>\n"@,
            );
        },
        _ => {},
    }
}

/// A page has the title of the document, escaped, if it has one, and its blocks in the body.
pub proof fn law_html_page_has_title_and_body(doc: DocumentView)
    ensures
        doc.title matches Some(t) ==> html(doc)
            == "<!doctype html>\n<html>\n<head><meta charset=\"utf-8\">"@ + ("<title>"@ + escape(t)
            + "</title>"@) + "</head>\n<body>\n"@ + html_blocks(doc.blocks)
            + "</body>\n</html>\n"@,
        doc.title is None ==> html(doc)
            == "<!doctype html>\n<html>\n<head><meta charset=\"utf-8\">"@ + "</head>\n<body>\n"@
            + html_blocks(doc.blocks) + "</body>\n</html>\n"@,
{
    let head = "<!doctype html>\n<html>\n<head><meta charset=\"utf-8\">"@;
    assert(head + Seq::<char>::empty() =~= head);
}

// ---------------------------------------------------------------------------
// Containers
// ---------------------------------------------------------------------------

/// A document or a section is written as its children, one after the other.
pub proof fn law_containers_are_transparent(children: Seq<BlockView>)
    ensures
        plain_block(BlockView::Document { children }) == plain_blocks(children),
        plain_block(BlockView::Section { children }) == plain_blocks(children),
        html_block(BlockView::Document { children }) == html_blocks(children),
        html_block(BlockView::Section { children }) == html_blocks(children),
        md_block(BlockView::Document { children }) == md_blocks(children),
        md_block(BlockView::Section { children }) == md_blocks(children),
        plain_blocks(children) == one_by_one(children, |b: BlockView| plain_block(b)),
        html_blocks(children) == one_by_one(children, |b: BlockView| html_block(b)),
        md_blocks(children) == one_by_one(children, |b: BlockView| md_block(b)),
        blocks_text(children) == one_by_one(children, |b: BlockView| block_text(b)),
    decreases children.len(),
{
    if children.len() > 0 {
        let front = children.drop_last();
        let last = children.last();
        law_containers_are_transparent(front);
        lemma_next_block(front, last, |b: BlockView| plain_block(b));
        lemma_next_block(front, last, |b: BlockView| html_block(b));
        lemma_next_block(front, last, |b: BlockView| md_block(b));
        lemma_next_block(front, last, |b: BlockView| block_text(b));
        assert(front.push(last) =~= children);
    }
}

/// One more element.
proof fn lemma_next_block<A>(front: Seq<A>, last: A, g: spec_fn(A) -> Seq<char>)
    ensures
        one_by_one(front.push(last), g) == one_by_one(front, g) + g(last),
{
    front.map_values(g).lemma_flatten_push(g(last));
    assert(front.map_values(g).push(g(last)) =~= front.push(last).map_values(g));
}

// ---------------------------------------------------------------------------
// JSON
// ---------------------------------------------------------------------------

/// JSON lines begin with a line that says that it is about a document. What JSON says of nothing
/// is left out: metadata without entries are an empty object, and no warnings are none at all.
pub proof fn law_json_says_what_there_is(doc: DocumentView)
    ensures
        "{\"id\":"@.is_prefix_of(json_header(doc)),
        json_header(doc).skip(
            json_header(doc).len() - ",\"type\":\"document\"}"@.len(),
        ) == ",\"type\":\"document\"}"@,
        json_header(doc).is_prefix_of(jsonl(doc)),
        listing(doc.metadata).len() == 0 && doc.warnings.len() == 0 ==> json_document(doc)
            == "{\"id\":"@ + json_string(doc.id) + ",\"source\":"@ + json_source(doc.source) + (
        match doc.title {
            Some(t) => ",\"title\":"@ + json_string(t),
            None => Seq::empty(),
        }) + ",\"metadata\":"@ + "{}"@ + ",\"blocks\":"@ + ("["@ + join(
            json_blocks(doc.blocks),
            ","@,
        ) + "]"@) + "}"@,
{
    let end = ",\"type\":\"document\"}"@;
    let header = json_header(doc);
    assert(header.skip(header.len() - end.len()) =~= end);
    if doc.warnings.len() == 0 && doc.title is Some {
        let t = json_string(doc.title->0);
        assert(","@ + "\"title\":"@ =~= ",\"title\":"@) by {
            reveal_strlit(",");
            reveal_strlit("\"title\":");
            reveal_strlit(",\"title\":");
        }
        assert(json_trailing_member("\"title\":"@, doc.title) =~= ",\"title\":"@ + t);
    }
}

// ---------------------------------------------------------------------------
// Endings
// ---------------------------------------------------------------------------

/// Plain text and Markdown are the blocks as written, but for the white space at the end, in
/// place of which there is one line feed.
pub proof fn law_only_the_end_is_closed(doc: DocumentView)
    ensures
        is_closed(plain_blocks(doc.blocks), plain(doc)),
        is_closed(md_blocks(doc.blocks), markdown(doc)),
{
    lemma_closed(plain_blocks(doc.blocks));
    lemma_closed(md_blocks(doc.blocks));
}

/// Whether `t` is `s` with a line feed in place of the white space at its end.
pub open spec fn is_closed(s: Seq<char>, t: Seq<char>) -> bool {
    &&& t.len() > 0
    &&& t.last() == '\n'
    &&& t.drop_last().is_prefix_of(s)
    &&& t.len() > 1 ==> !is_space(t[t.len() - 2])
    &&& forall|i: int| t.len() - 1 <= i < s.len() ==> is_space(#[trigger] s[i])
}

/// Closed text is closed.
proof fn lemma_closed(s: Seq<char>)
    ensures
        is_closed(s, closed_text(s)),
{
    reveal_strlit("\n");
    lemma_trailing_bounds(s, spaces());
    let t = closed_text(s);
    let e = trim_end(s);
    assert(t.drop_last() =~= e);
    assert(s.subrange(0, e.len() as int) =~= e);
    assert forall|i: int| t.len() - 1 <= i < s.len() implies is_space(#[trigger] s[i]) by {
        assert(spaces()(s[i]));
    }
    if t.len() > 1 {
        assert(!spaces()(s[e.len() - 1]));
    }
}

// ---------------------------------------------------------------------------
// The text of a document
// ---------------------------------------------------------------------------

/// Lines, one by one.
proof fn lemma_lines_one_by_one(
    parts: Seq<Seq<char>>,
    rows: Seq<Seq<Seq<char>>>,
    fields: Seq<FieldView>,
)
    ensures
        text_lines(parts) == one_by_one(parts, |t: Seq<char>| t + seq!['\n']),
        row_lines(rows, " "@) == one_by_one(rows, |r: Seq<Seq<char>>| join(r, " "@) + seq!['\n']),
        field_lines(fields) == one_by_one(
            fields,
            |f: FieldView| f.key + ": "@ + f.value + seq!['\n'],
        ),
    decreases parts.len() + rows.len() + fields.len(),
{
    let f = |t: Seq<char>| t + seq!['\n'];
    let g = |r: Seq<Seq<char>>| join(r, " "@) + seq!['\n'];
    let h = |f: FieldView| f.key + ": "@ + f.value + seq!['\n'];
    let p = if parts.len() > 0 {
        parts.drop_last()
    } else {
        parts
    };
    let r = if rows.len() > 0 {
        rows.drop_last()
    } else {
        rows
    };
    let k = if fields.len() > 0 {
        fields.drop_last()
    } else {
        fields
    };
    if parts.len() + rows.len() + fields.len() > 0 {
        lemma_lines_one_by_one(p, r, k);
    }
    if parts.len() > 0 {
        p.map_values(f).lemma_flatten_push(f(parts.last()));
        assert(p.map_values(f).push(f(parts.last())) =~= parts.map_values(f));
        assert(line(parts.last()) =~= f(parts.last()));
    }
    if rows.len() > 0 {
        r.map_values(g).lemma_flatten_push(g(rows.last()));
        assert(r.map_values(g).push(g(rows.last())) =~= rows.map_values(g));
        assert(line(join(rows.last(), " "@)) =~= g(rows.last()));
    }
    if fields.len() > 0 {
        k.map_values(h).lemma_flatten_push(h(fields.last()));
        assert(k.map_values(h).push(h(fields.last())) =~= fields.map_values(h));
        assert(line(fields.last().key + ": "@ + fields.last().value) =~= h(fields.last()));
    }
}

/// The text of a block is its texts, items, rows or fields, each on a line and in order; that of
/// a container is the text of what is in it.
pub proof fn law_text_has_a_line_for_every_part(b: BlockView)
    ensures
        b matches BlockView::Heading { text, .. } ==> block_text(b) == text + seq!['\n'],
        b matches BlockView::Paragraph { text } ==> block_text(b) == text + seq!['\n'],
        b matches BlockView::Quote { text } ==> block_text(b) == text + seq!['\n'],
        b matches BlockView::Code { text, .. } ==> block_text(b) == text + seq!['\n'],
        b matches BlockView::Unsupported { note } ==> block_text(b) == note + seq!['\n'],
        b matches BlockView::List { items, .. } ==> block_text(b) == one_by_one(
            items,
            |t: Seq<char>| t + seq!['\n'],
        ),
        b matches BlockView::Table { headers, rows } ==> block_text(b) == one_by_one(
            seq![headers] + rows,
            |r: Seq<Seq<char>>| join(r, " "@) + seq!['\n'],
        ),
        b matches BlockView::Record { fields } ==> block_text(b) == one_by_one(
            fields,
            |f: FieldView| f.key + ": "@ + f.value + seq!['\n'],
        ),
        b matches BlockView::Document { children } ==> block_text(b) == blocks_text(children),
        b matches BlockView::Section { children } ==> block_text(b) == blocks_text(children),
        blocks_text(seq![b]) == block_text(b),
{
    assert forall|s: Seq<char>| #[trigger] line(s) == s + seq!['\n'] by {
        assert(line(s) =~= s + seq!['\n']);
    }
    assert(seq![b].drop_last() =~= Seq::empty());
    assert(blocks_text(seq![b].drop_last()) =~= Seq::empty());
    assert(blocks_text(seq![b]) =~= block_text(b));
    let none = Seq::<Seq<char>>::empty();
    match b {
        BlockView::List { items, .. } => {
            lemma_lines_one_by_one(items, Seq::empty(), Seq::empty());
        },
        BlockView::Table { headers, rows } => {
            let g = |r: Seq<Seq<char>>| join(r, " "@) + seq!['\n'];
            lemma_lines_one_by_one(none, rows, Seq::empty());
            let all = seq![headers] + rows;
            assert(all.map_values(g).first() == g(headers));
            assert(all.map_values(g).drop_first() =~= rows.map_values(g));
        },
        BlockView::Record { fields } => {
            lemma_lines_one_by_one(none, Seq::empty(), fields);
        },
        _ => {},
    }
}

} // verus!
