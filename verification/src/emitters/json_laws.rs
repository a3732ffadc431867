//! What holds of JSON output: it is line-delimited.
use crate::bridge::json::{hex_digit, json_char, json_chars, json_string};
use crate::emitters::json::{
    json_array, json_block, json_blocks, json_document, json_entries, json_entry, json_field,
    json_fields, json_header, json_leading_member, json_line, json_metadata, json_rows,
    json_sorted_source, json_source, json_strings, json_trailing_member, json_warning,
    json_warnings, jsonl, lemma_json_blocks, ndjson,
};
use crate::ir::{BlockView, DocumentView, SourceView};
use crate::text::{concat, decimal, digit, join, lemma_leading_is, lines, within_line};
use crate::text_map::listing;
use vstd::prelude::*;

verus! {

/// Whether `s` holds no control character of ASCII, line feeds included.
#[verifier::opaque]
pub open spec fn printable(s: Seq<char>) -> bool {
    forall|i: int| 0 <= i < s.len() ==> #[trigger] s[i] >= ' '
}

/// Printable text followed by printable text is printable.
broadcast proof fn lemma_printable_add(a: Seq<char>, b: Seq<char>)
    requires
        printable(a),
        printable(b),
    ensures
        printable(#[trigger] (a + b)),
{
    reveal(printable);
    assert forall|i: int| 0 <= i < (a + b).len() implies #[trigger] (a + b)[i] >= ' ' by {
        if i < a.len() {
            assert((a + b)[i] == a[i]);
        } else {
            assert((a + b)[i] == b[i - a.len()]);
        }
    }
}

/// Printable parts make a printable whole.
proof fn lemma_printable_join(parts: Seq<Seq<char>>)
    requires
        forall|i: int| 0 <= i < parts.len() ==> printable(#[trigger] parts[i]),
    ensures
        printable(join(parts, ","@)),
    decreases parts.len(),
{
    broadcast use lemma_printable_add;

    assert(printable(","@)) by {
        reveal(printable);
        reveal_strlit(",");
    }
    if parts.len() == 0 {
        reveal(printable);
    } else if parts.len() == 1 {
        assert(printable(parts[0]));
    } else if parts.len() > 1 {
        assert forall|i: int| 0 <= i < parts.drop_last().len() implies printable(
            #[trigger] parts.drop_last()[i],
        ) by {
            assert(parts.drop_last()[i] == parts[i]);
        }
        lemma_printable_join(parts.drop_last());
        assert(printable(parts[parts.len() - 1]));
    }
}

/// An array of printable values is printable.
proof fn lemma_printable_array(parts: Seq<Seq<char>>)
    requires
        forall|i: int| 0 <= i < parts.len() ==> printable(#[trigger] parts[i]),
    ensures
        printable(json_array(parts)),
{
    broadcast use lemma_printable_add;

    lemma_printable_join(parts);
    assert(printable("["@)) by {
        reveal(printable);
        reveal_strlit("[");
    }
    assert(printable("]"@)) by {
        reveal(printable);
        reveal_strlit("]");
    }
}

/// What a string is written as is printable, whatever it holds.
broadcast proof fn lemma_printable_string(s: Seq<char>)
    ensures
        printable(#[trigger] json_string(s)),
{
    broadcast use lemma_printable_add;

    lemma_printable_chars(s);
    assert(printable(seq!['"'])) by {
        reveal(printable);
    }
}

/// The characters of a string are written printable.
proof fn lemma_printable_chars(s: Seq<char>)
    ensures
        printable(concat(s, json_chars())),
    decreases s.len(),
{
    broadcast use lemma_printable_add;

    if s.len() > 0 {
        lemma_printable_chars(s.drop_last());
        lemma_printable_char(s.last());
    } else {
        reveal(printable);
    }
}

/// A character is written printable.
proof fn lemma_printable_char(c: char)
    ensures
        printable(json_char(c)),
{
    reveal(printable);
    let u = c as u32;
    if u < 0x20 {
        assert(u / 16 < 2);
        assert(hex_digit((u / 16) as nat) >= ' ');
        assert(hex_digit((u % 16) as nat) >= ' ');
    } else {
        assert(c >= ' ');
    }
}

/// Numbers are printable.
broadcast proof fn lemma_printable_decimal(n: nat)
    ensures
        printable(#[trigger] decimal(n)),
    decreases n,
{
    reveal(printable);
    assert(forall|d: nat| d < 10 ==> #[trigger] digit(d) >= ' ');
    if n >= 10 {
        lemma_printable_decimal(n / 10);
    }
}

/// Arrays of strings, rows and fields are printable.
proof fn lemma_printable_lists(
    s: Seq<Seq<char>>,
    rows: Seq<Seq<Seq<char>>>,
    fields: Seq<crate::ir::FieldView>,
)
    ensures
        printable(json_array(json_strings(s))),
        printable(json_array(json_rows(rows))),
        printable(json_array(json_fields(fields))),
{
    broadcast use {lemma_printable_add, lemma_printable_string};

    assert forall|i: int| 0 <= i < json_strings(s).len() implies printable(
        #[trigger] json_strings(s)[i],
    ) by {
        assert(json_strings(s)[i] == json_string(s[i]));
    }
    lemma_printable_array(json_strings(s));
    assert forall|i: int| 0 <= i < json_rows(rows).len() implies printable(
        #[trigger] json_rows(rows)[i],
    ) by {
        let row = json_strings(rows[i]);
        assert forall|j: int| 0 <= j < row.len() implies printable(#[trigger] row[j]) by {
            assert(row[j] == json_string(rows[i][j]));
        }
        lemma_printable_array(row);
    }
    lemma_printable_array(json_rows(rows));
    assert(printable("{\"key\":"@)) by {
        reveal(printable);
        reveal_strlit("{\"key\":");
    }
    assert(printable(",\"value\":"@)) by {
        reveal(printable);
        reveal_strlit(",\"value\":");
    }
    assert(printable("}"@)) by {
        reveal(printable);
        reveal_strlit("}");
    }
    assert forall|i: int| 0 <= i < json_fields(fields).len() implies printable(
        #[trigger] json_fields(fields)[i],
    ) by {
        assert(json_fields(fields)[i] == json_field(fields[i]));
    }
    lemma_printable_array(json_fields(fields));
}

/// A block is written on one line.
pub proof fn law_json_block_is_printable(b: BlockView)
    ensures
        printable(json_block(b)),
    decreases b,
{
    broadcast use {lemma_printable_add, lemma_printable_string, lemma_printable_decimal};

    assert(printable(Seq::empty())) by {
        reveal(printable);
    }
    assert(printable("}"@)) by {
        reveal(printable);
        reveal_strlit("}");
    }
    match b {
        BlockView::Document { children } => {
            assert(printable("{\"kind\":\"document\",\"children\":"@)) by {
                reveal(printable);
                reveal_strlit("{\"kind\":\"document\",\"children\":");
            }
            lemma_printable_blocks(children);
        },
        BlockView::Section { children } => {
            assert(printable("{\"kind\":\"section\",\"children\":"@)) by {
                reveal(printable);
                reveal_strlit("{\"kind\":\"section\",\"children\":");
            }
            lemma_printable_blocks(children);
        },
        BlockView::Heading { .. } => {
            assert(printable("{\"kind\":\"heading\",\"level\":"@)) by {
                reveal(printable);
                reveal_strlit("{\"kind\":\"heading\",\"level\":");
            }
            assert(printable(",\"text\":"@)) by {
                reveal(printable);
                reveal_strlit(",\"text\":");
            }
        },
        BlockView::Paragraph { .. } => {
            assert(printable("{\"kind\":\"paragraph\",\"text\":"@)) by {
                reveal(printable);
                reveal_strlit("{\"kind\":\"paragraph\",\"text\":");
            }
        },
        BlockView::List { ordered, items } => {
            assert(printable("{\"kind\":\"list\",\"ordered\":"@)) by {
                reveal(printable);
                reveal_strlit("{\"kind\":\"list\",\"ordered\":");
            }
            assert(printable(",\"items\":"@)) by {
                reveal(printable);
                reveal_strlit(",\"items\":");
            }
            assert(printable("true"@)) by {
                reveal(printable);
                reveal_strlit("true");
            }
            assert(printable("false"@)) by {
                reveal(printable);
                reveal_strlit("false");
            }
            lemma_printable_lists(items, Seq::empty(), Seq::empty());
        },
        BlockView::Table { headers, rows } => {
            assert(printable("{\"kind\":\"table\",\"headers\":"@)) by {
                reveal(printable);
                reveal_strlit("{\"kind\":\"table\",\"headers\":");
            }
            assert(printable(",\"rows\":"@)) by {
                reveal(printable);
                reveal_strlit(",\"rows\":");
            }
            lemma_printable_lists(headers, rows, Seq::empty());
        },
        BlockView::Record { fields } => {
            assert(printable("{\"kind\":\"record\",\"fields\":"@)) by {
                reveal(printable);
                reveal_strlit("{\"kind\":\"record\",\"fields\":");
            }
            lemma_printable_lists(Seq::empty(), Seq::empty(), fields);
        },
        BlockView::Code { lang, text } => {
            assert(printable("{\"kind\":\"code\""@)) by {
                reveal(printable);
                reveal_strlit("{\"kind\":\"code\"");
            }
            assert(printable(",\"lang\":"@)) by {
                reveal(printable);
                reveal_strlit(",\"lang\":");
            }
            assert(printable(",\"text\":"@)) by {
                reveal(printable);
                reveal_strlit(",\"text\":");
            }
        },
        BlockView::Quote { .. } => {
            assert(printable("{\"kind\":\"quote\",\"text\":"@)) by {
                reveal(printable);
                reveal_strlit("{\"kind\":\"quote\",\"text\":");
            }
        },
        BlockView::Unsupported { .. } => {
            assert(printable("{\"kind\":\"unsupported\",\"note\":"@)) by {
                reveal(printable);
                reveal_strlit("{\"kind\":\"unsupported\",\"note\":");
            }
        },
    }
}

/// An array of blocks is printable.
proof fn lemma_printable_blocks(bs: Seq<BlockView>)
    ensures
        printable(json_array(json_blocks(bs))),
        forall|i: int| 0 <= i < json_blocks(bs).len() ==> printable(#[trigger] json_blocks(bs)[i]),
    decreases bs,
{
    lemma_json_blocks(bs);
    assert forall|i: int| 0 <= i < json_blocks(bs).len() implies printable(
        #[trigger] json_blocks(bs)[i],
    ) by {
        law_json_block_is_printable(bs[i]);
    }
    lemma_printable_array(json_blocks(bs));
}

/// Provenance is printable.
proof fn lemma_printable_source(s: SourceView)
    ensures
        printable(json_source(s)),
        printable(json_sorted_source(s)),
{
    broadcast use {lemma_printable_add, lemma_printable_string, lemma_printable_decimal};

    assert(printable(Seq::empty())) by {
        reveal(printable);
    }
    assert(printable("{"@)) by {
        reveal(printable);
        reveal_strlit("{");
    }
    assert(printable("}"@)) by {
        reveal(printable);
        reveal_strlit("}");
    }
    assert(printable(","@)) by {
        reveal(printable);
        reveal_strlit(",");
    }
    assert(printable("\"path\":"@)) by {
        reveal(printable);
        reveal_strlit("\"path\":");
    }
    assert(printable("\"media_type\":"@)) by {
        reveal(printable);
        reveal_strlit("\"media_type\":");
    }
    assert(printable("\"detected_format\":"@)) by {
        reveal(printable);
        reveal_strlit("\"detected_format\":");
    }
    assert(printable(",\"bytes\":"@)) by {
        reveal(printable);
        reveal_strlit(",\"bytes\":");
    }
    assert(printable("{\"bytes\":"@)) by {
        reveal(printable);
        reveal_strlit("{\"bytes\":");
    }
    assert(printable(",\"detected_format\":"@)) by {
        reveal(printable);
        reveal_strlit(",\"detected_format\":");
    }
    assert(printable(json_leading_member("\"path\":"@, s.path)));
    assert(printable(json_leading_member("\"media_type\":"@, s.media_type)));
    assert(printable(json_trailing_member("\"path\":"@, s.path)));
    assert(printable(json_trailing_member("\"media_type\":"@, s.media_type)));
}

/// A document is written on one line, and so is its header.
pub proof fn law_json_document_is_printable(doc: DocumentView)
    ensures
        printable(json_document(doc)),
        printable(json_header(doc)),
{
    broadcast use {lemma_printable_add, lemma_printable_string};

    assert(printable(Seq::empty())) by {
        reveal(printable);
    }
    lemma_printable_source(doc.source);
    lemma_printable_blocks(doc.blocks);
    assert(printable("{\"id\":"@)) by {
        reveal(printable);
        reveal_strlit("{\"id\":");
    }
    assert(printable(",\"source\":"@)) by {
        reveal(printable);
        reveal_strlit(",\"source\":");
    }
    assert(printable("\"title\":"@)) by {
        reveal(printable);
        reveal_strlit("\"title\":");
    }
    assert(printable(",\"title\":"@)) by {
        reveal(printable);
        reveal_strlit(",\"title\":");
    }
    assert(printable(","@)) by {
        reveal(printable);
        reveal_strlit(",");
    }
    assert(printable(":"@)) by {
        reveal(printable);
        reveal_strlit(":");
    }
    assert(printable("null"@)) by {
        reveal(printable);
        reveal_strlit("null");
    }
    assert(printable(",\"type\":\"document\"}"@)) by {
        reveal(printable);
        reveal_strlit(",\"type\":\"document\"}");
    }
    assert(printable(",\"metadata\":"@)) by {
        reveal(printable);
        reveal_strlit(",\"metadata\":");
    }
    assert(printable("{}"@)) by {
        reveal(printable);
        reveal_strlit("{}");
    }
    assert(printable("{\"extra\":{"@)) by {
        reveal(printable);
        reveal_strlit("{\"extra\":{");
    }
    assert(printable("}}"@)) by {
        reveal(printable);
        reveal_strlit("}}");
    }
    assert(printable(",\"blocks\":"@)) by {
        reveal(printable);
        reveal_strlit(",\"blocks\":");
    }
    assert(printable(",\"warnings\":"@)) by {
        reveal(printable);
        reveal_strlit(",\"warnings\":");
    }
    assert(printable("{\"code\":"@)) by {
        reveal(printable);
        reveal_strlit("{\"code\":");
    }
    assert(printable(",\"message\":"@)) by {
        reveal(printable);
        reveal_strlit(",\"message\":");
    }
    assert(printable("}"@)) by {
        reveal(printable);
        reveal_strlit("}");
    }
    assert(printable(json_trailing_member("\"title\":"@, doc.title)));
    let entries = json_entries(doc.metadata);
    assert forall|i: int| 0 <= i < entries.len() implies printable(#[trigger] entries[i]) by {
        assert(entries[i] == json_entry(listing(doc.metadata)[i]));
    }
    lemma_printable_join(entries);
    assert(printable(json_metadata(doc.metadata)));
    let warnings = json_warnings(doc.warnings);
    assert forall|i: int| 0 <= i < warnings.len() implies printable(#[trigger] warnings[i]) by {
        assert(warnings[i] == json_warning(doc.warnings[i]));
    }
    lemma_printable_array(warnings);
}

/// A printable line in front is the first of the lines.
proof fn lemma_first_line(line: Seq<char>, rest: Seq<char>)
    requires
        printable(line),
    ensures
        lines(line + "\n"@ + rest) == seq![line] + lines(rest),
{
    reveal(printable);
    reveal_strlit("\n");
    let s = line + "\n"@ + rest;
    let n = line.len() as int;
    assert forall|i: int| 0 <= i < n implies within_line()(#[trigger] s[i]) by {
        assert(s[i] == line[i]);
        assert(line[i] >= ' ');
    }
    assert(s[n] == '\n');
    lemma_leading_is(s, within_line(), n as nat);
    assert(s.take(n) =~= line);
    assert(s.skip(n + 1) =~= rest);
    if n > 0 {
        assert(line[n - 1] >= ' ');
    }
}

/// Printable lines, each with its line feed, are the lines of what they make.
proof fn lemma_lines_of(head: Seq<char>, parts: Seq<Seq<char>>)
    requires
        printable(head),
        forall|i: int| 0 <= i < parts.len() ==> printable(#[trigger] parts[i]),
    ensures
        lines(head + "\n"@ + concat(parts, json_line())) == seq![head] + parts,
    decreases parts.len(),
{
    lemma_first_line(head, concat(parts, json_line()));
    if parts.len() == 0 {
        assert(lines(concat(parts, json_line())) =~= Seq::empty());
        assert(seq![head] + parts =~= seq![head] + lines(concat(parts, json_line())));
    } else {
        let rest = parts.skip(1);
        assert forall|i: int| 0 <= i < rest.len() implies printable(#[trigger] rest[i]) by {
            assert(rest[i] == parts[i + 1]);
        }
        assert(printable(parts[0]));
        lemma_lines_of(parts[0], rest);
        lemma_concat_front(parts);
        assert(seq![parts[0]] + rest =~= parts);
    }
}

/// A concatenation of lines, seen from its front.
proof fn lemma_concat_front(parts: Seq<Seq<char>>)
    requires
        parts.len() > 0,
    ensures
        concat(parts, json_line()) == parts[0] + "\n"@ + concat(parts.skip(1), json_line()),
    decreases parts.len(),
{
    let front = parts.drop_last();
    if parts.len() == 1 {
        assert(front =~= Seq::empty());
        assert(parts.skip(1) =~= Seq::empty());
        assert(concat(parts, json_line()) =~= parts[0] + "\n"@ + concat(
            parts.skip(1),
            json_line(),
        ));
    } else {
        lemma_concat_front(front);
        assert(front.skip(1) =~= parts.skip(1).drop_last());
        assert(concat(parts, json_line()) =~= parts[0] + "\n"@ + concat(
            parts.skip(1),
            json_line(),
        ));
    }
}

/// JSONL output is the header line, then one line for each top-level block.
pub proof fn law_jsonl_has_a_line_per_block(doc: DocumentView)
    ensures
        lines(jsonl(doc)) == seq![json_header(doc)] + json_blocks(doc.blocks),
        lines(jsonl(doc)).len() == doc.blocks.len() + 1,
{
    law_json_document_is_printable(doc);
    lemma_printable_blocks(doc.blocks);
    lemma_json_blocks(doc.blocks);
    lemma_lines_of(json_header(doc), json_blocks(doc.blocks));
}

/// NDJSON output is one line. Its only line feed is its last character.
pub proof fn law_ndjson_is_one_line(doc: DocumentView)
    ensures
        lines(ndjson(doc)) == seq![json_document(doc)],
        forall|i: int|
            0 <= i < ndjson(doc).len() ==> (#[trigger] ndjson(doc)[i] == '\n' <==> i == ndjson(
                doc,
            ).len() - 1),
{
    assert forall|i: int| 0 <= i < ndjson(doc).len() implies (#[trigger] ndjson(doc)[i] == '\n'
        <==> i == ndjson(doc).len() - 1) by {
        law_json_document_is_printable(doc);
        reveal(printable);
        reveal_strlit("\n");
        if i < json_document(doc).len() {
            assert(json_document(doc)[i] >= ' ');
        }
    }
    law_json_document_is_printable(doc);
    lemma_first_line(json_document(doc), Seq::empty());
    assert(json_document(doc) + "\n"@ + Seq::<char>::empty() =~= ndjson(doc));
    assert(lines(Seq::<char>::empty()) =~= Seq::empty());
    assert(seq![json_document(doc)] + Seq::<Seq<char>>::empty() =~= seq![json_document(doc)]);
}

} // verus!
