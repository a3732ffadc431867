//! What holds of Markdown output: it is written block by block, and reads back.
use crate::emitters::ending::closed_text;
use crate::emitters::markdown::{hashes, md_block, md_blocks, md_item};
use crate::extractors::markdown::{
    ascii_digit, classify, code_lang, code_line, hash, item_line, lemma_run_while_is, line_texts,
    markdown_blocks, not_fence, text_line, LineView,
};
use crate::ir::BlockView;
use crate::text::{
    concat, decimal, is_space, join, lemma_leading_is, lemma_trailing_is, lines, spaces, trim,
    trim_end, trim_start, within_line,
};
use vstd::prelude::*;

verus! {

// ---------------------------------------------------------------------------
// Blocks in a row
// ---------------------------------------------------------------------------

/// Blocks after blocks are written as the ones and then the others.
pub proof fn law_markdown_is_additive(a: Seq<BlockView>, b: Seq<BlockView>)
    ensures
        md_blocks(a + b) == md_blocks(a) + md_blocks(b),
    decreases b.len(),
{
    if b.len() == 0 {
        assert(a + b =~= a);
        assert(md_blocks(a) + md_blocks(b) =~= md_blocks(a));
    } else {
        law_markdown_is_additive(a, b.drop_last());
        assert((a + b).drop_last() =~= a + b.drop_last());
        assert(md_blocks(a + b) =~= md_blocks(a) + md_blocks(b));
    }
}

/// A document or a section is written as its children, one after another, and as nothing if it
/// has none.
pub proof fn law_containers_are_written_as_their_children(children: Seq<BlockView>)
    ensures
        md_block(BlockView::Document { children }) == md_blocks(children),
        md_block(BlockView::Section { children }) == md_blocks(children),
        md_blocks(children) == children.map_values(|c: BlockView| md_block(c)).flatten(),
        md_blocks(Seq::empty()) == Seq::<char>::empty(),
    decreases children.len(),
{
    let parts = children.map_values(|c: BlockView| md_block(c));
    if children.len() > 0 {
        let front = children.drop_last();
        let before = front.map_values(|c: BlockView| md_block(c));
        law_containers_are_written_as_their_children(front);
        before.lemma_flatten_push(md_block(children.last()));
        assert(before.push(md_block(children.last())) =~= parts);
    }
}

/// A list of one block is written as that block.
pub proof fn law_block_is_written_alone(b: BlockView)
    ensures
        md_blocks(seq![b]) == md_block(b),
{
    assert(seq![b].drop_last() =~= Seq::empty());
    assert(md_blocks(Seq::empty()) =~= Seq::empty());
    assert(md_blocks(seq![b]) =~= md_block(b));
}

// ---------------------------------------------------------------------------
// Lines
// ---------------------------------------------------------------------------

/// Whether text can stand on a line and keep its ends.
pub open spec fn on_a_line(s: Seq<char>) -> bool {
    s.len() > 0 && !is_space(s[0]) && !is_space(s.last()) && forall|i: int|
        0 <= i < s.len() ==> #[trigger] s[i] != '\n'
}

/// Whether a line is one, and keeps its end when it is read.
pub open spec fn is_line(l: Seq<char>) -> bool {
    (forall|i: int| 0 <= i < l.len() ==> #[trigger] l[i] != '\n') && (l.len() > 0 ==> l.last()
        != '\r')
}

/// Text with solid ends is trimmed.
proof fn lemma_solid_ends(s: Seq<char>)
    requires
        s.len() > 0,
        !is_space(s[0]),
        !is_space(s.last()),
    ensures
        trim_start(s) == s,
        trim_end(s) == s,
        trim(s) == s,
{
    lemma_leading_is(s, spaces(), 0);
    lemma_trailing_is(s, spaces(), 0);
    assert(trim_start(s) =~= s);
    assert(trim_end(s) =~= s);
}

/// A blank in front is trimmed away.
proof fn lemma_blank_in_front(s: Seq<char>)
    requires
        on_a_line(s),
    ensures
        trim(" "@ + s) == s,
{
    reveal_strlit(" ");
    let t = " "@ + s;
    assert(t.last() == s.last());
    lemma_trailing_is(t, spaces(), 0);
    assert(trim_end(t) =~= t);
    assert(t[0] == ' ');
    assert(is_space(' '));
    assert(t[1] == s[0]);
    lemma_leading_is(t, spaces(), 1);
    assert(trim_start(t) =~= s);
}

/// A line in front is the first of the lines.
proof fn lemma_line_in_front(l: Seq<char>, rest: Seq<char>)
    requires
        is_line(l),
    ensures
        lines(l + "\n"@ + rest) == seq![l] + lines(rest),
{
    reveal_strlit("\n");
    let s = l + "\n"@ + rest;
    let n = l.len() as int;
    assert forall|i: int| 0 <= i < n implies within_line()(#[trigger] s[i]) by {
        assert(s[i] == l[i]);
    }
    assert(s[n] == '\n');
    lemma_leading_is(s, within_line(), n as nat);
    assert(s.take(n) =~= l);
    assert(s.skip(n + 1) =~= rest);
}

/// Lines after lines.
proof fn lemma_lines_add(a: Seq<Seq<char>>, b: Seq<Seq<char>>)
    ensures
        concat(a + b, code_line()) == concat(a, code_line()) + concat(b, code_line()),
    decreases b.len(),
{
    let f = code_line();
    if b.len() == 0 {
        assert(a + b =~= a);
        assert(concat(a, f) + concat(b, f) =~= concat(a, f));
    } else {
        lemma_lines_add(a, b.drop_last());
        assert((a + b).drop_last() =~= a + b.drop_last());
        assert(concat(a + b, f) =~= concat(a, f) + concat(b, f));
    }
}

/// A single line.
proof fn lemma_one_line(l: Seq<char>)
    ensures
        concat(seq![l], code_line()) == l + "\n"@,
{
    assert(seq![l].drop_last() =~= Seq::empty());
    assert(concat(Seq::<Seq<char>>::empty(), code_line()) =~= Seq::empty());
    assert(concat(seq![l], code_line()) =~= l + "\n"@);
}

/// Lines, each with its line feed, are the lines of what they make.
proof fn lemma_lines_back(ls: Seq<Seq<char>>)
    requires
        forall|i: int| 0 <= i < ls.len() ==> is_line(#[trigger] ls[i]),
    ensures
        lines(concat(ls, code_line())) == ls,
    decreases ls.len(),
{
    if ls.len() == 0 {
        assert(lines(concat(ls, code_line())) =~= ls);
    } else {
        let rest = ls.skip(1);
        assert forall|i: int| 0 <= i < rest.len() implies is_line(#[trigger] rest[i]) by {
            assert(rest[i] == ls[i + 1]);
        }
        lemma_lines_back(rest);
        assert(ls =~= seq![ls[0]] + rest);
        lemma_lines_add(seq![ls[0]], rest);
        lemma_one_line(ls[0]);
        assert(is_line(ls[0]));
        lemma_line_in_front(ls[0], concat(rest, code_line()));
    }
}

// ---------------------------------------------------------------------------
// What each line says
// ---------------------------------------------------------------------------

/// The line of a heading.
spec fn heading_line(level: nat, text: Seq<char>) -> Seq<char> {
    hashes(level) + " "@ + text
}

/// The line of a quote.
spec fn quote_line(text: Seq<char>) -> Seq<char> {
    "> "@ + text
}

/// What stands before a list item.
spec fn marker(ordered: bool, i: int) -> Seq<char> {
    if ordered {
        decimal((i + 1) as nat) + ". "@
    } else {
        "- "@
    }
}

/// The lines of a list.
spec fn item_lines(ordered: bool, items: Seq<Seq<char>>) -> Seq<Seq<char>> {
    Seq::new(items.len(), |i: int| marker(ordered, i) + items[i])
}

/// The line that opens code.
spec fn opening_line(lang: Option<Seq<char>>) -> Seq<char> {
    "```"@ + (match lang {
        Some(l) => l,
        None => Seq::empty(),
    })
}

/// A line that does not open with a backtick is no fence.
proof fn lemma_no_fence(l: Seq<char>)
    requires
        l.len() > 0,
        l[0] != '`',
        !is_space(l[0]),
    ensures
        !("```"@.is_prefix_of(trim_start(l))),
{
    reveal_strlit("```");
    lemma_leading_is(l, spaces(), 0);
    assert(trim_start(l) =~= l);
    if "```"@.is_prefix_of(l) {
        assert("```"@[0] == l[0]);
    }
}

/// A heading reads as one.
proof fn lemma_heading_line(level: nat, text: Seq<char>)
    requires
        1 <= level <= 6,
        on_a_line(text),
    ensures
        classify(heading_line(level, text)) == (LineView::Heading { level, text }),
        is_line(heading_line(level, text)),
        !is_space(heading_line(level, text).last()),
{
    reveal_strlit(" ");
    let l = heading_line(level, text);
    assert(l[0] == '#');
    assert(l.last() == text.last());
    lemma_no_fence(l);
    lemma_solid_ends(l);
    assert(l[level as int] == ' ');
    lemma_leading_is(l, hash(), level);
    assert(l.skip(level as int) =~= " "@ + text);
    lemma_blank_in_front(text);
    assert forall|i: int| 0 <= i < l.len() implies #[trigger] l[i] != '\n' by {
        if i > level {
            assert(l[i] == text[i - level - 1]);
        }
    }
}

/// A quote reads as one.
proof fn lemma_quote_line(text: Seq<char>)
    requires
        on_a_line(text),
    ensures
        classify(quote_line(text)) == (LineView::Quote { text }),
        is_line(quote_line(text)),
        !is_space(quote_line(text).last()),
{
    reveal_strlit("> ");
    reveal_strlit(" ");
    let l = quote_line(text);
    assert(l[0] == '>');
    assert(l.last() == text.last());
    lemma_no_fence(l);
    lemma_solid_ends(l);
    lemma_leading_is(l, hash(), 0);
    lemma_leading_is(l, ascii_digit(), 0);
    assert(l.skip(1) =~= " "@ + text);
    lemma_blank_in_front(text);
    assert forall|i: int| 0 <= i < l.len() implies #[trigger] l[i] != '\n' by {
        if i >= 2 {
            assert(l[i] == text[i - 2]);
        }
    }
}

/// Decimal numbers are made of digits.
proof fn lemma_decimal_digits(n: nat)
    ensures
        decimal(n).len() > 0,
        forall|i: int| 0 <= i < decimal(n).len() ==> ascii_digit()(#[trigger] decimal(n)[i]),
    decreases n,
{
    if n >= 10 {
        lemma_decimal_digits(n / 10);
        let front = decimal(n / 10);
        assert forall|i: int| 0 <= i < decimal(n).len() implies ascii_digit()(
            #[trigger] decimal(n)[i],
        ) by {
            if i < front.len() {
                assert(ascii_digit()(front[i]));
            }
        }
    }
}

/// A line after its marker is a line.
proof fn lemma_marked_line(m: Seq<char>, text: Seq<char>)
    requires
        forall|k: int| 0 <= k < m.len() ==> #[trigger] m[k] != '\n',
        on_a_line(text),
    ensures
        is_line(m + text),
        !is_space((m + text).last()),
{
    let l = m + text;
    assert(l.last() == text.last());
    assert forall|k: int| 0 <= k < l.len() implies #[trigger] l[k] != '\n' by {
        if k >= m.len() {
            assert(l[k] == text[k - m.len()]);
        } else {
            assert(l[k] == m[k]);
        }
    }
}

/// An item of an unordered list reads as one.
proof fn lemma_bullet_line(text: Seq<char>)
    requires
        on_a_line(text),
    ensures
        classify("- "@ + text) == (LineView::Item { ordered: false, text }),
        is_line("- "@ + text),
        !is_space(("- "@ + text).last()),
{
    reveal_strlit("- ");
    let l = "- "@ + text;
    lemma_marked_line("- "@, text);
    assert(l[0] == '-');
    assert(l[1] == ' ');
    assert(l.skip(2) =~= text);
    lemma_no_fence(l);
    lemma_solid_ends(l);
    lemma_solid_ends(text);
    lemma_leading_is(l, hash(), 0);
}

/// An item of an ordered list reads as one.
proof fn lemma_number_line(n: nat, text: Seq<char>)
    requires
        on_a_line(text),
    ensures
        classify(decimal(n) + ". "@ + text) == (LineView::Item { ordered: true, text }),
        is_line(decimal(n) + ". "@ + text),
        !is_space((decimal(n) + ". "@ + text).last()),
{
    reveal_strlit(". ");
    let d = decimal(n);
    let m = d + ". "@;
    let l = m + text;
    let k = d.len() as int;
    lemma_decimal_digits(n);
    assert forall|j: int| 0 <= j < m.len() implies #[trigger] m[j] != '\n' by {
        if j < k {
            assert(ascii_digit()(d[j]));
        } else {
            assert(m[j] == ". "@[j - k]);
        }
    }
    lemma_marked_line(m, text);
    assert forall|j: int| 0 <= j < k implies ascii_digit()(#[trigger] l[j]) by {
        assert(l[j] == d[j]);
    }
    assert(l[k] == '.');
    assert(l[k + 1] == ' ');
    lemma_leading_is(l, ascii_digit(), k as nat);
    assert(ascii_digit()(l[0]));
    assert(l.skip(k + 2) =~= text);
    lemma_no_fence(l);
    lemma_solid_ends(l);
    lemma_solid_ends(text);
    lemma_leading_is(l, hash(), 0);
}

/// A list item reads as one.
proof fn lemma_item_line(ordered: bool, i: int, text: Seq<char>)
    requires
        i >= 0,
        on_a_line(text),
    ensures
        classify(marker(ordered, i) + text) == (LineView::Item { ordered, text }),
        is_line(marker(ordered, i) + text),
        !is_space((marker(ordered, i) + text).last()),
{
    if ordered {
        lemma_number_line((i + 1) as nat, text);
    } else {
        lemma_bullet_line(text);
    }
}

/// The opening line of code reads as a fence.
proof fn lemma_opening_line(lang: Option<Seq<char>>)
    requires
        lang matches Some(l) ==> on_a_line(l),
    ensures
        classify(opening_line(lang)) is Fence,
        code_lang(classify(opening_line(lang))->info) == lang,
        is_line(opening_line(lang)),
        !is_space(opening_line(lang).last()),
{
    reveal_strlit("```");
    let l = opening_line(lang);
    let info = l.skip(3);
    assert(l[0] == '`' && l[1] == '`' && l[2] == '`');
    lemma_leading_is(l, spaces(), 0);
    assert(trim_start(l) =~= l);
    assert("```"@.is_prefix_of(l));
    match lang {
        Some(s) => {
            assert(info =~= s);
            assert(l.last() == s.last());
            lemma_solid_ends(s);
            assert forall|k: int| 0 <= k < l.len() implies #[trigger] l[k] != '\n' by {
                if k >= 3 {
                    assert(l[k] == s[k - 3]);
                }
            }
        },
        None => {
            assert(info =~= Seq::empty());
            assert(trim(info) =~= Seq::empty());
        },
    }
}

/// An empty line is blank.
proof fn lemma_empty_line()
    ensures
        classify(Seq::<char>::empty()) is Blank,
        is_line(Seq::<char>::empty()),
{
    reveal_strlit("```");
    let e = Seq::<char>::empty();
    assert(trim_start(e) =~= e);
    assert(trim_end(e) =~= e);
}

// ---------------------------------------------------------------------------
// Blocks
// ---------------------------------------------------------------------------

/// Whether a block reads back as it is: a heading of a level that Markdown has, a paragraph on
/// one line that does not look like anything else, a quote on one line, a list whose items
/// stand on one line each, or code that ends in a line feed and holds no fence.
pub open spec fn reads_back(b: BlockView) -> bool {
    match b {
        BlockView::Heading { level, text } => 1 <= level <= 6 && on_a_line(text),
        BlockView::Paragraph { text } => on_a_line(text) && classify(text) is Text,
        BlockView::Quote { text } => on_a_line(text),
        BlockView::List { items, .. } => items.len() > 0 && forall|i: int|
            0 <= i < items.len() ==> on_a_line(#[trigger] items[i]),
        BlockView::Code { lang, text } => {
            &&& lang matches Some(l) ==> on_a_line(l)
            &&& text.len() > 0
            &&& text == concat(lines(text), code_line())
            &&& forall|i: int|
                0 <= i < lines(text).len() ==> is_line(#[trigger] lines(text)[i]) && not_fence()(
                    lines(text)[i],
                )
        },
        _ => false,
    }
}

/// The lines of a block, without the blank one after it.
spec fn body(b: BlockView) -> Seq<Seq<char>> {
    match b {
        BlockView::Heading { level, text } => seq![heading_line(level as nat, text)],
        BlockView::Paragraph { text } => seq![text],
        BlockView::Quote { text } => seq![quote_line(text)],
        BlockView::List { ordered, items } => item_lines(ordered, items),
        BlockView::Code { lang, text } => seq![opening_line(lang)] + lines(text) + seq!["```"@],
        _ => Seq::empty(),
    }
}

/// The lines of a list are its items, each with its marker.
proof fn lemma_item_lines(ordered: bool, items: Seq<Seq<char>>)
    ensures
        concat(items, md_item(ordered)) == concat(item_lines(ordered, items), code_line()),
    decreases items.len(),
{
    let ls = item_lines(ordered, items);
    if items.len() > 0 {
        let front = items.drop_last();
        lemma_item_lines(ordered, front);
        assert(item_lines(ordered, front) =~= ls.drop_last());
        assert(md_item(ordered)(items.len() - 1, items.last()) =~= ls.last() + "\n"@);
    }
}

/// A block is written as its lines and a blank one.
proof fn lemma_body_text(b: BlockView)
    requires
        reads_back(b),
    ensures
        md_block(b) == concat(body(b), code_line()) + "\n"@,
{
    reveal_strlit("\n");
    reveal_strlit("\n\n");
    let f = code_line();
    match b {
        BlockView::Heading { level, text } => {
            lemma_one_line(heading_line(level as nat, text));
            assert(md_block(b) =~= concat(body(b), f) + "\n"@);
        },
        BlockView::Paragraph { text } => {
            lemma_one_line(text);
            assert(md_block(b) =~= concat(body(b), f) + "\n"@);
        },
        BlockView::Quote { text } => {
            lemma_one_line(quote_line(text));
            assert(md_block(b) =~= concat(body(b), f) + "\n"@);
        },
        BlockView::List { ordered, items } => {
            lemma_item_lines(ordered, items);
        },
        BlockView::Code { lang, text } => {
            let open = opening_line(lang);
            let ls = lines(text);
            lemma_one_line(open);
            lemma_one_line("```"@);
            lemma_lines_add(seq![open], ls);
            lemma_lines_add(seq![open] + ls, seq!["```"@]);
            lemma_ends_in_feed(ls);
            reveal_strlit("```\n\n");
            reveal_strlit("```");
            assert("```\n\n"@ =~= "```"@ + "\n"@ + "\n"@);
            assert(concat(body(b), f) == open + "\n"@ + text + ("```"@ + "\n"@));
            assert(md_block(b) =~= concat(body(b), f) + "\n"@);
        },
        _ => {},
    }
}

/// Lines end in a line feed.
proof fn lemma_ends_in_feed(ls: Seq<Seq<char>>)
    requires
        concat(ls, code_line()).len() > 0,
    ensures
        concat(ls, code_line()).last() == '\n',
{
    reveal_strlit("\n");
}

/// The lines of a block are lines, and the last of them ends solid.
proof fn lemma_body_lines(b: BlockView)
    requires
        reads_back(b),
    ensures
        body(b).len() > 0,
        forall|i: int| 0 <= i < body(b).len() ==> is_line(#[trigger] body(b)[i]),
        body(b).last().len() > 0,
        !is_space(body(b).last().last()),
{
    match b {
        BlockView::Heading { level, text } => lemma_heading_line(level as nat, text),
        BlockView::Paragraph { text } => {},
        BlockView::Quote { text } => lemma_quote_line(text),
        BlockView::List { ordered, items } => {
            assert forall|i: int| 0 <= i < body(b).len() implies is_line(#[trigger] body(b)[i])
                && body(b)[i].len() > 0 && !is_space(body(b)[i].last()) by {
                assert(on_a_line(items[i]));
                lemma_item_line(ordered, i, items[i]);
            }
        },
        BlockView::Code { lang, text } => {
            lemma_opening_line(lang);
            lemma_opening_line(None);
            assert(opening_line(None) =~= "```"@);
            assert forall|i: int| 0 <= i < body(b).len() implies is_line(#[trigger] body(b)[i]) by {
                if 0 < i < body(b).len() - 1 {
                    assert(body(b)[i] == lines(text)[i - 1]);
                }
            }
        },
        _ => {},
    }
}

/// The lines of a list make that list.
proof fn lemma_list_reads(ordered: bool, items: Seq<Seq<char>>, tail: Seq<Seq<char>>)
    requires
        reads_back(BlockView::List { ordered, items }),
        tail.len() > 0 ==> classify(tail[0]) is Blank,
    ensures
        markdown_blocks(item_lines(ordered, items) + tail) == seq![
            BlockView::List { ordered, items },
        ] + markdown_blocks(tail),
{
    let ls = item_lines(ordered, items) + tail;
    let rest = ls.skip(1);
    let n = items.len() as int;
    assert forall|i: int| 0 <= i < n implies classify(#[trigger] ls[i]) == (LineView::Item {
        ordered,
        text: items[i],
    }) by {
        assert(ls[i] == item_lines(ordered, items)[i]);
        assert(on_a_line(items[i]));
        lemma_item_line(ordered, i, items[i]);
    }
    assert forall|i: int| 0 <= i < n - 1 implies item_line(ordered)(#[trigger] rest[i]) by {
        assert(rest[i] == ls[i + 1]);
    }
    if n - 1 < rest.len() {
        assert(rest[n - 1] == tail[0]);
    }
    lemma_run_while_is(rest, item_line(ordered), (n - 1) as nat);
    assert(ls.skip(n) =~= tail);
    let texts = line_texts(ls.take(n));
    assert(texts =~= items) by {
        assert forall|i: int| 0 <= i < n implies texts[i] == items[i] by {
            assert(ls.take(n)[i] == ls[i]);
        }
    }
    assert(classify(ls[0]) is Item);
}

/// The lines of code make that code.
proof fn lemma_code_reads(lang: Option<Seq<char>>, text: Seq<char>, tail: Seq<Seq<char>>)
    requires
        reads_back(BlockView::Code { lang, text }),
    ensures
        markdown_blocks(seq![opening_line(lang)] + lines(text) + seq!["```"@] + tail) == seq![
            BlockView::Code { lang, text },
        ] + markdown_blocks(tail),
{
    let code = lines(text);
    let ls = seq![opening_line(lang)] + code + seq!["```"@] + tail;
    let rest = ls.skip(1);
    let n = code.len() as int;
    lemma_opening_line(lang);
    lemma_opening_line(None);
    assert(opening_line(None) =~= "```"@);
    assert(ls[0] == opening_line(lang));
    assert forall|i: int| 0 <= i < n implies not_fence()(#[trigger] rest[i]) by {
        assert(rest[i] == code[i]);
    }
    assert(rest[n] == "```"@);
    lemma_run_while_is(rest, not_fence(), n as nat);
    assert(rest.take(n) =~= code);
    assert(rest.skip(n + 1) =~= tail);
}

/// The line of a paragraph makes that paragraph.
proof fn lemma_paragraph_reads(text: Seq<char>, tail: Seq<Seq<char>>)
    requires
        reads_back(BlockView::Paragraph { text }),
        tail.len() > 0 ==> classify(tail[0]) is Blank,
    ensures
        markdown_blocks(seq![text] + tail) == seq![BlockView::Paragraph { text }]
            + markdown_blocks(tail),
{
    let ls = seq![text] + tail;
    assert(ls.skip(1) =~= tail);
    assert(ls[0] == text);
    lemma_run_while_is(tail, text_line(), 0);
    lemma_solid_ends(text);
    assert(line_texts(ls.take(1)) =~= seq![text]);
    assert(join(seq![text], " "@) == text);
}

/// The lines of a block make that block, whatever follows the blank line after it.
proof fn lemma_body_reads(b: BlockView, tail: Seq<Seq<char>>)
    requires
        reads_back(b),
        tail.len() > 0 ==> classify(tail[0]) is Blank,
    ensures
        markdown_blocks(body(b) + tail) == seq![b] + markdown_blocks(tail),
{
    let ls = body(b) + tail;
    match b {
        BlockView::Heading { level, text } => {
            lemma_heading_line(level as nat, text);
            assert(ls[0] == heading_line(level as nat, text));
            assert(ls.skip(1) =~= tail);
        },
        BlockView::Paragraph { text } => lemma_paragraph_reads(text, tail),
        BlockView::Quote { text } => {
            lemma_quote_line(text);
            assert(ls[0] == quote_line(text));
            assert(ls.skip(1) =~= tail);
        },
        BlockView::List { ordered, items } => lemma_list_reads(ordered, items, tail),
        BlockView::Code { lang, text } => lemma_code_reads(lang, text, tail),
        _ => {},
    }
}

/// The lines of a list of blocks: a blank line between neighbours.
spec fn bodies(bs: Seq<BlockView>) -> Seq<Seq<char>>
    decreases bs.len(),
{
    if bs.len() == 0 {
        Seq::empty()
    } else if bs.len() == 1 {
        body(bs[0])
    } else {
        body(bs[0]) + (seq![Seq::<char>::empty()] + bodies(bs.skip(1)))
    }
}

/// Blocks are written as their lines and a blank one; these are lines, and the last of them
/// ends solid.
proof fn lemma_bodies(bs: Seq<BlockView>)
    requires
        bs.len() > 0,
        forall|i: int| 0 <= i < bs.len() ==> reads_back(#[trigger] bs[i]),
    ensures
        md_blocks(bs) == concat(bodies(bs), code_line()) + "\n"@,
        bodies(bs).len() > 0,
        forall|i: int| 0 <= i < bodies(bs).len() ==> is_line(#[trigger] bodies(bs)[i]),
        bodies(bs).last().len() > 0,
        !is_space(bodies(bs).last().last()),
        markdown_blocks(bodies(bs)) == bs,
    decreases bs.len(),
{
    let b = bs[0];
    let rest = bs.skip(1);
    let all = bodies(bs);
    lemma_body_text(b);
    lemma_body_lines(b);
    law_markdown_is_additive(seq![b], rest);
    law_block_is_written_alone(b);
    assert(seq![b] + rest =~= bs);
    if bs.len() == 1 {
        assert(rest =~= Seq::empty());
        assert(md_blocks(bs) =~= md_block(b));
        lemma_body_reads(b, Seq::empty());
        assert(body(b) + Seq::<Seq<char>>::empty() =~= body(b));
        assert(markdown_blocks(Seq::empty()) =~= Seq::empty());
        assert(seq![b] + Seq::<BlockView>::empty() =~= bs);
    } else {
        assert forall|i: int| 0 <= i < rest.len() implies reads_back(#[trigger] rest[i]) by {
            assert(rest[i] == bs[i + 1]);
        }
        lemma_bodies(rest);
        let gap = seq![Seq::<char>::empty()];
        let tail = gap + bodies(rest);
        lemma_empty_line();
        lemma_lines_add(body(b), tail);
        lemma_lines_add(gap, bodies(rest));
        lemma_one_line(Seq::empty());
        assert(Seq::<char>::empty() + "\n"@ =~= "\n"@);
        assert(md_blocks(bs) =~= concat(all, code_line()) + "\n"@);
        assert forall|i: int| 0 <= i < all.len() implies is_line(#[trigger] all[i]) by {
            let k = body(b).len() as int;
            if i < k {
                assert(all[i] == body(b)[i]);
            } else if i > k {
                assert(all[i] == bodies(rest)[i - k - 1]);
            }
        }
        assert(all.last() == bodies(rest).last());
        assert(tail[0] == Seq::<char>::empty());
        lemma_body_reads(b, tail);
        assert(tail.skip(1) =~= bodies(rest));
        assert(markdown_blocks(tail) == bs.skip(1));
        assert(seq![b] + rest =~= bs);
    }
}

/// What was written as Markdown is read back as it was, where every block is one that Markdown
/// can tell.
pub proof fn law_markdown_reads_back(bs: Seq<BlockView>)
    requires
        forall|i: int| 0 <= i < bs.len() ==> reads_back(#[trigger] bs[i]),
    ensures
        markdown_blocks(lines(closed_text(md_blocks(bs)))) == bs,
{
    reveal_strlit("\n");
    let s = md_blocks(bs);
    if bs.len() == 0 {
        lemma_empty_line();
        assert(trim_end(s) =~= Seq::empty());
        lemma_line_in_front(Seq::empty(), Seq::empty());
        assert(closed_text(s) =~= Seq::<char>::empty() + "\n"@ + Seq::<char>::empty());
        assert(lines(Seq::<char>::empty()) =~= Seq::empty());
        let one = seq![Seq::<char>::empty()];
        assert(lines(closed_text(s)) =~= one);
        assert(one.skip(1) =~= Seq::empty());
        assert(markdown_blocks(Seq::empty()) =~= bs);
        assert(classify(one[0]) is Blank);
    } else {
        lemma_bodies(bs);
        let ls = bodies(bs);
        let text = concat(ls, code_line());
        let last = ls.last();
        assert(text == concat(ls.drop_last(), code_line()) + (last + "\n"@));
        let n = s.len() as int;
        assert(s[n - 1] == '\n');
        assert(s[n - 2] == '\n');
        assert(s[n - 3] == last.last());
        assert(is_space('\n'));
        lemma_trailing_is(s, spaces(), 2);
        assert(closed_text(s) =~= text);
        lemma_lines_back(ls);
    }
}

} // verus!
