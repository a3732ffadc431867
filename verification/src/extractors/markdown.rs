//! Markdown: a small line parser for headings, paragraphs, lists, quotes and fenced code.
use crate::bridge::unicode::lossy;
use crate::error::{ErrorView, Result};
use crate::extractors::common::{blank_document, new_document};
use crate::ir::{block_views, opt_view, Block, BlockView, DocumentIr, DocumentView};
use crate::plugin::{str_views, Extraction, Extractor, Input, InputView};
use crate::reducers::cleanup::lemma_block_views_push;
use crate::registry::{ExtractorSlot, PlugExtractor};
use crate::text::{
    after_prefix, chars_of, concat, is_blank, join, joined, leading, lemma_add_assoc,
    lemma_concat_ends, lemma_concat_step, lemma_leading_is, lines, slice_of, split_lines, trim,
    trim_end, trim_start, trimmed, trimmed_end, trimmed_start, views,
};
use vstd::prelude::*;

verus! {

// ---------------------------------------------------------------------------
// Lines
// ---------------------------------------------------------------------------

/// What a line says outside fenced code.
#[verifier::ext_equal]
pub enum LineView {
    /// Opens or closes fenced code; `info` follows the fence.
    Fence { info: Seq<char> },
    Blank,
    Heading { level: nat, text: Seq<char> },
    Item { ordered: bool, text: Seq<char> },
    Quote { text: Seq<char> },
    Text { text: Seq<char> },
}

/// Tells apart the hash sign.
pub open spec fn hash() -> spec_fn(char) -> bool {
    |c: char| c == '#'
}

/// Tells apart the decimal digits.
pub open spec fn ascii_digit() -> spec_fn(char) -> bool {
    |c: char| '0' <= c && c <= '9'
}

/// What follows the fence, if a line is one.
pub open spec fn fence_info(line: Seq<char>) -> Option<Seq<char>> {
    let t = trim_start(line);
    if "```"@.is_prefix_of(t) {
        Some(trim(t.skip("```"@.len() as int)))
    } else {
        None
    }
}

/// Level and text of a heading: one to six hashes at the start of the line, then a blank.
pub open spec fn heading_of(line: Seq<char>) -> Option<(nat, Seq<char>)> {
    let n = leading(line, hash());
    if 1 <= n <= 6 && n < line.len() && line[n as int] == ' ' {
        Some((n, trim(line.skip(n as int))))
    } else {
        None
    }
}

/// Whether `t` opens with a bullet and a blank.
pub open spec fn bulleted(t: Seq<char>) -> bool {
    t.len() >= 2 && (t[0] == '-' || t[0] == '*' || t[0] == '+') && t[1] == ' '
}

/// Whether `t` opens with a number, a dot or a bracket, and a blank.
pub open spec fn numbered(t: Seq<char>) -> bool {
    let n = leading(t, ascii_digit()) as int;
    n > 0 && n + 2 <= t.len() && (t[n] == '.' || t[n] == ')') && t[n + 1] == ' '
}

/// Kind and text of a list item.
pub open spec fn item_of(line: Seq<char>) -> Option<(bool, Seq<char>)> {
    let t = trim_start(line);
    if bulleted(t) {
        Some((false, trim(t.skip(2))))
    } else if numbered(t) {
        Some((true, trim(t.skip(leading(t, ascii_digit()) as int + 2))))
    } else {
        None
    }
}

/// What a line says.
pub open spec fn classify(line: Seq<char>) -> LineView {
    let end = trim_end(line);
    let t = trim_start(end);
    if fence_info(line) is Some {
        LineView::Fence { info: fence_info(line)->0 }
    } else if trim(end).len() == 0 {
        LineView::Blank
    } else if heading_of(end) is Some {
        LineView::Heading { level: (heading_of(end)->0).0, text: (heading_of(end)->0).1 }
    } else if item_of(end) is Some {
        LineView::Item { ordered: (item_of(end)->0).0, text: (item_of(end)->0).1 }
    } else if t.len() > 0 && t[0] == '>' {
        LineView::Quote { text: trim(t.skip(1)) }
    } else {
        LineView::Text { text: trim(end) }
    }
}

/// What a line says.
pub enum Line {
    Fence { info: String },
    Blank,
    Heading { level: u8, text: String },
    Item { ordered: bool, text: String },
    Quote { text: String },
    Text { text: String },
}

impl View for Line {
    type V = LineView;

    open spec fn view(&self) -> LineView {
        match *self {
            Line::Fence { info } => LineView::Fence { info: info@ },
            Line::Blank => LineView::Blank,
            Line::Heading { level, text } => LineView::Heading { level: level as nat, text: text@ },
            Line::Item { ordered, text } => LineView::Item { ordered, text: text@ },
            Line::Quote { text } => LineView::Quote { text: text@ },
            Line::Text { text } => LineView::Text { text: text@ },
        }
    }
}

/// What follows the fence, if a line is one.
fn fence(line: &str) -> (r: Option<String>)
    ensures
        opt_view(r) == fence_info(line@),
{
    let t = trimmed_start(line);
    match after_prefix(t.as_str(), "```") {
        Some(rest) => Some(trimmed(rest.as_str())),
        None => None,
    }
}

/// Level and text of a heading: `## Title` is `(2, "Title")`.
fn heading(line: &str) -> (r: Option<(u8, String)>)
    ensures
        r is Some <==> heading_of(line@) is Some,
        r matches Some(h) ==> heading_of(line@) == Some((h.0 as nat, h.1@)),
{
    let v = chars_of(line);
    let mut n: usize = 0;
    while n < v.len() && v[n] == '#'
        invariant
            n <= v@.len(),
            forall|i: int| 0 <= i < n ==> (#[trigger] v@[i]) == '#',
        decreases v@.len() - n,
    {
        n = n + 1;
    }
    proof {
        lemma_leading_is(v@, hash(), n as nat);
    }
    if 1 <= n && n <= 6 && n < v.len() && v[n] == ' ' {
        let rest = slice_of(&v, n, v.len());
        assert(rest@ =~= line@.skip(n as int));
        Some((n as u8, trimmed(rest.as_str())))
    } else {
        None
    }
}

/// Kind and text of a list item: `- item`, `* item`, `+ item`, `1. item`, `1) item`.
fn list_item(line: &str) -> (r: Option<(bool, String)>)
    ensures
        r is Some <==> item_of(line@) is Some,
        r matches Some(h) ==> item_of(line@) == Some((h.0, h.1@)),
{
    let t = trimmed_start(line);
    let v = chars_of(t.as_str());
    if v.len() >= 2 && (v[0] == '-' || v[0] == '*' || v[0] == '+') && v[1] == ' ' {
        let rest = slice_of(&v, 2, v.len());
        assert(rest@ =~= t@.skip(2));
        return Some((false, trimmed(rest.as_str())));
    }
    let mut n: usize = 0;
    while n < v.len() && '0' <= v[n] && v[n] <= '9'
        invariant
            n <= v@.len(),
            forall|i: int| 0 <= i < n ==> '0' <= (#[trigger] v@[i]) && v@[i] <= '9',
        decreases v@.len() - n,
    {
        n = n + 1;
    }
    proof {
        lemma_leading_is(v@, ascii_digit(), n as nat);
    }
    if n > 0 && v.len() - n >= 2 && (v[n] == '.' || v[n] == ')') && v[n + 1] == ' ' {
        let rest = slice_of(&v, n + 2, v.len());
        assert(rest@ =~= t@.skip(n + 2));
        return Some((true, trimmed(rest.as_str())));
    }
    None
}

/// Text of a quote.
fn quote(line: &str) -> (r: Option<String>)
    ensures
        opt_view(r) == ({
            let t = trim_start(line@);
            if t.len() > 0 && t[0] == '>' {
                Some(trim(t.skip(1)))
            } else {
                None
            }
        }),
{
    let t = trimmed_start(line);
    let v = chars_of(t.as_str());
    if v.len() > 0 && v[0] == '>' {
        let rest = slice_of(&v, 1, v.len());
        assert(rest@ =~= t@.skip(1));
        Some(trimmed(rest.as_str()))
    } else {
        None
    }
}

/// What a line says.
fn read_line(line: &str) -> (r: Line)
    ensures
        r@ == classify(line@),
{
    if let Some(info) = fence(line) {
        return Line::Fence { info };
    }
    let end = trimmed_end(line);
    if is_blank(end.as_str()) {
        return Line::Blank;
    }
    if let Some((level, text)) = heading(end.as_str()) {
        return Line::Heading { level, text };
    }
    if let Some((ordered, text)) = list_item(end.as_str()) {
        return Line::Item { ordered, text };
    }
    if let Some(text) = quote(end.as_str()) {
        return Line::Quote { text };
    }
    Line::Text { text: trimmed(end.as_str()) }
}

// ---------------------------------------------------------------------------
// Blocks
// ---------------------------------------------------------------------------

/// How many lines at the front satisfy `p`.
pub open spec fn run_while(ls: Seq<Seq<char>>, p: spec_fn(Seq<char>) -> bool) -> nat
    decreases ls.len(),
{
    if ls.len() > 0 && p(ls[0]) {
        1 + run_while(ls.skip(1), p)
    } else {
        0
    }
}

/// A run of lines lies within the lines.
pub proof fn lemma_run_while_bound(ls: Seq<Seq<char>>, p: spec_fn(Seq<char>) -> bool)
    ensures
        run_while(ls, p) <= ls.len(),
    decreases ls.len(),
{
    if ls.len() > 0 && p(ls[0]) {
        lemma_run_while_bound(ls.skip(1), p);
    }
}

/// `n` matching lines that are not followed by another are the run.
pub proof fn lemma_run_while_is(ls: Seq<Seq<char>>, p: spec_fn(Seq<char>) -> bool, n: nat)
    requires
        n <= ls.len(),
        forall|i: int| 0 <= i < n ==> p(#[trigger] ls[i]),
        n < ls.len() ==> !p(ls[n as int]),
    ensures
        run_while(ls, p) == n,
    decreases ls.len(),
{
    if n > 0 {
        let rest = ls.skip(1);
        assert(p(ls[0]));
        assert forall|i: int| 0 <= i < n - 1 implies p(#[trigger] rest[i]) by {
            assert(rest[i] == ls[i + 1]);
        }
        lemma_run_while_is(rest, p, (n - 1) as nat);
    }
}

/// Tells apart the lines that are no fences.
pub open spec fn not_fence() -> spec_fn(Seq<char>) -> bool {
    |l: Seq<char>| !(classify(l) is Fence)
}

/// Tells apart the list items of one kind.
pub open spec fn item_line(ordered: bool) -> spec_fn(Seq<char>) -> bool {
    |l: Seq<char>| classify(l) is Item && classify(l)->Item_ordered == ordered
}

/// Tells apart the lines of paragraphs.
pub open spec fn text_line() -> spec_fn(Seq<char>) -> bool {
    |l: Seq<char>| classify(l) is Text
}

/// The text of a list item or a line of a paragraph.
pub open spec fn line_text(l: Seq<char>) -> Seq<char> {
    match classify(l) {
        LineView::Item { text, .. } => text,
        LineView::Text { text } => text,
        _ => Seq::empty(),
    }
}

/// The texts of list items or of the lines of a paragraph.
pub open spec fn line_texts(ls: Seq<Seq<char>>) -> Seq<Seq<char>> {
    ls.map_values(|l: Seq<char>| line_text(l))
}

/// A line of code.
pub open spec fn code_line() -> spec_fn(int, Seq<char>) -> Seq<char> {
    |i: int, l: Seq<char>| l + "\n"@
}

/// The language of fenced code, if one is named.
pub open spec fn code_lang(info: Seq<char>) -> Option<Seq<char>> {
    if info.len() == 0 {
        None
    } else {
        Some(info)
    }
}

/// The blocks that lines make.
///
/// A fence opens code that goes on to the next fence, or to the end. Consecutive items of one
/// kind make a list, consecutive lines of text a paragraph.
pub open spec fn markdown_blocks(ls: Seq<Seq<char>>) -> Seq<BlockView>
    decreases ls.len(),
{
    if ls.len() == 0 {
        Seq::empty()
    } else {
        let rest = ls.skip(1);
        match classify(ls[0]) {
            LineView::Fence { info } => {
                let n = run_while(rest, not_fence()) as int;
                let code = BlockView::Code {
                    lang: code_lang(info),
                    text: concat(rest.take(n), code_line()),
                };
                if n < rest.len() {
                    seq![code] + markdown_blocks(rest.skip(n + 1))
                } else {
                    seq![code]
                }
            },
            LineView::Blank => markdown_blocks(rest),
            LineView::Heading { level, text } => seq![
                BlockView::Heading { level: level as u8, text },
            ] + markdown_blocks(rest),
            LineView::Quote { text } => seq![BlockView::Quote { text }] + markdown_blocks(rest),
            LineView::Item { ordered, .. } => {
                proof {
                    lemma_run_while_bound(rest, item_line(ordered));
                }
                let n = 1 + run_while(rest, item_line(ordered)) as int;
                seq![BlockView::List { ordered, items: line_texts(ls.take(n)) }] + markdown_blocks(
                    ls.skip(n),
                )
            },
            LineView::Text { .. } => {
                proof {
                    lemma_run_while_bound(rest, text_line());
                }
                let n = 1 + run_while(rest, text_line()) as int;
                seq![
                    BlockView::Paragraph { text: join(line_texts(ls.take(n)), " "@) },
                ] + markdown_blocks(ls.skip(n))
            },
        }
    }
}

/// The text of the first heading of level one.
pub open spec fn title_of(bs: Seq<BlockView>) -> Option<Seq<char>>
    decreases bs.len(),
{
    if bs.len() == 0 {
        None
    } else {
        match bs[0] {
            BlockView::Heading { level, text } if level == 1 => Some(text),
            _ => title_of(bs.skip(1)),
        }
    }
}

/// What Markdown holds.
pub open spec fn markdown_document(input: InputView, text: Seq<char>) -> DocumentView {
    let blocks = markdown_blocks(lines(text));
    DocumentView { blocks, title: title_of(blocks), ..blank_document(input) }
}

/// Reads fenced code from line `from` on; returns it with the index of the closing fence.
fn read_code(ls: &Vec<String>, from: usize) -> (r: (String, usize))
    requires
        from <= ls@.len(),
    ensures
        from <= r.1 <= ls@.len(),
        r.1 - from == run_while(views(ls@).skip(from as int), not_fence()),
        r.0@ == concat(views(ls@).skip(from as int).take(r.1 - from), code_line()),
{
    broadcast use lemma_add_assoc;

    let ghost rest = views(ls@).skip(from as int);
    let mut code = String::new();
    let mut i: usize = from;
    proof {
        lemma_concat_ends(rest, code_line());
    }
    while i < ls.len()
        invariant_except_break
            rest == views(ls@).skip(from as int),
            from <= i <= ls@.len(),
            forall|j: int| 0 <= j < i - from ==> not_fence()(#[trigger] rest[j]),
            code@ == concat(rest.take(i - from), code_line()),
        ensures
            from <= i <= ls@.len(),
            forall|j: int| 0 <= j < i - from ==> not_fence()(#[trigger] rest[j]),
            i < ls@.len() ==> !not_fence()(rest[i - from]),
            code@ == concat(rest.take(i - from), code_line()),
        decreases ls@.len() - i,
    {
        assert(rest[i - from] == ls@[i as int]@);
        if fence(ls[i].as_str()).is_some() {
            break;
        }
        proof {
            lemma_concat_step(rest, code_line(), i - from);
        }
        code.append(ls[i].as_str());
        code.append("\n");
        i = i + 1;
    }
    proof {
        lemma_run_while_is(rest, not_fence(), (i - from) as nat);
    }
    (code, i)
}

/// Reads the list items of one kind from line `from` on.
fn read_items(ls: &Vec<String>, from: usize, ordered: bool) -> (r: Vec<String>)
    requires
        from <= ls@.len(),
    ensures
        r@.len() <= ls@.len() - from,
        r@.len() == run_while(views(ls@).skip(from as int), item_line(ordered)),
        views(r@) == line_texts(views(ls@).skip(from as int).take(r@.len() as int)),
{
    let ghost rest = views(ls@).skip(from as int);
    let mut r: Vec<String> = Vec::new();
    let mut i: usize = from;
    while i < ls.len()
        invariant_except_break
            rest == views(ls@).skip(from as int),
            from <= i <= ls@.len(),
            r@.len() == i - from,
            forall|j: int| 0 <= j < i - from ==> item_line(ordered)(#[trigger] rest[j]),
            forall|j: int| 0 <= j < i - from ==> (#[trigger] r@[j])@ == line_text(rest[j]),
        ensures
            from <= i <= ls@.len(),
            r@.len() == i - from,
            forall|j: int| 0 <= j < i - from ==> item_line(ordered)(#[trigger] rest[j]),
            forall|j: int| 0 <= j < i - from ==> (#[trigger] r@[j])@ == line_text(rest[j]),
            i < ls@.len() ==> !item_line(ordered)(rest[i - from]),
        decreases ls@.len() - i,
    {
        assert(rest[i - from] == ls@[i as int]@);
        match read_line(ls[i].as_str()) {
            Line::Item { ordered: o, text } => {
                if o != ordered {
                    break;
                }
                r.push(text);
            },
            _ => {
                break;
            },
        }
        i = i + 1;
    }
    proof {
        lemma_run_while_is(rest, item_line(ordered), (i - from) as nat);
        assert(views(r@) =~= line_texts(rest.take(i - from)));
    }
    r
}

/// Reads the lines of a paragraph from line `from` on.
fn read_texts(ls: &Vec<String>, from: usize) -> (r: Vec<String>)
    requires
        from <= ls@.len(),
    ensures
        r@.len() <= ls@.len() - from,
        r@.len() == run_while(views(ls@).skip(from as int), text_line()),
        views(r@) == line_texts(views(ls@).skip(from as int).take(r@.len() as int)),
{
    let ghost rest = views(ls@).skip(from as int);
    let mut r: Vec<String> = Vec::new();
    let mut i: usize = from;
    while i < ls.len()
        invariant_except_break
            rest == views(ls@).skip(from as int),
            from <= i <= ls@.len(),
            r@.len() == i - from,
            forall|j: int| 0 <= j < i - from ==> text_line()(#[trigger] rest[j]),
            forall|j: int| 0 <= j < i - from ==> (#[trigger] r@[j])@ == line_text(rest[j]),
        ensures
            from <= i <= ls@.len(),
            r@.len() == i - from,
            forall|j: int| 0 <= j < i - from ==> text_line()(#[trigger] rest[j]),
            forall|j: int| 0 <= j < i - from ==> (#[trigger] r@[j])@ == line_text(rest[j]),
            i < ls@.len() ==> !text_line()(rest[i - from]),
        decreases ls@.len() - i,
    {
        assert(rest[i - from] == ls@[i as int]@);
        match read_line(ls[i].as_str()) {
            Line::Text { text } => {
                r.push(text);
            },
            _ => {
                break;
            },
        }
        i = i + 1;
    }
    proof {
        lemma_run_while_is(rest, text_line(), (i - from) as nat);
        assert(views(r@) =~= line_texts(rest.take(i - from)));
    }
    r
}

/// A run that a line opens: the line is counted in.
proof fn lemma_run_opened(ls: Seq<Seq<char>>, p: spec_fn(Seq<char>) -> bool)
    requires
        ls.len() > 0,
        p(ls[0]),
    ensures
        run_while(ls, p) == 1 + run_while(ls.skip(1), p),
{
}

/// The blocks that lines make.
fn read_blocks(ls: &Vec<String>) -> (blocks: Vec<Block>)
    ensures
        block_views(blocks@) == markdown_blocks(views(ls@)),
{
    broadcast use lemma_block_views_push;

    let ghost all = views(ls@);
    let mut blocks: Vec<Block> = Vec::new();
    let mut i: usize = 0;
    assert(all.skip(0) =~= all);
    assert(block_views(blocks@) + markdown_blocks(all) =~= markdown_blocks(all));
    while i < ls.len()
        invariant
            all == views(ls@),
            i <= ls@.len(),
            block_views(blocks@) + markdown_blocks(all.skip(i as int)) == markdown_blocks(all),
        decreases ls@.len() - i,
    {
        let ghost here = all.skip(i as int);
        let ghost rest = all.skip(i + 1);
        let ghost done = block_views(blocks@);
        proof {
            assert(here.skip(1) =~= rest);
            assert(here[0] == ls@[i as int]@);
        }
        match read_line(ls[i].as_str()) {
            Line::Fence { info } => {
                let (text, close) = read_code(ls, i + 1);
                let lang = if info.as_str().is_empty() {
                    None
                } else {
                    Some(info)
                };
                blocks.push(Block::Code { lang, text });
                if close < ls.len() {
                    proof {
                        assert(rest.skip(close - i) =~= all.skip(close + 1));
                        lemma_push_front(done, block_views(blocks@).last(), all.skip(close + 1));
                    }
                    i = close + 1;
                } else {
                    proof {
                        assert(all.skip(close as int) =~= Seq::empty());
                        assert(done + seq![block_views(blocks@).last()] =~= done.push(
                            block_views(blocks@).last(),
                        ));
                        assert(block_views(blocks@) + markdown_blocks(Seq::empty())
                            =~= block_views(blocks@));
                    }
                    i = close;
                }
            },
            Line::Blank => {
                i = i + 1;
            },
            Line::Heading { level, text } => {
                blocks.push(Block::Heading { level, text });
                proof {
                    lemma_push_front(done, block_views(blocks@).last(), rest);
                }
                i = i + 1;
            },
            Line::Quote { text } => {
                blocks.push(Block::Quote { text });
                proof {
                    lemma_push_front(done, block_views(blocks@).last(), rest);
                }
                i = i + 1;
            },
            Line::Item { ordered, .. } => {
                let items = read_items(ls, i, ordered);
                let n: usize = items.len();
                proof {
                    lemma_run_opened(here, item_line(ordered));
                    assert(here.skip(n as int) =~= all.skip(i + n));
                }
                blocks.push(Block::List { ordered, items });
                proof {
                    lemma_push_front(done, block_views(blocks@).last(), all.skip(i + n));
                }
                i = i + n;
            },
            Line::Text { .. } => {
                let texts = read_texts(ls, i);
                let n: usize = texts.len();
                proof {
                    lemma_run_opened(here, text_line());
                    assert(here.skip(n as int) =~= all.skip(i + n));
                }
                blocks.push(Block::Paragraph { text: joined(&texts, " ") });
                proof {
                    lemma_push_front(done, block_views(blocks@).last(), all.skip(i + n));
                }
                i = i + n;
            },
        }
    }
    proof {
        assert(all.skip(i as int) =~= Seq::empty());
        assert(block_views(blocks@) + markdown_blocks(Seq::empty()) =~= block_views(blocks@));
    }
    blocks
}

/// A block moves from the front of what is to come to the end of what is done.
proof fn lemma_push_front(done: Seq<BlockView>, b: BlockView, ls: Seq<Seq<char>>)
    ensures
        done.push(b) + markdown_blocks(ls) == done + (seq![b] + markdown_blocks(ls)),
{
    assert(done.push(b) + markdown_blocks(ls) =~= done + (seq![b] + markdown_blocks(ls)));
}

/// The text of the first heading of level one.
fn find_title(blocks: &Vec<Block>) -> (r: Option<String>)
    ensures
        opt_view(r) == title_of(block_views(blocks@)),
{
    let ghost all = block_views(blocks@);
    assert(all.skip(0) =~= all);
    for i in 0..blocks.len()
        invariant
            all == block_views(blocks@),
            title_of(all.skip(i as int)) == title_of(all),
    {
        proof {
            assert(all.skip(i as int).skip(1) =~= all.skip(i + 1));
            assert(all.skip(i as int)[0] == blocks@[i as int]@);
        }
        if let Block::Heading { level, text } = &blocks[i] {
            if *level == 1 {
                return Some(text.clone());
            }
        }
    }
    None
}

/// Makes Markdown a document.
pub fn read_markdown(input: &Input, text: &str) -> (doc: DocumentIr)
    ensures
        doc@ == markdown_document(input@, text@),
{
    let mut doc = new_document(input);
    let ls = split_lines(text);
    let blocks = read_blocks(&ls);
    doc.title = find_title(&blocks);
    doc.blocks = blocks;
    doc
}

/// A small parser for a subset of Markdown: headings, paragraphs, lists, quotes, fenced code.
pub struct MarkdownExtractor;

impl Extractor for MarkdownExtractor {
    open spec fn named(&self) -> Seq<char> {
        "markdown"@
    }

    open spec fn handles(&self) -> Seq<Seq<char>> {
        seq!["markdown"@]
    }

    open spec fn extracts(&self, input: InputView, outcome: Extraction) -> bool {
        outcome == Ok::<DocumentView, ErrorView>(markdown_document(input, lossy(input.bytes)))
    }

    fn name(&self) -> (s: &'static str) {
        "markdown"
    }

    fn formats(&self) -> (r: &'static [&'static str]) {
        let keys: &'static [&'static str] = &["markdown"];
        assert(str_views(keys@) =~= self.handles());
        keys
    }

    fn extract(&self, input: &Input) -> (r: Result<DocumentIr>) {
        let text = input.text();
        Ok(read_markdown(input, text.as_str()))
    }
}

impl PlugExtractor for MarkdownExtractor {
    fn plug(self) -> (s: ExtractorSlot) {
        ExtractorSlot { plugin: Box::new(self) }
    }
}

// ---------------------------------------------------------------------------
// Laws
// ---------------------------------------------------------------------------

/// How many lines are fences.
pub open spec fn fence_count(ls: Seq<Seq<char>>) -> nat
    decreases ls.len(),
{
    if ls.len() == 0 {
        0
    } else if classify(ls[0]) is Fence {
        1 + fence_count(ls.skip(1))
    } else {
        fence_count(ls.skip(1))
    }
}

/// How many blocks are code.
pub open spec fn code_count(bs: Seq<BlockView>) -> nat
    decreases bs.len(),
{
    if bs.len() == 0 {
        0
    } else if bs[0] is Code {
        1 + code_count(bs.skip(1))
    } else {
        code_count(bs.skip(1))
    }
}

/// Lines before the first fence count for nothing.
pub proof fn lemma_fences_after(ls: Seq<Seq<char>>, n: nat)
    requires
        n <= ls.len(),
        forall|i: int| 0 <= i < n ==> !(classify(#[trigger] ls[i]) is Fence),
    ensures
        fence_count(ls) == fence_count(ls.skip(n as int)),
    decreases ls.len(),
{
    if n == 0 {
        assert(ls.skip(0) =~= ls);
    } else {
        let rest = ls.skip(1);
        assert(!(classify(ls[0]) is Fence));
        assert forall|i: int| 0 <= i < n - 1 implies !(classify(#[trigger] rest[i]) is Fence) by {
            assert(rest[i] == ls[i + 1]);
        }
        lemma_fences_after(rest, (n - 1) as nat);
        assert(rest.skip(n - 1) =~= ls.skip(n as int));
    }
}

/// The lines of a run match, and the one after it does not.
pub proof fn lemma_run_while_elements(ls: Seq<Seq<char>>, p: spec_fn(Seq<char>) -> bool)
    ensures
        run_while(ls, p) <= ls.len(),
        forall|i: int| 0 <= i < run_while(ls, p) ==> p(#[trigger] ls[i]),
        run_while(ls, p) < ls.len() ==> !p(ls[run_while(ls, p) as int]),
    decreases ls.len(),
{
    if ls.len() > 0 && p(ls[0]) {
        let rest = ls.skip(1);
        lemma_run_while_elements(rest, p);
        assert forall|i: int| 0 <= i < run_while(ls, p) implies p(#[trigger] ls[i]) by {
            if i > 0 {
                assert(ls[i] == rest[i - 1]);
            }
        }
    }
}

/// One block in front of the others.
proof fn lemma_count_front(b: BlockView, bs: Seq<BlockView>)
    ensures
        code_count(seq![b] + bs) == code_count(bs) + if b is Code {
            1nat
        } else {
            0nat
        },
{
    assert((seq![b] + bs).skip(1) =~= bs);
}

/// Fences pair up, and each pair makes one block of code. A last one without a partner makes a
/// block too, so that no fence vanishes.
pub proof fn law_fences_make_code(ls: Seq<Seq<char>>)
    ensures
        code_count(markdown_blocks(ls)) == (fence_count(ls) + 1) / 2,
    decreases ls.len(),
{
    if ls.len() > 0 {
        let rest = ls.skip(1);
        match classify(ls[0]) {
            LineView::Fence { info } => {
                lemma_run_while_elements(rest, not_fence());
                let n = run_while(rest, not_fence());
                assert forall|i: int| 0 <= i < n implies !(classify(#[trigger] rest[i]) is Fence) by {
                    assert(not_fence()(rest[i]));
                }
                lemma_fences_after(rest, n);
                let code = BlockView::Code {
                    lang: code_lang(info),
                    text: concat(rest.take(n as int), code_line()),
                };
                if n < rest.len() {
                    let after = rest.skip(n as int + 1);
                    assert(rest.skip(n as int).skip(1) =~= after);
                    assert(fence_count(rest.skip(n as int)) == 1 + fence_count(after));
                    law_fences_make_code(after);
                    lemma_count_front(code, markdown_blocks(after));
                } else {
                    assert(rest.skip(n as int) =~= Seq::empty());
                    assert(fence_count(Seq::<Seq<char>>::empty()) == 0);
                    lemma_count_front(code, Seq::empty());
                    assert(seq![code] + Seq::<BlockView>::empty() =~= seq![code]);
                    assert(code_count(Seq::<BlockView>::empty()) == 0);
                }
            },
            LineView::Blank => law_fences_make_code(rest),
            LineView::Heading { level, text } => {
                law_fences_make_code(rest);
                lemma_count_front(
                    BlockView::Heading { level: level as u8, text },
                    markdown_blocks(rest),
                );
            },
            LineView::Quote { text } => {
                law_fences_make_code(rest);
                lemma_count_front(BlockView::Quote { text }, markdown_blocks(rest));
            },
            LineView::Item { ordered, .. } => {
                lemma_run_while_elements(rest, item_line(ordered));
                let n = 1 + run_while(rest, item_line(ordered));
                assert forall|i: int| 0 <= i < n implies !(classify(#[trigger] ls[i]) is Fence) by {
                    if i > 0 {
                        assert(item_line(ordered)(rest[i - 1]));
                    }
                }
                lemma_fences_after(ls, n);
                law_fences_make_code(ls.skip(n as int));
                lemma_count_front(
                    BlockView::List { ordered, items: line_texts(ls.take(n as int)) },
                    markdown_blocks(ls.skip(n as int)),
                );
            },
            LineView::Text { .. } => {
                lemma_run_while_elements(rest, text_line());
                let n = 1 + run_while(rest, text_line());
                assert forall|i: int| 0 <= i < n implies !(classify(#[trigger] ls[i]) is Fence) by {
                    if i > 0 {
                        assert(text_line()(rest[i - 1]));
                    }
                }
                lemma_fences_after(ls, n);
                law_fences_make_code(ls.skip(n as int));
                lemma_count_front(
                    BlockView::Paragraph { text: join(line_texts(ls.take(n as int)), " "@) },
                    markdown_blocks(ls.skip(n as int)),
                );
            },
        }
    }
}

/// The title is the text of a level-one heading, and missing only where there is none.
pub proof fn law_title_is_a_heading(bs: Seq<BlockView>)
    ensures
        title_of(bs) is None <==> forall|i: int|
            0 <= i < bs.len() ==> !(#[trigger] bs[i] is Heading && bs[i]->Heading_level == 1),
        title_of(bs) matches Some(t) ==> bs.contains(BlockView::Heading { level: 1, text: t }),
    decreases bs.len(),
{
    if bs.len() > 0 {
        let rest = bs.skip(1);
        law_title_is_a_heading(rest);
        assert forall|i: int| 0 <= i < rest.len() implies #[trigger] rest[i] == bs[i + 1] by {}
        if bs[0] is Heading && bs[0]->Heading_level == 1 {
            assert(bs.contains(bs[0]));
        } else {
            if title_of(rest) is None {
                assert forall|i: int| 0 <= i < bs.len() implies !(#[trigger] bs[i] is Heading
                    && bs[i]->Heading_level == 1) by {
                    if i > 0 {
                        assert(rest[i - 1] == bs[i]);
                    }
                }
            } else {
                let b = BlockView::Heading { level: 1, text: title_of(rest)->0 };
                let i = choose|i: int| 0 <= i < rest.len() && rest[i] == b;
                assert(bs[i + 1] == b);
            }
        }
    }
}

} // verus!
