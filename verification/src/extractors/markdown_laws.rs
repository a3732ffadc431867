//! What holds of Markdown as it is read: what each line says, and what lines make together.
use crate::extractors::common::blank_document;
use crate::extractors::markdown::{
    ascii_digit, classify, code_lang, code_line, fence_count, fence_info, hash, heading_of,
    item_line, item_of, lemma_fences_after, lemma_run_while_elements,
    lemma_run_while_is, line_texts, markdown_blocks, markdown_document, not_fence,
    run_while, text_line, title_of, LineView,
};
use crate::ir::BlockView;
use crate::plugin::InputView;
use crate::text::{
    concat, is_space, is_trimmed, join, lemma_leading_is, lemma_trailing_is, lines,
    spaces, trim, trim_end, trim_start,
};
use crate::text_laws::{all_space, law_only_white_space_is_trimmed, lemma_trim_ends};
use vstd::prelude::*;

verus! {

// ---------------------------------------------------------------------------
// Lines
// ---------------------------------------------------------------------------

/// What a line without a fence looks like, trimmed.
proof fn lemma_plain_line(indent: Seq<char>, body: Seq<char>, tail: Seq<char>)
    requires
        all_space(indent),
        all_space(tail),
        is_trimmed(body),
        body.len() >= 3 ==> !(body[0] == '`' && body[1] == '`' && body[2] == '`'),
    ensures
        trim_end(indent + body + tail) == indent + body,
        trim_start(indent + body) == body,
        trim(indent + body) == body,
        fence_info(indent + body + tail) is None,
{
    reveal_strlit("```");
    lemma_trim_ends(indent, body, tail);
    law_only_white_space_is_trimmed(indent, body, Seq::empty());
    assert(indent + body + Seq::<char>::empty() =~= indent + body);
    if "```"@.is_prefix_of(body + tail) {
        let t = body + tail;
        assert("```"@[0] == t[0] && "```"@[1] == t[1] && "```"@[2] == t[2]);
        assert(!is_space('`'));
        assert(t[0] == body[0]);
        if body.len() == 1 {
            assert(t[1] == tail[0]);
        } else if body.len() == 2 {
            assert(t[2] == tail[0]);
        }
    }
}

/// A heading has one to six hashes at the very start, a blank, and the text, whatever white space
/// stands around it.
pub proof fn law_hashes_make_a_heading(
    n: nat,
    gap: Seq<char>,
    text: Seq<char>,
    tail: Seq<char>,
)
    requires
        1 <= n <= 6,
        all_space(gap),
        gap.len() > 0,
        gap[0] == ' ',
        is_trimmed(text),
        all_space(tail),
    ensures
        classify(Seq::new(n, |i: int| '#') + gap + text + tail) == (LineView::Heading {
            level: n,
            text,
        }),
{
    let marks = Seq::new(n, |i: int| '#');
    let body = marks + gap + text;
    assert(body[0] == '#');
    assert(body.last() == text.last());
    assert(!is_space('#'));
    lemma_plain_line(Seq::empty(), body, tail);
    assert(Seq::<char>::empty() + body + tail =~= marks + gap + text + tail);
    assert(Seq::<char>::empty() + body =~= body);
    assert(body[n as int] == gap[0]);
    assert forall|i: int| 0 <= i < n implies hash()(#[trigger] body[i]) by {
        assert(body[i] == marks[i]);
    }
    lemma_leading_is(body, hash(), n);
    assert(body.skip(n as int) =~= gap + text + Seq::<char>::empty());
    law_only_white_space_is_trimmed(gap, text, Seq::empty());
}

/// A dash, a star or a plus with a blank behind it makes an item of a list, however far it is
/// indented and whatever white space stands around its text.
pub proof fn law_bullets_make_items(
    indent: Seq<char>,
    mark: char,
    gap: Seq<char>,
    text: Seq<char>,
    tail: Seq<char>,
)
    requires
        all_space(indent),
        mark == '-' || mark == '*' || mark == '+',
        all_space(gap),
        gap.len() > 0,
        gap[0] == ' ',
        is_trimmed(text),
        all_space(tail),
    ensures
        classify(indent + (seq![mark] + gap + text) + tail) == (LineView::Item {
            ordered: false,
            text,
        }),
{
    let body = seq![mark] + gap + text;
    assert(body[0] == mark);
    assert(body[1] == gap[0]);
    assert(body.last() == text.last());
    assert(!is_space('-') && !is_space('*') && !is_space('+'));
    lemma_plain_line(indent, body, tail);
    lemma_no_heading(indent, body);
    let rest = gap.skip(1);
    assert forall|i: int| 0 <= i < rest.len() implies is_space(#[trigger] rest[i]) by {
        assert(rest[i] == gap[i + 1]);
    }
    assert(body.skip(2) =~= rest + text + Seq::<char>::empty());
    law_only_white_space_is_trimmed(rest, text, Seq::empty());
}

/// What does not open with a hash is no heading.
proof fn lemma_no_heading(indent: Seq<char>, body: Seq<char>)
    requires
        all_space(indent),
        body.len() > 0,
        indent.len() > 0 || body[0] != '#',
    ensures
        heading_of(indent + body) is None,
{
    let l = indent + body;
    if indent.len() > 0 {
        assert(l[0] == indent[0]);
        assert(is_space(indent[0]));
        assert(!is_space('#'));
    } else {
        assert(l[0] == body[0]);
    }
    lemma_leading_is(l, hash(), 0);
}

/// Digits with a dot or a bracket and a blank behind them make an item of an ordered list.
pub proof fn law_numbers_make_ordered_items(
    indent: Seq<char>,
    digits: Seq<char>,
    dot: char,
    gap: Seq<char>,
    text: Seq<char>,
    tail: Seq<char>,
)
    requires
        all_space(indent),
        digits.len() > 0,
        forall|i: int| 0 <= i < digits.len() ==> '0' <= #[trigger] digits[i] <= '9',
        dot == '.' || dot == ')',
        all_space(gap),
        gap.len() > 0,
        gap[0] == ' ',
        is_trimmed(text),
        all_space(tail),
    ensures
        classify(indent + (digits + seq![dot] + gap + text) + tail) == (LineView::Item {
            ordered: true,
            text,
        }),
{
    let body = digits + seq![dot] + gap + text;
    let n = digits.len() as int;
    assert(body[0] == digits[0]);
    assert('0' <= digits[0] <= '9');
    assert(body.last() == text.last());
    lemma_digits_are_solid(digits[0]);
    lemma_plain_line(indent, body, tail);
    lemma_no_heading(indent, body);
    assert(body[n] == dot);
    assert(body[n + 1] == gap[0]);
    assert forall|i: int| 0 <= i < n implies ascii_digit()(#[trigger] body[i]) by {
        assert(body[i] == digits[i]);
    }
    assert(!ascii_digit()('.') && !ascii_digit()(')'));
    lemma_leading_is(body, ascii_digit(), n as nat);
    let rest = gap.skip(1);
    assert forall|i: int| 0 <= i < rest.len() implies is_space(#[trigger] rest[i]) by {
        assert(rest[i] == gap[i + 1]);
    }
    assert(body.skip(n + 2) =~= rest + text + Seq::<char>::empty());
    law_only_white_space_is_trimmed(rest, text, Seq::empty());
}

/// Digits are no white space and no marks.
proof fn lemma_digits_are_solid(c: char)
    requires
        '0' <= c <= '9',
    ensures
        !is_space(c),
        c != '`' && c != '#' && c != '-' && c != '*' && c != '+' && c != '>',
{
}

/// What stands behind an angle bracket is a quote, white space or not.
pub proof fn law_angle_brackets_make_quotes(
    indent: Seq<char>,
    gap: Seq<char>,
    text: Seq<char>,
    tail: Seq<char>,
)
    requires
        all_space(indent),
        all_space(gap),
        is_trimmed(text) || (text.len() == 0 && gap.len() == 0),
        all_space(tail),
    ensures
        classify(indent + (seq!['>'] + gap + text) + tail) == (LineView::Quote { text }),
{
    let body = seq!['>'] + gap + text;
    assert(body[0] == '>');
    assert(!is_space('>'));
    if text.len() > 0 {
        assert(body.last() == text.last());
    } else {
        assert(body.last() == '>');
    }
    lemma_plain_line(indent, body, tail);
    lemma_no_heading(indent, body);
    assert(!ascii_digit()('>'));
    lemma_leading_is(body, ascii_digit(), 0);
    assert(body.skip(1) =~= gap + text + Seq::<char>::empty());
    law_only_white_space_is_trimmed(gap, text, Seq::empty());
}

/// Three backticks make a fence, and what follows them says the language.
pub proof fn law_backticks_make_fences(
    indent: Seq<char>,
    gap: Seq<char>,
    info: Seq<char>,
    tail: Seq<char>,
)
    requires
        all_space(indent),
        all_space(gap),
        info.len() == 0 || is_trimmed(info),
        all_space(tail),
    ensures
        classify(indent + (seq!['`', '`', '`'] + gap + info + tail)) == (LineView::Fence { info }),
{
    reveal_strlit("```");
    let ticks = seq!['`', '`', '`'];
    assert("```"@ =~= ticks);
    let rest = ticks + gap + info + tail;
    let line = indent + rest;
    assert(rest[0] == '`');
    assert(!is_space('`'));
    assert(line[indent.len() as int] == '`');
    assert forall|i: int| 0 <= i < indent.len() implies spaces()(#[trigger] line[i]) by {
        assert(line[i] == indent[i]);
    }
    lemma_leading_is(line, spaces(), indent.len());
    assert(trim_start(line) =~= rest);
    assert(ticks.is_prefix_of(rest));
    assert(rest.skip(3) =~= gap + info + tail);
    law_only_white_space_is_trimmed(gap, info, tail);
}

/// White space alone is a blank line.
pub proof fn law_white_space_is_blank(line: Seq<char>)
    requires
        all_space(line),
    ensures
        classify(line) is Blank,
{
    reveal_strlit("```");
    assert forall|i: int| 0 <= i < line.len() implies spaces()(#[trigger] line[i]) by {}
    lemma_leading_is(line, spaces(), line.len());
    assert(trim_start(line) =~= Seq::empty());
    law_only_white_space_is_trimmed(line, Seq::empty(), Seq::empty());
    assert(line + Seq::<char>::empty() + Seq::<char>::empty() =~= line);
    lemma_trailing_is(line, spaces(), line.len());
    assert(trim_end(line) =~= Seq::empty());
    assert(trim_start(Seq::<char>::empty()) =~= Seq::empty());
    assert(trim_end(Seq::<char>::empty()) =~= Seq::empty());
}

/// Every other line is text: one that opens with no mark, one whose mark has no blank behind it,
/// one with indented hashes, with too many of them, or with fewer than three backticks.
pub proof fn law_other_lines_are_text(
    indent: Seq<char>,
    body: Seq<char>,
    tail: Seq<char>,
    n: nat,
)
    requires
        all_space(indent),
        is_trimmed(body),
        all_space(tail),
        n <= body.len(),
        ({
            let c = body[0];
            ||| (c != '`' && c != '#' && c != '-' && c != '*' && c != '+' && c != '>' && !('0' <= c
                && c <= '9'))
            ||| ((c == '-' || c == '*' || c == '+') && (body.len() == 1 || body[1] != ' '))
            ||| (c == '#' && indent.len() > 0)
            ||| (c == '#' && n > 0 && (forall|i: int| 0 <= i < n ==> #[trigger] body[i] == '#') && (
            n == body.len() || (body[n as int] != '#' && (n > 6 || body[n as int] != ' '))))
            ||| (n > 0 && (forall|i: int| 0 <= i < n ==> '0' <= #[trigger] body[i] <= '9') && (n
                == body.len() || !('0' <= body[n as int] <= '9')) && !(n + 2 <= body.len() && (
            body[n as int] == '.' || body[n as int] == ')') && body[n as int + 1] == ' '))
            ||| (c == '`' && !(body.len() >= 3 && body[1] == '`' && body[2] == '`'))
        }),
    ensures
        classify(indent + body + tail) == (LineView::Text { text: body }),
{
    let c = body[0];
    lemma_plain_line(indent, body, tail);
    let line = indent + body;
    assert(!ascii_digit()('#') && !ascii_digit()('-') && !ascii_digit()('*') && !ascii_digit()('+')
        && !ascii_digit()('`'));
    if c == '#' && indent.len() == 0 {
        assert(line =~= body);
        assert forall|i: int| 0 <= i < n implies hash()(#[trigger] body[i]) by {}
        lemma_leading_is(body, hash(), n);
    } else {
        lemma_no_heading(indent, body);
    }
    if '0' <= c && c <= '9' {
        lemma_digits_are_solid(c);
        assert forall|i: int| 0 <= i < n implies ascii_digit()(#[trigger] body[i]) by {}
        lemma_leading_is(body, ascii_digit(), n);
    } else {
        lemma_leading_is(body, ascii_digit(), 0);
    }
    assert(item_of(line) is None);
}

// ---------------------------------------------------------------------------
// Blocks
// ---------------------------------------------------------------------------

/// Whether a line goes on where another stopped: text after text, an item after one of its kind.
pub open spec fn goes_on(a: Seq<char>, b: Seq<char>) -> bool {
    match (classify(a), classify(b)) {
        (LineView::Text { .. }, LineView::Text { .. }) => true,
        (LineView::Item { ordered: x, .. }, LineView::Item { ordered: y, .. }) => x == y,
        _ => false,
    }
}

/// A run at the front of lines that other lines follow.
proof fn lemma_run_before(
    a: Seq<Seq<char>>,
    b: Seq<Seq<char>>,
    p: spec_fn(Seq<char>) -> bool,
)
    requires
        run_while(a, p) < a.len() || b.len() == 0 || !p(b[0]),
    ensures
        run_while(a + b, p) == run_while(a, p),
        run_while(a, p) <= a.len(),
{
    lemma_run_while_elements(a, p);
    let n = run_while(a, p);
    let all = a + b;
    assert forall|i: int| 0 <= i < n implies p(#[trigger] all[i]) by {
        assert(all[i] == a[i]);
    }
    if n < all.len() {
        if n < a.len() {
            assert(all[n as int] == a[n as int]);
        } else {
            assert(all[n as int] == b[0]);
        }
    }
    lemma_run_while_is(all, p, n);
}

/// Lines that do not go on where others stopped make blocks of their own, behind those of the
/// others, unless the others leave code open.
pub proof fn law_blocks_keep_their_order(a: Seq<Seq<char>>, b: Seq<Seq<char>>)
    requires
        fence_count(a) % 2 == 0,
        a.len() > 0 && b.len() > 0 ==> !goes_on(a.last(), b[0]),
    ensures
        markdown_blocks(a + b) == markdown_blocks(a) + markdown_blocks(b),
    decreases a.len(), 1int,
{
    let all = a + b;
    if a.len() == 0 {
        assert(all =~= b);
        assert(markdown_blocks(a) + markdown_blocks(b) =~= markdown_blocks(b));
    } else {
        let rest = a.skip(1);
        assert(all.skip(1) =~= rest + b);
        assert(all[0] == a[0]);
        match classify(a[0]) {
            LineView::Fence { .. } => {
                lemma_code(a, b);
            },
            LineView::Item { ordered, .. } => {
                lemma_run(a, b, item_line(ordered));
                let n = 1 + run_while(rest, item_line(ordered)) as int;
                let list = seq![BlockView::List { ordered, items: line_texts(a.take(n)) }];
                assert(markdown_blocks(a) == list + markdown_blocks(a.skip(n)));
                assert(markdown_blocks(all) == list + markdown_blocks(all.skip(n)));
                lemma_add_assoc(list, markdown_blocks(a.skip(n)), markdown_blocks(b));
            },
            LineView::Text { .. } => {
                lemma_run(a, b, text_line());
                let n = 1 + run_while(rest, text_line()) as int;
                let text = join(line_texts(a.take(n)), " "@);
                let paragraph = seq![BlockView::Paragraph { text }];
                assert(markdown_blocks(a) == paragraph + markdown_blocks(a.skip(n)));
                assert(markdown_blocks(all) == paragraph + markdown_blocks(all.skip(n)));
                lemma_add_assoc(paragraph, markdown_blocks(a.skip(n)), markdown_blocks(b));
            },
            LineView::Blank => {
                lemma_rest(a, b);
            },
            LineView::Heading { level, text } => {
                lemma_rest(a, b);
                let heading = seq![BlockView::Heading { level: level as u8, text }];
                lemma_add_assoc(heading, markdown_blocks(rest), markdown_blocks(b));
            },
            LineView::Quote { text } => {
                lemma_rest(a, b);
                let quote = seq![BlockView::Quote { text }];
                lemma_add_assoc(quote, markdown_blocks(rest), markdown_blocks(b));
            },
        }
    }
}

/// One piece after another is one piece after both.
proof fn lemma_add_assoc<A>(x: Seq<A>, y: Seq<A>, z: Seq<A>)
    ensures
        x + y + z == x + (y + z),
{
    assert(x + y + z =~= x + (y + z));
}

/// The step of the law above for a line of its own.
proof fn lemma_rest(a: Seq<Seq<char>>, b: Seq<Seq<char>>)
    requires
        fence_count(a) % 2 == 0,
        a.len() > 0,
        !(classify(a[0]) is Fence),
        b.len() > 0 ==> !goes_on(a.last(), b[0]),
    ensures
        markdown_blocks((a + b).skip(1)) == markdown_blocks(a.skip(1)) + markdown_blocks(b),
    decreases a.len(), 0int,
{
    let rest = a.skip(1);
    assert((a + b).skip(1) =~= rest + b);
    if rest.len() > 0 {
        assert(rest.last() == a.last());
    }
    law_blocks_keep_their_order(rest, b);
}

/// The step of the law above for code.
proof fn lemma_code(a: Seq<Seq<char>>, b: Seq<Seq<char>>)
    requires
        fence_count(a) % 2 == 0,
        a.len() > 0,
        classify(a[0]) is Fence,
        b.len() > 0 ==> !goes_on(a.last(), b[0]),
    ensures
        markdown_blocks(a + b) == markdown_blocks(a) + markdown_blocks(b),
    decreases a.len(), 0int,
{
    let all = a + b;
    let rest = a.skip(1);
    assert(all.skip(1) =~= rest + b);
    assert(all[0] == a[0]);
    let n = run_while(rest, not_fence());
    lemma_run_while_elements(rest, not_fence());
    assert forall|i: int| 0 <= i < n implies !(classify(#[trigger] rest[i]) is Fence) by {
        assert(not_fence()(rest[i]));
    }
    lemma_fences_after(rest, n);
    if n == rest.len() {
        assert(rest.skip(n as int) =~= Seq::empty());
        assert(fence_count(Seq::<Seq<char>>::empty()) == 0);
        assert(fence_count(a) == 1);
    }
    lemma_run_before(rest, b, not_fence());
    let after = rest.skip(n as int + 1);
    assert(rest.skip(n as int).skip(1) =~= after);
    assert(fence_count(rest.skip(n as int)) == 1 + fence_count(after));
    if after.len() > 0 {
        assert(after.last() == a.last());
    }
    law_blocks_keep_their_order(after, b);
    assert((rest + b).skip(n as int + 1) =~= after + b);
    assert((rest + b).take(n as int) =~= rest.take(n as int));
    let code = seq![
        BlockView::Code {
            lang: code_lang(classify(a[0])->Fence_info),
            text: concat(rest.take(n as int), code_line()),
        },
    ];
    assert(markdown_blocks(a) == code + markdown_blocks(after));
    assert(markdown_blocks(all) == code + markdown_blocks(after + b));
    lemma_add_assoc(code, markdown_blocks(after), markdown_blocks(b));
}

/// The step of the law above for a run of items or of text.
proof fn lemma_run(a: Seq<Seq<char>>, b: Seq<Seq<char>>, p: spec_fn(Seq<char>) -> bool)
    requires
        fence_count(a) % 2 == 0,
        a.len() > 0,
        b.len() > 0 ==> !goes_on(a.last(), b[0]),
        p(a[0]),
        p == text_line() || (classify(a[0]) is Item && p == item_line(
            classify(a[0])->Item_ordered,
        )),
    ensures
        ({
            let n = 1 + run_while(a.skip(1), p) as int;
            &&& run_while((a + b).skip(1), p) == n - 1
            &&& n <= a.len()
            &&& (a + b).take(n) == a.take(n)
            &&& markdown_blocks((a + b).skip(n)) == markdown_blocks(a.skip(n)) + markdown_blocks(b)
        }),
    decreases a.len(), 0int,
{
    let rest = a.skip(1);
    lemma_run_while_elements(rest, p);
    let n = 1 + run_while(rest, p) as int;
    if n == a.len() {
        assert(p(a.last())) by {
            if n > 1 {
                assert(p(rest[n - 2]));
            }
        }
    }
    lemma_run_before(rest, b, p);
    assert((a + b).skip(1) =~= rest + b);
    assert forall|i: int| 0 <= i < n implies !(classify(#[trigger] a[i]) is Fence) by {
        if i > 0 {
            assert(p(rest[i - 1]));
        }
    }
    lemma_fences_after(a, n as nat);
    let after = a.skip(n);
    if after.len() > 0 {
        assert(after.last() == a.last());
    }
    law_blocks_keep_their_order(after, b);
    assert((a + b).skip(n) =~= after + b);
    assert((a + b).take(n) =~= a.take(n));
}

/// One line alone makes a heading or a quote, and a blank one nothing.
pub proof fn law_lines_of_their_own(l: Seq<char>)
    ensures
        classify(l) is Blank ==> markdown_blocks(seq![l]) == Seq::<BlockView>::empty(),
        classify(l) matches LineView::Quote { text } ==> markdown_blocks(seq![l]) == seq![
            BlockView::Quote { text },
        ],
        classify(l) matches LineView::Heading { level, text } ==> markdown_blocks(seq![l]) == seq![
            BlockView::Heading { level: level as u8, text },
        ] && 1 <= level <= 6,
{
    assert(seq![l].skip(1) =~= Seq::empty());
    assert(markdown_blocks(Seq::empty()) =~= Seq::empty());
    match classify(l) {
        LineView::Quote { text } => {
            assert(markdown_blocks(seq![l]) =~= seq![BlockView::Quote { text }]);
        },
        LineView::Heading { level, text } => {
            let heading = BlockView::Heading { level: level as u8, text };
            assert(markdown_blocks(seq![l]) =~= seq![heading]);
        },
        _ => {},
    }
}

/// Lines of text make one paragraph, with a blank between one line and the next.
pub proof fn law_text_lines_make_one_paragraph(ls: Seq<Seq<char>>, texts: Seq<Seq<char>>)
    requires
        ls.len() > 0,
        texts.len() == ls.len(),
        forall|i: int|
            0 <= i < ls.len() ==> classify(#[trigger] ls[i]) == (LineView::Text { text: texts[i] }),
    ensures
        markdown_blocks(ls) == seq![BlockView::Paragraph { text: join(texts, seq![' ']) }],
{
    reveal_strlit(" ");
    assert(" "@ =~= seq![' ']);
    let rest = ls.skip(1);
    assert(classify(ls[0]) is Text);
    assert forall|i: int| 0 <= i < rest.len() implies text_line()(#[trigger] rest[i]) by {
        assert(rest[i] == ls[i + 1]);
    }
    lemma_run_while_is(rest, text_line(), rest.len());
    assert(ls.take(ls.len() as int) =~= ls);
    assert(line_texts(ls) =~= texts);
    assert(ls.skip(ls.len() as int) =~= Seq::empty());
    assert(markdown_blocks(Seq::empty()) =~= Seq::empty());
    assert(markdown_blocks(ls) =~= seq![BlockView::Paragraph { text: join(texts, seq![' ']) }]);
}

/// Items of one kind make one list of that kind, with all of them in order.
pub proof fn law_items_make_one_list(ls: Seq<Seq<char>>, ordered: bool, texts: Seq<Seq<char>>)
    requires
        ls.len() > 0,
        texts.len() == ls.len(),
        forall|i: int|
            0 <= i < ls.len() ==> classify(#[trigger] ls[i]) == (LineView::Item {
                ordered,
                text: texts[i],
            }),
    ensures
        markdown_blocks(ls) == seq![BlockView::List { ordered, items: texts }],
{
    let rest = ls.skip(1);
    assert(classify(ls[0]) is Item);
    assert forall|i: int| 0 <= i < rest.len() implies item_line(ordered)(#[trigger] rest[i]) by {
        assert(rest[i] == ls[i + 1]);
    }
    lemma_run_while_is(rest, item_line(ordered), rest.len());
    assert(ls.take(ls.len() as int) =~= ls);
    assert(line_texts(ls) =~= texts);
    assert(ls.skip(ls.len() as int) =~= Seq::empty());
    assert(markdown_blocks(Seq::empty()) =~= Seq::empty());
    assert(markdown_blocks(ls) =~= seq![BlockView::List { ordered, items: texts }]);
}

/// Lines of code, one by one.
proof fn lemma_code_lines(ls: Seq<Seq<char>>)
    ensures
        concat(ls, code_line()) == ls.map_values(|l: Seq<char>| l + seq!['\n']).flatten(),
    decreases ls.len(),
{
    reveal_strlit("\n");
    assert("\n"@ =~= seq!['\n']);
    let f = |l: Seq<char>| l + seq!['\n'];
    if ls.len() > 0 {
        let front = ls.drop_last();
        lemma_code_lines(front);
        front.map_values(f).lemma_flatten_push(f(ls.last()));
        assert(front.map_values(f).push(f(ls.last())) =~= ls.map_values(f));
    }
}

/// What stands between two fences, or behind the last one, is code as it stands, line by line,
/// whatever the lines would say elsewhere. The first fence names its language.
pub proof fn law_fences_hold_code(
    open: Seq<char>,
    info: Seq<char>,
    body: Seq<Seq<char>>,
    close: Seq<char>,
)
    requires
        classify(open) == (LineView::Fence { info }),
        classify(close) is Fence,
        forall|i: int| 0 <= i < body.len() ==> !(classify(#[trigger] body[i]) is Fence),
    ensures
        ({
            let code = BlockView::Code {
                lang: if info.len() > 0 {
                    Some(info)
                } else {
                    None
                },
                text: body.map_values(|l: Seq<char>| l + seq!['\n']).flatten(),
            };
            &&& markdown_blocks(seq![open] + body + seq![close]) == seq![code]
            &&& markdown_blocks(seq![open] + body) == seq![code]
        }),
{
    lemma_code_lines(body);
    let n = body.len();
    let a = seq![open] + body + seq![close];
    let b = seq![open] + body;
    let rest = a.skip(1);
    assert(rest =~= body + seq![close]);
    assert(b.skip(1) =~= body);
    assert forall|i: int| 0 <= i < n implies not_fence()(#[trigger] rest[i]) by {
        assert(rest[i] == body[i]);
    }
    assert(!not_fence()(rest[n as int]));
    lemma_run_while_is(rest, not_fence(), n);
    lemma_run_while_is(body, not_fence(), n);
    assert(rest.take(n as int) =~= body);
    assert(body.take(n as int) =~= body);
    assert(rest.skip(n as int + 1) =~= Seq::empty());
    assert(markdown_blocks(Seq::empty()) =~= Seq::empty());
    let code = BlockView::Code {
        lang: if info.len() > 0 {
            Some(info)
        } else {
            None
        },
        text: body.map_values(|l: Seq<char>| l + seq!['\n']).flatten(),
    };
    assert(markdown_blocks(a) =~= seq![code]);
    assert(markdown_blocks(b) =~= seq![code]);
}

// ---------------------------------------------------------------------------
// The document
// ---------------------------------------------------------------------------

/// The title is the first heading of level one, and no other block is one.
pub proof fn law_the_first_title_counts(a: Seq<BlockView>, b: BlockView, c: Seq<BlockView>)
    ensures
        title_of(seq![b]) == (match b {
            BlockView::Heading { level: 1, text } => Some(text),
            _ => None,
        }),
        title_of(a) is Some ==> title_of(a + c) == title_of(a),
        title_of(a) is None ==> title_of(a + c) == title_of(c),
    decreases a.len(),
{
    assert(seq![b].skip(1) =~= Seq::empty());
    assert(title_of(Seq::empty()) is None);
    if a.len() == 0 {
        assert(a + c =~= c);
    } else {
        law_the_first_title_counts(a.skip(1), b, c);
        assert((a + c).skip(1) =~= a.skip(1) + c);
    }
}

/// A document has the blocks of its lines and their title, and is otherwise blank.
pub proof fn law_what_markdown_says(input: InputView, text: Seq<char>)
    ensures
        ({
            let doc = markdown_document(input, text);
            let blank = blank_document(input);
            &&& doc.blocks == markdown_blocks(lines(text))
            &&& doc.title == title_of(doc.blocks)
            &&& doc.id == blank.id && doc.source == blank.source
            &&& doc.metadata == blank.metadata && doc.warnings == blank.warnings
        }),
{
}

} // verus!
