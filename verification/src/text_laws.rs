//! What holds of text: case, white space, words, lines, numbers and order.
use crate::text::{
    at_most, collapse, decimal, digit, extension, file_name, is_space, is_trimmed, is_word, join,
    leading, lemma_join_add, lemma_leading_bounds, lemma_leading_is, lemma_trailing_bounds,
    lemma_trailing_is, lemma_words_add, lemma_words_after_space, lines, lower, solids, spaces,
    trim, trim_end, trim_start, within_line, within_segment, within_suffix, words,
};
use vstd::prelude::*;

verus! {

// ---------------------------------------------------------------------------
// White space
// ---------------------------------------------------------------------------

/// Whether text is made of white space alone.
pub open spec fn all_space(s: Seq<char>) -> bool {
    forall|i: int| 0 <= i < s.len() ==> is_space(#[trigger] s[i])
}

/// The characters that are white space, one by one.
pub proof fn law_white_space(c: char)
    ensures
        is_space(c) <==> {
            ||| c == '\t' || c == '\n' || c == '\u{b}' || c == '\u{c}' || c == '\r' || c == ' '
            ||| c == '\u{85}' || c == '\u{a0}' || c == '\u{1680}'
            ||| c == '\u{2000}' || c == '\u{2001}' || c == '\u{2002}' || c == '\u{2003}'
            ||| c == '\u{2004}' || c == '\u{2005}' || c == '\u{2006}' || c == '\u{2007}'
            ||| c == '\u{2008}' || c == '\u{2009}' || c == '\u{200a}'
            ||| c == '\u{2028}' || c == '\u{2029}' || c == '\u{202f}' || c == '\u{205f}'
            ||| c == '\u{3000}'
        },
{
}

/// Trimming at one end takes the white space there, and that alone.
pub proof fn lemma_trim_ends(a: Seq<char>, s: Seq<char>, b: Seq<char>)
    requires
        all_space(a),
        all_space(b),
        is_trimmed(s),
    ensures
        trim_end(a + s + b) == a + s,
        trim_start(a + s) == s,
        trim_start(a + s + b) == s + b,
{
    let all = a + s + b;
    let e = a + s;
    assert forall|i: int| all.len() - b.len() <= i < all.len() implies spaces()(
        #[trigger] all[i],
    ) by {
        assert(all[i] == b[i - e.len()]);
    }
    assert(all[e.len() - 1] == s.last());
    lemma_trailing_is(all, spaces(), b.len());
    assert(trim_end(all) =~= e);
    assert forall|i: int| 0 <= i < a.len() implies spaces()(#[trigger] e[i]) by {
        assert(e[i] == a[i]);
    }
    assert(e[a.len() as int] == s[0]);
    lemma_leading_is(e, spaces(), a.len());
    assert(trim_start(e) =~= s);
    assert forall|i: int| 0 <= i < a.len() implies spaces()(#[trigger] all[i]) by {
        assert(all[i] == a[i]);
    }
    assert(all[a.len() as int] == s[0]);
    lemma_leading_is(all, spaces(), a.len());
    assert(trim_start(all) =~= s + b);
}

/// Trimming takes the white space at both ends, all of it and nothing else.
pub proof fn law_only_white_space_is_trimmed(a: Seq<char>, s: Seq<char>, b: Seq<char>)
    requires
        all_space(a),
        all_space(b),
        s.len() == 0 || is_trimmed(s),
    ensures
        trim(a + s + b) == s,
{
    let all = a + s + b;
    if s.len() > 0 {
        lemma_trim_ends(a, s, b);
    } else {
        assert forall|i: int| 0 <= i < all.len() implies spaces()(#[trigger] all[i]) by {
            if i < a.len() {
                assert(all[i] == a[i]);
            } else {
                assert(all[i] == b[i - a.len()]);
            }
        }
        lemma_trailing_is(all, spaces(), all.len());
        assert(trim_end(all) =~= Seq::empty());
        assert(trim_start(Seq::<char>::empty()) =~= Seq::empty());
        assert(s =~= Seq::empty());
    }
}

// ---------------------------------------------------------------------------
// Words
// ---------------------------------------------------------------------------

/// White space has no words.
proof fn lemma_space_has_no_words(s: Seq<char>)
    requires
        all_space(s),
    ensures
        words(s).len() == 0,
{
    lemma_words_after_space(s, Seq::empty());
    assert(s + Seq::<char>::empty() =~= s);
    assert(trim_start(Seq::<char>::empty()) =~= Seq::empty());
}

/// Trimming keeps the words.
pub proof fn lemma_words_of_trim(s: Seq<char>)
    ensures
        words(trim(s)) == words(s),
{
    let e = trim_end(s);
    lemma_trailing_bounds(s, spaces());
    let back = s.skip(e.len() as int);
    assert forall|i: int| 0 <= i < back.len() implies is_space(#[trigger] back[i]) by {
        assert(spaces()(s[e.len() + i]));
    }
    assert(s =~= e + back);
    if back.len() > 0 {
        assert(is_space(back[0]));
    }
    lemma_words_add(e, back);
    lemma_space_has_no_words(back);
    assert(words(e) + words(back) =~= words(e));
    lemma_leading_bounds(e, spaces());
    let n = leading(e, spaces()) as int;
    let front = e.take(n);
    assert forall|i: int| 0 <= i < front.len() implies is_space(#[trigger] front[i]) by {
        assert(spaces()(e[i]));
    }
    assert(e =~= front + trim(s));
    lemma_words_after_space(front, trim(s));
}

/// Two texts with white space between them have the words of the one and then of the other; a
/// word has itself, and white space none.
pub proof fn law_words_are_what_white_space_parts(
    a: Seq<char>,
    gap: Seq<char>,
    b: Seq<char>,
    w: Seq<char>,
)
    requires
        all_space(gap),
        gap.len() > 0,
        is_word(w),
    ensures
        words(a + gap + b) == words(a) + words(b),
        words(w) == seq![w],
        words(gap) == Seq::<Seq<char>>::empty(),
        collapse(w + gap + w) == w + seq![' '] + w,
{
    reveal_strlit(" ");
    lemma_space_has_no_words(gap);
    assert(words(gap) =~= Seq::empty());
    lemma_two(a, gap, b);
    lemma_two(w, gap, w);
    assert forall|i: int| 0 <= i < w.len() implies solids()(#[trigger] w[i]) by {}
    lemma_leading_is(w, spaces(), 0);
    assert(trim_start(w) =~= w);
    lemma_leading_is(w, solids(), w.len());
    assert(w.take(w.len() as int) =~= w);
    assert(w.skip(w.len() as int) =~= Seq::empty());
    assert(trim_start(Seq::<char>::empty()) =~= Seq::empty());
    assert(words(Seq::<char>::empty()) =~= Seq::empty());
    assert(words(w) =~= seq![w]);
    let two = seq![w] + seq![w];
    assert(two.drop_last() =~= seq![w]);
    assert(join(two, " "@) == join(seq![w], " "@) + " "@ + w);
    assert(" "@ =~= seq![' ']);
}

/// Words on both sides of white space.
proof fn lemma_two(a: Seq<char>, gap: Seq<char>, b: Seq<char>)
    requires
        all_space(gap),
        gap.len() > 0,
    ensures
        words(a + gap + b) == words(a) + words(b),
{
    let c = gap + b;
    assert(c[0] == gap[0]);
    lemma_words_add(a, c);
    lemma_words_after_space(gap, b);
    assert(a + gap + b =~= a + c);
}

/// A separator stands between two parts, and nowhere else.
pub proof fn law_separators_stand_between(
    a: Seq<Seq<char>>,
    b: Seq<Seq<char>>,
    part: Seq<char>,
    sep: Seq<char>,
)
    ensures
        join(Seq::empty(), sep) == Seq::<char>::empty(),
        join(seq![part], sep) == part,
        a.len() > 0 && b.len() > 0 ==> join(a + b, sep) == join(a, sep) + sep + join(b, sep),
{
    if a.len() > 0 && b.len() > 0 {
        lemma_join_add(a, b, sep);
    }
}

// ---------------------------------------------------------------------------
// Lines
// ---------------------------------------------------------------------------

/// A line ends at its line feed, which is no part of it, nor is one carriage return before that.
/// Text without a line feed is one line as it stands, and no text none.
pub proof fn law_lines_end_at_line_feeds(line: Seq<char>, rest: Seq<char>)
    requires
        forall|i: int| 0 <= i < line.len() ==> #[trigger] line[i] != '\n',
    ensures
        line.len() == 0 || line.last() != '\r' ==> lines(line + seq!['\n'] + rest) == seq![line]
            + lines(rest),
        lines(line + seq!['\r', '\n'] + rest) == seq![line] + lines(rest),
        line.len() > 0 ==> lines(line) == seq![line],
        lines(Seq::empty()) == Seq::<Seq<char>>::empty(),
{
    let n = line.len() as int;
    lemma_first_line(line, rest);
    let back = line.push('\r');
    lemma_first_line(back, rest);
    assert(back.drop_last() =~= line);
    assert(back + seq!['\n'] + rest =~= line + seq!['\r', '\n'] + rest);
    assert forall|i: int| 0 <= i < n implies within_line()(#[trigger] line[i]) by {}
    lemma_leading_is(line, within_line(), n as nat);
}

/// The first of the lines.
proof fn lemma_first_line(line: Seq<char>, rest: Seq<char>)
    requires
        forall|i: int| 0 <= i < line.len() ==> #[trigger] line[i] != '\n',
    ensures
        line.len() == 0 || line.last() != '\r' ==> lines(line + seq!['\n'] + rest) == seq![line]
            + lines(rest),
        line.len() > 0 && line.last() == '\r' ==> lines(line + seq!['\n'] + rest) == seq![
            line.drop_last(),
        ] + lines(rest),
{
    let n = line.len() as int;
    let all = line + seq!['\n'] + rest;
    assert forall|i: int| 0 <= i < n implies within_line()(#[trigger] all[i]) by {
        assert(all[i] == line[i]);
    }
    assert(all[n] == '\n');
    lemma_leading_is(all, within_line(), n as nat);
    assert(all.take(n) =~= line);
    assert(all.skip(n + 1) =~= rest);
}

// ---------------------------------------------------------------------------
// Case
// ---------------------------------------------------------------------------

/// Lower case takes each letter from `A` to `Z` to the one thirty-two further on, and leaves every
/// other character where it is.
pub proof fn law_lower_case(s: Seq<char>, i: int)
    requires
        0 <= i < s.len(),
    ensures
        lower(s).len() == s.len(),
        'A' <= s[i] <= 'Z' ==> lower(s)[i] as u32 == s[i] as u32 + 32,
        !('A' <= s[i] <= 'Z') ==> lower(s)[i] == s[i],
{
}

// ---------------------------------------------------------------------------
// Paths
// ---------------------------------------------------------------------------

/// A file name is what follows the last separator, of either kind, and an extension what follows
/// the last dot of it.
pub proof fn law_names_follow_separators(
    folder: Seq<char>,
    separator: char,
    name: Seq<char>,
    stem: Seq<char>,
    suffix: Seq<char>,
)
    requires
        separator == '/' || separator == '\\',
        forall|i: int| 0 <= i < name.len() ==> #[trigger] name[i] != '/' && name[i] != '\\',
        forall|i: int| 0 <= i < suffix.len() ==> #[trigger] suffix[i] != '.',
    ensures
        file_name(folder + seq![separator] + name) == name,
        file_name(name) == name,
        extension(stem + seq!['.'] + suffix) == Some(suffix),
        extension(suffix) is None,
{
    let path = folder + seq![separator] + name;
    let k = folder.len() + 1;
    assert forall|i: int| path.len() - name.len() <= i < path.len() implies within_segment()(
        #[trigger] path[i],
    ) by {
        assert(path[i] == name[i - k]);
    }
    assert(path[folder.len() as int] == separator);
    lemma_trailing_is(path, within_segment(), name.len());
    assert(file_name(path) =~= name);
    assert forall|i: int| 0 <= i < name.len() implies within_segment()(#[trigger] name[i]) by {}
    lemma_trailing_is(name, within_segment(), name.len());
    assert(file_name(name) =~= name);
    let full = stem + seq!['.'] + suffix;
    let m = stem.len() + 1;
    assert forall|i: int| full.len() - suffix.len() <= i < full.len() implies within_suffix()(
        #[trigger] full[i],
    ) by {
        assert(full[i] == suffix[i - m]);
    }
    assert(full[stem.len() as int] == '.');
    lemma_trailing_is(full, within_suffix(), suffix.len());
    assert(extension(full)->0 =~= suffix);
    assert forall|i: int| 0 <= i < suffix.len() implies within_suffix()(#[trigger] suffix[i]) by {}
    lemma_trailing_is(suffix, within_suffix(), suffix.len());
}

// ---------------------------------------------------------------------------
// Order
// ---------------------------------------------------------------------------

/// Where two texts differ first, the lesser character decides; a text that goes on where another
/// has ended is the greater.
pub proof fn law_the_first_difference_decides(
    front: Seq<char>,
    x: char,
    y: char,
    a: Seq<char>,
    b: Seq<char>,
)
    ensures
        x != y ==> at_most(front + seq![x] + a, front + seq![y] + b) == (x < y),
        at_most(front, front + a),
        a.len() > 0 ==> !at_most(front + a, front),
    decreases front.len(),
{
    let s = front + seq![x] + a;
    let t = front + seq![y] + b;
    let u = front + a;
    if front.len() > 0 {
        let rest = front.drop_first();
        law_the_first_difference_decides(rest, x, y, a, b);
        assert(s.drop_first() =~= rest + seq![x] + a);
        assert(t.drop_first() =~= rest + seq![y] + b);
        assert(u.drop_first() =~= rest + a);
        assert(s[0] == front[0] && t[0] == front[0] && u[0] == front[0]);
    } else {
        assert(s[0] == x && t[0] == y);
    }
}

// ---------------------------------------------------------------------------
// Numbers
// ---------------------------------------------------------------------------

/// A digit behind a number makes it ten times as great, and as much more as the digit says.
pub proof fn law_decimal_numbers(n: nat, d: nat)
    requires
        d < 10,
    ensures
        decimal(d) == seq![digit(d)],
        digit(d) as u32 == '0' as u32 + d,
        n > 0 ==> decimal(10 * n + d) == decimal(n).push(digit(d)),
{
    assert((10 * n + d) / 10 == n);
    assert((10 * n + d) % 10 == d);
}

} // verus!
