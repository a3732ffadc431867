//! Character-level text operations.
//!
//! Every operation is stated over `Seq<char>`, the view of `str` and `String`.
//! White space is the Unicode `White_Space` property throughout.
use vstd::prelude::*;

verus! {

// ---------------------------------------------------------------------------
// Growing a string
// ---------------------------------------------------------------------------

/// `String::push` appends one character at the end of the string.
pub assume_specification[ String::push ](s: &mut String, c: char)
    ensures
        final(s)@ == old(s)@.push(c),
;

/// Concatenation is associative; used to bring long concatenations to one shape.
pub broadcast proof fn lemma_add_assoc<A>(a: Seq<A>, b: Seq<A>, c: Seq<A>)
    ensures
        #[trigger] ((a + b) + c) == a + (b + c),
{
    assert(((a + b) + c) =~= a + (b + c));
}

/// The characters of `s`, in order.
pub fn chars_of(s: &str) -> (v: Vec<char>)
    ensures
        v@ == s@,
{
    let mut v: Vec<char> = Vec::new();
    for c in it: s.chars()
        invariant
            it.seq() == s@,
            v@ == s@.take(it.index() as int),
    {
        v.push(c);
        assert(v@ =~= s@.take(it.index() as int + 1));
    }
    assert(s@.take(s@.len() as int) =~= s@);
    v
}

/// The characters `v[from..to]` as a string.
pub fn slice_of(v: &Vec<char>, from: usize, to: usize) -> (s: String)
    requires
        from <= to <= v@.len(),
    ensures
        s@ == v@.subrange(from as int, to as int),
{
    let mut s = String::new();
    let mut i: usize = from;
    while i < to
        invariant
            from <= i <= to <= v@.len(),
            s@ == v@.subrange(from as int, i as int),
        decreases to - i,
    {
        s.push(v[i]);
        i = i + 1;
        assert(s@ =~= v@.subrange(from as int, i as int));
    }
    s
}

/// Whether two strings hold the same characters.
pub fn same(a: &str, b: &str) -> (r: bool)
    ensures
        r == (a@ == b@),
{
    let x = chars_of(a);
    let y = chars_of(b);
    if x.len() != y.len() {
        return false;
    }
    let mut i: usize = 0;
    while i < x.len()
        invariant
            x@ == a@,
            y@ == b@,
            x@.len() == y@.len(),
            i <= x@.len(),
            forall|j: int| 0 <= j < i ==> x@[j] == y@[j],
        decreases x@.len() - i,
    {
        if x[i] != y[i] {
            return false;
        }
        i = i + 1;
    }
    assert(x@ =~= y@);
    true
}

// ---------------------------------------------------------------------------
// Runs of characters
// ---------------------------------------------------------------------------

/// Length of the longest prefix of `s` whose characters all satisfy `p`.
pub open spec fn leading(s: Seq<char>, p: spec_fn(char) -> bool) -> nat
    decreases s.len(),
{
    if s.len() > 0 && p(s[0]) {
        1 + leading(s.drop_first(), p)
    } else {
        0
    }
}

/// Length of the longest suffix of `s` whose characters all satisfy `p`.
pub open spec fn trailing(s: Seq<char>, p: spec_fn(char) -> bool) -> nat
    decreases s.len(),
{
    if s.len() > 0 && p(s.last()) {
        1 + trailing(s.drop_last(), p)
    } else {
        0
    }
}

/// A prefix of `n` matching characters that is not followed by another is the leading run.
pub proof fn lemma_leading_is(s: Seq<char>, p: spec_fn(char) -> bool, n: nat)
    requires
        n <= s.len(),
        forall|i: int| 0 <= i < n ==> p(#[trigger] s[i]),
        n < s.len() ==> !p(s[n as int]),
    ensures
        leading(s, p) == n,
    decreases s.len(),
{
    if n > 0 {
        let t = s.drop_first();
        assert forall|i: int| 0 <= i < n - 1 implies p(#[trigger] t[i]) by {
            assert(t[i] == s[i + 1]);
        }
        lemma_leading_is(t, p, (n - 1) as nat);
    }
}

/// The leading run lies within the string, matches, and is followed by a mismatch.
pub proof fn lemma_leading_bounds(s: Seq<char>, p: spec_fn(char) -> bool)
    ensures
        leading(s, p) <= s.len(),
        forall|i: int| 0 <= i < leading(s, p) ==> p(#[trigger] s[i]),
        leading(s, p) < s.len() ==> !p(s[leading(s, p) as int]),
    decreases s.len(),
{
    if s.len() > 0 && p(s[0]) {
        let t = s.drop_first();
        lemma_leading_bounds(t, p);
        assert forall|i: int| 0 <= i < leading(s, p) implies p(#[trigger] s[i]) by {
            if i > 0 {
                assert(s[i] == t[i - 1]);
            }
        }
    }
}

/// A suffix of `n` matching characters that is not preceded by another is the trailing run.
pub proof fn lemma_trailing_is(s: Seq<char>, p: spec_fn(char) -> bool, n: nat)
    requires
        n <= s.len(),
        forall|i: int| s.len() - n <= i < s.len() ==> p(#[trigger] s[i]),
        n < s.len() ==> !p(s[s.len() - n - 1]),
    ensures
        trailing(s, p) == n,
    decreases s.len(),
{
    if n > 0 {
        lemma_trailing_is(s.drop_last(), p, (n - 1) as nat);
    }
}

/// The trailing run lies within the string, matches, and is preceded by a mismatch.
pub proof fn lemma_trailing_bounds(s: Seq<char>, p: spec_fn(char) -> bool)
    ensures
        trailing(s, p) <= s.len(),
        forall|i: int| s.len() - trailing(s, p) <= i < s.len() ==> p(#[trigger] s[i]),
        trailing(s, p) < s.len() ==> !p(s[s.len() - trailing(s, p) - 1]),
    decreases s.len(),
{
    if s.len() > 0 && p(s.last()) {
        let t = s.drop_last();
        lemma_trailing_bounds(t, p);
        assert forall|i: int| s.len() - trailing(s, p) <= i < s.len() implies p(#[trigger] s[i]) by {
            if i < t.len() {
                assert(s[i] == t[i]);
            }
        }
    }
}

// ---------------------------------------------------------------------------
// White space
// ---------------------------------------------------------------------------

/// The Unicode `White_Space` property.
pub open spec fn is_space(c: char) -> bool {
    let u = c as u32;
    ||| 0x09 <= u <= 0x0d
    ||| u == 0x20
    ||| u == 0x85
    ||| u == 0xa0
    ||| u == 0x1680
    ||| 0x2000 <= u <= 0x200a
    ||| u == 0x2028
    ||| u == 0x2029
    ||| u == 0x202f
    ||| u == 0x205f
    ||| u == 0x3000
}

/// `is_space` as a predicate value.
pub open spec fn spaces() -> spec_fn(char) -> bool {
    |c: char| is_space(c)
}

/// The negation of `is_space` as a predicate value.
pub open spec fn solids() -> spec_fn(char) -> bool {
    |c: char| !is_space(c)
}

/// Whether `c` has the Unicode `White_Space` property.
pub fn is_whitespace(c: char) -> (r: bool)
    ensures
        r == is_space(c),
{
    let u: u32 = c as u32;
    (0x09 <= u && u <= 0x0d) || u == 0x20 || u == 0x85 || u == 0xa0 || u == 0x1680 || (0x2000 <= u
        && u <= 0x200a) || u == 0x2028 || u == 0x2029 || u == 0x202f || u == 0x205f || u == 0x3000
}

/// `s` without its leading white space.
pub open spec fn trim_start(s: Seq<char>) -> Seq<char> {
    s.skip(leading(s, spaces()) as int)
}

/// `s` without its trailing white space.
pub open spec fn trim_end(s: Seq<char>) -> Seq<char> {
    s.take(s.len() - trailing(s, spaces()))
}

/// `s` without its surrounding white space.
pub open spec fn trim(s: Seq<char>) -> Seq<char> {
    trim_start(trim_end(s))
}

/// Index of the first non-space character at or after `from`.
fn skip_spaces(v: &Vec<char>, from: usize) -> (n: usize)
    requires
        from <= v@.len(),
    ensures
        from <= n <= v@.len(),
        forall|i: int| from <= i < n ==> is_space(#[trigger] v@[i]),
        n < v@.len() ==> !is_space(v@[n as int]),
{
    let mut n: usize = from;
    while n < v.len() && is_whitespace(v[n])
        invariant
            from <= n <= v@.len(),
            forall|i: int| from <= i < n ==> is_space(#[trigger] v@[i]),
        decreases v@.len() - n,
    {
        n = n + 1;
    }
    n
}

/// Index of the first space character at or after `from`.
fn skip_solids(v: &Vec<char>, from: usize) -> (n: usize)
    requires
        from <= v@.len(),
    ensures
        from <= n <= v@.len(),
        forall|i: int| from <= i < n ==> !is_space(#[trigger] v@[i]),
        n < v@.len() ==> is_space(v@[n as int]),
{
    let mut n: usize = from;
    while n < v.len() && !is_whitespace(v[n])
        invariant
            from <= n <= v@.len(),
            forall|i: int| from <= i < n ==> !is_space(#[trigger] v@[i]),
        decreases v@.len() - n,
    {
        n = n + 1;
    }
    n
}

/// End of `v` without its trailing white space.
fn end_of_text(v: &Vec<char>) -> (n: usize)
    ensures
        n <= v@.len(),
        v@.take(n as int) == trim_end(v@),
{
    let mut n: usize = v.len();
    while n > 0 && is_whitespace(v[n - 1])
        invariant
            n <= v@.len(),
            forall|i: int| n <= i < v@.len() ==> is_space(#[trigger] v@[i]),
        decreases n,
    {
        n = n - 1;
    }
    proof {
        lemma_trailing_is(v@, spaces(), (v@.len() - n) as nat);
    }
    n
}

/// `s` without its leading white space.
pub fn trimmed_start(s: &str) -> (r: String)
    ensures
        r@ == trim_start(s@),
{
    let v = chars_of(s);
    let n: usize = skip_spaces(&v, 0);
    proof {
        lemma_leading_is(v@, spaces(), n as nat);
        assert(v@.subrange(n as int, v@.len() as int) =~= trim_start(v@));
    }
    slice_of(&v, n, v.len())
}

/// `s` without its trailing white space.
pub fn trimmed_end(s: &str) -> (r: String)
    ensures
        r@ == trim_end(s@),
{
    let v = chars_of(s);
    let n: usize = end_of_text(&v);
    assert(v@.subrange(0, n as int) =~= v@.take(n as int));
    slice_of(&v, 0, n)
}

/// `s` without its surrounding white space.
pub fn trimmed(s: &str) -> (r: String)
    ensures
        r@ == trim(s@),
{
    let e = trimmed_end(s);
    trimmed_start(e.as_str())
}

/// Whether `s` holds nothing but white space.
pub fn is_blank(s: &str) -> (r: bool)
    ensures
        r == (trim(s@).len() == 0),
{
    let t = trimmed(s);
    t.as_str().is_empty()
}

// ---------------------------------------------------------------------------
// Words and joining
// ---------------------------------------------------------------------------

/// The character views of a list of strings.
pub open spec fn views(v: Seq<String>) -> Seq<Seq<char>> {
    v.map_values(|s: String| s@)
}

/// The maximal runs of non-space characters of `s`, in order.
pub open spec fn words(s: Seq<char>) -> Seq<Seq<char>>
    decreases s.len(),
{
    let t = trim_start(s);
    let n = leading(t, solids());
    if t.len() == 0 {
        Seq::empty()
    } else {
        proof {
            lemma_leading_bounds(s, spaces());
            lemma_leading_bounds(t, solids());
        }
        seq![t.take(n as int)] + words(t.skip(n as int))
    }
}

/// The parts of `parts` with `sep` between neighbours.
pub open spec fn join(parts: Seq<Seq<char>>, sep: Seq<char>) -> Seq<char>
    decreases parts.len(),
{
    if parts.len() == 0 {
        Seq::empty()
    } else if parts.len() == 1 {
        parts[0]
    } else {
        join(parts.drop_last(), sep) + sep + parts.last()
    }
}

/// What `f` makes of each element and its index, one after the other.
pub open spec fn concat<A>(s: Seq<A>, f: spec_fn(int, A) -> Seq<char>) -> Seq<char>
    decreases s.len(),
{
    if s.len() == 0 {
        Seq::empty()
    } else {
        concat(s.drop_last(), f) + f(s.len() - 1, s.last())
    }
}

/// One more element in a concatenation.
pub proof fn lemma_concat_step<A>(s: Seq<A>, f: spec_fn(int, A) -> Seq<char>, i: int)
    requires
        0 <= i < s.len(),
    ensures
        concat(s.take(i + 1), f) == concat(s.take(i), f) + f(i, s[i]),
        concat(s.take(0), f) == Seq::<char>::empty(),
        s.take(s.len() as int) == s,
{
    assert(s.take(i + 1).drop_last() =~= s.take(i));
    assert(s.take(s.len() as int) =~= s);
}

/// The start and the end of a concatenation.
pub proof fn lemma_concat_ends<A>(s: Seq<A>, f: spec_fn(int, A) -> Seq<char>)
    ensures
        concat(s.take(0), f) == Seq::<char>::empty(),
        s.take(s.len() as int) == s,
        forall|t: Seq<char>| #[trigger] (t + Seq::<char>::empty()) == t,
{
    assert(s.take(s.len() as int) =~= s);
    assert forall|t: Seq<char>| #[trigger] (t + Seq::<char>::empty()) == t by {
        assert(t + Seq::<char>::empty() =~= t);
    }
}

/// Whether two strings differ at a place that both have.
pub open spec fn apart(a: Seq<char>, b: Seq<char>) -> bool {
    exists|k: int| 0 <= k < a.len() && k < b.len() && #[trigger] a[k] != b[k]
}

/// Whether `f` writes every character wherever it stands in one way, and no two in ways that
/// could be confused.
pub open spec fn is_code(f: spec_fn(int, char) -> Seq<char>) -> bool {
    &&& forall|i: int, c: char| #[trigger] f(i, c) == f(0, c)
    &&& forall|c: char| (#[trigger] f(0, c)).len() > 0
    &&& forall|c: char, d: char| c != d ==> apart(#[trigger] f(0, c), #[trigger] f(0, d))
}

/// A concatenation, seen from its front.
pub proof fn lemma_concat_front(s: Seq<char>, f: spec_fn(int, char) -> Seq<char>)
    requires
        forall|i: int, c: char| #[trigger] f(i, c) == f(0, c),
        s.len() > 0,
    ensures
        concat(s, f) == f(0, s[0]) + concat(s.skip(1), f),
    decreases s.len(),
{
    let front = s.drop_last();
    if s.len() == 1 {
        assert(concat(front, f) =~= Seq::empty());
        assert(concat(s.skip(1), f) =~= Seq::empty());
        assert(concat(s, f) =~= f(0, s[0]));
    } else {
        lemma_concat_front(front, f);
        assert(s.skip(1).drop_last() =~= front.skip(1));
        assert(f(s.len() - 1, s.last()) == f(0, s.last()));
        assert(f(s.len() - 2, s.last()) == f(0, s.last()));
        assert(concat(s, f) =~= f(0, s[0]) + concat(s.skip(1), f));
    }
}

/// What a code writes can be told apart: two strings written alike are one.
pub proof fn lemma_code_loses_nothing(
    s: Seq<char>,
    t: Seq<char>,
    f: spec_fn(int, char) -> Seq<char>,
)
    requires
        is_code(f),
        concat(s, f) == concat(t, f),
    ensures
        s == t,
    decreases s.len(),
{
    if s.len() > 0 {
        lemma_concat_front(s, f);
        assert(f(0, s[0]).len() > 0);
    }
    if t.len() > 0 {
        lemma_concat_front(t, f);
        assert(f(0, t[0]).len() > 0);
    }
    if s.len() > 0 && t.len() > 0 {
        let w = concat(s, f);
        let a = f(0, s[0]);
        let b = f(0, t[0]);
        if s[0] != t[0] {
            let k = choose|k: int| 0 <= k < a.len() && k < b.len() && #[trigger] a[k] != b[k];
            assert(w[k] == a[k]);
            assert(w[k] == b[k]);
        }
        assert(concat(s.skip(1), f) =~= w.skip(a.len() as int));
        assert(concat(t.skip(1), f) =~= w.skip(a.len() as int));
        lemma_code_loses_nothing(s.skip(1), t.skip(1), f);
        assert(s =~= seq![s[0]] + s.skip(1));
        assert(t =~= seq![t[0]] + t.skip(1));
    } else {
        assert(concat(s, f).len() == 0 ==> s.len() == 0);
        assert(concat(t, f).len() == 0 ==> t.len() == 0);
        assert(s =~= t);
    }
}

/// `s` with surrounding white space removed and every inner run replaced by one blank.
pub open spec fn collapse(s: Seq<char>) -> Seq<char> {
    join(words(s), " "@)
}

/// Reading one word: blanks up to `n`, a word up to `m`, then the rest.
proof fn lemma_words_step(s: Seq<char>, i: int, n: int, m: int)
    requires
        0 <= i <= n <= m <= s.len(),
        forall|k: int| i <= k < n ==> is_space(#[trigger] s[k]),
        n < s.len() ==> !is_space(s[n]),
        forall|k: int| n <= k < m ==> !is_space(#[trigger] s[k]),
        m < s.len() ==> is_space(s[m]),
    ensures
        n == s.len() ==> words(s.skip(i)) == Seq::<Seq<char>>::empty(),
        n < s.len() ==> n < m && words(s.skip(i)) == seq![s.subrange(n, m)] + words(s.skip(m)),
{
    let a = s.skip(i);
    lemma_leading_is(a, spaces(), (n - i) as nat);
    let t = trim_start(a);
    assert(t =~= s.skip(n));
    if n < s.len() {
        lemma_leading_is(t, solids(), (m - n) as nat);
        assert(t.take(m - n) =~= s.subrange(n, m));
        assert(t.skip(m - n) =~= s.skip(m));
    }
}

/// The words of `s`.
pub fn split_words(s: &str) -> (out: Vec<String>)
    ensures
        views(out@) == words(s@),
{
    let v = chars_of(s);
    let mut out: Vec<String> = Vec::new();
    let mut i: usize = 0;
    assert(v@.skip(0) =~= v@);
    assert(views(out@) + words(v@) =~= words(v@));
    loop
        invariant
            v@ == s@,
            i <= v@.len(),
            views(out@) + words(v@.skip(i as int)) == words(s@),
        decreases v@.len() - i,
    {
        let n: usize = skip_spaces(&v, i);
        let m: usize = skip_solids(&v, n);
        proof {
            lemma_words_step(v@, i as int, n as int, m as int);
        }
        if n == v.len() {
            assert(views(out@) + Seq::<Seq<char>>::empty() =~= views(out@));
            return out;
        }
        let ghost before = out@;
        let w = slice_of(&v, n, m);
        out.push(w);
        assert(views(out@) + words(v@.skip(m as int)) =~= views(before) + (seq![w@] + words(
            v@.skip(m as int),
        )));
        i = m;
    }
}

/// Number of words of `s`.
pub fn count_words(s: &str) -> (n: usize)
    ensures
        n == words(s@).len(),
{
    let w = split_words(s);
    assert(views(w@).len() == w@.len());
    w.len()
}

/// The strings of `parts` with `sep` between neighbours.
pub fn joined(parts: &Vec<String>, sep: &str) -> (r: String)
    ensures
        r@ == join(views(parts@), sep@),
{
    let mut r = String::new();
    let mut i: usize = 0;
    let ghost all = views(parts@);
    assert(all.take(0) =~= Seq::empty());
    while i < parts.len()
        invariant
            all == views(parts@),
            i <= parts@.len(),
            r@ == join(all.take(i as int), sep@),
        decreases parts@.len() - i,
    {
        if i > 0 {
            r.append(sep);
        }
        r.append(parts[i].as_str());
        proof {
            let next = all.take(i + 1);
            assert(next.drop_last() =~= all.take(i as int));
            assert(next.last() == parts@[i as int]@);
            if i == 0 {
                assert(r@ =~= next[0]);
            }
        }
        i = i + 1;
    }
    assert(all.take(i as int) =~= all);
    r
}

/// `s` with surrounding white space removed and every inner run replaced by one blank.
pub fn collapsed(s: &str) -> (r: String)
    ensures
        r@ == collapse(s@),
{
    let w = split_words(s);
    joined(&w, " ")
}

/// A word: not empty, and without white space.
pub open spec fn is_word(w: Seq<char>) -> bool {
    w.len() > 0 && forall|i: int| 0 <= i < w.len() ==> !is_space(#[trigger] w[i])
}

/// What `words` lists are words.
pub proof fn lemma_words_are_words(s: Seq<char>)
    ensures
        forall|i: int| 0 <= i < words(s).len() ==> is_word(#[trigger] words(s)[i]),
    decreases s.len(),
{
    let t = trim_start(s);
    let n = leading(t, solids());
    lemma_leading_bounds(s, spaces());
    lemma_leading_bounds(t, solids());
    if t.len() > 0 {
        assert(t[0] == s[leading(s, spaces()) as int]);
        assert(n > 0);
        let w = t.take(n as int);
        assert forall|i: int| 0 <= i < w.len() implies !is_space(#[trigger] w[i]) by {
            assert(w[i] == t[i]);
        }
        let rest = words(t.skip(n as int));
        lemma_words_are_words(t.skip(n as int));
        assert forall|i: int| 0 <= i < words(s).len() implies is_word(#[trigger] words(s)[i]) by {
            if i == 0 {
                assert(words(s)[0] == w);
            } else {
                assert(words(s)[i] == rest[i - 1]);
            }
        }
    }
}

/// A join, seen from its front.
pub proof fn lemma_join_front(parts: Seq<Seq<char>>, sep: Seq<char>)
    requires
        parts.len() >= 2,
    ensures
        join(parts, sep) == parts[0] + sep + join(parts.skip(1), sep),
    decreases parts.len(),
{
    if parts.len() == 2 {
        assert(join(parts.skip(1), sep) == parts.skip(1)[0]);
        assert(join(parts.drop_last(), sep) == parts.drop_last()[0]);
    } else {
        lemma_join_front(parts.drop_last(), sep);
        assert(parts.drop_last().skip(1) =~= parts.skip(1).drop_last());
        assert(parts.drop_last()[0] == parts[0]);
        assert(parts.skip(1).last() == parts.last());
        assert(join(parts, sep) =~= parts[0] + sep + join(parts.skip(1), sep));
    }
}

/// Joining words by blanks and taking the words of the result gives the words back.
pub proof fn lemma_words_of_join(ws: Seq<Seq<char>>)
    requires
        forall|i: int| 0 <= i < ws.len() ==> is_word(#[trigger] ws[i]),
    ensures
        words(join(ws, " "@)) == ws,
    decreases ws.len(),
{
    reveal_strlit(" ");
    let s = join(ws, " "@);
    if ws.len() == 0 {
        assert(trim_start(s) =~= Seq::empty());
        assert(words(s) =~= ws);
    } else {
        let w = ws[0];
        let rest = ws.skip(1);
        let m = w.len() as int;
        let tail = join(rest, " "@);
        if ws.len() == 1 {
            assert(s =~= w);
        } else {
            lemma_join_front(ws, " "@);
            assert(s =~= w + " "@ + tail);
            assert(is_space(s[m]));
        }
        assert(is_word(w));
        assert forall|k: int| 0 <= k < m implies !is_space(#[trigger] s[k]) by {
            assert(s[k] == w[k]);
        }
        assert(s.skip(0) =~= s);
        lemma_words_step(s, 0, 0, m);
        assert(s.subrange(0, m) =~= w);
        assert forall|i: int| 0 <= i < rest.len() implies is_word(#[trigger] rest[i]) by {
            assert(rest[i] == ws[i + 1]);
        }
        lemma_words_of_join(rest);
        if ws.len() == 1 {
            assert(s.skip(m) =~= Seq::empty());
            assert(words(s.skip(m)) =~= Seq::empty());
        } else {
            assert(s.skip(m) =~= " "@ + tail);
            lemma_words_after_space(" "@, tail);
        }
        assert(words(s) =~= ws);
    }
}

/// White space in front changes no words.
pub proof fn lemma_words_after_space(space: Seq<char>, s: Seq<char>)
    requires
        forall|i: int| 0 <= i < space.len() ==> is_space(#[trigger] space[i]),
    ensures
        words(space + s) == words(s),
{
    let t = space + s;
    lemma_leading_bounds(s, spaces());
    let n = leading(s, spaces());
    let m = space.len();
    assert forall|i: int| 0 <= i < n + m implies spaces()(#[trigger] t[i]) by {
        if i >= m {
            assert(t[i] == s[i - m]);
        }
    }
    if n < s.len() {
        assert(t[(n + m) as int] == s[n as int]);
    }
    lemma_leading_is(t, spaces(), n + m);
    assert(trim_start(t) =~= trim_start(s));
}

/// Where white space stands between two strings, the words of both together are the words of
/// the one and then of the other.
pub proof fn lemma_words_add(a: Seq<char>, b: Seq<char>)
    requires
        a.len() == 0 || b.len() == 0 || is_space(a.last()) || is_space(b[0]),
    ensures
        words(a + b) == words(a) + words(b),
    decreases a.len(),
{
    let s = a + b;
    lemma_leading_bounds(a, spaces());
    let n = leading(a, spaces()) as int;
    let t = trim_start(a);
    if t.len() == 0 {
        assert forall|i: int| 0 <= i < a.len() implies is_space(#[trigger] a[i]) by {
            assert(spaces()(a[i]));
        }
        lemma_words_after_space(a, b);
        assert(words(a) + words(b) =~= words(b));
    } else {
        lemma_leading_bounds(t, solids());
        let m = n + leading(t, solids()) as int;
        let rest = a.skip(m);
        assert(t.skip(m - n) =~= rest);
        assert(a.skip(0) =~= a);
        assert(s.skip(0) =~= s);
        assert forall|k: int| 0 <= k < n implies is_space(#[trigger] a[k]) by {
            assert(spaces()(a[k]));
        }
        assert forall|k: int| n <= k < m implies !is_space(#[trigger] a[k]) by {
            assert(solids()(t[k - n]));
            assert(t[k - n] == a[k]);
        }
        assert forall|k: int| 0 <= k < m implies #[trigger] s[k] == a[k] by {}
        assert(!spaces()(a[n]));
        assert(t[0] == a[n]);
        if m < a.len() {
            assert(!solids()(t[m - n]));
            assert(t[m - n] == a[m]);
            assert(s[m] == a[m]);
            assert(rest.last() == a.last());
        } else {
            assert(!is_space(a[m - 1]));
            if b.len() > 0 {
                assert(s[m] == b[0]);
            }
        }
        lemma_words_step(a, 0, n, m);
        lemma_words_step(s, 0, n, m);
        assert(s.skip(m) =~= rest + b);
        assert(s.subrange(n, m) =~= a.subrange(n, m));
        lemma_words_add(rest, b);
        assert(words(s) =~= words(a) + words(b));
    }
}

/// A single white space has no words.
pub proof fn lemma_one_space(s: Seq<char>)
    requires
        s.len() == 1,
        is_space(s[0]),
    ensures
        words(s).len() == 0,
{
    lemma_words_after_space(s, Seq::empty());
    assert(s + Seq::<char>::empty() =~= s);
    assert(trim_start(Seq::<char>::empty()) =~= Seq::empty());
}

/// Whether text is not empty and has no white space around it.
pub open spec fn is_trimmed(s: Seq<char>) -> bool {
    s.len() > 0 && !is_space(s[0]) && !is_space(s.last())
}

/// What is left of trimming is trimmed, or empty.
pub proof fn lemma_trim_is_trimmed(s: Seq<char>)
    ensures
        trim(s).len() > 0 ==> is_trimmed(trim(s)),
{
    let e = trim_end(s);
    lemma_trailing_bounds(s, spaces());
    lemma_leading_bounds(e, spaces());
    let n = leading(e, spaces()) as int;
    if trim(s).len() > 0 {
        assert(trim(s)[0] == e[n]);
        assert(!spaces()(e[n]));
        assert(trim(s).last() == e.last());
        assert(e.last() == s[e.len() - 1]);
        assert(!spaces()(s[e.len() - 1]));
    }
}

/// Trimming trimmed text changes nothing.
pub proof fn lemma_trimmed_stays(s: Seq<char>)
    requires
        is_trimmed(s),
    ensures
        trim(s) == s,
{
    lemma_trailing_bounds(s, spaces());
    if trailing(s, spaces()) > 0 {
        assert(spaces()(s[s.len() - 1]));
    }
    assert(trim_end(s) =~= s);
    lemma_leading_bounds(s, spaces());
    if leading(s, spaces()) > 0 {
        assert(spaces()(s[0]));
    }
    assert(trim_start(s) =~= s);
}

/// A string with a solid character in it is not blank.
pub proof fn lemma_trim_solid(s: Seq<char>, i: int)
    requires
        0 <= i < s.len(),
        !is_space(s[i]),
    ensures
        trim(s).len() > 0,
{
    lemma_trailing_bounds(s, spaces());
    let t = trim_end(s);
    assert(i < t.len()) by {
        if i >= t.len() {
            assert(spaces()(s[i]));
        }
    }
    lemma_leading_bounds(t, spaces());
    if leading(t, spaces()) == t.len() {
        assert(spaces()(t[i]));
    }
}

/// A blank string has no words, and no other string has none.
pub proof fn lemma_blank_has_no_words(s: Seq<char>)
    ensures
        words(s).len() == 0 <==> trim(s).len() == 0,
{
    let t = trim_start(s);
    if trim(s).len() > 0 {
        let i = lemma_solid_in(s);
        lemma_collapse_solid(s, i);
    }
    lemma_leading_bounds(s, spaces());
    if t.len() > 0 {
        let n = leading(s, spaces()) as int;
        assert(!spaces()(s[n]));
        lemma_trim_solid(s, n);
    }
}

/// A join of two lists, from the joins of both.
pub proof fn lemma_join_add(a: Seq<Seq<char>>, b: Seq<Seq<char>>, sep: Seq<char>)
    requires
        a.len() > 0,
        b.len() > 0,
    ensures
        join(a + b, sep) == join(a, sep) + sep + join(b, sep),
    decreases b.len(),
{
    assert((a + b).drop_last() =~= a + b.drop_last());
    if b.len() == 1 {
        assert(a + b.drop_last() =~= a);
    } else {
        lemma_join_add(a, b.drop_last(), sep);
        assert(join(a + b, sep) =~= join(a, sep) + sep + join(b, sep));
    }
}

/// Two collapsed strings with a blank between them are collapsed.
pub proof fn lemma_collapse_two(a: Seq<char>, b: Seq<char>)
    requires
        collapse(a) == a,
        collapse(b) == b,
        a.len() > 0,
        b.len() > 0,
    ensures
        collapse(a + " "@ + b) == a + " "@ + b,
{
    let v = words(a);
    let w = words(b);
    lemma_words_are_words(a);
    lemma_words_are_words(b);
    lemma_join_add(v, w, " "@);
    assert forall|i: int| 0 <= i < (v + w).len() implies is_word(#[trigger] (v + w)[i]) by {
        if i < v.len() {
            assert(is_word(v[i]));
        } else {
            assert(is_word(w[i - v.len()]));
        }
    }
    lemma_words_of_join(v + w);
}

/// Collapsing makes nothing longer.
pub proof fn lemma_collapse_len(s: Seq<char>)
    ensures
        collapse(s).len() <= s.len(),
    decreases s.len(),
{
    reveal_strlit(" ");
    lemma_leading_bounds(s, spaces());
    let n = leading(s, spaces()) as int;
    let t = trim_start(s);
    if t.len() > 0 {
        lemma_leading_bounds(t, solids());
        let k = leading(t, solids()) as int;
        let w = t.take(k);
        let rest = t.skip(k);
        assert(!spaces()(s[n]));
        assert(t[0] == s[n]);
        assert(k > 0);
        let ws = words(s);
        assert(ws.skip(1) =~= words(rest));
        if words(rest).len() > 0 {
            assert(rest.len() > 0);
            assert(rest[0] == t[k]);
            assert(!solids()(t[k]));
            lemma_words_after_space(rest.take(1), rest.skip(1));
            assert(rest.take(1) + rest.skip(1) =~= rest);
            lemma_collapse_len(rest.skip(1));
            lemma_join_front(ws, " "@);
        }
    }
}

/// Collapsing keeps the words.
pub proof fn lemma_words_of_collapse(s: Seq<char>)
    ensures
        words(collapse(s)) == words(s),
{
    lemma_words_are_words(s);
    lemma_words_of_join(words(s));
}

/// A string with a solid character in it collapses to something.
pub proof fn lemma_collapse_solid(s: Seq<char>, i: int)
    requires
        0 <= i < s.len(),
        !is_space(s[i]),
    ensures
        collapse(s).len() > 0,
{
    lemma_leading_bounds(s, spaces());
    let n = leading(s, spaces());
    if n > i {
        assert(spaces()(s[i]));
    }
    let ws = words(s);
    assert(trim_start(s).len() > 0);
    assert(ws.len() > 0);
    lemma_words_are_words(s);
    assert(is_word(ws[0]));
    if ws.len() >= 2 {
        lemma_join_front(ws, " "@);
    }
}

/// A string that is not blank has a solid character in it.
pub proof fn lemma_solid_in(s: Seq<char>) -> (i: int)
    requires
        trim(s).len() > 0,
    ensures
        0 <= i < s.len(),
        !is_space(s[i]),
{
    let t = trim_end(s);
    lemma_trailing_bounds(s, spaces());
    lemma_leading_bounds(t, spaces());
    let i = leading(t, spaces()) as int;
    assert(t[i] == s[i]);
    assert(!spaces()(t[i]));
    i
}

/// What is collapsed already stays as it is.
pub proof fn law_collapse_idempotent(s: Seq<char>)
    ensures
        collapse(collapse(s)) == collapse(s),
{
    lemma_words_of_collapse(s);
}

// ---------------------------------------------------------------------------
// Lines
// ---------------------------------------------------------------------------

/// Every character but the line feed.
pub open spec fn within_line() -> spec_fn(char) -> bool {
    |c: char| c != '\n'
}

/// A line without the carriage return that stood before its line feed.
pub open spec fn strip_cr(line: Seq<char>) -> Seq<char> {
    if line.len() > 0 && line.last() == '\r' {
        line.drop_last()
    } else {
        line
    }
}

/// The lines of `s`: each ends at a line feed, which is dropped together with a carriage
/// return right before it; what follows the last line feed is a line unless it is empty.
pub open spec fn lines(s: Seq<char>) -> Seq<Seq<char>>
    decreases s.len(),
{
    let n = leading(s, within_line()) as int;
    if s.len() == 0 {
        Seq::empty()
    } else if n < s.len() {
        seq![strip_cr(s.take(n))] + lines(s.skip(n + 1))
    } else {
        seq![s]
    }
}

/// The lines of `s`.
pub fn split_lines(s: &str) -> (out: Vec<String>)
    ensures
        views(out@) == lines(s@),
{
    let v = chars_of(s);
    let mut out: Vec<String> = Vec::new();
    let mut i: usize = 0;
    assert(v@.skip(0) =~= v@);
    assert(views(out@) + lines(v@) =~= lines(v@));
    while i < v.len()
        invariant
            v@ == s@,
            i <= v@.len(),
            views(out@) + lines(v@.skip(i as int)) == lines(s@),
        decreases v@.len() - i,
    {
        let mut n: usize = i;
        while n < v.len() && v[n] != '\n'
            invariant
                i <= n <= v@.len(),
                forall|k: int| i <= k < n ==> #[trigger] v@[k] != '\n',
            decreases v@.len() - n,
        {
            n = n + 1;
        }
        let ghost before = out@;
        let ghost rest = v@.skip(i as int);
        proof {
            lemma_leading_is(rest, within_line(), (n - i) as nat);
        }
        if n == v.len() {
            let line = slice_of(&v, i, n);
            out.push(line);
            proof {
                assert(line@ =~= rest);
                assert(v@.skip(n as int) =~= Seq::empty());
                assert(views(out@) + Seq::<Seq<char>>::empty() =~= views(before) + seq![rest]);
            }
            i = n;
        } else {
            let e: usize = if n > i && v[n - 1] == '\r' {
                n - 1
            } else {
                n
            };
            let line = slice_of(&v, i, e);
            out.push(line);
            proof {
                assert(line@ =~= strip_cr(rest.take(n - i)));
                assert(rest.skip(n - i + 1) =~= v@.skip(n + 1));
                assert(views(out@) + lines(v@.skip(n + 1)) =~= views(before) + (seq![line@] + lines(
                    v@.skip(n + 1),
                )));
            }
            i = n + 1;
        }
    }
    assert(v@.skip(i as int) =~= Seq::empty());
    assert(views(out@) + Seq::<Seq<char>>::empty() =~= views(out@));
    out
}

/// A character with every line feed written the Windows way.
pub open spec fn crlf_char() -> spec_fn(int, char) -> Seq<char> {
    |i: int, c: char|
        if c == '\n' {
            seq!['\r', '\n']
        } else {
            seq![c]
        }
}

/// Text with every line feed written the Windows way.
pub open spec fn to_crlf(s: Seq<char>) -> Seq<char> {
    concat(s, crlf_char())
}

/// Text without line feeds reads the same the Windows way.
proof fn lemma_crlf_within_line(s: Seq<char>)
    requires
        forall|i: int| 0 <= i < s.len() ==> #[trigger] s[i] != '\n',
    ensures
        to_crlf(s) == s,
    decreases s.len(),
{
    if s.len() > 0 {
        assert forall|i: int| 0 <= i < s.drop_last().len() implies #[trigger] s.drop_last()[i]
            != '\n' by {
            assert(s.drop_last()[i] == s[i]);
        }
        lemma_crlf_within_line(s.drop_last());
        assert(s[s.len() - 1] != '\n');
        assert(to_crlf(s) =~= s);
    }
}

/// Two texts are written the Windows way one after the other.
proof fn lemma_crlf_add(a: Seq<char>, b: Seq<char>)
    ensures
        to_crlf(a + b) == to_crlf(a) + to_crlf(b),
    decreases b.len(),
{
    let s = a + b;
    if b.len() == 0 {
        assert(s =~= a);
        assert(to_crlf(a) + to_crlf(b) =~= to_crlf(a));
    } else {
        lemma_crlf_add(a, b.drop_last());
        assert(s.drop_last() =~= a + b.drop_last());
        assert(to_crlf(s) =~= to_crlf(a) + to_crlf(b));
    }
}

/// Whether a carriage return stands right before a line feed.
pub open spec fn has_crlf(s: Seq<char>) -> bool {
    exists|i: int| 0 < i < s.len() && s[i - 1] == '\r' && #[trigger] s[i] == '\n'
}

/// Written the Windows way, a text has the same lines, but that a carriage return which stood
/// before a line feed stays on its line.
proof fn lemma_crlf_lines(s: Seq<char>)
    ensures
        lines(to_crlf(s)).len() == lines(s).len(),
        forall|i: int|
            0 <= i < lines(s).len() ==> (#[trigger] lines(to_crlf(s))[i]) == lines(s)[i] || lines(
                to_crlf(s),
            )[i] == lines(s)[i].push('\r'),
        !has_crlf(s) ==> lines(to_crlf(s)) == lines(s),
    decreases s.len(),
{
    if s.len() > 0 {
        let n = leading(s, within_line()) as int;
        lemma_leading_bounds(s, within_line());
        let line = s.take(n);
        assert forall|i: int| 0 <= i < line.len() implies #[trigger] line[i] != '\n' by {
            assert(within_line()(s[i]));
        }
        lemma_crlf_within_line(line);
        if n == s.len() {
            assert(line =~= s);
        } else {
            let rest = s.skip(n + 1);
            let t = to_crlf(s);
            assert(s[n] == '\n');
            assert(s =~= line + (seq!['\n'] + rest));
            lemma_crlf_add(line, seq!['\n'] + rest);
            lemma_crlf_add(seq!['\n'], rest);
            assert(seq!['\n'].drop_last() =~= Seq::<char>::empty());
            assert(concat(Seq::<char>::empty(), crlf_char()) =~= Seq::empty());
            assert(to_crlf(seq!['\n']) =~= crlf_char()(0, '\n'));
            assert(to_crlf(seq!['\n']) =~= seq!['\r', '\n']);
            assert(t =~= line + seq!['\r', '\n'] + to_crlf(rest));
            assert forall|i: int| 0 <= i < n + 1 implies within_line()(#[trigger] t[i]) by {
                if i < n {
                    assert(t[i] == line[i]);
                }
            }
            assert(t[n + 1] == '\n');
            lemma_leading_is(t, within_line(), (n + 1) as nat);
            assert(t.take(n + 1) =~= line.push('\r'));
            assert(strip_cr(t.take(n + 1)) =~= line);
            assert(t.skip(n + 2) =~= to_crlf(rest));
            lemma_crlf_lines(rest);
            let l = strip_cr(line);
            assert(line == l || line =~= l.push('\r'));
            assert(lines(s) == seq![l] + lines(rest));
            assert(lines(t) == seq![line] + lines(to_crlf(rest)));
            assert forall|i: int| 0 <= i < lines(s).len() implies (#[trigger] lines(t)[i])
                == lines(s)[i] || lines(t)[i] == lines(s)[i].push('\r') by {
                if i > 0 {
                    assert(lines(t)[i] == lines(to_crlf(rest))[i - 1]);
                    assert(lines(s)[i] == lines(rest)[i - 1]);
                }
            }
            if !has_crlf(s) {
                if n > 0 {
                    assert(s[n - 1] == line.last());
                }
                if has_crlf(rest) {
                    let k = choose|k: int|
                        0 < k < rest.len() && rest[k - 1] == '\r' && #[trigger] rest[k] == '\n';
                    assert(s[k + n] == '\r' && s[k + n + 1] == '\n');
                }
                assert(line == l);
            }
        }
    } else {
        assert(to_crlf(s) =~= s);
    }
}

/// Windows line ends make no difference to the lines of a text. In a text that has some
/// already, writing them once more would leave a carriage return on the line.
pub proof fn law_crlf_has_the_same_lines(s: Seq<char>)
    requires
        !has_crlf(s),
    ensures
        lines(to_crlf(s)) == lines(s),
{
    lemma_crlf_lines(s);
}

/// Whether two lists of strings have the same words, string by string.
pub open spec fn alike(a: Seq<Seq<char>>, b: Seq<Seq<char>>) -> bool {
    a.len() == b.len() && forall|i: int|
        0 <= i < a.len() ==> words(#[trigger] a[i]) == words(b[i])
}

/// Windows line ends make no difference to the words of each line, whatever the text.
pub proof fn lemma_crlf_lines_alike(s: Seq<char>)
    ensures
        alike(lines(to_crlf(s)), lines(s)),
{
    lemma_crlf_lines(s);
    let a = lines(to_crlf(s));
    let b = lines(s);
    assert forall|i: int| 0 <= i < a.len() implies words(#[trigger] a[i]) == words(b[i]) by {
        let cr = seq!['\r'];
        assert(is_space('\r'));
        assert(b[i].push('\r') =~= b[i] + cr);
        lemma_words_add(b[i], cr);
        lemma_one_space(cr);
        assert(words(b[i]) + words(cr) =~= words(b[i]));
    }
}

/// Lists of strings that are alike have the same words when they are joined by blanks.
pub proof fn lemma_join_alike(a: Seq<Seq<char>>, b: Seq<Seq<char>>)
    requires
        alike(a, b),
    ensures
        words(join(a, " "@)) == words(join(b, " "@)),
    decreases a.len(),
{
    reveal_strlit(" ");
    assert(is_space(' '));
    if a.len() == 1 {
        assert(words(a[0]) == words(b[0]));
    } else if a.len() > 1 {
        let n = a.len() - 1;
        let x = join(a.drop_last(), " "@);
        let y = join(b.drop_last(), " "@);
        assert forall|i: int| 0 <= i < a.drop_last().len() implies words(
            #[trigger] a.drop_last()[i],
        ) == words(b.drop_last()[i]) by {
            assert(words(a[i]) == words(b[i]));
        }
        lemma_join_alike(a.drop_last(), b.drop_last());
        assert(words(a[n]) == words(b[n]));
        lemma_words_add(x, " "@);
        lemma_words_add(y, " "@);
        lemma_words_add(x + " "@, a[n]);
        lemma_words_add(y + " "@, b[n]);
    }
}

// ---------------------------------------------------------------------------
// Case, prefixes and substrings
// ---------------------------------------------------------------------------

/// ASCII lower case of one character; other characters are kept.
pub open spec fn lower_char(c: char) -> char {
    if 'A' <= c && c <= 'Z' {
        (c as u8 + 32) as u8 as char
    } else {
        c
    }
}

/// ASCII lower case of a string.
pub open spec fn lower(s: Seq<char>) -> Seq<char> {
    s.map_values(|c: char| lower_char(c))
}

/// ASCII lower case of `s`.
pub fn lowered(s: &str) -> (r: String)
    ensures
        r@ == lower(s@),
{
    let v = chars_of(s);
    let mut r = String::new();
    let mut i: usize = 0;
    while i < v.len()
        invariant
            v@ == s@,
            i <= v@.len(),
            r@ == lower(v@.take(i as int)),
        decreases v@.len() - i,
    {
        let c: char = v[i];
        let d: char = if 'A' <= c && c <= 'Z' {
            (c as u8 + 32) as char
        } else {
            c
        };
        r.push(d);
        i = i + 1;
        assert(r@ =~= lower(v@.take(i as int)));
    }
    assert(v@.take(i as int) =~= v@);
    r
}

/// What follows `prefix` in `s`, when `s` starts with it.
pub fn after_prefix(s: &str, prefix: &str) -> (r: Option<String>)
    ensures
        r matches Some(t) ==> prefix@.is_prefix_of(s@) && t@ == s@.skip(prefix@.len() as int),
        r is None ==> !prefix@.is_prefix_of(s@),
{
    let v = chars_of(s);
    let p = chars_of(prefix);
    if p.len() > v.len() {
        return None;
    }
    let mut i: usize = 0;
    while i < p.len()
        invariant
            v@ == s@,
            p@ == prefix@,
            p@.len() <= v@.len(),
            i <= p@.len(),
            forall|j: int| 0 <= j < i ==> p@[j] == v@[j],
        decreases p@.len() - i,
    {
        if p[i] != v[i] {
            assert(p@.subrange(0, p@.len() as int)[i as int] != v@.subrange(
                0,
                p@.len() as int,
            )[i as int]);
            return None;
        }
        i = i + 1;
    }
    assert(p@ =~= v@.subrange(0, p@.len() as int));
    let t = slice_of(&v, p.len(), v.len());
    assert(t@ =~= s@.skip(prefix@.len() as int));
    Some(t)
}

/// Whether `part` occurs in `s` at position `at`.
pub open spec fn occurs_at(s: Seq<char>, part: Seq<char>, at: int) -> bool {
    0 <= at <= s.len() - part.len() && s.subrange(at, at + part.len()) == part
}

/// Whether `part` occurs in `s`.
pub open spec fn occurs(s: Seq<char>, part: Seq<char>) -> bool {
    exists|at: int| occurs_at(s, part, at)
}

/// Whether `part` occurs in `s`.
pub fn contains(s: &str, part: &str) -> (r: bool)
    ensures
        r == occurs(s@, part@),
{
    let v = chars_of(s);
    let p = chars_of(part);
    if p.len() > v.len() {
        return false;
    }
    let last: usize = v.len() - p.len();
    let mut at: usize = 0;
    while at <= last
        invariant
            v@ == s@,
            p@ == part@,
            last == v@.len() - p@.len(),
            at <= last + 1,
            forall|k: int| 0 <= k < at ==> !occurs_at(s@, part@, k),
        decreases last + 1 - at,
    {
        let mut i: usize = 0;
        while i < p.len() && p[i] == v[at + i]
            invariant
                at <= last,
                last == v.len() - p@.len(),
                i <= p@.len(),
                forall|j: int| 0 <= j < i ==> p@[j] == v@[at + j],
            decreases p@.len() - i,
        {
            i = i + 1;
        }
        if i == p.len() {
            assert(v@.subrange(at as int, at + p@.len()) =~= p@);
            assert(occurs_at(s@, part@, at as int));
            return true;
        }
        assert(v@.subrange(at as int, at + p@.len())[i as int] != p@[i as int]);
        if at == last {
            assert forall|k: int| !occurs_at(s@, part@, k) by {}
            return false;
        }
        at = at + 1;
    }
    false
}

// ---------------------------------------------------------------------------
// Paths
// ---------------------------------------------------------------------------

/// Every character but the path separators `/` and `\`.
pub open spec fn within_segment() -> spec_fn(char) -> bool {
    |c: char| c != '/' && c != '\\'
}

/// Every character but the dot.
pub open spec fn within_suffix() -> spec_fn(char) -> bool {
    |c: char| c != '.'
}

/// What follows the last path separator, or the whole path when there is none.
pub open spec fn file_name(path: Seq<char>) -> Seq<char> {
    path.skip(path.len() - trailing(path, within_segment()))
}

/// What follows the last dot of `name`, when there is a dot.
pub open spec fn extension(name: Seq<char>) -> Option<Seq<char>> {
    let n = trailing(name, within_suffix());
    if n < name.len() {
        Some(name.skip(name.len() - n))
    } else {
        None
    }
}

/// What follows the last path separator of `path`.
pub fn name_of(path: &str) -> (r: String)
    ensures
        r@ == file_name(path@),
{
    let v = chars_of(path);
    let mut n: usize = v.len();
    while n > 0 && v[n - 1] != '/' && v[n - 1] != '\\'
        invariant
            n <= v@.len(),
            forall|i: int| n <= i < v@.len() ==> (#[trigger] v@[i]) != '/' && v@[i] != '\\',
        decreases n,
    {
        n = n - 1;
    }
    proof {
        lemma_trailing_is(v@, within_segment(), (v@.len() - n) as nat);
        assert(v@.subrange(n as int, v@.len() as int) =~= v@.skip(n as int));
    }
    slice_of(&v, n, v.len())
}

/// What follows the last dot of `name`, when there is a dot.
pub fn extension_of(name: &str) -> (r: Option<String>)
    ensures
        r is Some <==> extension(name@) is Some,
        r matches Some(e) ==> extension(name@) == Some(e@),
{
    let v = chars_of(name);
    let mut n: usize = v.len();
    while n > 0 && v[n - 1] != '.'
        invariant
            n <= v@.len(),
            forall|i: int| n <= i < v@.len() ==> (#[trigger] v@[i]) != '.',
        decreases n,
    {
        n = n - 1;
    }
    proof {
        lemma_trailing_is(v@, within_suffix(), (v@.len() - n) as nat);
        assert(v@.subrange(n as int, v@.len() as int) =~= v@.skip(n as int));
    }
    if n == 0 {
        None
    } else {
        Some(slice_of(&v, n, v.len()))
    }
}

// ---------------------------------------------------------------------------
// Order
// ---------------------------------------------------------------------------

/// Lexicographic order by code point, which is also the order of the UTF-8 encodings.
pub open spec fn at_most(a: Seq<char>, b: Seq<char>) -> bool
    decreases a.len(),
{
    if a.len() == 0 {
        true
    } else if b.len() == 0 {
        false
    } else if a[0] == b[0] {
        at_most(a.drop_first(), b.drop_first())
    } else {
        a[0] < b[0]
    }
}

/// The order is total.
pub proof fn lemma_at_most_total(a: Seq<char>, b: Seq<char>)
    ensures
        at_most(a, b) || at_most(b, a),
    decreases a.len(),
{
    if a.len() > 0 && b.len() > 0 && a[0] == b[0] {
        lemma_at_most_total(a.drop_first(), b.drop_first());
    }
}

/// Two strings that are at most one another are equal.
pub proof fn lemma_at_most_antisymmetric(a: Seq<char>, b: Seq<char>)
    requires
        at_most(a, b),
        at_most(b, a),
    ensures
        a == b,
    decreases a.len(),
{
    if a.len() > 0 && b.len() > 0 {
        lemma_at_most_antisymmetric(a.drop_first(), b.drop_first());
        assert(a =~= seq![a[0]] + a.drop_first());
        assert(b =~= seq![b[0]] + b.drop_first());
    } else {
        assert(a =~= b);
    }
}

/// The order is transitive.
pub proof fn lemma_at_most_transitive(a: Seq<char>, b: Seq<char>, c: Seq<char>)
    requires
        at_most(a, b),
        at_most(b, c),
    ensures
        at_most(a, c),
    decreases a.len(),
{
    if a.len() > 0 && a[0] == b[0] && b[0] == c[0] {
        lemma_at_most_transitive(a.drop_first(), b.drop_first(), c.drop_first());
    }
}

/// Two equal prefixes can be dropped from both sides of a comparison.
proof fn lemma_at_most_skip(a: Seq<char>, b: Seq<char>, n: int)
    requires
        0 <= n <= a.len(),
        n <= b.len(),
        a.take(n) == b.take(n),
    ensures
        at_most(a, b) == at_most(a.skip(n), b.skip(n)),
    decreases n,
{
    if n == 0 {
        assert(a.skip(0) =~= a);
        assert(b.skip(0) =~= b);
    } else {
        assert(a[0] == a.take(n)[0]);
        assert(b[0] == b.take(n)[0]);
        assert(a.drop_first().take(n - 1) =~= a.take(n).drop_first());
        assert(b.drop_first().take(n - 1) =~= b.take(n).drop_first());
        lemma_at_most_skip(a.drop_first(), b.drop_first(), n - 1);
        assert(a.drop_first().skip(n - 1) =~= a.skip(n));
        assert(b.drop_first().skip(n - 1) =~= b.skip(n));
    }
}

/// Whether `a` comes at or before `b`.
pub fn is_at_most(a: &str, b: &str) -> (r: bool)
    ensures
        r == at_most(a@, b@),
{
    let x = chars_of(a);
    let y = chars_of(b);
    let mut i: usize = 0;
    while i < x.len() && i < y.len() && x[i] == y[i]
        invariant
            i <= x@.len(),
            i <= y@.len(),
            forall|j: int| 0 <= j < i ==> x@[j] == y@[j],
        decreases x@.len() - i,
    {
        i = i + 1;
    }
    proof {
        assert(x@.take(i as int) =~= y@.take(i as int));
        lemma_at_most_skip(x@, y@, i as int);
    }
    if i == x.len() {
        true
    } else if i == y.len() {
        false
    } else {
        x[i] < y[i]
    }
}

// ---------------------------------------------------------------------------
// Numbers
// ---------------------------------------------------------------------------

/// The decimal digit `d`.
pub open spec fn digit(d: nat) -> char {
    (48 + d) as u8 as char
}

/// `n` in decimal, without leading zeros.
pub open spec fn decimal(n: nat) -> Seq<char>
    decreases n,
{
    if n < 10 {
        seq![digit(n)]
    } else {
        decimal(n / 10).push(digit(n % 10))
    }
}

/// `n` in decimal, without leading zeros.
pub fn decimal_of(n: u128) -> (s: String)
    ensures
        s@ == decimal(n as nat),
    decreases n,
{
    if n < 10 {
        let mut s = String::new();
        s.push((48 + n as u8) as char);
        assert(s@ =~= decimal(n as nat));
        s
    } else {
        let mut s = decimal_of(n / 10);
        s.push((48 + (n % 10) as u8) as char);
        s
    }
}

/// A copy of a list of strings.
pub fn copied(v: &Vec<String>) -> (r: Vec<String>)
    ensures
        views(r@) == views(v@),
{
    let mut r: Vec<String> = Vec::new();
    for i in 0..v.len()
        invariant
            r@.len() == i,
            forall|j: int| 0 <= j < i ==> r@[j]@ == v@[j]@,
    {
        r.push(v[i].clone());
    }
    assert(views(r@) =~= views(v@));
    r
}

} // verus!
