//! Reading JSON: what a text without white space says.
use crate::bridge::json::{hex_digit, json_char, json_chars, json_string};
use crate::emitters::json::{
    json_array, json_bool, json_leading_member, json_trailing_member,
};
use crate::text::{
    concat, decimal, digit, join, leading, lemma_add_assoc, lemma_concat_front, lemma_join_front,
    lemma_leading_is,
};
use vstd::prelude::*;

verus! {

// ---------------------------------------------------------------------------
// Trees
// ---------------------------------------------------------------------------

/// What JSON text says. Its numbers are natural.
#[verifier::ext_equal]
pub enum Tree {
    Null,
    Bool(bool),
    Number(nat),
    Text(Seq<char>),
    Array(Seq<Tree>),
    Object(Seq<TreeMember>),
}

/// A member of an object.
#[verifier::ext_equal]
pub struct TreeMember {
    pub key: Seq<char>,
    pub value: Tree,
}

/// What a hexadecimal digit stands for.
pub open spec fn hex_value(c: char) -> Option<nat> {
    if '0' <= c <= '9' {
        Some((c as u32 - '0' as u32) as nat)
    } else if 'a' <= c <= 'f' {
        Some((c as u32 - 'a' as u32 + 10) as nat)
    } else if 'A' <= c <= 'F' {
        Some((c as u32 - 'A' as u32 + 10) as nat)
    } else {
        None
    }
}

/// The character that the four hexadecimal digits in front of `s` stand for.
pub open spec fn read_code(s: Seq<char>) -> Option<char> {
    if s.len() < 4 {
        None
    } else {
        match (hex_value(s[0]), hex_value(s[1]), hex_value(s[2]), hex_value(s[3])) {
            (Some(a), Some(b), Some(c), Some(d)) => {
                let u = 4096 * a + 256 * b + 16 * c + d;
                if 0xd800 <= u <= 0xdfff {
                    None
                } else {
                    Some(u as char)
                }
            },
            _ => None,
        }
    }
}

/// The character that stands for `c` behind a backslash.
pub open spec fn unescaped(c: char) -> Option<char> {
    if c == '"' || c == '\\' || c == '/' {
        Some(c)
    } else if c == 'b' {
        Some(8u32 as char)
    } else if c == 't' {
        Some(9u32 as char)
    } else if c == 'n' {
        Some(10u32 as char)
    } else if c == 'f' {
        Some(12u32 as char)
    } else if c == 'r' {
        Some(13u32 as char)
    } else {
        None
    }
}

/// The first character of the inside of a string, and what follows it.
pub open spec fn read_char(s: Seq<char>) -> Option<(char, Seq<char>)> {
    if s.len() == 0 || s[0] == '"' || !(s[0] >= ' ') {
        None
    } else if s[0] != '\\' {
        Some((s[0], s.skip(1)))
    } else if s.len() == 1 {
        None
    } else if s[1] == 'u' {
        match read_code(s.skip(2)) {
            Some(c) => Some((c, s.skip(6))),
            None => None,
        }
    } else {
        match unescaped(s[1]) {
            Some(c) => Some((c, s.skip(2))),
            None => None,
        }
    }
}

/// A string from behind its first quotation mark, and what follows it.
pub open spec fn read_text(s: Seq<char>) -> Option<(Seq<char>, Seq<char>)>
    decreases s.len(),
{
    if s.len() > 0 && s[0] == '"' {
        Some((Seq::empty(), s.skip(1)))
    } else {
        match read_char(s) {
            Some((c, rest)) => match read_text(rest) {
                Some((t, end)) => Some((seq![c] + t, end)),
                None => None,
            },
            None => None,
        }
    }
}

/// Whether a character is a decimal digit.
pub open spec fn is_digit() -> spec_fn(char) -> bool {
    |c: char| '0' <= c <= '9'
}

/// The number that digits stand for.
pub open spec fn number_of(digits: Seq<char>) -> nat
    decreases digits.len(),
{
    if digits.len() == 0 {
        0
    } else {
        10 * number_of(digits.drop_last()) + (digits.last() as u32 - '0' as u32) as nat
    }
}

/// The value in front of `s`, and what follows it.
pub open spec fn read_value(s: Seq<char>) -> Option<(Tree, Seq<char>)>
    decreases s.len(), 0nat,
{
    if s.len() == 0 {
        None
    } else if s[0] == '"' {
        match read_text(s.skip(1)) {
            Some((t, rest)) => Some((Tree::Text(t), rest)),
            None => None,
        }
    } else if s[0] == '[' {
        if s.len() > 1 && s[1] == ']' {
            Some((Tree::Array(Seq::empty()), s.skip(2)))
        } else {
            match read_items(s.skip(1)) {
                Some((ts, rest)) => Some((Tree::Array(ts), rest)),
                None => None,
            }
        }
    } else if s[0] == '{' {
        if s.len() > 1 && s[1] == '}' {
            Some((Tree::Object(Seq::empty()), s.skip(2)))
        } else {
            match read_members(s.skip(1)) {
                Some((ms, rest)) => Some((Tree::Object(ms), rest)),
                None => None,
            }
        }
    } else if is_digit()(s[0]) {
        let n = leading(s, is_digit()) as int;
        Some((Tree::Number(number_of(s.take(n))), s.skip(n)))
    } else if "null"@.is_prefix_of(s) {
        Some((Tree::Null, s.skip(4)))
    } else if "true"@.is_prefix_of(s) {
        Some((Tree::Bool(true), s.skip(4)))
    } else if "false"@.is_prefix_of(s) {
        Some((Tree::Bool(false), s.skip(5)))
    } else {
        None
    }
}

/// The values of an array from its first one on, and what follows the array.
pub open spec fn read_items(s: Seq<char>) -> Option<(Seq<Tree>, Seq<char>)>
    decreases s.len(), 1nat,
{
    match read_value(s) {
        Some((t, rest)) => if rest.len() == 0 || rest.len() > s.len() {
            None
        } else if rest[0] == ']' {
            Some((seq![t], rest.skip(1)))
        } else if rest[0] == ',' {
            match read_items(rest.skip(1)) {
                Some((ts, end)) => Some((seq![t] + ts, end)),
                None => None,
            }
        } else {
            None
        },
        None => None,
    }
}

/// The members of an object from its first one on, and what follows the object.
pub open spec fn read_members(s: Seq<char>) -> Option<(Seq<TreeMember>, Seq<char>)>
    decreases s.len(), 1nat,
{
    if s.len() == 0 || s[0] != '"' {
        None
    } else {
        match read_text(s.skip(1)) {
            Some((key, mid)) => if mid.len() == 0 || mid.len() > s.len() || mid[0] != ':' {
                None
            } else {
                match read_value(mid.skip(1)) {
                    Some((value, rest)) => if rest.len() > mid.len() {
                        None
                    } else {
                        match read_more(rest) {
                            Some((ms, end)) => Some((seq![TreeMember { key, value }] + ms, end)),
                            None => None,
                        }
                    },
                    None => None,
                }
            },
            None => None,
        }
    }
}

/// The members of an object from behind one of them on, and what follows the object.
pub open spec fn read_more(s: Seq<char>) -> Option<(Seq<TreeMember>, Seq<char>)>
    decreases s.len(), 0nat,
{
    if s.len() == 0 {
        None
    } else if s[0] == '}' {
        Some((Seq::empty(), s.skip(1)))
    } else if s[0] == ',' {
        read_members(s.skip(1))
    } else {
        None
    }
}

/// What `s` says, if it is one value and nothing more.
pub open spec fn read_json(s: Seq<char>) -> Option<Tree> {
    match read_value(s) {
        Some((t, rest)) => if rest.len() == 0 {
            Some(t)
        } else {
            None
        },
        None => None,
    }
}

// ---------------------------------------------------------------------------
// What written values read as
// ---------------------------------------------------------------------------

/// Whether `text` reads as `t`, wherever no digit follows it.
#[verifier::opaque]
pub open spec fn reads(text: Seq<char>, t: Tree) -> bool {
    &&& text.len() > 0
    &&& text[0] != ']'
    &&& forall|rest: Seq<char>|
        rest.len() == 0 || !is_digit()(rest[0]) ==> #[trigger] read_value(text + rest) == Some(
            (t, rest),
        )
}

/// Whether `text` reads as the members `ms` of an object, to its end.
#[verifier::opaque]
pub open spec fn reads_members(text: Seq<char>, ms: Seq<TreeMember>) -> bool {
    &&& text.len() > 0
    &&& text[0] == '"'
    &&& forall|rest: Seq<char>| #[trigger] read_members(text + rest) == Some((ms, rest))
}

/// Whether `text` reads as the members `ms` that follow another, to the end of the object.
#[verifier::opaque]
pub open spec fn reads_more(text: Seq<char>, ms: Seq<TreeMember>) -> bool {
    &&& text.len() > 0
    &&& !is_digit()(text[0])
    &&& forall|rest: Seq<char>| #[trigger] read_more(text + rest) == Some((ms, rest))
}

/// A text that is a value and nothing more.
pub proof fn lemma_read_json(text: Seq<char>, t: Tree)
    requires
        reads(text, t),
    ensures
        read_json(text) == Some(t),
        read_value(text + "\n"@) == Some((t, "\n"@)),
{
    reveal(reads);
    reveal_strlit("\n");
    let none = Seq::<char>::empty();
    assert(read_value(text + none) == Some((t, none)));
    assert(text + none =~= text);
}

/// A hexadecimal digit is read as what it stands for.
proof fn lemma_hex_value(d: nat)
    requires
        d < 16,
    ensures
        hex_value(hex_digit(d)) == Some(d),
{
}

/// A character of a string is read as it was written.
proof fn lemma_read_char(c: char, rest: Seq<char>)
    ensures
        read_char(json_char(c) + rest) == Some((c, rest)),
        json_char(c).len() > 0,
        json_char(c)[0] != '"',
{
    let u = c as u32;
    let w = json_char(c);
    let s = w + rest;
    if c == '"' || c == '\\' || u == 0x08 || u == 0x09 || u == 0x0a || u == 0x0c || u == 0x0d {
        assert(s.skip(2) =~= rest);
        assert(s[0] == '\\' && s[1] == w[1]);
    } else if u < 0x20 {
        assert(s.skip(6) =~= rest);
        let t = s.skip(2);
        lemma_hex_value((u / 16) as nat);
        lemma_hex_value((u % 16) as nat);
        lemma_hex_value(0);
        assert(s[0] == '\\' && s[1] == 'u');
        assert(t[0] == '0' && t[1] == '0' && t[2] == w[4] && t[3] == w[5]);
        assert(hex_value('0') == Some(0nat));
        assert(u == 16 * (u / 16) + u % 16);
        assert(read_code(t) == Some(c));
    } else {
        assert(s.skip(1) =~= rest);
        assert(s[0] == c);
    }
}

/// The inside of a string is read as the string.
proof fn lemma_read_text(t: Seq<char>, rest: Seq<char>)
    ensures
        read_text(concat(t, json_chars()) + (seq!['"'] + rest)) == Some((t, rest)),
    decreases t.len(),
{
    let f = json_chars();
    let tail = seq!['"'] + rest;
    let s = concat(t, f) + tail;
    if t.len() == 0 {
        assert(s =~= tail);
        assert(tail.skip(1) =~= rest);
        assert(t =~= Seq::empty());
    } else {
        let more = concat(t.skip(1), f) + tail;
        lemma_concat_front(t, f);
        assert(s =~= json_char(t[0]) + more);
        lemma_read_char(t[0], more);
        lemma_read_text(t.skip(1), rest);
        assert(s[0] == json_char(t[0])[0]);
        assert(seq![t[0]] + t.skip(1) =~= t);
    }
}

/// A string is read as it was written.
pub proof fn lemma_string(t: Seq<char>)
    ensures
        reads(json_string(t), Tree::Text(t)),
{
    reveal(reads);
    let w = json_string(t);
    assert(w[0] == '"');
    assert forall|rest: Seq<char>|
        rest.len() == 0 || !is_digit()(rest[0]) implies #[trigger] read_value(w + rest) == Some(
        (Tree::Text(t), rest),
    ) by {
        lemma_read_text(t, rest);
        assert((w + rest).skip(1) =~= concat(t, json_chars()) + (seq!['"'] + rest));
    }
}

/// Digits are read as the number that they were written for.
proof fn lemma_number_of(n: nat)
    ensures
        number_of(decimal(n)) == n,
        decimal(n).len() > 0,
        forall|i: int| 0 <= i < decimal(n).len() ==> is_digit()(#[trigger] decimal(n)[i]),
    decreases n,
{
    let d = decimal(n);
    if n >= 10 {
        lemma_number_of(n / 10);
        assert(d.drop_last() =~= decimal(n / 10));
        assert(d.last() == digit(n % 10));
    } else {
        assert(d.drop_last() =~= Seq::empty());
        assert(number_of(d.drop_last()) == 0);
        assert(d.last() == digit(n));
    }
}

/// A number is read as it was written.
pub proof fn lemma_number(n: nat)
    ensures
        reads(decimal(n), Tree::Number(n)),
{
    reveal(reads);
    let w = decimal(n);
    lemma_number_of(n);
    assert(is_digit()(w[0]));
    assert forall|rest: Seq<char>|
        rest.len() == 0 || !is_digit()(rest[0]) implies #[trigger] read_value(w + rest) == Some(
        (Tree::Number(n), rest),
    ) by {
        let s = w + rest;
        assert forall|i: int| 0 <= i < w.len() implies is_digit()(#[trigger] s[i]) by {
            assert(s[i] == w[i]);
        }
        lemma_leading_is(s, is_digit(), w.len());
        assert(s[0] == w[0]);
        assert(s.take(w.len() as int) =~= w);
        assert(s.skip(w.len() as int) =~= rest);
    }
}

/// A truth value is read as it was written.
pub proof fn lemma_bool(b: bool)
    ensures
        reads(json_bool(b), Tree::Bool(b)),
{
    reveal(reads);
    reveal_strlit("null");
    reveal_strlit("true");
    reveal_strlit("false");
    let w = json_bool(b);
    assert forall|rest: Seq<char>|
        rest.len() == 0 || !is_digit()(rest[0]) implies #[trigger] read_value(w + rest) == Some(
        (Tree::Bool(b), rest),
    ) by {
        let s = w + rest;
        assert(s[0] == w[0]);
        assert("null"@[0] == 'n');
        assert("true"@[0] == 't');
        assert(w.is_prefix_of(s)) by {
            assert(s.subrange(0, w.len() as int) =~= w);
        }
        assert(s.skip(w.len() as int) =~= rest);
    }
}

/// A value that is not given is read as such.
pub proof fn lemma_null()
    ensures
        reads("null"@, Tree::Null),
{
    reveal(reads);
    reveal_strlit("null");
    let w = "null"@;
    assert forall|rest: Seq<char>|
        rest.len() == 0 || !is_digit()(rest[0]) implies #[trigger] read_value(w + rest) == Some(
        (Tree::Null, rest),
    ) by {
        let s = w + rest;
        assert(s[0] == w[0]);
        assert(w.is_prefix_of(s)) by {
            assert(s.subrange(0, w.len() as int) =~= w);
        }
        assert(s.skip(w.len() as int) =~= rest);
    }
}

/// Whether each part reads as its tree.
pub open spec fn each_reads(parts: Seq<Seq<char>>, ts: Seq<Tree>) -> bool {
    &&& parts.len() == ts.len()
    &&& forall|i: int| 0 <= i < parts.len() ==> reads(#[trigger] parts[i], ts[i])
}

/// The values of an array are read as they were written.
proof fn lemma_items(parts: Seq<Seq<char>>, ts: Seq<Tree>, rest: Seq<char>)
    requires
        each_reads(parts, ts),
        parts.len() > 0,
    ensures
        read_items(join(parts, ","@) + (seq![']'] + rest)) == Some((ts, rest)),
    decreases parts.len(),
{
    reveal_strlit(",");
    let end = seq![']'] + rest;
    let s = join(parts, ","@) + end;
    assert(reads(parts[0], ts[0]));
    if parts.len() == 1 {
        assert(s == parts[0] + end);
        assert(read_value(parts[0] + end) == Some((ts[0], end))) by {
            reveal(reads);
        }
        assert(end.skip(1) =~= rest);
        assert(seq![ts[0]] =~= ts);
    } else {
        let below = join(parts.skip(1), ","@) + end;
        let tail = ","@ + below;
        lemma_join_front(parts, ","@);
        assert(s =~= parts[0] + tail);
        assert(tail[0] == ',');
        assert(read_value(parts[0] + tail) == Some((ts[0], tail))) by {
            reveal(reads);
        }
        assert(tail.skip(1) =~= below);
        assert(each_reads(parts.skip(1), ts.skip(1))) by {
            assert forall|i: int| 0 <= i < parts.skip(1).len() implies reads(
                #[trigger] parts.skip(1)[i],
                ts.skip(1)[i],
            ) by {
                assert(reads(parts[i + 1], ts[i + 1]));
            }
        }
        lemma_items(parts.skip(1), ts.skip(1), rest);
        assert(seq![ts[0]] + ts.skip(1) =~= ts);
    }
}

/// An array is read as it was written.
pub proof fn lemma_array(parts: Seq<Seq<char>>, ts: Seq<Tree>)
    requires
        each_reads(parts, ts),
    ensures
        reads(json_array(parts), Tree::Array(ts)),
{
    reveal(reads);
    reveal_strlit("[");
    reveal_strlit("]");
    reveal_strlit(",");
    let w = json_array(parts);
    assert(w[0] == '[');
    assert forall|rest: Seq<char>|
        rest.len() == 0 || !is_digit()(rest[0]) implies #[trigger] read_value(w + rest) == Some(
        (Tree::Array(ts), rest),
    ) by {
        let s = w + rest;
        let inside = join(parts, ","@) + (seq![']'] + rest);
        assert(s.skip(1) =~= inside);
        assert(s[1] == inside[0]);
        if parts.len() == 0 {
            assert(inside =~= seq![']'] + rest);
            assert(s.skip(2) =~= rest);
            assert(ts =~= Seq::empty());
        } else {
            lemma_items(parts, ts, rest);
            assert(reads(parts[0], ts[0]));
            if parts.len() > 1 {
                lemma_join_front(parts, ","@);
            }
            assert(inside[0] == parts[0][0]);
        }
    }
}

// ---------------------------------------------------------------------------
// What written objects read as
// ---------------------------------------------------------------------------

/// A key and its colon.
pub open spec fn key_text(key: Seq<char>) -> Seq<char> {
    json_string(key) + ":"@
}

/// The member of a key and a value.
pub open spec fn member(key: Seq<char>, value: Tree) -> Seq<TreeMember> {
    seq![TreeMember { key, value }]
}

/// The member of a key and a string, if it is given.
pub open spec fn optional_member(key: Seq<char>, value: Option<Seq<char>>) -> Seq<TreeMember> {
    match value {
        Some(v) => member(key, Tree::Text(v)),
        None => Seq::empty(),
    }
}

/// The end of an object.
pub proof fn lemma_end()
    ensures
        reads_more("}"@, Seq::empty()),
{
    reveal(reads_more);
    reveal_strlit("}");
    assert forall|rest: Seq<char>| #[trigger] read_more("}"@ + rest) == Some(
        (Seq::<TreeMember>::empty(), rest),
    ) by {
        assert(("}"@ + rest).skip(1) =~= rest);
    }
}

/// A member and those that follow it.
pub proof fn lemma_member(
    key: Seq<char>,
    value: Seq<char>,
    t: Tree,
    tail: Seq<char>,
    ms: Seq<TreeMember>,
)
    requires
        reads(value, t),
        reads_more(tail, ms),
    ensures
        reads_members(key_text(key) + value + tail, member(key, t) + ms),
{
    reveal(reads_members);
    reveal_strlit(":");
    let w = key_text(key) + value + tail;
    assert(w[0] == '"');
    assert forall|rest: Seq<char>| #[trigger] read_members(w + rest) == Some(
        (member(key, t) + ms, rest),
    ) by {
        let s = w + rest;
        let after = tail + rest;
        let mid = ":"@ + (value + after);
        lemma_read_text(key, mid);
        assert(s.skip(1) =~= concat(key, json_chars()) + (seq!['"'] + mid));
        assert(mid.skip(1) =~= value + after);
        assert(read_value(value + after) == Some((t, after))) by {
            reveal(reads);
            reveal(reads_more);
            assert(after[0] == tail[0]);
        }
        assert(read_more(after) == Some((ms, rest))) by {
            reveal(reads_more);
        }
        assert(s[0] == '"');
        assert(mid[0] == ':');
        assert(mid.len() <= s.len());
    }
}

/// Members behind a comma.
pub proof fn lemma_comma(text: Seq<char>, ms: Seq<TreeMember>)
    requires
        reads_members(text, ms),
    ensures
        reads_more(","@ + text, ms),
{
    reveal(reads_members);
    reveal(reads_more);
    reveal_strlit(",");
    assert forall|rest: Seq<char>| #[trigger] read_more(","@ + text + rest) == Some((ms, rest)) by {
        let s = ","@ + text + rest;
        assert(read_members(text + rest) == Some((ms, rest)));
        assert(s.skip(1) =~= text + rest);
        assert(s[0] == ',');
    }
}

/// Members between braces.
pub proof fn lemma_object(text: Seq<char>, ms: Seq<TreeMember>)
    requires
        reads_members(text, ms),
    ensures
        reads("{"@ + text, Tree::Object(ms)),
{
    reveal(reads_members);
    reveal(reads);
    reveal_strlit("{");
    let w = "{"@ + text;
    assert(w[0] == '{');
    assert forall|rest: Seq<char>|
        rest.len() == 0 || !is_digit()(rest[0]) implies #[trigger] read_value(w + rest) == Some(
        (Tree::Object(ms), rest),
    ) by {
        let s = w + rest;
        assert(read_members(text + rest) == Some((ms, rest)));
        assert(s.skip(1) =~= text + rest);
        assert(s[1] == text[0]);
        assert(s[0] == '{');
    }
}

/// An object without members.
pub proof fn lemma_empty_object()
    ensures
        reads("{}"@, Tree::Object(Seq::empty())),
{
    reveal(reads);
    reveal_strlit("{}");
    let w = "{}"@;
    assert forall|rest: Seq<char>|
        rest.len() == 0 || !is_digit()(rest[0]) implies #[trigger] read_value(w + rest) == Some(
        (Tree::Object(Seq::empty()), rest),
    ) by {
        let s = w + rest;
        assert(s[0] == '{' && s[1] == '}');
        assert(s.skip(2) =~= rest);
    }
}

/// A member behind a comma, and those that follow it; `lead` is the comma, the key and the colon.
pub proof fn lemma_next(
    lead: Seq<char>,
    key: Seq<char>,
    value: Seq<char>,
    t: Tree,
    tail: Seq<char>,
    ms: Seq<TreeMember>,
)
    requires
        lead == ","@ + key_text(key),
        reads(value, t),
        reads_more(tail, ms),
    ensures
        reads_more(lead + value + tail, member(key, t) + ms),
{
    lemma_member(key, value, t, tail, ms);
    lemma_comma(key_text(key) + value + tail, member(key, t) + ms);
    lemma_add_assoc(","@, key_text(key), value);
    lemma_add_assoc(","@, key_text(key) + value, tail);
}

/// An object from its first member on; `lead` is the brace, the key and the colon.
pub proof fn lemma_first(
    lead: Seq<char>,
    key: Seq<char>,
    value: Seq<char>,
    t: Tree,
    tail: Seq<char>,
    ms: Seq<TreeMember>,
)
    requires
        lead == "{"@ + key_text(key),
        reads(value, t),
        reads_more(tail, ms),
    ensures
        reads(lead + value + tail, Tree::Object(member(key, t) + ms)),
{
    lemma_member(key, value, t, tail, ms);
    lemma_object(key_text(key) + value + tail, member(key, t) + ms);
    lemma_add_assoc("{"@, key_text(key), value);
    lemma_add_assoc("{"@, key_text(key) + value, tail);
}

/// A member that may not be given, in front of others.
pub proof fn lemma_leading(
    key: Seq<char>,
    value: Option<Seq<char>>,
    text: Seq<char>,
    ms: Seq<TreeMember>,
)
    requires
        reads_members(text, ms),
    ensures
        reads_members(
            json_leading_member(key_text(key), value) + text,
            optional_member(key, value) + ms,
        ),
{
    match value {
        Some(v) => {
            lemma_string(v);
            lemma_comma(text, ms);
            lemma_member(key, json_string(v), Tree::Text(v), ","@ + text, ms);
            lemma_add_assoc(key_text(key) + json_string(v), ","@, text);
        },
        None => {
            assert(json_leading_member(key_text(key), value) + text =~= text);
            assert(optional_member(key, value) + ms =~= ms);
        },
    }
}

/// A member that may not be given, behind others.
pub proof fn lemma_trailing(
    key: Seq<char>,
    value: Option<Seq<char>>,
    tail: Seq<char>,
    ms: Seq<TreeMember>,
)
    requires
        reads_more(tail, ms),
    ensures
        reads_more(
            json_trailing_member(key_text(key), value) + tail,
            optional_member(key, value) + ms,
        ),
{
    match value {
        Some(v) => {
            lemma_string(v);
            lemma_next(","@ + key_text(key), key, json_string(v), Tree::Text(v), tail, ms);
        },
        None => {
            assert(json_trailing_member(key_text(key), value) + tail =~= tail);
            assert(optional_member(key, value) + ms =~= ms);
        },
    }
}

/// Whether every character of `s` stands for itself in a string.
pub open spec fn is_plain(s: Seq<char>) -> bool {
    forall|i: int| 0 <= i < s.len() ==> json_char(#[trigger] s[i]) == seq![s[i]]
}

/// A plain string is written as it is, between quotation marks.
pub proof fn lemma_plain(s: Seq<char>)
    requires
        is_plain(s),
    ensures
        json_string(s) == seq!['"'] + s + seq!['"'],
{
    lemma_plain_inside(s);
}

/// The inside of a plain string is the string.
proof fn lemma_plain_inside(s: Seq<char>)
    requires
        is_plain(s),
    ensures
        concat(s, json_chars()) == s,
    decreases s.len(),
{
    if s.len() > 0 {
        let front = s.drop_last();
        assert forall|i: int| 0 <= i < front.len() implies json_char(#[trigger] front[i]) == seq![
            front[i],
        ] by {
            assert(front[i] == s[i]);
        }
        lemma_plain_inside(front);
        assert(json_char(s[s.len() - 1]) == seq![s[s.len() - 1]]);
        assert(front + seq![s.last()] =~= s);
    } else {
        assert(s =~= Seq::empty());
    }
}

} // verus!
