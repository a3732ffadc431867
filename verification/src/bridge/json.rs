//! JSON, by `serde_json`.
use crate::text::{at_most, concat, join};
use vstd::prelude::*;

verus! {

// ---------------------------------------------------------------------------
// Writing
// ---------------------------------------------------------------------------

/// A hexadecimal digit.
pub open spec fn hex_digit(d: nat) -> char {
    if d < 10 {
        ('0' as u32 + d) as char
    } else {
        ('a' as u32 + d - 10) as char
    }
}

/// A character inside a JSON string: quotes, backslashes and control characters are escaped.
pub open spec fn json_char(c: char) -> Seq<char> {
    let u = c as u32;
    if c == '"' {
        seq!['\\', '"']
    } else if c == '\\' {
        seq!['\\', '\\']
    } else if u == 0x08 {
        seq!['\\', 'b']
    } else if u == 0x09 {
        seq!['\\', 't']
    } else if u == 0x0a {
        seq!['\\', 'n']
    } else if u == 0x0c {
        seq!['\\', 'f']
    } else if u == 0x0d {
        seq!['\\', 'r']
    } else if u < 0x20 {
        seq!['\\', 'u', '0', '0', hex_digit((u / 16) as nat), hex_digit((u % 16) as nat)]
    } else {
        seq![c]
    }
}

/// `json_char`, for use in a concatenation.
pub open spec fn json_chars() -> spec_fn(int, char) -> Seq<char> {
    |i: int, c: char| json_char(c)
}

/// A string as JSON.
pub open spec fn json_string(s: Seq<char>) -> Seq<char> {
    seq!['"'] + concat(s, json_chars()) + seq!['"']
}

/// `serde_json::to_string` of a string: the string between quotes, with quotes, backslashes
/// and control characters escaped. Writing to memory, it does not fail.
#[verifier::external_body]
pub(crate) fn quoted(s: &str) -> (r: String)
    ensures
        r@ == json_string(s@),
{
    serde_json::to_string(s).unwrap()
}

// ---------------------------------------------------------------------------
// Reading
// ---------------------------------------------------------------------------

/// View of a [`Json`] value.
#[verifier::ext_equal]
pub enum JsonView {
    Null,
    Bool(bool),
    Number(Seq<char>),
    Text(Seq<char>),
    Array { items: Seq<JsonView>, text: Seq<char> },
    Object { members: Seq<MemberView>, text: Seq<char> },
}

/// View of a [`Member`].
#[verifier::ext_equal]
pub struct MemberView {
    pub key: Seq<char>,
    pub value: JsonView,
}

/// A JSON value. A number is held as it is written; a container holds its compact JSON text
/// beside its contents.
#[derive(Debug)]
pub enum Json {
    Null,
    Bool(bool),
    Number(String),
    Text(String),
    Array { items: Vec<Json>, text: String },
    Object { members: Vec<Member>, text: String },
}

/// A member of a JSON object.
#[derive(Debug)]
pub struct Member {
    pub key: String,
    pub value: Json,
}

/// View of a JSON value, containers included.
pub open spec fn json_view(v: Json) -> JsonView
    decreases v,
{
    match v {
        Json::Null => JsonView::Null,
        Json::Bool(b) => JsonView::Bool(b),
        Json::Number(n) => JsonView::Number(n@),
        Json::Text(s) => JsonView::Text(s@),
        Json::Array { items, text } => JsonView::Array {
            items: Seq::new(
                items@.len(),
                |i: int|
                    if 0 <= i < items@.len() {
                        json_view(items@[i])
                    } else {
                        arbitrary()
                    },
            ),
            text: text@,
        },
        Json::Object { members, text } => JsonView::Object {
            members: Seq::new(
                members@.len(),
                |i: int|
                    if 0 <= i < members@.len() {
                        MemberView { key: members@[i].key@, value: json_view(members@[i].value) }
                    } else {
                        arbitrary()
                    },
            ),
            text: text@,
        },
    }
}

impl View for Json {
    type V = JsonView;

    open spec fn view(&self) -> JsonView {
        json_view(*self)
    }
}

impl View for Member {
    type V = MemberView;

    open spec fn view(&self) -> MemberView {
        MemberView { key: self.key@, value: self.value@ }
    }
}

/// Views of a list of values.
pub open spec fn json_views(v: Seq<Json>) -> Seq<JsonView> {
    v.map_values(|j: Json| j@)
}

/// Views of a list of members.
pub open spec fn member_views(v: Seq<Member>) -> Seq<MemberView> {
    v.map_values(|m: Member| m@)
}

/// The contents of a container, seen as lists.
pub proof fn lemma_json_view(v: Json)
    ensures
        v matches Json::Array { items, text } ==> json_view(v) == (JsonView::Array {
            items: json_views(items@),
            text: text@,
        }),
        v matches Json::Object { members, text } ==> json_view(v) == (JsonView::Object {
            members: member_views(members@),
            text: text@,
        }),
{
    match v {
        Json::Array { items, .. } => {
            assert(json_view(v)->Array_items =~= json_views(items@));
        },
        Json::Object { members, .. } => {
            assert(json_view(v)->Object_members =~= member_views(members@));
        },
        _ => {},
    }
}

/// The JSON value of `serde_json`.
#[verifier::external_type_specification]
#[verifier::external_body]
pub struct ExValue(serde_json::Value);

/// What a `serde_json::Value` holds.
pub uninterp spec fn json_model(v: serde_json::Value) -> JsonView;

/// What `serde_json::from_str` makes of `text`, an error as its message.
pub uninterp spec fn json_parsed(text: Seq<char>) -> Result<JsonView, Seq<char>>;

/// A `serde_json::Value`, opened by one level.
pub(crate) enum Opened<'a> {
    Null,
    Bool(bool),
    Number(String),
    Text(String),
    Array(Vec<&'a serde_json::Value>),
    Object(Vec<(String, &'a serde_json::Value)>),
}

/// What the values in an array hold.
pub open spec fn item_models(v: Seq<&serde_json::Value>) -> Seq<JsonView> {
    v.map_values(|i: &serde_json::Value| json_model(*i))
}

/// What the members of an object hold.
pub open spec fn member_models(v: Seq<(String, &serde_json::Value)>) -> Seq<MemberView> {
    v.map_values(
        |m: (String, &serde_json::Value)| MemberView { key: m.0@, value: json_model(*m.1) },
    )
}

/// Whether the keys of members stand in ascending order, each once.
pub open spec fn keys_ascend(members: Seq<MemberView>) -> bool {
    forall|i: int, j: int|
        0 <= i < j < members.len() ==> at_most(
            (#[trigger] members[i]).key,
            (#[trigger] members[j]).key,
        ) && members[i].key != members[j].key
}

/// Whether `o` is `m`, opened by one level. The members of an object stand in ascending order
/// of their keys.
pub(crate) open spec fn opens(o: Opened, m: JsonView) -> bool {
    match o {
        Opened::Null => m is Null,
        Opened::Bool(b) => m == JsonView::Bool(b),
        Opened::Number(n) => m == JsonView::Number(n@),
        Opened::Text(s) => m == JsonView::Text(s@),
        Opened::Array(v) => m is Array && m->items == item_models(v@),
        Opened::Object(v) => m is Object && m->members == member_models(v@) && keys_ascend(
            member_models(v@),
        ),
    }
}

/// What a parse to a `serde_json::Value` gave.
pub open spec fn value_result(r: Result<serde_json::Value, String>) -> Result<JsonView, Seq<char>> {
    match r {
        Ok(v) => Ok(json_model(v)),
        Err(e) => Err(e@),
    }
}

/// The compact JSON text of a value.
pub open spec fn json_text(v: JsonView) -> Seq<char> {
    match v {
        JsonView::Null => "null"@,
        JsonView::Bool(b) => if b {
            "true"@
        } else {
            "false"@
        },
        JsonView::Number(n) => n,
        JsonView::Text(s) => json_string(s),
        JsonView::Array { text, .. } => text,
        JsonView::Object { text, .. } => text,
    }
}

/// A JSON value written out without white space.
pub open spec fn spelled(v: JsonView) -> Seq<char>
    decreases v,
{
    match v {
        JsonView::Array { items, .. } => "["@ + join(spelled_items(items), ","@) + "]"@,
        JsonView::Object { members, .. } => "{"@ + join(spelled_members(members), ","@) + "}"@,
        _ => json_text(v),
    }
}

/// Each value written out.
pub open spec fn spelled_items(items: Seq<JsonView>) -> Seq<Seq<char>>
    decreases items,
{
    if items.len() == 0 {
        Seq::empty()
    } else {
        spelled_items(items.drop_last()).push(spelled(items.last()))
    }
}

/// Each member written out: its key, a colon and its value.
pub open spec fn spelled_members(members: Seq<MemberView>) -> Seq<Seq<char>>
    decreases members,
{
    if members.len() == 0 {
        Seq::empty()
    } else {
        spelled_members(members.drop_last()).push(
            json_string(members.last().key) + ":"@ + spelled(members.last().value),
        )
    }
}

/// Whether the text of every container in `v` is the container written out.
pub open spec fn well_spelled(v: JsonView) -> bool
    decreases v,
{
    match v {
        JsonView::Array { items, text } => text == spelled(v) && forall|i: int|
            0 <= i < items.len() ==> well_spelled(#[trigger] items[i]),
        JsonView::Object { members, text } => text == spelled(v) && forall|i: int|
            0 <= i < members.len() ==> well_spelled((#[trigger] members[i]).value),
        _ => true,
    }
}

/// Whether the keys of every object in `v` ascend.
pub open spec fn well_keyed(v: JsonView) -> bool
    decreases v,
{
    match v {
        JsonView::Array { items, .. } => forall|i: int|
            0 <= i < items.len() ==> well_keyed(#[trigger] items[i]),
        JsonView::Object { members, .. } => keys_ascend(members) && forall|i: int|
            0 <= i < members.len() ==> well_keyed((#[trigger] members[i]).value),
        _ => true,
    }
}

/// `serde_json::from_str` to a `Value`: a function of the text.
#[verifier::external_body]
fn parse_value(text: &str) -> (r: Result<serde_json::Value, String>)
    ensures
        value_result(r) == json_parsed(text@),
{
    match serde_json::from_str(text) {
        Ok(v) => Ok(v),
        Err(e) => Err(e.to_string()),
    }
}

/// The variants of `serde_json::Value`: each holds what its model says, a number as it is
/// displayed. An object is a `serde_json::Map`, which is a `BTreeMap` and goes through its keys
/// in ascending order, each once.
#[verifier::external_body]
fn open_value<'a>(v: &'a serde_json::Value) -> (o: Opened<'a>)
    ensures
        opens(o, json_model(*v)),
{
    match v {
        serde_json::Value::Null => Opened::Null,
        serde_json::Value::Bool(b) => Opened::Bool(*b),
        serde_json::Value::Number(n) => Opened::Number(n.to_string()),
        serde_json::Value::String(s) => Opened::Text(s.clone()),
        serde_json::Value::Array(a) => Opened::Array(a.iter().collect()),
        serde_json::Value::Object(m) => {
            Opened::Object(m.iter().map(|(k, v)| (k.clone(), v)).collect())
        }
    }
}

/// `serde_json::to_string` of a `Value`: the value written out without white space, which is
/// what the model of a container holds. Writing to memory, it does not fail.
#[verifier::external_body]
fn compact(v: &serde_json::Value) -> (r: String)
    ensures
        r@ == json_text(json_model(*v)),
        r@ == spelled(json_model(*v)),
{
    serde_json::to_string(v).unwrap()
}

/// The plain value of a `serde_json::Value`.
fn plain_value(v: &serde_json::Value) -> (r: Json)
    ensures
        r@ == json_model(*v),
        well_spelled(r@),
        well_keyed(r@),
    decreases json_model(*v),
{
    let ghost m = json_model(*v);
    match open_value(v) {
        Opened::Null => Json::Null,
        Opened::Bool(b) => Json::Bool(b),
        Opened::Number(n) => Json::Number(n),
        Opened::Text(s) => Json::Text(s),
        Opened::Array(values) => {
            let mut items: Vec<Json> = Vec::new();
            for i in 0..values.len()
                invariant
                    m is Array && m->items == item_models(values@),
                    m == json_model(*v),
                    items@.len() == i,
                    forall|j: int| 0 <= j < i ==> (#[trigger] items@[j])@ == m->items[j],
                    forall|j: int| 0 <= j < i ==> well_spelled(#[trigger] m->items[j]),
                    forall|j: int| 0 <= j < i ==> well_keyed(#[trigger] m->items[j]),
            {
                assert(json_model(*values@[i as int]) == m->items[i as int]);
                items.push(plain_value(values[i]));
            }
            let r = Json::Array { items, text: compact(v) };
            proof {
                lemma_json_view(r);
                assert(json_views(items@) =~= m->items);
            }
            r
        },
        Opened::Object(values) => {
            let mut members: Vec<Member> = Vec::new();
            for i in 0..values.len()
                invariant
                    m is Object && m->members == member_models(values@),
                    keys_ascend(m->members),
                    m == json_model(*v),
                    members@.len() == i,
                    forall|j: int| 0 <= j < i ==> (#[trigger] members@[j])@ == m->members[j],
                    forall|j: int| 0 <= j < i ==> well_spelled((#[trigger] m->members[j]).value),
                    forall|j: int| 0 <= j < i ==> well_keyed((#[trigger] m->members[j]).value),
            {
                assert(json_model(*values@[i as int].1) == m->members[i as int].value);
                members.push(Member { key: values[i].0.clone(), value: plain_value(values[i].1) });
            }
            let r = Json::Object { members, text: compact(v) };
            proof {
                lemma_json_view(r);
                assert(member_views(members@) =~= m->members);
            }
            r
        },
    }
}

/// A parse, viewed.
pub open spec fn parsed_view(r: Result<Json, String>) -> Result<JsonView, Seq<char>> {
    match r {
        Ok(v) => Ok(v@),
        Err(e) => Err(e@),
    }
}

/// Parses JSON text; an error comes as its message.
pub fn parse_json(text: &str) -> (r: Result<Json, String>)
    ensures
        parsed_view(r) == json_parsed(text@),
        r matches Ok(v) ==> well_spelled(v@) && well_keyed(v@),
{
    match parse_value(text) {
        Ok(v) => Ok(plain_value(&v)),
        Err(e) => Err(e),
    }
}

} // verus!
