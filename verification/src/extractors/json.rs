//! JSON: tables, records, lists and paragraphs.
//!
//! An array of flat objects that all have the same keys becomes one table. Any other array
//! becomes one block per element, an object one record and a scalar one paragraph. Nested
//! values are written as compact JSON text.
use crate::bridge::json::{
    json_parsed, json_text, json_views, keys_ascend, lemma_json_view, member_views, parse_json,
    parsed_view, spelled, well_spelled, Json, JsonView, Member, MemberView,
};
use crate::bridge::unicode::lossy;
use crate::error::{ErrorView, Result};
use crate::extractors::common::{blank_document, new_document, note, note_filename, with_filename};
use crate::ir::{
    block_views, field_views, row_views, Block, BlockView, DocumentIr, DocumentView, Field,
    FieldView, WarningView,
};
use crate::plugin::{str_views, Extraction, Extractor, Input, InputView};
use crate::registry::{ExtractorSlot, PlugExtractor};
use crate::text::{
    at_most, decimal, decimal_of, is_at_most, lemma_at_most_total, lemma_at_most_transitive, same,
    views,
};
use vstd::prelude::*;

verus! {

// ---------------------------------------------------------------------------
// Values
// ---------------------------------------------------------------------------

/// A value for a person to read: a string without its quotes, a container as compact JSON.
pub open spec fn value_text(v: JsonView) -> Seq<char> {
    match v {
        JsonView::Text(s) => s,
        JsonView::Null => "null"@,
        JsonView::Bool(b) => if b {
            "true"@
        } else {
            "false"@
        },
        JsonView::Number(n) => n,
        JsonView::Array { text, .. } => text,
        JsonView::Object { text, .. } => text,
    }
}

/// Whether a value holds other values.
pub open spec fn is_container(v: JsonView) -> bool {
    v is Array || v is Object
}

/// A member as a field.
pub open spec fn field_of(m: MemberView) -> FieldView {
    FieldView { key: m.key, value: value_text(m.value) }
}

/// `fields`, which are in order, with `f` in its place, behind those of the same key.
pub open spec fn place_field(fields: Seq<FieldView>, f: FieldView) -> Seq<FieldView>
    decreases fields.len(),
{
    if fields.len() == 0 {
        seq![f]
    } else if at_most(fields.last().key, f.key) {
        fields.push(f)
    } else {
        place_field(fields.drop_last(), f).push(fields.last())
    }
}

/// The members of an object as fields, in order of their keys.
pub open spec fn record_fields(members: Seq<MemberView>) -> Seq<FieldView>
    decreases members.len(),
{
    if members.len() == 0 {
        Seq::empty()
    } else {
        place_field(record_fields(members.drop_last()), field_of(members.last()))
    }
}

/// The keys of an object, in order.
pub open spec fn keys_of(members: Seq<MemberView>) -> Seq<Seq<char>> {
    record_fields(members).map_values(|f: FieldView| f.key)
}

/// Renders any value as a string.
pub fn value_to_string(v: &Json) -> (s: String)
    ensures
        s@ == value_text(v@),
{
    match v {
        Json::Text(s) => s.clone(),
        Json::Null => "null".to_owned(),
        Json::Bool(b) => if *b {
            "true".to_owned()
        } else {
            "false".to_owned()
        },
        Json::Number(n) => n.clone(),
        Json::Array { text, .. } => text.clone(),
        Json::Object { text, .. } => text.clone(),
    }
}

/// Puts `f` in its place among fields that are in order.
fn insert_field(fields: &mut Vec<Field>, f: Field)
    ensures
        field_views(final(fields)@) == place_field(field_views(old(fields)@), f@),
{
    let ghost all = field_views(fields@);
    let mut n: usize = fields.len();
    assert(all.take(n as int) =~= all);
    assert(place_field(all, f@) + all.skip(n as int) =~= place_field(all, f@));
    while n > 0 && !is_at_most(fields[n - 1].key.as_str(), f.key.as_str())
        invariant
            fields@ == old(fields)@,
            all == field_views(fields@),
            n <= fields@.len(),
            place_field(all.take(n as int), f@) + all.skip(n as int) == place_field(all, f@),
        decreases n,
    {
        proof {
            let here = all.take(n as int);
            assert(here.drop_last() =~= all.take(n - 1));
            assert(here.last() == fields@[n - 1]@);
            assert(place_field(all.take(n - 1), f@).push(here.last()) + all.skip(n as int)
                =~= place_field(all.take(n - 1), f@) + all.skip(n - 1));
        }
        n = n - 1;
    }
    proof {
        let here = all.take(n as int);
        if n > 0 {
            assert(here.last() == fields@[n - 1]@);
        }
        assert(place_field(here, f@) =~= here.push(f@));
        assert(field_views(fields@.insert(n as int, f)) =~= here.push(f@) + all.skip(n as int));
    }
    fields.insert(n, f);
}

/// The members of an object as fields, in order of their keys.
pub fn sorted_fields(members: &Vec<Member>) -> (fields: Vec<Field>)
    ensures
        field_views(fields@) == record_fields(member_views(members@)),
{
    let ghost all = member_views(members@);
    let mut fields: Vec<Field> = Vec::new();
    assert(all.take(0) =~= Seq::empty());
    assert(field_views(fields@) =~= Seq::empty());
    for i in 0..members.len()
        invariant
            all == member_views(members@),
            field_views(fields@) == record_fields(all.take(i as int)),
    {
        assert(all.take(i + 1).drop_last() =~= all.take(i as int));
        let m = &members[i];
        insert_field(
            &mut fields,
            Field { key: m.key.clone(), value: value_to_string(&m.value) },
        );
    }
    assert(all.take(members.len() as int) =~= all);
    fields
}

/// The keys of an object, in order.
fn sorted_keys(members: &Vec<Member>) -> (keys: Vec<String>)
    ensures
        views(keys@) == keys_of(member_views(members@)),
{
    let fields = sorted_fields(members);
    let mut keys: Vec<String> = Vec::new();
    for i in 0..fields.len()
        invariant
            keys@.len() == i,
            forall|j: int| 0 <= j < i ==> (#[trigger] keys@[j])@ == fields@[j].key@,
    {
        keys.push(fields[i].key.clone());
    }
    assert(views(keys@) =~= keys_of(member_views(members@))) by {
        assert forall|j: int| 0 <= j < keys@.len() implies views(keys@)[j] == keys_of(
            member_views(members@),
        )[j] by {
            assert(field_views(fields@)[j] == fields@[j]@);
        }
    }
    keys
}

// ---------------------------------------------------------------------------
// Tables
// ---------------------------------------------------------------------------

/// Whether a value is an object without containers in it.
pub open spec fn is_flat(v: JsonView) -> bool {
    v matches JsonView::Object { members, .. } && forall|i: int|
        0 <= i < members.len() ==> !is_container((#[trigger] members[i]).value)
}

/// Whether an array makes a table: it is not empty, and all its elements are flat objects
/// with the same keys.
pub open spec fn makes_table(items: Seq<JsonView>) -> bool {
    &&& items.len() > 0
    &&& forall|i: int| 0 <= i < items.len() ==> is_flat(#[trigger] items[i])
    &&& forall|i: int|
        0 <= i < items.len() ==> keys_of((#[trigger] items[i])->members) == keys_of(
            items[0]->members,
        )
}

/// The value stored under `key`; null if there is none.
pub open spec fn member_text(members: Seq<MemberView>, key: Seq<char>) -> Seq<char>
    decreases members.len(),
{
    if members.len() == 0 {
        "null"@
    } else if members[0].key == key {
        value_text(members[0].value)
    } else {
        member_text(members.skip(1), key)
    }
}

/// The row of an object: its value under each key.
pub open spec fn row_of(members: Seq<MemberView>, keys: Seq<Seq<char>>) -> Seq<Seq<char>> {
    keys.map_values(|k: Seq<char>| member_text(members, k))
}

/// The rows of the objects in an array.
pub open spec fn rows_of(items: Seq<JsonView>, keys: Seq<Seq<char>>) -> Seq<Seq<Seq<char>>> {
    items.map_values(|v: JsonView| row_of(v->members, keys))
}

/// The table of an array.
pub open spec fn table_of(items: Seq<JsonView>) -> BlockView {
    let keys = keys_of(items[0]->members);
    BlockView::Table { headers: keys, rows: rows_of(items, keys) }
}

/// Whether two lists of strings are equal.
fn same_strings(a: &Vec<String>, b: &Vec<String>) -> (r: bool)
    ensures
        r == (views(a@) == views(b@)),
{
    if a.len() != b.len() {
        assert(views(a@).len() != views(b@).len());
        return false;
    }
    for i in 0..a.len()
        invariant
            a@.len() == b@.len(),
            forall|j: int| 0 <= j < i ==> (#[trigger] a@[j])@ == b@[j]@,
    {
        if !same(a[i].as_str(), b[i].as_str()) {
            assert(views(a@)[i as int] != views(b@)[i as int]);
            return false;
        }
    }
    assert(views(a@) =~= views(b@));
    true
}

/// The members of a flat object.
fn flat_members<'a>(v: &'a Json) -> (r: Option<&'a Vec<Member>>)
    ensures
        r is Some <==> is_flat(v@),
        r matches Some(m) ==> v@->members == member_views(m@),
{
    proof {
        lemma_json_view(*v);
    }
    match v {
        Json::Object { members, .. } => {
            for i in 0..members.len()
                invariant
                    v@ is Object,
                    v@->members == member_views(members@),
                    forall|j: int|
                        0 <= j < i ==> !is_container((#[trigger] v@->members[j]).value),
            {
                assert(v@->members[i as int] == members@[i as int]@);
                match &members[i].value {
                    Json::Array { .. } => {
                        return None;
                    },
                    Json::Object { .. } => {
                        return None;
                    },
                    _ => {},
                }
            }
            Some(members)
        },
        _ => None,
    }
}

/// The value stored under `key`; null if there is none.
fn text_under(members: &Vec<Member>, key: &str) -> (s: String)
    ensures
        s@ == member_text(member_views(members@), key@),
{
    let ghost all = member_views(members@);
    assert(all.skip(0) =~= all);
    for i in 0..members.len()
        invariant
            all == member_views(members@),
            member_text(all.skip(i as int), key@) == member_text(all, key@),
    {
        proof {
            assert(all.skip(i as int).skip(1) =~= all.skip(i + 1));
            assert(all.skip(i as int)[0] == members@[i as int]@);
        }
        if same(members[i].key.as_str(), key) {
            return value_to_string(&members[i].value);
        }
    }
    "null".to_owned()
}

/// The row of an object: its value under each key.
fn object_row(members: &Vec<Member>, keys: &Vec<String>) -> (row: Vec<String>)
    ensures
        views(row@) == row_of(member_views(members@), views(keys@)),
{
    let mut row: Vec<String> = Vec::new();
    for i in 0..keys.len()
        invariant
            row@.len() == i,
            forall|j: int|
                0 <= j < i ==> (#[trigger] row@[j])@ == member_text(
                    member_views(members@),
                    keys@[j]@,
                ),
    {
        row.push(text_under(members, keys[i].as_str()));
    }
    assert(views(row@) =~= row_of(member_views(members@), views(keys@)));
    row
}

/// Tries to make one table of an array.
fn try_table(items: &Vec<Json>) -> (r: Option<Block>)
    ensures
        r is Some <==> makes_table(json_views(items@)),
        r matches Some(b) ==> b@ == table_of(json_views(items@)),
{
    let ghost all = json_views(items@);
    if items.len() == 0 {
        return None;
    }
    assert(all[0] == items@[0]@);
    let headers = match flat_members(&items[0]) {
        Some(m) => sorted_keys(m),
        None => {
            assert(!is_flat(all[0]));
            return None;
        },
    };
    let mut rows: Vec<Vec<String>> = Vec::new();
    for i in 0..items.len()
        invariant
            all == json_views(items@),
            all.len() > 0,
            views(headers@) == keys_of(all[0]->members),
            rows@.len() == i,
            forall|j: int| 0 <= j < i ==> is_flat(#[trigger] all[j]),
            forall|j: int|
                0 <= j < i ==> keys_of((#[trigger] all[j])->members) == keys_of(all[0]->members),
            forall|j: int|
                0 <= j < i ==> views((#[trigger] rows@[j])@) == row_of(
                    all[j]->members,
                    views(headers@),
                ),
    {
        assert(all[i as int] == items@[i as int]@);
        match flat_members(&items[i]) {
            Some(m) => {
                if !same_strings(&sorted_keys(m), &headers) {
                    return None;
                }
                rows.push(object_row(m, &headers));
            },
            None => {
                return None;
            },
        }
    }
    assert(row_views(rows@) =~= rows_of(all, views(headers@))) by {
        assert forall|j: int| 0 <= j < rows@.len() implies row_views(rows@)[j] == rows_of(
            all,
            views(headers@),
        )[j] by {
            assert(views(rows@[j]@) == row_of(all[j]->members, views(headers@)));
        }
    }
    Some(Block::Table { headers, rows })
}

// ---------------------------------------------------------------------------
// Blocks
// ---------------------------------------------------------------------------

/// Each value for a person to read.
pub open spec fn value_texts(items: Seq<JsonView>) -> Seq<Seq<char>> {
    items.map_values(|v: JsonView| value_text(v))
}

/// The block of a value: an object makes a record, an array a list, a scalar a paragraph.
pub open spec fn value_block(v: JsonView) -> BlockView {
    match v {
        JsonView::Object { members, .. } => BlockView::Record { fields: record_fields(members) },
        JsonView::Array { items, .. } => BlockView::List {
            ordered: false,
            items: value_texts(items),
        },
        _ => BlockView::Paragraph { text: value_text(v) },
    }
}

/// The blocks of an array.
pub open spec fn array_blocks(items: Seq<JsonView>) -> Seq<BlockView> {
    if makes_table(items) {
        seq![table_of(items)]
    } else {
        items.map_values(|v: JsonView| value_block(v))
    }
}

/// The blocks of a JSON text.
pub open spec fn json_blocks(v: JsonView) -> Seq<BlockView> {
    match v {
        JsonView::Array { items, .. } => array_blocks(items),
        _ => seq![value_block(v)],
    }
}

/// How many records a JSON text holds.
pub open spec fn record_count(v: JsonView) -> nat {
    match v {
        JsonView::Array { items, .. } => items.len(),
        _ => 1,
    }
}

/// What JSON holds, for what parsing it gave.
pub open spec fn json_document(
    input: InputView,
    parsed: std::result::Result<JsonView, Seq<char>>,
) -> DocumentView {
    let doc = with_filename(blank_document(input), input);
    match parsed {
        Err(e) => DocumentView {
            warnings: seq![
                WarningView { code: "json.invalid"@, message: "failed to parse JSON: "@ + e },
            ],
            ..doc
        },
        Ok(v) => DocumentView {
            blocks: json_blocks(v),
            metadata: doc.metadata.insert("format"@, "json"@).insert(
                "record_count"@,
                decimal(record_count(v)),
            ),
            ..doc
        },
    }
}

/// Makes a block of a value: an object makes a record, an array a list, a scalar a paragraph.
fn value_to_block(v: &Json) -> (b: Block)
    ensures
        b@ == value_block(v@),
{
    proof {
        lemma_json_view(*v);
    }
    match v {
        Json::Object { members, .. } => Block::Record { fields: sorted_fields(members) },
        Json::Array { items: values, .. } => {
            let mut items: Vec<String> = Vec::new();
            for i in 0..values.len()
                invariant
                    items@.len() == i,
                    forall|j: int| 0 <= j < i ==> (#[trigger] items@[j])@ == value_text(values@[j]@),
            {
                items.push(value_to_string(&values[i]));
            }
            assert(views(items@) =~= value_texts(json_views(values@)));
            Block::List { ordered: false, items }
        },
        _ => Block::Paragraph { text: value_to_string(v) },
    }
}

/// Makes the blocks of an array.
fn array_to_blocks(items: &Vec<Json>) -> (blocks: Vec<Block>)
    ensures
        block_views(blocks@) == array_blocks(json_views(items@)),
{
    let ghost all = json_views(items@);
    let mut blocks: Vec<Block> = Vec::new();
    if let Some(table) = try_table(items) {
        blocks.push(table);
        assert(block_views(blocks@) =~= array_blocks(all));
        return blocks;
    }
    for i in 0..items.len()
        invariant
            all == json_views(items@),
            blocks@.len() == i,
            forall|j: int| 0 <= j < i ==> (#[trigger] blocks@[j])@ == value_block(all[j]),
    {
        assert(all[i as int] == items@[i as int]@);
        blocks.push(value_to_block(&items[i]));
    }
    assert(block_views(blocks@) =~= array_blocks(all));
    blocks
}

/// Makes a document of what parsing JSON gave.
pub fn read_json(input: &Input, parsed: std::result::Result<Json, String>) -> (doc: DocumentIr)
    ensures
        doc@ == json_document(input@, parsed_view(parsed)),
{
    let mut doc = new_document(input);
    note_filename(&mut doc, input);
    let value = match parsed {
        Ok(v) => v,
        Err(e) => {
            let mut m = "failed to parse JSON: ".to_owned();
            m.append(e.as_str());
            doc.warn("json.invalid", m.as_str());
            assert(doc@.warnings =~= seq![
                WarningView { code: "json.invalid"@, message: "failed to parse JSON: "@ + e@ },
            ]);
            return doc;
        },
    };
    proof {
        lemma_json_view(value);
    }
    let count: usize = match &value {
        Json::Array { items, .. } => {
            doc.blocks = array_to_blocks(items);
            items.len()
        },
        _ => {
            doc.push(value_to_block(&value));
            1
        },
    };
    assert(doc@.blocks =~= json_blocks(value@));
    note(&mut doc, "format", "json");
    note(&mut doc, "record_count", decimal_of(count as u128).as_str());
    doc
}

/// Reads JSON.
pub struct JsonExtractor;

impl Extractor for JsonExtractor {
    open spec fn named(&self) -> Seq<char> {
        "json"@
    }

    open spec fn handles(&self) -> Seq<Seq<char>> {
        seq!["json"@]
    }

    open spec fn extracts(&self, input: InputView, outcome: Extraction) -> bool {
        outcome == Ok::<DocumentView, ErrorView>(
            json_document(input, json_parsed(lossy(input.bytes))),
        )
    }

    fn name(&self) -> (s: &'static str) {
        "json"
    }

    fn formats(&self) -> (r: &'static [&'static str]) {
        let keys: &'static [&'static str] = &["json"];
        assert(str_views(keys@) =~= self.handles());
        keys
    }

    fn extract(&self, input: &Input) -> (r: Result<DocumentIr>) {
        let text = input.text();
        Ok(read_json(input, parse_json(text.as_str())))
    }
}

impl PlugExtractor for JsonExtractor {
    fn plug(self) -> (s: ExtractorSlot) {
        ExtractorSlot { plugin: Box::new(self) }
    }
}

// ---------------------------------------------------------------------------
// Laws
// ---------------------------------------------------------------------------

/// Whether fields stand in order of their keys.
pub open spec fn in_order(fields: Seq<FieldView>) -> bool {
    forall|i: int, j: int|
        0 <= i <= j < fields.len() ==> at_most((#[trigger] fields[i]).key, (
        #[trigger] fields[j]).key)
}

/// A field put in its place leaves the fields in order, and adds itself only.
proof fn lemma_place_field(fields: Seq<FieldView>, f: FieldView)
    requires
        in_order(fields),
    ensures
        in_order(place_field(fields, f)),
        place_field(fields, f).len() == fields.len() + 1,
        place_field(fields, f).to_multiset() == fields.to_multiset().insert(f),
        fields.len() > 0 ==> (place_field(fields, f).last() == f || place_field(fields, f).last()
            == fields.last()),
    decreases fields.len(),
{
    broadcast use vstd::seq_lib::group_to_multiset_ensures;

    lemma_at_most_total(f.key, f.key);
    if fields.len() == 0 {
        assert(seq![f] =~= fields.push(f));
    } else if at_most(fields.last().key, f.key) {
        assert forall|i: int, j: int| 0 <= i <= j < fields.push(f).len() implies at_most(
            (#[trigger] fields.push(f)[i]).key,
            (#[trigger] fields.push(f)[j]).key,
        ) by {
            if j == fields.len() && i < j {
                assert(at_most(fields[i].key, fields[fields.len() - 1].key));
                lemma_at_most_transitive(fields[i].key, fields.last().key, f.key);
            }
        }
    } else {
        let front = fields.drop_last();
        let last = fields.last();
        lemma_place_field(front, f);
        lemma_at_most_total(f.key, last.key);
        lemma_at_most_total(last.key, last.key);
        let placed = place_field(front, f);
        let all = placed.push(last);
        assert(at_most(placed.last().key, last.key)) by {
            if front.len() > 0 && placed.last() == front.last() {
                assert(at_most(fields[fields.len() - 2].key, fields[fields.len() - 1].key));
            }
        }
        assert forall|i: int, j: int| 0 <= i <= j < all.len() implies at_most(
            (#[trigger] all[i]).key,
            (#[trigger] all[j]).key,
        ) by {
            if j == placed.len() && i < j {
                assert(at_most(placed[i].key, placed[placed.len() - 1].key));
                lemma_at_most_transitive(placed[i].key, placed.last().key, last.key);
            }
        }
        assert(front.push(last) =~= fields);
        assert(all.to_multiset() =~= fields.to_multiset().insert(f));
    }
}

/// The fields of a record stand in order of their keys, and are the members of the object: no
/// more, no fewer, each as often as it is there.
pub proof fn law_record_fields_are_sorted(members: Seq<MemberView>)
    ensures
        in_order(record_fields(members)),
        record_fields(members).len() == members.len(),
        record_fields(members).to_multiset() == members.map_values(
            |m: MemberView| field_of(m),
        ).to_multiset(),
    decreases members.len(),
{
    broadcast use vstd::seq_lib::group_to_multiset_ensures;

    let fields = members.map_values(|m: MemberView| field_of(m));
    if members.len() > 0 {
        law_record_fields_are_sorted(members.drop_last());
        lemma_place_field(record_fields(members.drop_last()), field_of(members.last()));
        let front = members.drop_last().map_values(|m: MemberView| field_of(m));
        assert(fields =~= front.push(field_of(members.last())));
    } else {
        assert(fields =~= record_fields(members));
    }
}

/// Where the keys of an object ascend, as those of parsed ones do, its members are the fields of
/// its record as they stand, and no key occurs twice.
pub proof fn law_ascending_members_are_the_fields(members: Seq<MemberView>)
    requires
        keys_ascend(members),
    ensures
        record_fields(members) == members.map_values(|m: MemberView| field_of(m)),
    decreases members.len(),
{
    let fields = members.map_values(|m: MemberView| field_of(m));
    if members.len() > 0 {
        let front = members.drop_last();
        assert(keys_ascend(front)) by {
            assert forall|i: int, j: int| 0 <= i < j < front.len() implies at_most(
                (#[trigger] front[i]).key,
                (#[trigger] front[j]).key,
            ) && front[i].key != front[j].key by {
                assert(front[i] == members[i] && front[j] == members[j]);
            }
        }
        law_ascending_members_are_the_fields(front);
        let before = front.map_values(|m: MemberView| field_of(m));
        assert(fields =~= before.push(field_of(members.last())));
        if front.len() > 0 {
            assert(at_most(members[front.len() - 1].key, members[front.len() as int].key));
            assert(before.last().key == members[front.len() - 1].key);
        }
        assert(record_fields(members) =~= fields);
    } else {
        assert(record_fields(members) =~= fields);
    }
}

/// A table made of JSON has a header for each key, in order, and every row has a cell for each
/// header. Where the keys of the first object ascend, as those of parsed ones do, so do the
/// headers, each once.
pub proof fn law_json_table_is_even(items: Seq<JsonView>)
    requires
        makes_table(items),
    ensures
        table_of(items)->headers == keys_of(items[0]->members),
        table_of(items)->rows.len() == items.len(),
        forall|i: int|
            0 <= i < items.len() ==> (#[trigger] table_of(items)->rows[i]).len() == table_of(
                items,
            )->headers.len(),
        forall|i: int, j: int|
            0 <= i <= j < table_of(items)->headers.len() ==> at_most(
                #[trigger] table_of(items)->headers[i],
                #[trigger] table_of(items)->headers[j],
            ),
        keys_ascend(items[0]->members) ==> forall|i: int, j: int|
            0 <= i < j < table_of(items)->headers.len() ==> #[trigger] table_of(items)->headers[i]
                != #[trigger] table_of(items)->headers[j],
{
    let members = items[0]->members;
    law_record_fields_are_sorted(members);
    let fields = record_fields(members);
    assert forall|i: int, j: int| 0 <= i <= j < table_of(items)->headers.len() implies at_most(
        #[trigger] table_of(items)->headers[i],
        #[trigger] table_of(items)->headers[j],
    ) by {
        assert(at_most(fields[i].key, fields[j].key));
    }
    if keys_ascend(members) {
        law_ascending_members_are_the_fields(members);
        assert forall|i: int, j: int|
            0 <= i < j < table_of(items)->headers.len() implies #[trigger] table_of(
            items,
        )->headers[i] != #[trigger] table_of(items)->headers[j] by {
            assert(fields[i].key == members[i].key && fields[j].key == members[j].key);
        }
    }
}

/// A value that holds others is rendered as the value written out without white space; any
/// other value is rendered without quotes.
pub proof fn law_nested_values_are_compact_json(v: JsonView)
    requires
        well_spelled(v),
    ensures
        is_container(v) ==> value_text(v) == spelled(v),
        !is_container(v) ==> value_text(v) == (match v {
            JsonView::Text(s) => s,
            _ => json_text(v),
        }),
{
}

} // verus!
