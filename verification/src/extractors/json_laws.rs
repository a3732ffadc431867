//! What holds of JSON: which values make which blocks, and that no member is lost.
use crate::bridge::json::{keys_ascend, JsonView, MemberView};
use crate::extractors::json::{
    field_of, is_container, is_flat, json_blocks, json_document, keys_of,
    law_ascending_members_are_the_fields, makes_table, member_text, record_fields, row_of, table_of,
    value_block, value_text,
};
use crate::ir::BlockView;
use crate::plugin::InputView;
use crate::text::decimal;
use vstd::prelude::*;

verus! {

/// The keys of members, as they stand.
pub open spec fn member_keys(members: Seq<MemberView>) -> Seq<Seq<char>> {
    members.map_values(|m: MemberView| m.key)
}

/// The value of a key that occurs once is what is stored under it.
proof fn lemma_member_text(members: Seq<MemberView>, i: int)
    requires
        0 <= i < members.len(),
        forall|j: int| 0 <= j < i ==> (#[trigger] members[j]).key != members[i].key,
    ensures
        member_text(members, members[i].key) == value_text(members[i].value),
    decreases members.len(),
{
    if i > 0 {
        let rest = members.skip(1);
        assert(members[0].key != members[i].key);
        assert forall|j: int| 0 <= j < i - 1 implies (#[trigger] rest[j]).key != rest[i - 1].key by {
            assert(rest[j] == members[j + 1]);
        }
        lemma_member_text(rest, i - 1);
    }
}

/// Where keys ascend, the keys in order are the keys as they stand.
proof fn lemma_keys(members: Seq<MemberView>)
    requires
        keys_ascend(members),
    ensures
        keys_of(members) == member_keys(members),
{
    law_ascending_members_are_the_fields(members);
    assert(keys_of(members) =~= member_keys(members));
}

/// A table loses no member: each element of the array has its row, in order, and each member of
/// it stands in that row, in the column whose header is its key.
pub proof fn law_table_shows_every_member(items: Seq<JsonView>, i: int, m: int)
    requires
        makes_table(items),
        0 <= i < items.len(),
        keys_ascend(items[i]->members),
        0 <= m < items[i]->members.len(),
    ensures
        table_of(items)->rows.len() == items.len(),
        exists|c: int|
            0 <= c < table_of(items)->headers.len() && #[trigger] table_of(items)->headers[c]
                == items[i]->members[m].key && table_of(items)->rows[i][c] == value_text(
                items[i]->members[m].value,
            ),
{
    let members = items[i]->members;
    lemma_keys(members);
    assert(keys_of(items[i]->members) == keys_of(items[0]->members));
    assert forall|j: int| 0 <= j < m implies (#[trigger] members[j]).key != members[m].key by {}
    lemma_member_text(members, m);
    let headers = table_of(items)->headers;
    assert(headers == member_keys(members));
    assert(headers[m] == members[m].key);
    assert(table_of(items)->rows[i] == row_of(members, headers));
    assert(row_of(members, headers)[m] == member_text(members, headers[m]));
}

/// An array makes a table exactly if it is not empty and all its elements are objects of
/// scalars that have the same keys.
pub proof fn law_tables_are_uniform(items: Seq<JsonView>)
    requires
        forall|i: int|
            0 <= i < items.len() && (#[trigger] items[i]) is Object ==> keys_ascend(
                items[i]->members,
            ),
    ensures
        makes_table(items) <==> items.len() > 0 && (forall|i: int|
            0 <= i < items.len() ==> (#[trigger] items[i]) is Object && member_keys(
                items[i]->members,
            ) == member_keys(items[0]->members)) && (forall|i: int, m: int|
            0 <= i < items.len() && 0 <= m < items[i]->members.len() ==> !(
            #[trigger] items[i]->members[m].value is Array) && !(items[i]->members[m].value is Object)),
{
    if items.len() > 0 {
        if makes_table(items) {
            assert forall|i: int| 0 <= i < items.len() implies (#[trigger] items[i]) is Object
                && member_keys(items[i]->members) == member_keys(items[0]->members) by {
                assert(is_flat(items[i]) && is_flat(items[0]));
                lemma_keys(items[i]->members);
                lemma_keys(items[0]->members);
            }
            assert forall|i: int, m: int|
                0 <= i < items.len() && 0 <= m < items[i]->members.len() implies !(
            #[trigger] items[i]->members[m].value is Array) && !(
            items[i]->members[m].value is Object) by {
                assert(is_flat(items[i]));
                assert(!is_container(items[i]->members[m].value));
            }
        }
        if (forall|i: int|
            0 <= i < items.len() ==> (#[trigger] items[i]) is Object && member_keys(
                items[i]->members,
            ) == member_keys(items[0]->members)) && (forall|i: int, m: int|
            0 <= i < items.len() && 0 <= m < items[i]->members.len() ==> !(
            #[trigger] items[i]->members[m].value is Array) && !(
            items[i]->members[m].value is Object)) {
            assert forall|i: int| 0 <= i < items.len() implies is_flat(#[trigger] items[i]) by {
                let members = items[i]->members;
                assert forall|m: int| 0 <= m < members.len() implies !is_container(
                    (#[trigger] members[m]).value,
                ) by {
                    assert(!(items[i]->members[m].value is Array));
                }
            }
            assert forall|i: int| 0 <= i < items.len() implies keys_of(
                (#[trigger] items[i])->members,
            ) == keys_of(items[0]->members) by {
                assert(items[i] is Object && items[0] is Object);
                lemma_keys(items[i]->members);
                lemma_keys(items[0]->members);
            }
        }
    }
}

/// A string is rendered as it is, null, truth values and numbers as JSON writes them.
pub proof fn law_scalars_are_rendered_plainly(v: JsonView)
    ensures
        v matches JsonView::Text(s) ==> value_text(v) == s,
        v is Null ==> value_text(v) == "null"@,
        v == JsonView::Bool(true) ==> value_text(v) == "true"@,
        v == JsonView::Bool(false) ==> value_text(v) == "false"@,
        v matches JsonView::Number(n) ==> value_text(v) == n,
        v matches JsonView::Array { text, .. } ==> value_text(v) == text,
        v matches JsonView::Object { text, .. } ==> value_text(v) == text,
{
}

/// What a value makes that is not part of a table: an object a record with a field for each
/// member, in the order of the keys, an array a list with an item for each element, in order,
/// a scalar a paragraph.
pub open spec fn is_block_of(v: JsonView, b: BlockView) -> bool {
    match v {
        JsonView::Object { members, .. } => b matches BlockView::Record { fields } && (keys_ascend(
            members,
        ) ==> fields.len() == members.len() && forall|m: int|
            0 <= m < members.len() ==> (#[trigger] fields[m]).key == members[m].key
                && fields[m].value == value_text(members[m].value)),
        JsonView::Array { items, .. } => b matches BlockView::List { ordered, items: texts }
            && !ordered && texts.len() == items.len() && forall|i: int|
            0 <= i < items.len() ==> #[trigger] texts[i] == value_text(items[i]),
        _ => b == (BlockView::Paragraph { text: value_text(v) }),
    }
}

/// A value makes the block that its kind calls for.
pub proof fn lemma_block_of(v: JsonView)
    ensures
        is_block_of(v, value_block(v)),
{
    if let JsonView::Object { members, .. } = v {
        if keys_ascend(members) {
            law_ascending_members_are_the_fields(members);
            assert forall|m: int| 0 <= m < members.len() implies (#[trigger] record_fields(
                members,
            )[m]).key == members[m].key && record_fields(members)[m].value == value_text(
                members[m].value,
            ) by {
                assert(record_fields(members)[m] == field_of(members[m]));
            }
        }
    }
}

/// A text that is no array makes one block. An array makes one table or else one block for each
/// element, in order.
pub proof fn law_every_value_has_its_block(v: JsonView)
    ensures
        !(v is Array) ==> json_blocks(v).len() == 1 && is_block_of(v, json_blocks(v)[0]),
        v matches JsonView::Array { items, .. } ==> {
            &&& makes_table(items) ==> json_blocks(v) == seq![table_of(items)]
            &&& !makes_table(items) ==> json_blocks(v).len() == items.len() && forall|i: int|
                0 <= i < items.len() ==> is_block_of(items[i], #[trigger] json_blocks(v)[i])
        },
{
    lemma_block_of(v);
    if let JsonView::Array { items, .. } = v {
        if !makes_table(items) {
            assert forall|i: int| 0 <= i < items.len() implies is_block_of(
                items[i],
                #[trigger] json_blocks(v)[i],
            ) by {
                lemma_block_of(items[i]);
            }
        }
    }
}

/// JSON that cannot be read makes no block and one warning, which tells why. JSON that can makes
/// no warning, and the metadata count its records: the elements of an array, or else one.
pub proof fn law_what_json_says(
    input: InputView,
    parsed: std::result::Result<JsonView, Seq<char>>,
)
    ensures
        ({
            let doc = json_document(input, parsed);
            &&& parsed matches Err(e) ==> doc.blocks.len() == 0 && doc.warnings.len() == 1
                && doc.warnings[0].code == "json.invalid"@ && doc.warnings[0].message
                == "failed to parse JSON: "@ + e
            &&& parsed matches Ok(v) ==> doc.blocks == json_blocks(v) && doc.warnings.len() == 0
                && doc.metadata.contains_pair("format"@, "json"@) && doc.metadata.contains_pair(
                "record_count"@,
                decimal(
                    match v {
                        JsonView::Array { items, .. } => items.len(),
                        _ => 1,
                    },
                ),
            )
        }),
{
    reveal_strlit("format");
    reveal_strlit("record_count");
    assert("format"@.len() != "record_count"@.len());
}

} // verus!
