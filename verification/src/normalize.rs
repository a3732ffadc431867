//! Unicode normalization of a document: every human-visible text in NFC.
use crate::bridge::unicode::{nfc, to_nfc};
use crate::ir::{
    all_same_marks, block_views, field_views, lemma_children_view, row_views, same_marks,
    same_shape, same_shapes, Block, BlockView, DocumentIr, DocumentView, Field, FieldView,
};
use crate::text::views;
use vstd::prelude::*;

verus! {

/// Each string in NFC.
pub open spec fn nfc_all(s: Seq<Seq<char>>) -> Seq<Seq<char>> {
    s.map_values(|t: Seq<char>| nfc(t))
}

/// Each cell in NFC.
pub open spec fn nfc_rows(rows: Seq<Seq<Seq<char>>>) -> Seq<Seq<Seq<char>>> {
    rows.map_values(|r: Seq<Seq<char>>| nfc_all(r))
}

/// Each key and value in NFC.
pub open spec fn nfc_fields(fields: Seq<FieldView>) -> Seq<FieldView> {
    fields.map_values(|f: FieldView| FieldView { key: nfc(f.key), value: nfc(f.value) })
}

/// A block with its texts in NFC, containers included. The language of a code block is no
/// text and stays.
pub open spec fn nfc_block(b: BlockView) -> BlockView
    decreases b,
{
    match b {
        BlockView::Document { children } => BlockView::Document { children: nfc_blocks(children) },
        BlockView::Section { children } => BlockView::Section { children: nfc_blocks(children) },
        BlockView::Heading { level, text } => BlockView::Heading { level, text: nfc(text) },
        BlockView::Paragraph { text } => BlockView::Paragraph { text: nfc(text) },
        BlockView::Quote { text } => BlockView::Quote { text: nfc(text) },
        BlockView::Code { lang, text } => BlockView::Code { lang, text: nfc(text) },
        BlockView::List { ordered, items } => BlockView::List { ordered, items: nfc_all(items) },
        BlockView::Table { headers, rows } => BlockView::Table {
            headers: nfc_all(headers),
            rows: nfc_rows(rows),
        },
        BlockView::Record { fields } => BlockView::Record { fields: nfc_fields(fields) },
        BlockView::Unsupported { note } => BlockView::Unsupported { note: nfc(note) },
    }
}

/// Each block with its texts in NFC.
pub open spec fn nfc_blocks(bs: Seq<BlockView>) -> Seq<BlockView>
    decreases bs,
{
    if bs.len() == 0 {
        Seq::empty()
    } else {
        nfc_blocks(bs.drop_last()).push(nfc_block(bs.last()))
    }
}

/// A document with its title and the texts of its blocks in NFC; the rest stays.
pub open spec fn nfc_document(doc: DocumentView) -> DocumentView {
    DocumentView {
        title: match doc.title {
            Some(t) => Some(nfc(t)),
            None => None,
        },
        blocks: nfc_blocks(doc.blocks),
        ..doc
    }
}

/// Brings a string into NFC.
fn normalize_text(s: &mut String)
    ensures
        final(s)@ == nfc(old(s)@),
        nfc(final(s)@) == final(s)@,
{
    *s = to_nfc(s.as_str());
}

/// Brings each string into NFC.
fn normalize_all(v: &mut Vec<String>)
    ensures
        views(final(v)@) == nfc_all(views(old(v)@)),
        nfc_all(views(final(v)@)) == views(final(v)@),
{
    let n = v.len();
    for i in 0..n
        invariant
            n == v@.len(),
            n == old(v)@.len(),
            forall|j: int| 0 <= j < i ==> (#[trigger] v@[j])@ == nfc(old(v)@[j]@),
            forall|j: int| 0 <= j < i ==> nfc((#[trigger] v@[j])@) == v@[j]@,
            forall|j: int| i <= j < n ==> #[trigger] v@[j] == old(v)@[j],
    {
        normalize_text(&mut v[i]);
    }
    assert(views(v@) =~= nfc_all(views(old(v)@)));
    assert(nfc_all(views(v@)) =~= views(v@));
}

/// Brings each cell into NFC.
fn normalize_rows(rows: &mut Vec<Vec<String>>)
    ensures
        row_views(final(rows)@) == nfc_rows(row_views(old(rows)@)),
        nfc_rows(row_views(final(rows)@)) == row_views(final(rows)@),
{
    let n = rows.len();
    for i in 0..n
        invariant
            n == rows@.len(),
            n == old(rows)@.len(),
            forall|j: int|
                0 <= j < i ==> views((#[trigger] rows@[j])@) == nfc_all(views(old(rows)@[j]@)),
            forall|j: int|
                0 <= j < i ==> nfc_all(views((#[trigger] rows@[j])@)) == views(rows@[j]@),
            forall|j: int| i <= j < n ==> #[trigger] rows@[j] == old(rows)@[j],
    {
        normalize_all(&mut rows[i]);
    }
    assert(row_views(rows@) =~= nfc_rows(row_views(old(rows)@)));
    assert(nfc_rows(row_views(rows@)) =~= row_views(rows@));
}

/// Brings each key and value into NFC.
fn normalize_fields(fields: &mut Vec<Field>)
    ensures
        field_views(final(fields)@) == nfc_fields(field_views(old(fields)@)),
        nfc_fields(field_views(final(fields)@)) == field_views(final(fields)@),
{
    let n = fields.len();
    for i in 0..n
        invariant
            n == fields@.len(),
            n == old(fields)@.len(),
            forall|j: int|
                0 <= j < i ==> (#[trigger] fields@[j])@ == (FieldView {
                    key: nfc(old(fields)@[j].key@),
                    value: nfc(old(fields)@[j].value@),
                }),
            forall|j: int|
                0 <= j < i ==> nfc((#[trigger] fields@[j]).key@) == fields@[j].key@ && nfc(
                    fields@[j].value@,
                ) == fields@[j].value@,
            forall|j: int| i <= j < n ==> #[trigger] fields@[j] == old(fields)@[j],
    {
        normalize_text(&mut fields[i].key);
        normalize_text(&mut fields[i].value);
    }
    assert(field_views(fields@) =~= nfc_fields(field_views(old(fields)@)));
    assert(nfc_fields(field_views(fields@)) =~= field_views(fields@));
}

/// Brings every text of a block into NFC, containers included. The block keeps its shape, and
/// to do so again would change nothing.
pub fn normalize_block(b: &mut Block)
    ensures
        final(b)@ == nfc_block(old(b)@),
        nfc_block(final(b)@) == final(b)@,
        same_shape(old(b)@, final(b)@),
        same_marks(old(b)@, final(b)@),
    decreases *old(b),
{
    proof {
        lemma_children_view(*b);
        law_nfc_keeps_shape(b@);
    }
    match b {
        Block::Document { children } => normalize_blocks(children),
        Block::Section { children } => normalize_blocks(children),
        Block::Heading { text, .. } => normalize_text(text),
        Block::Paragraph { text } => normalize_text(text),
        Block::Quote { text } => normalize_text(text),
        Block::Code { text, .. } => normalize_text(text),
        Block::List { items, .. } => normalize_all(items),
        Block::Table { headers, rows } => {
            normalize_all(headers);
            normalize_rows(rows);
        },
        Block::Record { fields } => normalize_fields(fields),
        Block::Unsupported { note } => normalize_text(note),
    }
    proof {
        lemma_children_view(*b);
    }
}

/// Brings every text of blocks into NFC.
fn normalize_blocks(blocks: &mut Vec<Block>)
    ensures
        block_views(final(blocks)@) == nfc_blocks(block_views(old(blocks)@)),
        nfc_blocks(block_views(final(blocks)@)) == block_views(final(blocks)@),
    decreases *old(blocks),
{
    let n = blocks.len();
    for i in 0..n
        invariant
            n == blocks@.len(),
            n == old(blocks)@.len(),
            forall|j: int| 0 <= j < i ==> (#[trigger] blocks@[j])@ == nfc_block(old(blocks)@[j]@),
            forall|j: int| 0 <= j < i ==> nfc_block((#[trigger] blocks@[j])@) == blocks@[j]@,
            forall|j: int| i <= j < n ==> #[trigger] blocks@[j] == old(blocks)@[j],
    {
        assert(decreases_to!(*old(blocks) => old(blocks)@[i as int]));
        normalize_block(&mut blocks[i]);
    }
    proof {
        law_nfc_keeps_blocks(block_views(old(blocks)@));
        assert(block_views(blocks@) =~= nfc_blocks(block_views(old(blocks)@)));
        law_nfc_keeps_blocks(block_views(blocks@));
        assert(nfc_blocks(block_views(blocks@)) =~= block_views(blocks@));
    }
}

/// Brings every text-bearing field of a document into NFC. To do so again would change
/// nothing.
pub fn normalize_nfc(doc: &mut DocumentIr)
    ensures
        final(doc)@ == nfc_document(old(doc)@),
        nfc_document(final(doc)@) == final(doc)@,
{
    if let Some(t) = &mut doc.title {
        normalize_text(t);
    }
    normalize_blocks(&mut doc.blocks);
}

/// Normalization keeps the number of blocks, and each block in its place.
pub proof fn law_nfc_keeps_blocks(bs: Seq<BlockView>)
    ensures
        nfc_blocks(bs).len() == bs.len(),
        forall|i: int| 0 <= i < bs.len() ==> #[trigger] nfc_blocks(bs)[i] == nfc_block(bs[i]),
    decreases bs.len(),
{
    if bs.len() > 0 {
        law_nfc_keeps_blocks(bs.drop_last());
    }
}

/// Normalization keeps the shape of a block, and at every depth the level of a heading and the
/// language of code.
pub proof fn law_nfc_keeps_shape(b: BlockView)
    ensures
        same_shape(b, nfc_block(b)),
        same_marks(b, nfc_block(b)),
    decreases b,
{
    match b {
        BlockView::Document { children } => lemma_nfc_keeps_shapes(children),
        BlockView::Section { children } => lemma_nfc_keeps_shapes(children),
        _ => {},
    }
}

/// Normalization keeps the shape of a list of blocks.
proof fn lemma_nfc_keeps_shapes(bs: Seq<BlockView>)
    ensures
        same_shapes(bs, nfc_blocks(bs)),
        all_same_marks(bs, nfc_blocks(bs)),
    decreases bs,
{
    if bs.len() > 0 {
        lemma_nfc_keeps_shapes(bs.drop_last());
        law_nfc_keeps_shape(bs.last());
        assert(nfc_blocks(bs).drop_last() =~= nfc_blocks(bs.drop_last()));
    }
}

/// The texts of a block, in order and at every depth. The language of code is none of them.
pub open spec fn texts(b: BlockView) -> Seq<Seq<char>>
    decreases b,
{
    match b {
        BlockView::Document { children } => texts_of_all(children),
        BlockView::Section { children } => texts_of_all(children),
        BlockView::Heading { text, .. } => seq![text],
        BlockView::Paragraph { text } => seq![text],
        BlockView::Quote { text } => seq![text],
        BlockView::Code { text, .. } => seq![text],
        BlockView::List { items, .. } => items,
        BlockView::Table { headers, rows } => headers + rows.flatten(),
        BlockView::Record { fields } => fields.map_values(
            |f: FieldView| seq![f.key, f.value],
        ).flatten(),
        BlockView::Unsupported { note } => seq![note],
    }
}

/// The texts of blocks, in order.
pub open spec fn texts_of_all(bs: Seq<BlockView>) -> Seq<Seq<char>>
    decreases bs,
{
    if bs.len() == 0 {
        Seq::empty()
    } else {
        texts_of_all(bs.drop_last()) + texts(bs.last())
    }
}

/// Every text of a block is brought into NFC, the keys of records and the cells of tables among
/// them, and none is lost.
pub proof fn law_every_text_is_normalized(b: BlockView)
    ensures
        texts(nfc_block(b)) == texts(b).map_values(|t: Seq<char>| nfc(t)),
    decreases b,
{
    let f = |t: Seq<char>| nfc(t);
    match b {
        BlockView::Document { children } => lemma_all_normalized(children),
        BlockView::Section { children } => lemma_all_normalized(children),
        BlockView::Table { headers, rows } => {
            lemma_rows_normalized(rows);
            assert((headers + rows.flatten()).map_values(f) =~= headers.map_values(f)
                + rows.flatten().map_values(f));
        },
        BlockView::Record { fields } => lemma_fields_normalized(fields),
        _ => {
            assert(texts(nfc_block(b)) =~= texts(b).map_values(f));
        },
    }
}

/// The texts of blocks are brought into NFC.
proof fn lemma_all_normalized(bs: Seq<BlockView>)
    ensures
        texts_of_all(nfc_blocks(bs)) == texts_of_all(bs).map_values(|t: Seq<char>| nfc(t)),
    decreases bs,
{
    let f = |t: Seq<char>| nfc(t);
    if bs.len() > 0 {
        lemma_all_normalized(bs.drop_last());
        law_every_text_is_normalized(bs.last());
        assert(nfc_blocks(bs).drop_last() =~= nfc_blocks(bs.drop_last()));
        assert((texts_of_all(bs.drop_last()) + texts(bs.last())).map_values(f) =~= texts_of_all(
            bs.drop_last(),
        ).map_values(f) + texts(bs.last()).map_values(f));
    } else {
        assert(texts_of_all(bs).map_values(f) =~= Seq::empty());
        assert(nfc_blocks(bs) =~= Seq::empty());
    }
}

/// The cells of rows are brought into NFC.
proof fn lemma_rows_normalized(rows: Seq<Seq<Seq<char>>>)
    ensures
        nfc_rows(rows).flatten() == rows.flatten().map_values(|t: Seq<char>| nfc(t)),
    decreases rows.len(),
{
    let f = |t: Seq<char>| nfc(t);
    if rows.len() > 0 {
        let rest = rows.drop_first();
        lemma_rows_normalized(rest);
        assert(nfc_rows(rows).drop_first() =~= nfc_rows(rest));
        assert(nfc_rows(rows).first() =~= rows.first().map_values(f));
        assert((rows.first() + rest.flatten()).map_values(f) =~= rows.first().map_values(f)
            + rest.flatten().map_values(f));
    } else {
        assert(rows.flatten().map_values(f) =~= Seq::empty());
        assert(nfc_rows(rows) =~= Seq::empty());
    }
}

/// The keys and values of fields are brought into NFC.
proof fn lemma_fields_normalized(fields: Seq<FieldView>)
    ensures
        nfc_fields(fields).map_values(|f: FieldView| seq![f.key, f.value]).flatten()
            == fields.map_values(|f: FieldView| seq![f.key, f.value]).flatten().map_values(
            |t: Seq<char>| nfc(t),
        ),
    decreases fields.len(),
{
    let f = |t: Seq<char>| nfc(t);
    let g = |f: FieldView| seq![f.key, f.value];
    if fields.len() > 0 {
        let rest = fields.drop_first();
        lemma_fields_normalized(rest);
        let pairs = fields.map_values(g);
        let after = nfc_fields(fields).map_values(g);
        assert(pairs.drop_first() =~= rest.map_values(g));
        assert(after.drop_first() =~= nfc_fields(rest).map_values(g));
        assert(after.first() =~= pairs.first().map_values(f));
        assert((pairs.first() + pairs.drop_first().flatten()).map_values(f)
            =~= pairs.first().map_values(f) + pairs.drop_first().flatten().map_values(f));
    } else {
        assert(fields.map_values(g).flatten().map_values(f) =~= Seq::empty());
        assert(nfc_fields(fields).map_values(g) =~= Seq::empty());
    }
}

} // verus!
