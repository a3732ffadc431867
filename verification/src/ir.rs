//! The universal intermediate representation.
//!
//! Every extractor normalizes its input into a [`DocumentIr`]: an ordered list of
//! [`Block`]s plus source provenance, metadata and warnings. Reducers mutate the document;
//! emitters serialize it. The representation is the contract between the three stages.
//!
//! Each type has a view made of character sequences, over which all contracts speak.
use crate::text::{copied, join, joined, lemma_add_assoc, views};
use crate::text_map::TextMap;
use vstd::prelude::*;

verus! {

// ---------------------------------------------------------------------------
// Views
// ---------------------------------------------------------------------------

/// View of a [`DocumentIr`].
#[verifier::ext_equal]
pub struct DocumentView {
    pub id: Seq<char>,
    pub source: SourceView,
    pub title: Option<Seq<char>>,
    pub metadata: Map<Seq<char>, Seq<char>>,
    pub blocks: Seq<BlockView>,
    pub warnings: Seq<WarningView>,
}

/// View of a [`SourceInfo`].
#[verifier::ext_equal]
pub struct SourceView {
    pub path: Option<Seq<char>>,
    pub media_type: Option<Seq<char>>,
    pub detected_format: Seq<char>,
    pub bytes: u64,
}

/// View of a [`Warning`].
#[verifier::ext_equal]
pub struct WarningView {
    pub code: Seq<char>,
    pub message: Seq<char>,
}

/// View of a [`Field`].
#[verifier::ext_equal]
pub struct FieldView {
    pub key: Seq<char>,
    pub value: Seq<char>,
}

/// View of a [`Block`].
#[verifier::ext_equal]
pub enum BlockView {
    Document { children: Seq<BlockView> },
    Section { children: Seq<BlockView> },
    Heading { level: u8, text: Seq<char> },
    Paragraph { text: Seq<char> },
    List { ordered: bool, items: Seq<Seq<char>> },
    Table { headers: Seq<Seq<char>>, rows: Seq<Seq<Seq<char>>> },
    Record { fields: Seq<FieldView> },
    Code { lang: Option<Seq<char>>, text: Seq<char> },
    Quote { text: Seq<char> },
    Unsupported { note: Seq<char> },
}

/// View of an optional string.
pub open spec fn opt_view(s: Option<String>) -> Option<Seq<char>> {
    match s {
        Some(t) => Some(t@),
        None => None,
    }
}

/// Views of the rows of a table.
pub open spec fn row_views(rows: Seq<Vec<String>>) -> Seq<Seq<Seq<char>>> {
    rows.map_values(|r: Vec<String>| views(r@))
}

/// Views of a list of fields.
pub open spec fn field_views(fields: Seq<Field>) -> Seq<FieldView> {
    fields.map_values(|f: Field| f@)
}

/// Views of a list of warnings.
pub open spec fn warning_views(warnings: Seq<Warning>) -> Seq<WarningView> {
    warnings.map_values(|w: Warning| w@)
}

/// Views of a list of blocks.
pub open spec fn block_views(blocks: Seq<Block>) -> Seq<BlockView> {
    blocks.map_values(|b: Block| b@)
}

/// View of a block, containers included.
pub open spec fn block_view(b: Block) -> BlockView
    decreases b,
{
    match b {
        Block::Document { children } => BlockView::Document {
            children: Seq::new(
                children@.len(),
                |i: int|
                    if 0 <= i < children@.len() {
                        block_view(children@[i])
                    } else {
                        arbitrary()
                    },
            ),
        },
        Block::Section { children } => BlockView::Section {
            children: Seq::new(
                children@.len(),
                |i: int|
                    if 0 <= i < children@.len() {
                        block_view(children@[i])
                    } else {
                        arbitrary()
                    },
            ),
        },
        Block::Heading { level, text } => BlockView::Heading { level, text: text@ },
        Block::Paragraph { text } => BlockView::Paragraph { text: text@ },
        Block::List { ordered, items } => BlockView::List { ordered, items: views(items@) },
        Block::Table { headers, rows } => BlockView::Table {
            headers: views(headers@),
            rows: row_views(rows@),
        },
        Block::Record { fields } => BlockView::Record { fields: field_views(fields@) },
        Block::Code { lang, text } => BlockView::Code { lang: opt_view(lang), text: text@ },
        Block::Quote { text } => BlockView::Quote { text: text@ },
        Block::Unsupported { note } => BlockView::Unsupported { note: note@ },
    }
}

/// The children of a container, seen as a list of blocks.
pub broadcast proof fn lemma_children_view(b: Block)
    ensures
        b matches Block::Document { children } ==> #[trigger] block_view(b)
            == (BlockView::Document { children: block_views(children@) }),
        b matches Block::Section { children } ==> block_view(b) == (BlockView::Section {
            children: block_views(children@),
        }),
{
    match b {
        Block::Document { children } => {
            assert(block_view(b)->Document_children =~= block_views(children@));
        },
        Block::Section { children } => {
            assert(block_view(b)->Section_children =~= block_views(children@));
        },
        _ => {},
    }
}

// ---------------------------------------------------------------------------
// Shape
// ---------------------------------------------------------------------------

/// Whether two blocks have the same shape, whatever their texts: the same kinds, and as many
/// children, items, cells and fields.
pub open spec fn same_shape(a: BlockView, b: BlockView) -> bool
    decreases a,
{
    match (a, b) {
        (BlockView::Document { children: s }, BlockView::Document { children: t }) => same_shapes(
            s,
            t,
        ),
        (BlockView::Section { children: s }, BlockView::Section { children: t }) => same_shapes(
            s,
            t,
        ),
        (BlockView::Heading { .. }, BlockView::Heading { .. }) => true,
        (BlockView::Paragraph { .. }, BlockView::Paragraph { .. }) => true,
        (BlockView::List { ordered: o, items: s }, BlockView::List { ordered: p, items: t }) => o
            == p && s.len() == t.len(),
        (BlockView::Table { headers: g, rows: s }, BlockView::Table { headers: h, rows: t }) => {
            &&& g.len() == h.len()
            &&& s.len() == t.len()
            &&& forall|i: int| 0 <= i < s.len() ==> (#[trigger] s[i]).len() == t[i].len()
        },
        (BlockView::Record { fields: s }, BlockView::Record { fields: t }) => s.len() == t.len(),
        (BlockView::Code { .. }, BlockView::Code { .. }) => true,
        (BlockView::Quote { .. }, BlockView::Quote { .. }) => true,
        (BlockView::Unsupported { .. }, BlockView::Unsupported { .. }) => true,
        _ => false,
    }
}

/// Whether two lists of blocks have the same shape, block by block.
pub open spec fn same_shapes(a: Seq<BlockView>, b: Seq<BlockView>) -> bool
    decreases a,
{
    a.len() == b.len() && (a.len() > 0 ==> same_shapes(a.drop_last(), b.drop_last()) && same_shape(
        a.last(),
        b.last(),
    ))
}

/// Whether two blocks of the same shape have the same marks, at every depth: the levels of
/// headings and the languages of code.
pub open spec fn same_marks(a: BlockView, b: BlockView) -> bool
    decreases a,
{
    match (a, b) {
        (
            BlockView::Document { children: s },
            BlockView::Document { children: t },
        ) => all_same_marks(s, t),
        (BlockView::Section { children: s }, BlockView::Section { children: t }) => all_same_marks(
            s,
            t,
        ),
        (BlockView::Heading { level: l, .. }, BlockView::Heading { level: m, .. }) => l == m,
        (BlockView::Code { lang: l, .. }, BlockView::Code { lang: m, .. }) => l == m,
        _ => true,
    }
}

/// Whether two lists of blocks have the same marks, block by block.
pub open spec fn all_same_marks(a: Seq<BlockView>, b: Seq<BlockView>) -> bool
    decreases a,
{
    a.len() == b.len() && (a.len() > 0 ==> all_same_marks(a.drop_last(), b.drop_last())
        && same_marks(a.last(), b.last()))
}

// ---------------------------------------------------------------------------
// Types
// ---------------------------------------------------------------------------

/// A fully extracted document in its universal form.
#[derive(Debug)]
pub struct DocumentIr {
    pub id: String,
    pub source: SourceInfo,
    pub title: Option<String>,
    pub metadata: Metadata,
    pub blocks: Vec<Block>,
    pub warnings: Vec<Warning>,
}

/// Where a document came from and how it was detected.
#[derive(Debug)]
pub struct SourceInfo {
    pub path: Option<String>,
    pub media_type: Option<String>,
    pub detected_format: String,
    pub bytes: u64,
}

/// Free-form key/value metadata (front matter, document properties, ...).
#[derive(Debug)]
pub struct Metadata {
    pub extra: TextMap,
}

/// A non-fatal issue encountered during extraction or reduction.
#[derive(Debug)]
pub struct Warning {
    pub code: String,
    pub message: String,
}

/// A key/value pair inside a record block.
#[derive(Debug)]
pub struct Field {
    pub key: String,
    pub value: String,
}

/// The universal block set.
#[derive(Debug)]
pub enum Block {
    Document { children: Vec<Block> },
    Section { children: Vec<Block> },
    Heading { level: u8, text: String },
    Paragraph { text: String },
    List { ordered: bool, items: Vec<String> },
    Table { headers: Vec<String>, rows: Vec<Vec<String>> },
    Record { fields: Vec<Field> },
    Code { lang: Option<String>, text: String },
    Quote { text: String },
    Unsupported { note: String },
}

impl View for Block {
    type V = BlockView;

    open spec fn view(&self) -> BlockView {
        block_view(*self)
    }
}

impl View for Field {
    type V = FieldView;

    open spec fn view(&self) -> FieldView {
        FieldView { key: self.key@, value: self.value@ }
    }
}

impl View for Warning {
    type V = WarningView;

    open spec fn view(&self) -> WarningView {
        WarningView { code: self.code@, message: self.message@ }
    }
}

impl View for SourceInfo {
    type V = SourceView;

    open spec fn view(&self) -> SourceView {
        SourceView {
            path: opt_view(self.path),
            media_type: opt_view(self.media_type),
            detected_format: self.detected_format@,
            bytes: self.bytes,
        }
    }
}

impl View for DocumentIr {
    type V = DocumentView;

    open spec fn view(&self) -> DocumentView {
        DocumentView {
            id: self.id@,
            source: self.source@,
            title: opt_view(self.title),
            metadata: self.metadata.extra@,
            blocks: block_views(self.blocks@),
            warnings: warning_views(self.warnings@),
        }
    }
}

// ---------------------------------------------------------------------------
// Building documents
// ---------------------------------------------------------------------------

/// A document with nothing in it yet.
pub open spec fn empty_document(id: Seq<char>, source: SourceView) -> DocumentView {
    DocumentView {
        id,
        source,
        title: None,
        metadata: Map::empty(),
        blocks: Seq::empty(),
        warnings: Seq::empty(),
    }
}

impl Default for Metadata {
    /// No entries.
    fn default() -> (m: Self)
        ensures
            m.extra@ == Map::<Seq<char>, Seq<char>>::empty(),
    {
        Metadata { extra: TextMap::new() }
    }
}

impl DocumentIr {
    /// A document without title, metadata, blocks or warnings.
    pub fn new(id: &str, source: SourceInfo) -> (doc: Self)
        ensures
            doc@ == empty_document(id@, source@),
    {
        let doc = DocumentIr {
            id: id.to_owned(),
            source,
            title: None,
            metadata: Metadata { extra: TextMap::new() },
            blocks: Vec::new(),
            warnings: Vec::new(),
        };
        assert(doc@.blocks =~= Seq::empty());
        assert(doc@.warnings =~= Seq::empty());
        doc
    }

    /// Appends one block.
    pub fn push(&mut self, block: Block)
        ensures
            final(self)@ == (DocumentView {
                blocks: old(self)@.blocks.push(block@),
                ..old(self)@
            }),
    {
        self.blocks.push(block);
        assert(self@.blocks =~= old(self)@.blocks.push(block@));
    }

    /// Appends one warning.
    pub fn warn(&mut self, code: &str, message: &str)
        ensures
            final(self)@ == (DocumentView {
                warnings: old(self)@.warnings.push(
                    WarningView { code: code@, message: message@ },
                ),
                ..old(self)@
            }),
    {
        self.warnings.push(Warning { code: code.to_owned(), message: message.to_owned() });
        assert(self@.warnings =~= old(self)@.warnings.push(
            WarningView { code: code@, message: message@ },
        ));
    }
}

// ---------------------------------------------------------------------------
// Plain text
// ---------------------------------------------------------------------------

/// `s` as one line.
pub open spec fn line(s: Seq<char>) -> Seq<char> {
    s.push('\n')
}

/// Each part as one line.
pub open spec fn text_lines(parts: Seq<Seq<char>>) -> Seq<char>
    decreases parts.len(),
{
    if parts.len() == 0 {
        Seq::empty()
    } else {
        text_lines(parts.drop_last()) + line(parts.last())
    }
}

/// Each row as one line, cells separated by `sep`.
pub open spec fn row_lines(rows: Seq<Seq<Seq<char>>>, sep: Seq<char>) -> Seq<char>
    decreases rows.len(),
{
    if rows.len() == 0 {
        Seq::empty()
    } else {
        row_lines(rows.drop_last(), sep) + line(join(rows.last(), sep))
    }
}

/// `key: value`, one field per line.
pub open spec fn field_lines(fields: Seq<FieldView>) -> Seq<char>
    decreases fields.len(),
{
    if fields.len() == 0 {
        Seq::empty()
    } else {
        field_lines(fields.drop_last()) + line(
            fields.last().key + ": "@ + fields.last().value,
        )
    }
}

/// The human-visible text of a block.
pub open spec fn block_text(b: BlockView) -> Seq<char>
    decreases b,
{
    match b {
        BlockView::Document { children } => blocks_text(children),
        BlockView::Section { children } => blocks_text(children),
        BlockView::Heading { text, .. } => line(text),
        BlockView::Paragraph { text } => line(text),
        BlockView::Quote { text } => line(text),
        BlockView::Code { text, .. } => line(text),
        BlockView::List { items, .. } => text_lines(items),
        BlockView::Table { headers, rows } => line(join(headers, " "@)) + row_lines(rows, " "@),
        BlockView::Record { fields } => field_lines(fields),
        BlockView::Unsupported { note } => line(note),
    }
}

/// The human-visible text of a list of blocks.
pub open spec fn blocks_text(bs: Seq<BlockView>) -> Seq<char>
    decreases bs,
{
    if bs.len() == 0 {
        Seq::empty()
    } else {
        blocks_text(bs.drop_last()) + block_text(bs.last())
    }
}

/// The text of one list of blocks after another is the text of both, one after the other.
pub proof fn law_text_is_additive(a: Seq<BlockView>, b: Seq<BlockView>)
    ensures
        blocks_text(a + b) == blocks_text(a) + blocks_text(b),
    decreases b.len(),
{
    if b.len() == 0 {
        assert(a + b =~= a);
        assert(blocks_text(a) + blocks_text(b) =~= blocks_text(a));
    } else {
        law_text_is_additive(a, b.drop_last());
        assert((a + b).drop_last() =~= a + b.drop_last());
        assert(blocks_text(a + b) =~= blocks_text(a) + blocks_text(b));
    }
}

impl Block {
    /// Appends the human-visible text of this block to `out`, containers included.
    pub fn write_text(&self, out: &mut String)
        ensures
            final(out)@ == old(out)@ + block_text(self@),
        decreases self,
    {
        proof {
            lemma_children_view(*self);
        }
        match self {
            Block::Document { children } => write_blocks(children, out),
            Block::Section { children } => write_blocks(children, out),
            Block::Heading { text, .. } => write_line(text.as_str(), out),
            Block::Paragraph { text } => write_line(text.as_str(), out),
            Block::Quote { text } => write_line(text.as_str(), out),
            Block::Code { text, .. } => write_line(text.as_str(), out),
            Block::List { items, .. } => write_items(items, out),
            Block::Table { headers, rows } => {
                let head = joined(headers, " ");
                write_line(head.as_str(), out);
                write_rows(rows, out);
                broadcast use lemma_add_assoc;

            },
            Block::Record { fields } => write_fields(fields, out),
            Block::Unsupported { note } => write_line(note.as_str(), out),
        }
    }
}

impl DocumentIr {
    /// All human-visible text of the document, for token and size metrics.
    pub fn plain_text(&self) -> (s: String)
        ensures
            s@ == blocks_text(self@.blocks),
    {
        let mut s = String::new();
        write_blocks(&self.blocks, &mut s);
        assert(s@ =~= blocks_text(self@.blocks));
        s
    }
}

/// Appends `s` as one line.
fn write_line(s: &str, out: &mut String)
    ensures
        final(out)@ == old(out)@ + line(s@),
{
    out.append(s);
    out.push('\n');
    assert(out@ =~= old(out)@ + line(s@));
}

/// Appends each item as one line.
fn write_items(items: &Vec<String>, out: &mut String)
    ensures
        final(out)@ == old(out)@ + text_lines(views(items@)),
{
    broadcast use lemma_add_assoc;

    assert(out@ =~= old(out)@ + text_lines(views(items@).take(0)));
    for i in 0..items.len()
        invariant
            out@ == old(out)@ + text_lines(views(items@).take(i as int)),
    {
        proof {
            lemma_take_step(views(items@), i as int);
        }
        write_line(items[i].as_str(), out);
    }
    assert(views(items@).take(items.len() as int) =~= views(items@));
}

/// Appends each row as one line.
fn write_rows(rows: &Vec<Vec<String>>, out: &mut String)
    ensures
        final(out)@ == old(out)@ + row_lines(row_views(rows@), " "@),
{
    broadcast use lemma_add_assoc;

    assert(out@ =~= old(out)@ + row_lines(row_views(rows@).take(0), " "@));
    for i in 0..rows.len()
        invariant
            out@ == old(out)@ + row_lines(row_views(rows@).take(i as int), " "@),
    {
        proof {
            lemma_take_step(row_views(rows@), i as int);
        }
        let row = joined(&rows[i], " ");
        write_line(row.as_str(), out);
    }
    assert(row_views(rows@).take(rows.len() as int) =~= row_views(rows@));
}

/// Appends each field as one line.
fn write_fields(fields: &Vec<Field>, out: &mut String)
    ensures
        final(out)@ == old(out)@ + field_lines(field_views(fields@)),
{
    broadcast use lemma_add_assoc;

    assert(out@ =~= old(out)@ + field_lines(field_views(fields@).take(0)));
    for i in 0..fields.len()
        invariant
            out@ == old(out)@ + field_lines(field_views(fields@).take(i as int)),
    {
        let ghost before = out@;
        proof {
            lemma_take_step(field_views(fields@), i as int);
        }
        out.append(fields[i].key.as_str());
        out.append(": ");
        write_line(fields[i].value.as_str(), out);
        assert(out@ =~= before + line(fields[i as int].key@ + ": "@ + fields[i as int].value@));
    }
    assert(field_views(fields@).take(fields.len() as int) =~= field_views(fields@));
}

/// Appends the text of each block.
fn write_blocks(blocks: &Vec<Block>, out: &mut String)
    ensures
        final(out)@ == old(out)@ + blocks_text(block_views(blocks@)),
    decreases blocks,
{
    broadcast use lemma_add_assoc;

    assert(out@ =~= old(out)@ + blocks_text(block_views(blocks@).take(0)));
    for i in 0..blocks.len()
        invariant
            out@ == old(out)@ + blocks_text(block_views(blocks@).take(i as int)),
    {
        proof {
            lemma_take_step(block_views(blocks@), i as int);
        }
        blocks[i].write_text(out);
    }
    assert(block_views(blocks@).take(blocks.len() as int) =~= block_views(blocks@));
}

/// One more element taken.
pub proof fn lemma_take_step<A>(s: Seq<A>, i: int)
    requires
        0 <= i < s.len(),
    ensures
        s.take(i + 1).drop_last() == s.take(i),
        s.take(i + 1).last() == s[i],
        s.take(i + 1) == s.take(i).push(s[i]),
        s.take(0) == Seq::<A>::empty(),
{
    assert(s.take(i + 1).drop_last() =~= s.take(i));
    assert(s.take(i + 1) =~= s.take(i).push(s[i]));
    assert(s.take(0) =~= Seq::empty());
}

// ---------------------------------------------------------------------------
// Copies
// ---------------------------------------------------------------------------

impl Clone for Field {
    /// The same key and value.
    fn clone(&self) -> (f: Self)
        ensures
            f@ == self@,
    {
        Field { key: self.key.clone(), value: self.value.clone() }
    }
}

impl Clone for Warning {
    /// The same code and message.
    fn clone(&self) -> (w: Self)
        ensures
            w@ == self@,
    {
        Warning { code: self.code.clone(), message: self.message.clone() }
    }
}

impl Clone for SourceInfo {
    /// The same provenance.
    fn clone(&self) -> (s: Self)
        ensures
            s@ == self@,
    {
        SourceInfo {
            path: copied_option(&self.path),
            media_type: copied_option(&self.media_type),
            detected_format: self.detected_format.clone(),
            bytes: self.bytes,
        }
    }
}

impl Clone for Metadata {
    /// The same entries.
    fn clone(&self) -> (m: Self)
        ensures
            m.extra@ == self.extra@,
    {
        Metadata { extra: self.extra.clone() }
    }
}

impl Clone for Block {
    /// The same block, containers copied in depth.
    fn clone(&self) -> (b: Self)
        ensures
            b@ == self@,
    {
        copied_block(self)
    }
}

impl Clone for DocumentIr {
    /// The same document.
    fn clone(&self) -> (d: Self)
        ensures
            d@ == self@,
    {
        DocumentIr {
            id: self.id.clone(),
            source: self.source.clone(),
            title: copied_option(&self.title),
            metadata: self.metadata.clone(),
            blocks: copied_blocks(&self.blocks),
            warnings: copied_warnings(&self.warnings),
        }
    }
}

/// A copy of an optional string.
pub fn copied_option(s: &Option<String>) -> (r: Option<String>)
    ensures
        opt_view(r) == opt_view(*s),
{
    match s {
        Some(t) => Some(t.clone()),
        None => None,
    }
}

/// A copy of a list of warnings.
pub fn copied_warnings(warnings: &Vec<Warning>) -> (r: Vec<Warning>)
    ensures
        warning_views(r@) == warning_views(warnings@),
{
    let mut r: Vec<Warning> = Vec::new();
    for i in 0..warnings.len()
        invariant
            r@.len() == i,
            forall|j: int| 0 <= j < i ==> r@[j]@ == warnings@[j]@,
    {
        r.push(warnings[i].clone());
    }
    assert(warning_views(r@) =~= warning_views(warnings@));
    r
}

/// A copy of table rows.
fn copied_rows(rows: &Vec<Vec<String>>) -> (r: Vec<Vec<String>>)
    ensures
        row_views(r@) == row_views(rows@),
{
    let mut r: Vec<Vec<String>> = Vec::new();
    for i in 0..rows.len()
        invariant
            r@.len() == i,
            forall|j: int| 0 <= j < i ==> views(r@[j]@) == views(rows@[j]@),
    {
        r.push(copied(&rows[i]));
    }
    assert(row_views(r@) =~= row_views(rows@));
    r
}

/// A copy of a list of fields.
fn copied_fields(fields: &Vec<Field>) -> (r: Vec<Field>)
    ensures
        field_views(r@) == field_views(fields@),
{
    let mut r: Vec<Field> = Vec::new();
    for i in 0..fields.len()
        invariant
            r@.len() == i,
            forall|j: int| 0 <= j < i ==> r@[j]@ == fields@[j]@,
    {
        r.push(fields[i].clone());
    }
    assert(field_views(r@) =~= field_views(fields@));
    r
}

/// A copy of a block.
fn copied_block(b: &Block) -> (r: Block)
    ensures
        r@ == b@,
    decreases b,
{
    broadcast use lemma_children_view;

    match b {
        Block::Document { children } => Block::Document { children: copied_blocks(children) },
        Block::Section { children } => Block::Section { children: copied_blocks(children) },
        Block::Heading { level, text } => Block::Heading { level: *level, text: text.clone() },
        Block::Paragraph { text } => Block::Paragraph { text: text.clone() },
        Block::List { ordered, items } => Block::List { ordered: *ordered, items: copied(items) },
        Block::Table { headers, rows } => Block::Table {
            headers: copied(headers),
            rows: copied_rows(rows),
        },
        Block::Record { fields } => Block::Record { fields: copied_fields(fields) },
        Block::Code { lang, text } => Block::Code {
            lang: copied_option(lang),
            text: text.clone(),
        },
        Block::Quote { text } => Block::Quote { text: text.clone() },
        Block::Unsupported { note } => Block::Unsupported { note: note.clone() },
    }
}

/// A copy of a list of blocks.
fn copied_blocks(blocks: &Vec<Block>) -> (r: Vec<Block>)
    ensures
        block_views(r@) == block_views(blocks@),
    decreases blocks,
{
    let mut r: Vec<Block> = Vec::new();
    for i in 0..blocks.len()
        invariant
            r@.len() == i,
            forall|j: int| 0 <= j < i ==> r@[j]@ == blocks@[j]@,
    {
        r.push(copied_block(&blocks[i]));
    }
    assert(block_views(r@) =~= block_views(blocks@));
    r
}

} // verus!
