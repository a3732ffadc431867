//! Reducer plugins: the compression profiles.
//!
//! All of them clean whitespace and drop empty blocks. `llm` and `compact` then squeeze the
//! structure for token economy, and trim long arrays that came from JSON.
pub mod cleanup;
pub mod economy;
pub mod laws;
pub mod prose_laws;
pub mod trim;
pub mod trim_laws;

use crate::error::Result;
use crate::ir::{block_views, Block, BlockView, DocumentIr, DocumentView};
use crate::plugin::{Reducer, Reduction};
use crate::profile::Profile;
use crate::registry::{PlugReducer, ReducerSlot};
use crate::text::same;
use cleanup::{
    collapse_ws, drop_empty, drop_quotes, drop_repeats, fold_quotes, has_content, merge,
    merge_paragraphs, not_quote, tidy_all, unquote_all, without_repeats,
};
use trim::{trim_blocks, trim_data_rows};
use vstd::prelude::*;

verus! {

/// How many rows of a JSON array the `llm` profile keeps.
pub const LLM_JSON_KEEP_ROWS: usize = 20;

/// How many rows of a JSON array the `compact` profile keeps.
pub const COMPACT_JSON_KEEP_ROWS: usize = 10;

/// The length under which the `compact` profile merges paragraphs.
pub const COMPACT_MERGE_LIMIT: usize = 200;

/// Whether a document came from JSON or JSONL; the tables of other documents are never trimmed.
pub open spec fn from_json(metadata: Map<Seq<char>, Seq<char>>) -> bool {
    metadata.contains_key("format"@) && (metadata["format"@] == "json"@ || metadata["format"@]
        == "jsonl"@)
}

/// Whether a document came from JSON or JSONL.
fn is_json_format(doc: &DocumentIr) -> (r: bool)
    ensures
        r == from_json(doc@.metadata),
{
    match doc.metadata.extra.get("format") {
        Some(f) => same(f.as_str(), "json") || same(f.as_str(), "jsonl"),
        None => false,
    }
}

/// Blocks tidied, without those that carry no content.
pub open spec fn human_blocks(bs: Seq<BlockView>) -> Seq<BlockView> {
    tidy_all(bs).filter(has_content())
}

/// Blocks of the `llm` profile, before long arrays are trimmed.
pub open spec fn llm_prose(bs: Seq<BlockView>) -> Seq<BlockView> {
    merge(unquote_all(human_blocks(bs)), None)
}

/// Blocks of the `compact` profile, before paragraphs are merged and long arrays trimmed.
pub open spec fn compact_unmerged(bs: Seq<BlockView>) -> Seq<BlockView> {
    without_repeats(tidy_all(bs).filter(not_quote()).filter(has_content()))
}

/// Blocks of the `compact` profile, before long arrays are trimmed.
pub open spec fn compact_prose(bs: Seq<BlockView>) -> Seq<BlockView> {
    merge(compact_unmerged(bs), Some(COMPACT_MERGE_LIMIT))
}

/// `bs`, with long arrays trimmed if they came from JSON.
pub open spec fn trim_if(json: bool, bs: Seq<BlockView>, n: nat) -> Seq<BlockView> {
    if json {
        trim_blocks(bs, n)
    } else {
        bs
    }
}

/// What the `human` profile makes of a document.
pub open spec fn human(doc: DocumentView) -> DocumentView {
    DocumentView { blocks: human_blocks(doc.blocks), ..doc }
}

/// What the `llm` profile makes of a document.
pub open spec fn llm(doc: DocumentView) -> DocumentView {
    DocumentView {
        blocks: trim_if(
            from_json(doc.metadata),
            llm_prose(doc.blocks),
            LLM_JSON_KEEP_ROWS as nat,
        ),
        ..doc
    }
}

/// What the `compact` profile makes of a document.
pub open spec fn compact(doc: DocumentView) -> DocumentView {
    DocumentView {
        blocks: trim_if(
            from_json(doc.metadata),
            compact_prose(doc.blocks),
            COMPACT_JSON_KEEP_ROWS as nat,
        ),
        ..doc
    }
}

/// Takes the blocks out of a document.
fn take_blocks(doc: &mut DocumentIr) -> (blocks: Vec<Block>)
    ensures
        block_views(blocks@) == old(doc)@.blocks,
        final(doc)@ == (DocumentView { blocks: Seq::empty(), ..old(doc)@ }),
{
    let mut blocks: Vec<Block> = Vec::new();
    std::mem::swap(&mut blocks, &mut doc.blocks);
    assert(doc@.blocks =~= Seq::empty());
    blocks
}

/// `human`, the light touch: tidy whitespace, drop empty blocks, keep all structure.
pub struct HumanReducer;

impl Reducer for HumanReducer {
    open spec fn named(&self) -> Seq<char> {
        "human"@
    }

    open spec fn serves(&self) -> Profile {
        Profile::Human
    }

    open spec fn reduces(
        &self,
        before: DocumentView,
        after: DocumentView,
        outcome: Reduction,
    ) -> bool {
        outcome is Ok && after == human(before)
    }

    fn name(&self) -> (s: &'static str) {
        "human"
    }

    fn profile(&self) -> (p: Profile) {
        Profile::Human
    }

    fn reduce(&self, doc: &mut DocumentIr) -> (r: Result<()>) {
        let blocks = take_blocks(doc);
        doc.blocks = drop_empty(collapse_ws(blocks));
        Ok(())
    }
}

impl PlugReducer for HumanReducer {
    fn plug(self) -> (s: ReducerSlot) {
        ReducerSlot { plugin: Box::new(self) }
    }
}

/// `llm`: the cleanup of `human` plus token economy.
///
/// Quotes become paragraphs and adjacent paragraphs are merged. Long JSON arrays are trimmed to
/// [`LLM_JSON_KEEP_ROWS`] rows and the outliers, last of all, so that the sentinel is not merged
/// into a paragraph next to it.
pub struct LlmReducer;

impl Reducer for LlmReducer {
    open spec fn named(&self) -> Seq<char> {
        "llm"@
    }

    open spec fn serves(&self) -> Profile {
        Profile::Llm
    }

    open spec fn reduces(
        &self,
        before: DocumentView,
        after: DocumentView,
        outcome: Reduction,
    ) -> bool {
        outcome is Ok && after == llm(before)
    }

    fn name(&self) -> (s: &'static str) {
        "llm"
    }

    fn profile(&self) -> (p: Profile) {
        Profile::Llm
    }

    fn reduce(&self, doc: &mut DocumentIr) -> (r: Result<()>) {
        let json = is_json_format(doc);
        let blocks = take_blocks(doc);
        let tidy = drop_empty(collapse_ws(blocks));
        let merged = merge_paragraphs(fold_quotes(tidy), None);
        doc.blocks = if json {
            trim_data_rows(merged, LLM_JSON_KEEP_ROWS)
        } else {
            merged
        };
        Ok(())
    }
}

impl PlugReducer for LlmReducer {
    fn plug(self) -> (s: ReducerSlot) {
        ReducerSlot { plugin: Box::new(self) }
    }
}

/// `compact`: aggressive token economy.
///
/// Quotes go entirely, repeated paragraphs are dropped, and consecutive paragraphs are merged
/// while they stay under [`COMPACT_MERGE_LIMIT`] characters. Long JSON arrays are trimmed to
/// [`COMPACT_JSON_KEEP_ROWS`] rows and the outliers.
pub struct CompactReducer;

impl Reducer for CompactReducer {
    open spec fn named(&self) -> Seq<char> {
        "compact"@
    }

    open spec fn serves(&self) -> Profile {
        Profile::Compact
    }

    open spec fn reduces(
        &self,
        before: DocumentView,
        after: DocumentView,
        outcome: Reduction,
    ) -> bool {
        outcome is Ok && after == compact(before)
    }

    fn name(&self) -> (s: &'static str) {
        "compact"
    }

    fn profile(&self) -> (p: Profile) {
        Profile::Compact
    }

    fn reduce(&self, doc: &mut DocumentIr) -> (r: Result<()>) {
        let json = is_json_format(doc);
        let blocks = take_blocks(doc);
        let prose = drop_empty(drop_quotes(collapse_ws(blocks)));
        let merged = merge_paragraphs(drop_repeats(prose), Some(COMPACT_MERGE_LIMIT));
        doc.blocks = if json {
            trim_data_rows(merged, COMPACT_JSON_KEEP_ROWS)
        } else {
            merged
        };
        Ok(())
    }
}

impl PlugReducer for CompactReducer {
    fn plug(self) -> (s: ReducerSlot) {
        ReducerSlot { plugin: Box::new(self) }
    }
}

} // verus!
