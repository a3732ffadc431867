use sempack::reducers::{COMPACT_JSON_KEEP_ROWS, LLM_JSON_KEEP_ROWS};
use sempack::{
    Block, CompactReducer, DocumentIr, Field, HumanReducer, LlmReducer, Reducer, SourceInfo,
};

fn doc(blocks: Vec<Block>) -> DocumentIr {
    let mut d = DocumentIr::new(
        "t",
        SourceInfo {
            path: None,
            media_type: None,
            detected_format: "markdown".into(),
            bytes: 0,
        },
    );
    d.blocks = blocks;
    d
}

/// Build a DocumentIr with `format` metadata set to `"json"` (as the JSON extractor
/// would produce), plus the given blocks.
fn json_doc(blocks: Vec<Block>) -> DocumentIr {
    let mut d = doc(blocks);
    d.metadata.extra.insert("format".into(), "json".into());
    d
}

/// Build a DocumentIr with `format` metadata set to `"jsonl"`.
fn jsonl_doc(blocks: Vec<Block>) -> DocumentIr {
    let mut d = doc(blocks);
    d.metadata.extra.insert("format".into(), "jsonl".into());
    d
}

/// Build a Block::Table with the given number of uniform rows (no outliers).
fn uniform_table(row_count: usize) -> Block {
    let headers = vec!["id".into(), "name".into(), "value".into()];
    let rows = (0..row_count)
        .map(|i| vec![i.to_string(), format!("item_{i}"), (i * 10).to_string()])
        .collect();
    Block::Table { headers, rows }
}

/// Build a Vec<Block::Record> with the given number of uniform records.
fn uniform_records(count: usize) -> Vec<Block> {
    (0..count)
        .map(|i| Block::Record {
            fields: vec![
                Field {
                    key: "id".into(),
                    value: i.to_string(),
                },
                Field {
                    key: "name".into(),
                    value: format!("item_{i}"),
                },
            ],
        })
        .collect()
}

#[test]
fn human_collapses_and_drops() {
    let mut d = doc(vec![
        Block::Paragraph {
            text: "a    b
 c"
            .into(),
        },
        Block::Paragraph { text: "   ".into() },
    ]);
    HumanReducer.reduce(&mut d).unwrap();
    assert_eq!(d.blocks.len(), 1);
    assert_eq!(
        match &d.blocks[0] {
            Block::Paragraph { text } => text.as_str(),
            _ => "",
        },
        "a b c"
    );
}

#[test]
fn llm_merges_paragraphs() {
    let mut d = doc(vec![
        Block::Paragraph { text: "one".into() },
        Block::Paragraph { text: "two".into() },
    ]);
    LlmReducer.reduce(&mut d).unwrap();
    assert_eq!(d.blocks.len(), 1);
}

#[test]
fn whitespace_only_list_items_are_pruned() {
    // A list whose items are all whitespace must be dropped, not emitted as `- `.
    let mut d = doc(vec![Block::List {
        ordered: false,
        items: vec!["  ".into(), "real".into(), "\t".into()],
    }]);
    HumanReducer.reduce(&mut d).unwrap();
    match d.blocks.as_slice() {
        [Block::List { items, .. }] => assert_eq!(items, &["real".to_string()]),
        other => panic!("expected one list with one item, got {other:?}"),
    }
}

#[test]
fn compact_drops_quotes() {
    let mut d = doc(vec![
        Block::Paragraph {
            text: "intro".into(),
        },
        Block::Quote {
            text: "someone said something".into(),
        },
        Block::Paragraph {
            text: "outro".into(),
        },
    ]);
    CompactReducer.reduce(&mut d).unwrap();
    assert!(
        d.blocks.iter().all(|b| !matches!(b, Block::Quote { .. })),
        "compact must drop all quote blocks"
    );
}

#[test]
fn compact_deduplicates_paragraphs() {
    // Use long texts so the merge step does not coalesce them.
    let para = "x".repeat(150);
    let other = "y".repeat(150);
    let mut d = doc(vec![
        Block::Paragraph { text: para.clone() },
        Block::Paragraph {
            text: other.clone(),
        },
        Block::Paragraph { text: para.clone() },
    ]);
    CompactReducer.reduce(&mut d).unwrap();
    // The duplicate third block should be gone; para + other should not merge
    // (combined 150 + 1 + 150 = 301 >= 200).
    assert_eq!(d.blocks.len(), 2, "duplicate paragraph should be dropped");
}

#[test]
fn compact_merges_short_consecutive_paragraphs() {
    // Two short paragraphs (well under 200 combined) must be merged.
    let mut d = doc(vec![
        Block::Paragraph {
            text: "short one".into(),
        },
        Block::Paragraph {
            text: "short two".into(),
        },
    ]);
    CompactReducer.reduce(&mut d).unwrap();
    assert_eq!(d.blocks.len(), 1, "short paragraphs should be merged");
}

#[test]
fn compact_does_not_merge_long_paragraphs() {
    // Two paragraphs with different long texts (>=200 combined) must stay separate.
    // Different texts ensure dedup does not collapse them first.
    let long_a = "x".repeat(150);
    let long_b = "y".repeat(150);
    let mut d = doc(vec![
        Block::Paragraph {
            text: long_a.clone(),
        },
        Block::Paragraph {
            text: long_b.clone(),
        },
    ]);
    CompactReducer.reduce(&mut d).unwrap();
    assert_eq!(d.blocks.len(), 2, "long paragraphs must not be merged");
}

#[test]
fn compact_achieves_block_count_reduction_vs_human() {
    // Fixture: quotes, duplicate paragraphs, short consecutive paragraphs.
    // Compact must produce <=60% of human block count (i.e., >=40% reduction).
    let fixture = vec![
        Block::Paragraph {
            text: "Introduction paragraph that sets the scene.".into(),
        },
        Block::Quote {
            text: "A famous quote about something interesting.".into(),
        },
        Block::Paragraph {
            text: "Short note.".into(),
        },
        Block::Paragraph {
            text: "Another short note.".into(),
        },
        Block::Paragraph {
            text: "Yet another short note.".into(),
        },
        Block::Quote {
            text: "Another quotation that adds bulk.".into(),
        },
        Block::Paragraph {
            text: "Duplicate paragraph appears here.".into(),
        },
        Block::Paragraph {
            text: "Non-duplicate content.".into(),
        },
        Block::Paragraph {
            text: "Duplicate paragraph appears here.".into(),
        },
        Block::Paragraph {
            text: "Concluding thoughts.".into(),
        },
    ];

    let mut human_doc = doc(fixture.clone());
    HumanReducer.reduce(&mut human_doc).unwrap();
    let human_count = human_doc.blocks.len();

    let mut compact_doc = doc(fixture);
    CompactReducer.reduce(&mut compact_doc).unwrap();
    let compact_count = compact_doc.blocks.len();

    assert!(
        compact_count * 100 <= human_count * 60,
        "compact ({compact_count} blocks) must be <=60% of human ({human_count} blocks)"
    );
}

// -----------------------------------------------------------------------
// JSON array trimming -- Table path (uniform arrays -> Block::Table)
// -----------------------------------------------------------------------

#[test]
fn trim_table_small_array_no_trim() {
    // Small array (5 rows < llm keep=20): no trimming, no sentinel.
    let mut d = json_doc(vec![uniform_table(5)]);
    LlmReducer.reduce(&mut d).unwrap();
    assert_eq!(d.blocks.len(), 1, "small table should not be trimmed");
    assert!(matches!(d.blocks[0], Block::Table { .. }));
}

#[test]
fn trim_table_llm_large_uniform_array() {
    // 200-row uniform JSON array -> llm profile keeps 20 rows + sentinel.
    let mut d = json_doc(vec![uniform_table(200)]);
    LlmReducer.reduce(&mut d).unwrap();

    // 2 blocks: trimmed Table + sentinel Paragraph.
    assert_eq!(d.blocks.len(), 2, "expected table + sentinel");
    match &d.blocks[0] {
        Block::Table { headers, rows } => {
            assert_eq!(headers, &["id", "name", "value"]);
            assert_eq!(
                rows.len(),
                LLM_JSON_KEEP_ROWS,
                "should keep exactly 20 rows"
            );
        }
        other => panic!("expected Table, got {other:?}"),
    }
    match &d.blocks[1] {
        Block::Paragraph { text } => {
            // 200 total, 20 kept, 0 outliers rescued beyond the first 20.
            assert_eq!(
                text,
                "[180 rows omitted — 20 shown including 0 outlier rows]"
            );
        }
        other => panic!("expected sentinel Paragraph, got {other:?}"),
    }
}

#[test]
fn trim_table_compact_large_uniform_array() {
    // 200-row uniform JSON array -> compact profile keeps 10 rows + sentinel.
    let mut d = json_doc(vec![uniform_table(200)]);
    CompactReducer.reduce(&mut d).unwrap();

    assert_eq!(d.blocks.len(), 2, "expected table + sentinel");
    match &d.blocks[0] {
        Block::Table { rows, .. } => {
            assert_eq!(
                rows.len(),
                COMPACT_JSON_KEEP_ROWS,
                "should keep exactly 10 rows"
            );
        }
        other => panic!("expected Table, got {other:?}"),
    }
    match &d.blocks[1] {
        Block::Paragraph { text } => {
            assert_eq!(
                text,
                "[190 rows omitted — 10 shown including 0 outlier rows]"
            );
        }
        other => panic!("expected sentinel Paragraph, got {other:?}"),
    }
}

#[test]
fn trim_table_outlier_rows_preserved() {
    // 30-row table where row index 25 contains an "error" value.
    // LLM profile (keep=20): rows 0-19 kept; row 25 (outlier) rescued from tail.
    let headers = vec!["id".into(), "status".into()];
    let rows: Vec<Vec<String>> = (0..30_usize)
        .map(|i| {
            let status = if i == 25 {
                "error: timeout".into()
            } else {
                "ok".into()
            };
            vec![i.to_string(), status]
        })
        .collect();
    let mut d = json_doc(vec![Block::Table { headers, rows }]);
    LlmReducer.reduce(&mut d).unwrap();

    assert_eq!(d.blocks.len(), 2, "expected trimmed table + sentinel");
    match &d.blocks[0] {
        Block::Table { rows, .. } => {
            // 20 first-N + 1 outlier (row 25).
            assert_eq!(rows.len(), 21, "20 normal + 1 outlier row");
            // The outlier row is appended at the end.
            assert_eq!(rows[20][1], "error: timeout");
        }
        other => panic!("expected Table, got {other:?}"),
    }
    match &d.blocks[1] {
        Block::Paragraph { text } => {
            // 30 total, 21 kept (20 first-N + 1 outlier), 1 outlier.
            assert_eq!(text, "[9 rows omitted — 21 shown including 1 outlier row]");
        }
        other => panic!("expected sentinel Paragraph, got {other:?}"),
    }
}

#[test]
fn trim_table_human_profile_unaffected() {
    // Human profile must not trim, even for large JSON arrays.
    let mut d = json_doc(vec![uniform_table(200)]);
    HumanReducer.reduce(&mut d).unwrap();
    match &d.blocks[0] {
        Block::Table { rows, .. } => {
            assert_eq!(rows.len(), 200, "human profile must not trim");
        }
        other => panic!("expected Table, got {other:?}"),
    }
    assert_eq!(d.blocks.len(), 1, "human profile must not add sentinel");
}

#[test]
fn trim_table_csv_unaffected() {
    // CSV tables (format=csv) must never be trimmed.
    let mut d = doc(vec![Block::Table {
        headers: vec!["a".into(), "b".into()],
        rows: (0..200).map(|i| vec![i.to_string(), "x".into()]).collect(),
    }]);
    d.metadata.extra.insert("format".into(), "csv".into());
    LlmReducer.reduce(&mut d).unwrap();
    match &d.blocks[0] {
        Block::Table { rows, .. } => {
            assert_eq!(rows.len(), 200, "CSV tables must not be trimmed");
        }
        other => panic!("expected Table, got {other:?}"),
    }
    assert_eq!(d.blocks.len(), 1, "no sentinel for CSV");
}

// -----------------------------------------------------------------------
// JSON array trimming -- Record sequence path (mixed arrays + JSONL)
// -----------------------------------------------------------------------

#[test]
fn trim_records_small_sequence_no_trim() {
    // 5 records < llm keep=20: no trimming, no sentinel.
    let mut d = jsonl_doc(uniform_records(5));
    LlmReducer.reduce(&mut d).unwrap();
    // No sentinel, just the records (Records are left alone by the merge pass).
    assert_eq!(d.blocks.len(), 5);
    assert!(d.blocks.iter().all(|b| matches!(b, Block::Record { .. })));
}

#[test]
fn trim_records_llm_large_sequence() {
    // 50 JSONL records -> llm keeps 20 + sentinel.
    let mut d = jsonl_doc(uniform_records(50));
    LlmReducer.reduce(&mut d).unwrap();

    // 20 records + 1 sentinel paragraph.
    assert_eq!(d.blocks.len(), 21, "expected 20 records + sentinel");
    assert!(d.blocks[..20]
        .iter()
        .all(|b| matches!(b, Block::Record { .. })));
    match &d.blocks[20] {
        Block::Paragraph { text } => {
            assert_eq!(
                text,
                "[30 rows omitted — 20 shown including 0 outlier rows]"
            );
        }
        other => panic!("expected sentinel Paragraph, got {other:?}"),
    }
}

#[test]
fn trim_records_outlier_preserved() {
    // 30 JSONL records; record at index 25 has a "fail" field value.
    let records: Vec<Block> = (0..30_usize)
        .map(|i| {
            let status = if i == 25 { "fail" } else { "ok" };
            Block::Record {
                fields: vec![
                    Field {
                        key: "id".into(),
                        value: i.to_string(),
                    },
                    Field {
                        key: "status".into(),
                        value: status.into(),
                    },
                ],
            }
        })
        .collect();
    let mut d = jsonl_doc(records);
    LlmReducer.reduce(&mut d).unwrap();

    // 20 first-N + 1 outlier + 1 sentinel.
    assert_eq!(
        d.blocks.len(),
        22,
        "expected 20 records + outlier + sentinel"
    );
    // Record at position 20 should be the outlier (index 25 in original).
    match &d.blocks[20] {
        Block::Record { fields } => {
            let status = fields.iter().find(|f| f.key == "status").unwrap();
            assert_eq!(status.value, "fail");
        }
        other => panic!("expected Record outlier, got {other:?}"),
    }
    match &d.blocks[21] {
        Block::Paragraph { text } => {
            assert_eq!(text, "[9 rows omitted — 21 shown including 1 outlier row]");
        }
        other => panic!("expected sentinel Paragraph, got {other:?}"),
    }
}

#[test]
fn trim_records_null_value_is_outlier() {
    // Records where a field value is "null" are flagged as outliers.
    let records: Vec<Block> = (0..25_usize)
        .map(|i| Block::Record {
            fields: vec![
                Field {
                    key: "id".into(),
                    value: i.to_string(),
                },
                Field {
                    key: "data".into(),
                    // Record 22 has a null value -- should be rescued.
                    value: if i == 22 {
                        "null".into()
                    } else {
                        "good".into()
                    },
                },
            ],
        })
        .collect();
    let mut d = jsonl_doc(records);
    LlmReducer.reduce(&mut d).unwrap();

    // 20 first-N + 1 null-outlier (index 22) + sentinel.
    assert_eq!(d.blocks.len(), 22, "expected 21 records + sentinel");
    match &d.blocks[20] {
        Block::Record { fields } => {
            let data = fields.iter().find(|f| f.key == "data").unwrap();
            assert_eq!(data.value, "null", "null-field record must be rescued");
        }
        other => panic!("expected null-outlier Record, got {other:?}"),
    }
}
