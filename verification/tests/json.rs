use sempack::{detect, Block, Extractor, Input, JsonExtractor};

fn make_input(name: &str, body: &str) -> Input {
    let bytes = body.as_bytes().to_vec();
    let detected = detect(Some(name), &bytes);
    Input {
        path: Some(name.to_string()),
        bytes,
        detected,
    }
}

#[test]
fn json_array_flat_objects_becomes_table() {
    let body = r#"[{"b":2,"a":1},{"a":3,"b":4}]"#;
    let doc = JsonExtractor
        .extract(&make_input("data.json", body))
        .unwrap();
    assert!(
        doc.warnings.is_empty(),
        "unexpected warnings: {:?}",
        doc.warnings
    );
    assert_eq!(doc.blocks.len(), 1);
    match &doc.blocks[0] {
        Block::Table { headers, rows } => {
            assert_eq!(headers, &["a", "b"]);
            assert_eq!(rows.len(), 2);
            assert_eq!(rows[0], vec!["1", "2"]);
            assert_eq!(rows[1], vec!["3", "4"]);
        }
        other => panic!("expected Table, got {other:?}"),
    }
    assert_eq!(
        doc.metadata.extra.get("format").map(|s| s.as_str()),
        Some("json")
    );
    assert_eq!(
        doc.metadata.extra.get("record_count").map(|s| s.as_str()),
        Some("2")
    );
}

#[test]
fn json_array_mixed_becomes_records() {
    let body = r#"[{"a":1},{"a":2,"b":3}]"#;
    let doc = JsonExtractor
        .extract(&make_input("data.json", body))
        .unwrap();
    assert!(doc.warnings.is_empty());
    assert_eq!(doc.blocks.len(), 2);
    assert!(doc.blocks.iter().all(|b| matches!(b, Block::Record { .. })));
}

#[test]
fn json_object_becomes_single_record() {
    let body = r#"{"name":"Alice","age":30}"#;
    let doc = JsonExtractor
        .extract(&make_input("data.json", body))
        .unwrap();
    assert!(doc.warnings.is_empty());
    assert_eq!(doc.blocks.len(), 1);
    match &doc.blocks[0] {
        Block::Record { fields } => {
            // Sorted alphabetically: age before name.
            assert_eq!(fields[0].key, "age");
            assert_eq!(fields[0].value, "30");
            assert_eq!(fields[1].key, "name");
            assert_eq!(fields[1].value, "Alice");
        }
        other => panic!("expected Record, got {other:?}"),
    }
}

#[test]
fn json_nested_values_flatten_to_json_string() {
    let body = r#"{"outer":{"inner":"x"}}"#;
    let doc = JsonExtractor
        .extract(&make_input("data.json", body))
        .unwrap();
    assert!(doc.warnings.is_empty());
    match &doc.blocks[0] {
        Block::Record { fields } => {
            assert_eq!(fields[0].key, "outer");
            assert_eq!(fields[0].value, r#"{"inner":"x"}"#);
        }
        other => panic!("expected Record, got {other:?}"),
    }
}

#[test]
fn json_invalid_emits_warning_and_empty_doc() {
    let doc = JsonExtractor
        .extract(&make_input("bad.json", "not json {{{"))
        .unwrap();
    assert!(!doc.warnings.is_empty());
    assert_eq!(doc.warnings[0].code, "json.invalid");
    assert!(doc.blocks.is_empty());
}

#[test]
fn json_empty_file_emits_warning() {
    let doc = JsonExtractor
        .extract(&make_input("empty.json", ""))
        .unwrap();
    assert!(!doc.warnings.is_empty());
    assert_eq!(doc.warnings[0].code, "json.invalid");
}

#[test]
fn json_array_with_nested_object_falls_back_to_records() {
    let body = r#"[{"a":{"nested":true}},{"a":1}]"#;
    let doc = JsonExtractor
        .extract(&make_input("data.json", body))
        .unwrap();
    assert!(doc.warnings.is_empty());
    assert_eq!(doc.blocks.len(), 2);
    assert!(matches!(doc.blocks[0], Block::Record { .. }));
}

#[test]
fn json_empty_array_produces_no_blocks() {
    let doc = JsonExtractor
        .extract(&make_input("empty.json", "[]"))
        .unwrap();
    assert!(doc.warnings.is_empty());
    assert!(doc.blocks.is_empty());
    assert_eq!(
        doc.metadata.extra.get("record_count").map(|s| s.as_str()),
        Some("0")
    );
}
