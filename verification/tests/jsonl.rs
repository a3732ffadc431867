use sempack::{detect, Block, Extractor, Input, JsonlExtractor};

fn make_input(name: &str, body: &str) -> Input {
    let bytes = body.as_bytes().to_vec();
    let detected = detect(Some(name), &bytes);
    Input {
        path: Some(name.to_string()),
        bytes,
        detected,
    }
}

#[test]
fn jsonl_happy_path() {
    let body = "{\"a\":1}\n{\"b\":2}\n";
    let doc = JsonlExtractor
        .extract(&make_input("data.jsonl", body))
        .unwrap();
    assert!(
        doc.warnings.is_empty(),
        "unexpected warnings: {:?}",
        doc.warnings
    );
    assert_eq!(doc.blocks.len(), 2);
    assert!(matches!(doc.blocks[0], Block::Record { .. }));
    assert_eq!(
        doc.metadata.extra.get("line_count").map(|s| s.as_str()),
        Some("2")
    );
    assert_eq!(
        doc.metadata.extra.get("error_count").map(|s| s.as_str()),
        Some("0")
    );
}

#[test]
fn jsonl_bad_line_warns_and_continues() {
    let body = "{\"a\":1}\nnot json\n{\"c\":3}\n";
    let doc = JsonlExtractor
        .extract(&make_input("data.jsonl", body))
        .unwrap();
    assert_eq!(doc.warnings.len(), 1);
    assert_eq!(doc.warnings[0].code, "jsonl.bad_line");
    // Two valid records should still be there.
    assert_eq!(doc.blocks.len(), 2);
    assert_eq!(
        doc.metadata.extra.get("error_count").map(|s| s.as_str()),
        Some("1")
    );
}

#[test]
fn jsonl_empty_file_produces_no_blocks() {
    let doc = JsonlExtractor
        .extract(&make_input("empty.jsonl", ""))
        .unwrap();
    assert!(doc.warnings.is_empty());
    assert!(doc.blocks.is_empty());
    assert_eq!(
        doc.metadata.extra.get("line_count").map(|s| s.as_str()),
        Some("0")
    );
}

#[test]
fn jsonl_blank_lines_skipped() {
    let body = "{\"x\":1}\n\n{\"y\":2}\n";
    let doc = JsonlExtractor
        .extract(&make_input("data.jsonl", body))
        .unwrap();
    assert!(doc.warnings.is_empty());
    assert_eq!(doc.blocks.len(), 2);
    assert_eq!(
        doc.metadata.extra.get("line_count").map(|s| s.as_str()),
        Some("2")
    );
}

#[test]
fn jsonl_ndjson_format_recognized() {
    let body = "{\"a\":1}\n";
    let doc = JsonlExtractor
        .extract(&make_input("data.ndjson", body))
        .unwrap();
    assert_eq!(doc.blocks.len(), 1);
    assert_eq!(
        doc.metadata.extra.get("format").map(|s| s.as_str()),
        Some("jsonl")
    );
}

#[test]
fn jsonl_all_bad_lines_emits_all_warnings() {
    let body = "bad\nalso bad\n";
    let doc = JsonlExtractor
        .extract(&make_input("data.jsonl", body))
        .unwrap();
    assert_eq!(doc.warnings.len(), 2);
    assert!(doc.blocks.is_empty());
    assert_eq!(
        doc.metadata.extra.get("error_count").map(|s| s.as_str()),
        Some("2")
    );
}
