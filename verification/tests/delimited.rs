use sempack::{detect, Block, CsvExtractor, Extractor, Input, PsvExtractor, TsvExtractor};

fn make_input(name: &str, body: &str) -> Input {
    let bytes = body.as_bytes().to_vec();
    let detected = detect(Some(name), &bytes);
    Input {
        path: Some(name.to_string()),
        bytes,
        detected,
    }
}

// -----------------------------------------------------------------------
// CSV tests
// -----------------------------------------------------------------------

#[test]
fn csv_happy_path() {
    let body = "name,age\nAlice,30\nBob,25\n";
    let doc = CsvExtractor.extract(&make_input("data.csv", body)).unwrap();
    assert!(
        doc.warnings.is_empty(),
        "unexpected warnings: {:?}",
        doc.warnings
    );
    assert_eq!(doc.blocks.len(), 1);
    match &doc.blocks[0] {
        Block::Table { headers, rows } => {
            assert_eq!(headers, &["name", "age"]);
            assert_eq!(rows.len(), 2);
            assert_eq!(rows[0], vec!["Alice", "30"]);
            assert_eq!(rows[1], vec!["Bob", "25"]);
        }
        other => panic!("expected Table, got {other:?}"),
    }
    assert_eq!(
        doc.metadata.extra.get("format").map(|s| s.as_str()),
        Some("csv")
    );
    assert_eq!(
        doc.metadata.extra.get("row_count").map(|s| s.as_str()),
        Some("2")
    );
    assert_eq!(
        doc.metadata.extra.get("col_count").map(|s| s.as_str()),
        Some("2")
    );
}

#[test]
fn csv_ragged_row_warns_and_pads() {
    let body = "a,b,c\n1,2\n3,4,5\n";
    let doc = CsvExtractor.extract(&make_input("data.csv", body)).unwrap();
    assert_eq!(doc.warnings.len(), 1);
    assert_eq!(doc.warnings[0].code, "csv.ragged_row");
    match &doc.blocks[0] {
        Block::Table { rows, .. } => {
            assert_eq!(rows[0], vec!["1", "2", ""]);
            assert_eq!(rows[1], vec!["3", "4", "5"]);
        }
        other => panic!("expected Table, got {other:?}"),
    }
}

#[test]
fn csv_quoted_fields() {
    let body = "a,b\n\"hello, world\",2\n";
    let doc = CsvExtractor.extract(&make_input("data.csv", body)).unwrap();
    assert!(doc.warnings.is_empty());
    match &doc.blocks[0] {
        Block::Table { rows, .. } => {
            assert_eq!(rows[0][0], "hello, world");
        }
        other => panic!("expected Table, got {other:?}"),
    }
}

#[test]
fn csv_empty_file_produces_no_blocks() {
    let doc = CsvExtractor.extract(&make_input("empty.csv", "")).unwrap();
    assert!(doc.warnings.is_empty());
    assert!(doc.blocks.is_empty());
}

#[test]
fn csv_headers_only_produces_empty_table() {
    let body = "name,age\n";
    let doc = CsvExtractor.extract(&make_input("data.csv", body)).unwrap();
    assert!(doc.warnings.is_empty());
    assert_eq!(doc.blocks.len(), 1);
    match &doc.blocks[0] {
        Block::Table { headers, rows } => {
            assert_eq!(headers, &["name", "age"]);
            assert!(rows.is_empty());
        }
        other => panic!("expected Table, got {other:?}"),
    }
}

// -----------------------------------------------------------------------
// TSV tests
// -----------------------------------------------------------------------

#[test]
fn tsv_happy_path() {
    let body = "name\tage\nAlice\t30\n";
    let doc = TsvExtractor.extract(&make_input("data.tsv", body)).unwrap();
    assert!(doc.warnings.is_empty());
    assert_eq!(doc.blocks.len(), 1);
    match &doc.blocks[0] {
        Block::Table { headers, rows } => {
            assert_eq!(headers, &["name", "age"]);
            assert_eq!(rows[0], vec!["Alice", "30"]);
        }
        other => panic!("expected Table, got {other:?}"),
    }
    assert_eq!(
        doc.metadata.extra.get("format").map(|s| s.as_str()),
        Some("tsv")
    );
}

#[test]
fn tsv_empty_file() {
    let doc = TsvExtractor.extract(&make_input("empty.tsv", "")).unwrap();
    assert!(doc.blocks.is_empty());
}

// -----------------------------------------------------------------------
// PSV tests
// -----------------------------------------------------------------------

#[test]
fn psv_happy_path() {
    let body = "name|age\nAlice|30\nBob|25\n";
    let doc = PsvExtractor.extract(&make_input("data.psv", body)).unwrap();
    assert!(doc.warnings.is_empty());
    assert_eq!(doc.blocks.len(), 1);
    match &doc.blocks[0] {
        Block::Table { headers, rows } => {
            assert_eq!(headers, &["name", "age"]);
            assert_eq!(rows.len(), 2);
        }
        other => panic!("expected Table, got {other:?}"),
    }
    assert_eq!(
        doc.metadata.extra.get("format").map(|s| s.as_str()),
        Some("psv")
    );
}

#[test]
fn psv_ragged_row_warns() {
    let body = "a|b\n1\n";
    let doc = PsvExtractor.extract(&make_input("data.psv", body)).unwrap();
    assert_eq!(doc.warnings.len(), 1);
    assert_eq!(doc.warnings[0].code, "csv.ragged_row");
}

#[test]
fn psv_empty_file() {
    let doc = PsvExtractor.extract(&make_input("empty.psv", "")).unwrap();
    assert!(doc.blocks.is_empty());
}
