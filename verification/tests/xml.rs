use sempack::{detect, Block, Extractor, Input, XmlExtractor};

fn input(name: &str, body: &str) -> Input {
    let bytes = body.as_bytes().to_vec();
    let detected = detect(Some(name), &bytes);
    Input {
        path: Some(name.to_string()),
        bytes,
        detected,
    }
}

#[test]
fn xml_basic_records() {
    let xml = "<?xml version=\"1.0\"?>\n<root>\n  <item id=\"1\">First</item>\n  <item id=\"2\">Second</item>\n</root>";
    let doc = XmlExtractor.extract(&input("data.xml", xml)).unwrap();
    assert_eq!(
        doc.metadata.extra.get("format").map(|s| s.as_str()),
        Some("xml")
    );
    assert_eq!(
        doc.metadata.extra.get("root_element").map(|s| s.as_str()),
        Some("root")
    );
    let records: Vec<_> = doc
        .blocks
        .iter()
        .filter(|b| matches!(b, Block::Record { .. }))
        .collect();
    assert_eq!(records.len(), 2);
    if let Block::Record { fields } = &records[0] {
        let tag = fields
            .iter()
            .find(|f| f.key == "tag")
            .map(|f| f.value.as_str());
        assert_eq!(tag, Some("item"));
        let text = fields
            .iter()
            .find(|f| f.key == "text")
            .map(|f| f.value.as_str());
        assert_eq!(text, Some("First"));
    }
}

#[test]
fn xml_malformed_emits_warning() {
    // A truncated element start triggers a quick-xml parse error.
    let xml = "<root><bad";
    let doc = XmlExtractor.extract(&input("bad.xml", xml)).unwrap();
    // Partial results are allowed; warning must be present.
    assert!(
        doc.warnings.iter().any(|w| w.code == "xml.malformed"),
        "expected xml.malformed, got {:?}",
        doc.warnings
    );
}

#[test]
fn xml_empty_file() {
    let doc = XmlExtractor.extract(&input("empty.xml", "")).unwrap();
    assert!(doc.blocks.is_empty());
}

#[test]
fn xml_root_element_captured() {
    let xml = "<catalog><book>Rust Programming</book></catalog>";
    let doc = XmlExtractor.extract(&input("books.xml", xml)).unwrap();
    assert_eq!(
        doc.metadata.extra.get("root_element").map(|s| s.as_str()),
        Some("catalog")
    );
}
