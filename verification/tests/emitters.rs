use sempack::{
    Block, DocumentIr, Emitter, HtmlEmitter, JsonlEmitter, MarkdownEmitter, SourceInfo,
};

fn sample() -> DocumentIr {
    let mut d = DocumentIr::new(
        "t",
        SourceInfo {
            path: None,
            media_type: None,
            detected_format: "markdown".into(),
            bytes: 0,
        },
    );
    d.title = Some("Hello".into());
    d.blocks = vec![
        Block::Heading {
            level: 1,
            text: "Hello".into(),
        },
        Block::Paragraph {
            text: "world & friends".into(),
        },
        Block::List {
            ordered: false,
            items: vec!["a".into(), "b".into()],
        },
    ];
    d
}

#[test]
fn markdown_roundtrips_structure() {
    let out = MarkdownEmitter.emit(&sample()).unwrap();
    assert!(out.contains("# Hello"));
    assert!(out.contains("- a"));
}

#[test]
fn jsonl_has_header_plus_blocks() {
    let out = JsonlEmitter.emit(&sample()).unwrap();
    let lines: Vec<_> = out.lines().collect();
    assert_eq!(lines.len(), 4); // header + 3 blocks
    assert!(lines[0].contains("\"type\":\"document\""));
}

#[test]
fn html_escapes() {
    let out = HtmlEmitter.emit(&sample()).unwrap();
    assert!(out.contains("world &amp; friends"));
}
