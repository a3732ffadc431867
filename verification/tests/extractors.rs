use sempack::{detect, Block, Extractor, Input, MarkdownExtractor, TextExtractor};

fn input(name: &str, body: &str) -> Input {
    let bytes = body.as_bytes().to_vec();
    let detected = detect(Some(name), &bytes);
    Input {
        path: Some(name.to_string()),
        bytes,
        detected,
    }
}

#[test]
fn markdown_heading_and_list() {
    let doc = MarkdownExtractor
        .extract(&input("a.md", "# Title\n\nbody text\n\n- one\n- two\n"))
        .unwrap();
    assert_eq!(doc.title.as_deref(), Some("Title"));
    assert!(matches!(doc.blocks[0], Block::Heading { level: 1, .. }));
    assert!(doc
        .blocks
        .iter()
        .any(|b| matches!(b, Block::List { items, .. } if items.len() == 2)));
}

#[test]
fn text_splits_paragraphs() {
    let doc = TextExtractor
        .extract(&input("a.txt", "one\nline\n\nsecond para"))
        .unwrap();
    assert_eq!(doc.blocks.len(), 2);
}

#[test]
fn text_splits_paragraphs_with_crlf() {
    // Windows blank lines (\r\n\r\n) must still separate paragraphs.
    let doc = TextExtractor
        .extract(&input("a.txt", "first\r\n\r\nsecond\r\n\r\nthird"))
        .unwrap();
    assert_eq!(doc.blocks.len(), 3);
}

#[test]
fn unterminated_empty_fence_still_emits_code_block() {
    let doc = MarkdownExtractor
        .extract(&input("a.md", "text\n\n```"))
        .unwrap();
    assert!(doc.blocks.iter().any(|b| matches!(b, Block::Code { .. })));
}

#[test]
fn markdown_marker_flip_does_not_merge_lists() {
    // `- ` then `1. ` with no blank line must yield two separate lists.
    let doc = MarkdownExtractor
        .extract(&input("a.md", "- bullet\n1. number\n"))
        .unwrap();
    let lists: Vec<_> = doc
        .blocks
        .iter()
        .filter(|b| matches!(b, Block::List { .. }))
        .collect();
    assert_eq!(lists.len(), 2);
    assert!(matches!(lists[0], Block::List { ordered: false, .. }));
    assert!(matches!(lists[1], Block::List { ordered: true, .. }));
}
