use sempack::{detect, Block, Extractor, HtmlExtractor, Input};

fn input(name: &str, body: &str) -> Input {
    let bytes = body.as_bytes().to_vec();
    let detected = detect(Some(name), &bytes);
    Input {
        path: Some(name.to_string()),
        bytes,
        detected,
    }
}

#[test]
fn html_headings_and_paragraphs() {
    let html = "<!DOCTYPE html>\n<html><head><title>My Page</title></head>\n<body>\n<h1>Welcome</h1>\n<p>Hello world.</p>\n<h2>Section</h2>\n<p>Another paragraph.</p>\n</body></html>";
    let doc = HtmlExtractor.extract(&input("page.html", html)).unwrap();
    assert_eq!(doc.title.as_deref(), Some("My Page"));
    assert_eq!(
        doc.metadata.extra.get("title").map(|s| s.as_str()),
        Some("My Page")
    );
    assert_eq!(
        doc.metadata.extra.get("format").map(|s| s.as_str()),
        Some("html")
    );
    assert!(matches!(
        doc.blocks[0],
        Block::Heading { level: 1, ref text } if text == "Welcome"
    ));
    assert!(matches!(
        doc.blocks[1],
        Block::Paragraph { ref text } if text == "Hello world."
    ));
    assert!(matches!(
        doc.blocks[2],
        Block::Heading { level: 2, ref text } if text == "Section"
    ));
}

#[test]
fn html_strips_nav_and_script() {
    let html = "<html><body>\n<nav><a href=\"/\">Home</a></nav>\n<script>alert(\"evil\")</script>\n<style>body { color: red; }</style>\n<header>Site Header</header>\n<footer>Footer content</footer>\n<aside>Sidebar</aside>\n<main><p>Real content</p></main>\n</body></html>";
    let doc = HtmlExtractor.extract(&input("page.html", html)).unwrap();
    let text = doc.plain_text();
    assert!(text.contains("Real content"));
    assert!(!text.contains("Home"));
    assert!(!text.contains("evil"));
    assert!(!text.contains("Site Header"));
    assert!(!text.contains("Footer content"));
    assert!(!text.contains("Sidebar"));
    assert!(!text.contains("color: red"));
}

#[test]
fn html_lists() {
    let html = "<html><body>\n<ul><li>Alpha</li><li>Beta</li></ul>\n<ol><li>One</li><li>Two</li></ol>\n</body></html>";
    let doc = HtmlExtractor.extract(&input("page.html", html)).unwrap();
    let lists: Vec<_> = doc
        .blocks
        .iter()
        .filter(|b| matches!(b, Block::List { .. }))
        .collect();
    assert_eq!(lists.len(), 2);
    assert!(matches!(
        lists[0],
        Block::List { ordered: false, ref items } if items.len() == 2
    ));
    assert!(matches!(
        lists[1],
        Block::List { ordered: true, ref items } if items.len() == 2
    ));
}

#[test]
fn html_table() {
    let html = "<html><body>\n<table>\n  <tr><th>Name</th><th>Age</th></tr>\n  <tr><td>Alice</td><td>30</td></tr>\n  <tr><td>Bob</td><td>25</td></tr>\n</table>\n</body></html>";
    let doc = HtmlExtractor.extract(&input("page.html", html)).unwrap();
    assert!(doc.blocks.iter().any(|b| matches!(
        b,
        Block::Table { ref headers, ref rows } if headers.len() == 2 && rows.len() == 2
    )));
}

#[test]
fn html_code_block() {
    let html = "<html><body>\n<pre><code class=\"language-rust\">fn main() {}</code></pre>\n</body></html>";
    let doc = HtmlExtractor.extract(&input("page.html", html)).unwrap();
    assert!(doc.blocks.iter().any(|b| matches!(
        b,
        Block::Code { lang: Some(ref l), .. } if l == "rust"
    )));
}

#[test]
fn html_blockquote() {
    let html = "<html><body><blockquote>Famous words</blockquote></body></html>";
    let doc = HtmlExtractor.extract(&input("page.html", html)).unwrap();
    assert!(doc.blocks.iter().any(|b| matches!(
        b,
        Block::Quote { ref text } if text == "Famous words"
    )));
}

#[test]
fn html_image_alt_text() {
    let html =
        "<html><body><p>See: <img src=\"x.png\" alt=\"A cat photo\" /></p></body></html>";
    let doc = HtmlExtractor.extract(&input("page.html", html)).unwrap();
    let text = doc.plain_text();
    assert!(text.contains("A cat photo"));
}

#[test]
fn html_malformed_emits_warning() {
    let html = "<html><body><p class=oops unclosed";
    let doc = HtmlExtractor.extract(&input("bad.html", html)).unwrap();
    assert!(
        doc.warnings.iter().any(|w| w.code == "html.malformed"),
        "expected html.malformed warning, got: {:?}",
        doc.warnings
    );
}

#[test]
fn html_empty_file() {
    let doc = HtmlExtractor.extract(&input("empty.html", "")).unwrap();
    assert!(doc.blocks.is_empty());
}
