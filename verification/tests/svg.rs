use sempack::{detect, Extractor, Input, SvgExtractor};

fn input(name: &str, body: &str) -> Input {
    let bytes = body.as_bytes().to_vec();
    let detected = detect(Some(name), &bytes);
    Input {
        path: Some(name.to_string()),
        bytes,
        detected,
    }
}

#[test]
fn svg_extracts_title_and_desc() {
    let svg = "<svg xmlns=\"http://www.w3.org/2000/svg\">\n  <title>My Chart</title>\n  <desc>A bar chart showing sales data</desc>\n  <rect x=\"0\" y=\"0\" width=\"100\" height=\"50\" />\n</svg>";
    let doc = SvgExtractor.extract(&input("chart.svg", svg)).unwrap();
    assert_eq!(
        doc.metadata.extra.get("format").map(|s| s.as_str()),
        Some("svg")
    );
    let text = doc.plain_text();
    assert!(text.contains("My Chart"));
    assert!(text.contains("A bar chart"));
    // Geometry must NOT appear.
    assert!(!text.contains("rect"));
    assert!(!text.contains("0"));
}

#[test]
fn svg_extracts_text_element() {
    let svg = "<svg xmlns=\"http://www.w3.org/2000/svg\">\n  <text x=\"10\" y=\"20\">Hello SVG</text>\n  <path d=\"M 0 0 L 100 100\" />\n</svg>";
    let doc = SvgExtractor.extract(&input("icon.svg", svg)).unwrap();
    let text = doc.plain_text();
    assert!(text.contains("Hello SVG"));
    assert!(!text.contains("M 0 0"));
}

#[test]
fn svg_extracts_aria_label() {
    let svg = "<svg xmlns=\"http://www.w3.org/2000/svg\" aria-label=\"Logo icon\">\n  <circle cx=\"50\" cy=\"50\" r=\"40\" aria-label=\"Circle\" />\n</svg>";
    let doc = SvgExtractor.extract(&input("logo.svg", svg)).unwrap();
    let text = doc.plain_text();
    assert!(text.contains("Logo icon"));
    assert!(text.contains("Circle"));
}

#[test]
fn svg_no_text_emits_warning() {
    let svg = "<svg xmlns=\"http://www.w3.org/2000/svg\">\n  <rect x=\"0\" y=\"0\" width=\"100\" height=\"100\" />\n</svg>";
    let doc = SvgExtractor.extract(&input("blank.svg", svg)).unwrap();
    assert!(
        doc.warnings.iter().any(|w| w.code == "svg.no_text_content"),
        "expected svg.no_text_content warning"
    );
}

#[test]
fn svg_malformed_emits_warning() {
    // A truncated element triggers a quick-xml parse error.
    let svg = "<svg><bad";
    let doc = SvgExtractor.extract(&input("bad.svg", svg)).unwrap();
    assert!(
        doc.warnings.iter().any(|w| w.code == "svg.malformed"),
        "expected svg.malformed warning, got {:?}",
        doc.warnings
    );
}

#[test]
fn svg_empty_file() {
    let doc = SvgExtractor.extract(&input("empty.svg", "")).unwrap();
    assert!(doc.warnings.iter().any(|w| w.code == "svg.no_text_content"));
}
