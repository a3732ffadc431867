use sempack::emitters::html::esc;
use sempack::{
    Block, DocumentIr, Emitter, Field, HtmlEmitter, JsonlEmitter, MarkdownEmitter, NdjsonEmitter,
    SourceInfo, TextEmitter,
};

fn empty() -> DocumentIr {
    DocumentIr::new(
        "doc",
        SourceInfo {
            path: None,
            media_type: None,
            detected_format: "markdown".into(),
            bytes: 7,
        },
    )
}

fn paragraph(text: &str) -> Block {
    Block::Paragraph { text: text.into() }
}

fn field(key: &str, value: &str) -> Field {
    Field {
        key: key.into(),
        value: value.into(),
    }
}

fn every_kind() -> DocumentIr {
    let mut d = empty();
    d.blocks = vec![
        Block::Heading {
            level: 2,
            text: "H".into(),
        },
        Block::Section {
            children: vec![paragraph("in"), Block::Document { children: vec![] }],
        },
        Block::Quote { text: "q".into() },
        Block::List {
            ordered: true,
            items: vec!["one".into(), "two".into()],
        },
        Block::List {
            ordered: false,
            items: vec!["x".into()],
        },
        Block::Table {
            headers: vec!["a".into(), "b".into()],
            rows: vec![vec!["1".into(), "2".into()], vec!["3".into()]],
        },
        Block::Record {
            fields: vec![field("k", "v"), field("l", "w")],
        },
        Block::Code {
            lang: Some("rust".into()),
            text: "fn".into(),
        },
        Block::Code {
            lang: None,
            text: "end\n".into(),
        },
        Block::Unsupported { note: "n".into() },
    ];
    d
}

#[test]
fn markdown_of_every_kind() {
    let out = MarkdownEmitter.emit(&every_kind()).unwrap();
    assert_eq!(
        out,
        "## H\n\nin\n\n> q\n\n1. one\n2. two\n\n- x\n\n| a | b |\n| --- | --- |\n| 1 | 2 |\n| 3 |\n\n- **k**: v\n- **l**: w\n\n```rust\nfn\n```\n\n```\nend\n```\n\n> [!warning] n\n"
    );
}

#[test]
fn plain_text_of_every_kind() {
    let out = TextEmitter.emit(&every_kind()).unwrap();
    assert_eq!(
        out,
        "H\n\nin\n\nq\n\n- one\n- two\n\n- x\n\na\tb\n1\t2\n3\n\nk: v\nl: w\n\nfn\n\nend\n\nn\n"
    );
}

#[test]
fn html_of_every_kind() {
    let mut d = every_kind();
    d.title = Some("T & U".into());
    let out = HtmlEmitter.emit(&d).unwrap();
    assert_eq!(
        out,
        "<!doctype html>\n<html>\n<head><meta charset=\"utf-8\"><title>T &amp; U</title></head>\n<body>\n<h2>H</h2>\n<p>in</p>\n<blockquote>q</blockquote>\n<ol>\n  <li>one</li>\n  <li>two</li>\n</ol>\n<ul>\n  <li>x</li>\n</ul>\n<table>\n<thead><tr><th>a</th><th>b</th></tr></thead>\n<tbody>\n<tr><td>1</td><td>2</td></tr>\n<tr><td>3</td></tr>\n</tbody>\n</table>\n<dl>\n  <dt>k</dt><dd>v</dd>\n  <dt>l</dt><dd>w</dd>\n</dl>\n<pre><code>fn</code></pre>\n<pre><code>end\n</code></pre>\n<!-- unsupported: n -->\n</body>\n</html>\n"
    );
}

#[test]
fn html_levels_are_brought_into_range() {
    let mut d = empty();
    for level in [0u8, 1, 6, 7, 255] {
        d.push(Block::Heading {
            level,
            text: "x".into(),
        });
    }
    let out = HtmlEmitter.emit(&d).unwrap();
    assert!(out.contains(
        "<h1>x</h1>\n<h1>x</h1>\n<h6>x</h6>\n<h6>x</h6>\n<h6>x</h6>\n"
    ));
    assert!(!out.contains("<title>"));
}

#[test]
fn markdown_levels_are_written_as_they_are() {
    let mut d = empty();
    d.push(Block::Heading {
        level: 0,
        text: "x".into(),
    });
    d.push(Block::Heading {
        level: 7,
        text: "y".into(),
    });
    assert_eq!(MarkdownEmitter.emit(&d).unwrap(), " x\n\n####### y\n");
}

#[test]
fn escaped_text_has_no_brackets() {
    assert_eq!(esc("<a href=\"x\">&amp;</a>"), "&lt;a href=\"x\"&gt;&amp;amp;&lt;/a&gt;");
    assert_eq!(esc("plain \u{e9} 'text'"), "plain \u{e9} 'text'");
    assert_eq!(esc(""), "");
}

#[test]
fn text_output_ends_in_one_line_feed() {
    let mut d = empty();
    assert_eq!(MarkdownEmitter.emit(&d).unwrap(), "\n");
    assert_eq!(TextEmitter.emit(&d).unwrap(), "\n");
    d.push(paragraph("x \u{a0}\n\n"));
    assert_eq!(MarkdownEmitter.emit(&d).unwrap(), "x\n");
    assert_eq!(TextEmitter.emit(&d).unwrap(), "x\n");
}

#[test]
fn jsonl_of_every_kind() {
    let mut d = every_kind();
    d.title = Some("T".into());
    d.source.path = Some("p/q".into());
    d.source.media_type = Some("m".into());
    let out = JsonlEmitter.emit(&d).unwrap();
    let lines: Vec<&str> = out.lines().collect();
    assert_eq!(lines.len(), d.blocks.len() + 1);
    assert_eq!(
        lines[0],
        r#"{"id":"doc","source":{"bytes":7,"detected_format":"markdown","media_type":"m","path":"p/q"},"title":"T","type":"document"}"#
    );
    assert_eq!(lines[1], r#"{"kind":"heading","level":2,"text":"H"}"#);
    assert_eq!(
        lines[2],
        r#"{"kind":"section","children":[{"kind":"paragraph","text":"in"},{"kind":"document","children":[]}]}"#
    );
    assert_eq!(lines[3], r#"{"kind":"quote","text":"q"}"#);
    assert_eq!(
        lines[4],
        r#"{"kind":"list","ordered":true,"items":["one","two"]}"#
    );
    assert_eq!(lines[5], r#"{"kind":"list","ordered":false,"items":["x"]}"#);
    assert_eq!(
        lines[6],
        r#"{"kind":"table","headers":["a","b"],"rows":[["1","2"],["3"]]}"#
    );
    assert_eq!(
        lines[7],
        r#"{"kind":"record","fields":[{"key":"k","value":"v"},{"key":"l","value":"w"}]}"#
    );
    assert_eq!(lines[8], r#"{"kind":"code","lang":"rust","text":"fn"}"#);
    assert_eq!(lines[9], r#"{"kind":"code","text":"end\n"}"#);
    assert_eq!(lines[10], r#"{"kind":"unsupported","note":"n"}"#);
    for l in lines {
        assert!(serde_json::from_str::<serde_json::Value>(l).is_ok());
    }
}

#[test]
fn jsonl_header_without_title_or_path() {
    let out = JsonlEmitter.emit(&empty()).unwrap();
    assert_eq!(
        out,
        "{\"id\":\"doc\",\"source\":{\"bytes\":7,\"detected_format\":\"markdown\"},\"title\":null,\"type\":\"document\"}\n"
    );
}

#[test]
fn ndjson_is_one_line() {
    let mut d = empty();
    assert_eq!(
        NdjsonEmitter.emit(&d).unwrap(),
        "{\"id\":\"doc\",\"source\":{\"detected_format\":\"markdown\",\"bytes\":7},\"metadata\":{},\"blocks\":[]}\n"
    );
    d.title = Some("a\nb".into());
    d.source.path = Some("p".into());
    d.source.media_type = Some("m".into());
    d.metadata.extra.insert("z".into(), "1".into());
    d.metadata.extra.insert("a\"".into(), "2".into());
    d.metadata.extra.insert("z".into(), "3".into());
    d.push(paragraph("x"));
    d.push(paragraph("y"));
    d.warn("c", "m\\");
    let out = NdjsonEmitter.emit(&d).unwrap();
    assert_eq!(
        out,
        "{\"id\":\"doc\",\"source\":{\"path\":\"p\",\"media_type\":\"m\",\"detected_format\":\"markdown\",\"bytes\":7},\"title\":\"a\\nb\",\"metadata\":{\"extra\":{\"a\\\"\":\"2\",\"z\":\"3\"}},\"blocks\":[{\"kind\":\"paragraph\",\"text\":\"x\"},{\"kind\":\"paragraph\",\"text\":\"y\"}],\"warnings\":[{\"code\":\"c\",\"message\":\"m\\\\\"}]}\n"
    );
    assert_eq!(out.lines().count(), 1);
    assert!(serde_json::from_str::<serde_json::Value>(&out).is_ok());
}

#[test]
fn json_strings_are_escaped() {
    let mut d = empty();
    let text = "\"\\/\u{8}\t\n\u{c}\r\u{0}\u{1f}\u{7f}\u{e9}\u{1f600}";
    d.push(paragraph(text));
    let out = JsonlEmitter.emit(&d).unwrap();
    let line = out.lines().nth(1).unwrap();
    assert_eq!(
        line,
        "{\"kind\":\"paragraph\",\"text\":\"\\\"\\\\/\\b\\t\\n\\f\\r\\u0000\\u001f\u{7f}\u{e9}\u{1f600}\"}"
    );
    let back: serde_json::Value = serde_json::from_str(line).unwrap();
    assert_eq!(back["text"], text);
}
