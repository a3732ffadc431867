use sempack::bridge::html::{parse_html, HtmlElement, HtmlNode, HtmlPage};
use sempack::bridge::json::{parse_json, Json, Member};
use sempack::bridge::xml::{scan_xml, XmlAttribute, XmlEvent, XmlFailure, XmlScan, XmlTag};
use sempack::extractors::delimited::read_delimited;
use sempack::extractors::html::read_html;
use sempack::extractors::json::read_json;
use sempack::extractors::markdown::read_markdown;
use sempack::extractors::plain::read_plain;
use sempack::extractors::svg::read_svg;
use sempack::extractors::xml::read_xml;
use sempack::{
    detect, Block, CsvExtractor, DocumentIr, Extractor, HtmlExtractor, Input, JsonExtractor,
    JsonlExtractor, MarkdownExtractor, PsvExtractor, SvgExtractor, TextExtractor, TsvExtractor,
    XmlExtractor,
};

fn input(name: &str, body: &str) -> Input {
    raw(name, body.as_bytes())
}

fn raw(name: &str, bytes: &[u8]) -> Input {
    Input {
        path: Some(name.to_string()),
        bytes: bytes.to_vec(),
        detected: detect(Some(name), bytes),
    }
}

fn note<'a>(doc: &'a DocumentIr, key: &str) -> Option<&'a str> {
    doc.metadata.extra.get(key).map(|s| s.as_str())
}

fn shown(doc: &DocumentIr) -> Vec<String> {
    doc.blocks
        .iter()
        .map(|b| match b {
            Block::Paragraph { text } => format!("p {text}"),
            Block::Heading { level, text } => format!("h{level} {text}"),
            Block::Quote { text } => format!("q {text}"),
            Block::List { ordered, items } => {
                format!("{} {}", if *ordered { "ol" } else { "ul" }, items.join("/"))
            }
            Block::Code { lang, text } => format!("c {lang:?} {text}"),
            Block::Table { headers, rows } => {
                let rows: Vec<String> = rows.iter().map(|r| r.join("/")).collect();
                format!("t {} : {}", headers.join("/"), rows.join(" "))
            }
            Block::Record { fields } => {
                let fields: Vec<String> = fields
                    .iter()
                    .map(|f| format!("{}={}", f.key, f.value))
                    .collect();
                format!("r {}", fields.join(" "))
            }
            other => format!("{other:?}"),
        })
        .collect()
}

fn warned(doc: &DocumentIr) -> Vec<String> {
    doc.warnings
        .iter()
        .map(|w| format!("{}: {}", w.code, w.message))
        .collect()
}

// ---------------------------------------------------------------------------
// Plain text and Markdown
// ---------------------------------------------------------------------------

#[test]
fn source_and_id_of_a_document() {
    let i = input("dir\\sub/a.txt", "x");
    let doc = TextExtractor.extract(&i).unwrap();
    assert_eq!(doc.id, "a.txt");
    assert_eq!(doc.source.path.as_deref(), Some("dir\\sub/a.txt"));
    assert_eq!(doc.source.detected_format, "text");
    assert_eq!(doc.source.bytes, 1);
    assert_eq!(doc.source.media_type, i.detected.media_type);
    let mut nameless = input("a.txt", "x");
    nameless.path = None;
    assert_eq!(TextExtractor.extract(&nameless).unwrap().id, "document");
    let mut trailing = input("a.txt", "x");
    trailing.path = Some("dir/".into());
    assert_eq!(TextExtractor.extract(&trailing).unwrap().id, "");
}

#[test]
fn plain_paragraphs_are_collapsed() {
    let doc = TextExtractor
        .extract(&input("a.txt", "\n\n a \u{2003} b\nc\n \t \n\u{a0}\nd"))
        .unwrap();
    assert_eq!(shown(&doc), vec!["p a b c", "p d"]);
    assert!(TextExtractor
        .extract(&input("a.txt", " \n\n"))
        .unwrap()
        .blocks
        .is_empty());
    let i = input("a.txt", "");
    assert_eq!(shown(&read_plain(&i, "x\r\n\r\ny")), shown(&read_plain(&i, "x\n\ny")));
}

#[test]
fn invalid_bytes_are_replaced() {
    let doc = TextExtractor.extract(&raw("a.txt", b"a\xffb \xc3\xa9")).unwrap();
    assert_eq!(shown(&doc), vec!["p a\u{fffd}b \u{e9}"]);
}

#[test]
fn markdown_of_every_line() {
    let text = "intro\n  line\n## Sub \n####### seven\n#none\n# Top\n# Second\n* a\n  + b\n1. c\n22) d\n3.e\n> q\n>r\n\n- \n``` rs \nlet x;\n  # kept\n  ```\ntail\n";
    let doc = MarkdownExtractor.extract(&input("a.md", text)).unwrap();
    assert_eq!(
        shown(&doc),
        vec![
            "p intro line",
            "h2 Sub",
            "p ####### seven #none",
            "h1 Top",
            "h1 Second",
            "ul a/b",
            "ol c/d",
            "p 3.e",
            "q q",
            "q r",
            "p -",
            "c Some(\"rs\") let x;\n  # kept\n",
            "p tail",
        ]
    );
    assert_eq!(doc.title.as_deref(), Some("Top"));
    assert_eq!(MarkdownExtractor.name(), "markdown");
}

#[test]
fn markdown_fences_pair_up() {
    let i = input("a.md", "");
    assert_eq!(
        shown(&read_markdown(&i, "```\na\n```\n```\nb")),
        vec!["c None a\n", "c None b\n"]
    );
    assert_eq!(shown(&read_markdown(&i, "x\n```")), vec!["p x", "c None "]);
    assert_eq!(
        shown(&read_markdown(&i, "- a\n```\n- b\n```\n- c")),
        vec!["ul a", "c None - b\n", "ul c"]
    );
    assert!(read_markdown(&i, "## no title").title.is_none());
}

// ---------------------------------------------------------------------------
// Delimited values
// ---------------------------------------------------------------------------

#[test]
fn rows_are_fitted_to_the_headers() {
    let doc = CsvExtractor
        .extract(&input("d/x.csv", "a,b\n1\n1,2,3\n\"p,q\",\"r\"\"s\"\n"))
        .unwrap();
    assert_eq!(shown(&doc), vec!["t a/b : 1/ 1/2 p,q/r\"s"]);
    assert_eq!(
        warned(&doc),
        vec![
            "csv.ragged_row: row 2 has 1 field(s), expected 2",
            "csv.ragged_row: row 3 has 3 field(s), expected 2",
        ]
    );
    assert_eq!(note(&doc, "filename"), Some("x.csv"));
    assert_eq!(note(&doc, "format"), Some("csv"));
    assert_eq!(note(&doc, "row_count"), Some("3"));
    assert_eq!(note(&doc, "col_count"), Some("2"));
}

#[test]
fn each_delimiter_splits_its_own_format() {
    let tsv = TsvExtractor.extract(&input("x.tsv", "a\tb,c\n1\t2|3\n")).unwrap();
    assert_eq!(shown(&tsv), vec!["t a/b,c : 1/2|3"]);
    assert_eq!(note(&tsv, "format"), Some("tsv"));
    let psv = PsvExtractor.extract(&input("x.psv", "a|b,c\n1|2\t3\n")).unwrap();
    assert_eq!(shown(&psv), vec!["t a/b,c : 1/2\t3"]);
    assert_eq!(note(&psv, "format"), Some("psv"));
}

#[test]
fn unread_headers_end_the_table() {
    let doc = CsvExtractor.extract(&raw("x.csv", b"a,\xff\n1,2\n")).unwrap();
    assert!(doc.blocks.is_empty());
    assert_eq!(doc.warnings.len(), 1);
    assert_eq!(doc.warnings[0].code, "csv.read_error");
    assert!(doc.warnings[0].message.starts_with("failed to read headers: "));
    assert_eq!(note(&doc, "format"), None);
    assert_eq!(note(&doc, "filename"), Some("x.csv"));
}

#[test]
fn an_unread_row_is_left_out() {
    let doc = CsvExtractor
        .extract(&raw("x.csv", b"a,b\n1,\xff\n3,4\n"))
        .unwrap();
    assert_eq!(shown(&doc), vec!["t a/b : 3/4"]);
    assert_eq!(doc.warnings.len(), 1);
    assert_eq!(doc.warnings[0].code, "csv.read_error");
    assert!(doc.warnings[0].message.starts_with("row 2: "));
    assert_eq!(note(&doc, "row_count"), Some("1"));
}

#[test]
fn even_rows_come_out_as_they_are() {
    let i = input("x.csv", "");
    let doc = read_delimited(
        &i,
        "csv",
        Ok(vec!["a".into(), "b".into()]),
        vec![
            Ok(vec![" 1 ".into(), "".into()]),
            Err("bad".into()),
            Ok(vec!["3".into(), "4".into()]),
        ],
    );
    assert_eq!(shown(&doc), vec!["t a/b :  1 / 3/4"]);
    assert_eq!(warned(&doc), vec!["csv.read_error: row 3: bad"]);
    let none = read_delimited(&i, "csv", Ok(vec![]), vec![]);
    assert!(none.blocks.is_empty());
    assert_eq!(note(&none, "col_count"), Some("0"));
    let failed = read_delimited(&i, "csv", Err("why".into()), vec![Ok(vec![])]);
    assert_eq!(
        warned(&failed),
        vec!["csv.read_error: failed to read headers: why"]
    );
}

// ---------------------------------------------------------------------------
// JSON
// ---------------------------------------------------------------------------

#[test]
fn json_values_of_every_kind() {
    let body = r#"[{"b":[1, 2.50],"a":{"k":"v\"w"}}, [true, null, "s", {"x":1}], "text", 1e3, -0.0, null, false]"#;
    let doc = JsonExtractor.extract(&input("d.json", body)).unwrap();
    assert_eq!(
        shown(&doc),
        vec![
            "r a={\"k\":\"v\\\"w\"} b=[1,2.5]",
            "ul true/null/s/{\"x\":1}",
            "p text",
            "p 1000.0",
            "p -0.0",
            "p null",
            "p false",
        ]
    );
    assert_eq!(note(&doc, "record_count"), Some("7"));
    assert_eq!(note(&doc, "format"), Some("json"));
}

#[test]
fn json_tables_need_the_same_flat_keys() {
    let table = |body: &str| shown(&JsonExtractor.extract(&input("d.json", body)).unwrap());
    assert_eq!(
        table(r#"[{"b":"x","a":null},{"a":true,"b":2}]"#),
        vec!["t a/b : null/x true/2"]
    );
    assert_eq!(
        table(r#"[{"a":1},{"a":1,"b":2}]"#),
        vec!["r a=1", "r a=1 b=2"]
    );
    assert_eq!(table(r#"[{"a":1},{"a":[2]}]"#), vec!["r a=1", "r a=[2]"]);
    assert_eq!(table(r#"[{"a":1},2]"#), vec!["r a=1", "p 2"]);
    assert_eq!(table("[{},{}]"), vec!["t  :  "]);
    assert!(table("[]").is_empty());
    assert_eq!(table(r#"{"z":1,"a":2}"#), vec!["r a=2 z=1"]);
    assert_eq!(table("\"x\""), vec!["p x"]);
}

#[test]
fn invalid_json_is_said() {
    let doc = JsonExtractor.extract(&input("d.json", "{oops")).unwrap();
    assert!(doc.blocks.is_empty());
    assert_eq!(
        warned(&doc),
        vec!["json.invalid: failed to parse JSON: key must be a string at line 1 column 2"]
    );
    assert_eq!(note(&doc, "format"), None);
    assert_eq!(note(&doc, "filename"), Some("d.json"));
}

#[test]
fn json_text_is_kept_beside_the_contents() {
    match parse_json(r#" { "k" : [ 1 , "\u0001" ] } "#).unwrap() {
        Json::Object { members, text } => {
            assert_eq!(text, r#"{"k":[1,"\u0001"]}"#);
            assert_eq!(members.len(), 1);
            assert_eq!(members[0].key, "k");
        }
        other => panic!("{other:?}"),
    }
    assert!(parse_json("nul").is_err());
}

#[test]
fn parsed_json_is_read_as_given() {
    let i = input("d.json", "");
    let member = |key: &str, value: Json| Member {
        key: key.into(),
        value,
    };
    let object = Json::Object {
        members: vec![
            member("b", Json::Bool(true)),
            member("a", Json::Number("12".into())),
        ],
        text: "unused".into(),
    };
    assert_eq!(shown(&read_json(&i, Ok(object))), vec!["r a=12 b=true"]);
    assert_eq!(
        warned(&read_json(&i, Err("why".into()))),
        vec!["json.invalid: failed to parse JSON: why"]
    );
}

#[test]
fn jsonl_lines_of_every_kind() {
    let body = "{\"b\":1,\"a\":[2, 3]}\n\n  [1, \"x\"]  \r\n\"s\"\n{bad\nnull\n1.0\n";
    let doc = JsonlExtractor.extract(&input("d.jsonl", body)).unwrap();
    assert_eq!(
        shown(&doc),
        vec!["r a=[2,3] b=1", "p [1,\"x\"]", "p s", "p null", "p 1.0"]
    );
    assert_eq!(
        warned(&doc),
        vec!["jsonl.bad_line: line 5: failed to parse JSON: key must be a string at line 1 column 2"]
    );
    assert_eq!(note(&doc, "line_count"), Some("6"));
    assert_eq!(note(&doc, "error_count"), Some("1"));
    assert_eq!(note(&doc, "format"), Some("jsonl"));
}

// ---------------------------------------------------------------------------
// XML and SVG
// ---------------------------------------------------------------------------

#[test]
fn xml_of_every_event() {
    let xml = "<?xml version=\"1.0\"?><!-- c --><a:root x='1'>pre<b k=\"v&amp;w\" n=\"2\">one<i>two</i> three &lt;</b><e/><f g=\"h\"/>post</a:root>";
    let doc = XmlExtractor.extract(&input("d.xml", xml)).unwrap();
    assert_eq!(
        shown(&doc),
        vec![
            "r tag=i text=two",
            "r tag=b text=three < attrs=k=v&amp;w,n=2",
            "r tag=f attrs=g=h",
            "r tag=a:root text=post attrs=x=1",
        ]
    );
    assert_eq!(note(&doc, "root_element"), Some("a:root"));
    assert!(doc.warnings.is_empty());
}

#[test]
fn xml_stops_at_the_first_failure() {
    let doc = XmlExtractor
        .extract(&input("d.xml", "<a><b>x</b></c><d>y</d>"))
        .unwrap();
    assert_eq!(shown(&doc), vec!["r tag=b text=x"]);
    assert_eq!(doc.warnings.len(), 1);
    assert_eq!(doc.warnings[0].code, "xml.malformed");
    assert!(doc.warnings[0]
        .message
        .starts_with("XML parse error at position 11: "));
    let empty = XmlExtractor.extract(&input("d.xml", "")).unwrap();
    assert_eq!(note(&empty, "root_element"), None);
    assert_eq!(note(&empty, "format"), Some("xml"));
}

#[test]
fn text_is_trimmed_only_on_request() {
    let count = |trim: bool| {
        scan_xml("<a> <b/> </a>", trim)
            .events
            .iter()
            .filter(|e| matches!(e, XmlEvent::Text { .. }))
            .count()
    };
    assert_eq!(count(true), 0);
    assert_eq!(count(false), 2);
}

fn tag(name: &str, attributes: Vec<Option<XmlAttribute>>) -> XmlTag {
    XmlTag {
        name: name.into(),
        attributes,
    }
}

fn attribute(key: &str, value: &str, unescaped: Option<&str>) -> Option<XmlAttribute> {
    Some(XmlAttribute {
        key: key.into(),
        value: value.into(),
        unescaped: unescaped.map(|s| s.into()),
    })
}

#[test]
fn scanned_xml_is_read_as_given() {
    let i = input("d.xml", "");
    let scan = XmlScan {
        events: vec![
            XmlEvent::End,
            XmlEvent::Empty {
                tag: tag("e", vec![None]),
            },
            XmlEvent::Start {
                tag: tag("s", vec![None, attribute("k", "v", None)]),
            },
            XmlEvent::Text {
                text: Some(" a ".into()),
            },
            XmlEvent::Text { text: None },
            XmlEvent::Other,
            XmlEvent::Text {
                text: Some("b".into()),
            },
            XmlEvent::End,
        ],
        failure: Some(XmlFailure {
            position: 9,
            message: "why".into(),
        }),
    };
    let doc = read_xml(&i, &scan);
    assert_eq!(shown(&doc), vec!["r tag=s text=a b attrs=k=v"]);
    assert_eq!(
        warned(&doc),
        vec!["xml.malformed: XML parse error at position 9: why"]
    );
    assert_eq!(note(&doc, "root_element"), Some("e"));
}

#[test]
fn svg_text_and_labels() {
    let svg = "<svg xmlns:s=\"u\" aria-label=\" whole &amp; all \"><s:TITLE>t</s:TITLE><g aria-label=\"  \"><text>a<tspan>b</tspan>c</text></g><path d=\"M0\" aria-label=\"p\"/><p>not this</p><desc> d &gt; </desc></svg>";
    let doc = SvgExtractor.extract(&input("d.svg", svg)).unwrap();
    assert_eq!(
        shown(&doc),
        vec!["p whole & all", "p t", "p b", "p p", "p d >"]
    );
    assert!(doc.warnings.is_empty());
}

#[test]
fn svg_without_text_is_said() {
    let doc = SvgExtractor
        .extract(&input("d.svg", "<svg><rect/><title> </title></svg>"))
        .unwrap();
    assert!(doc.blocks.is_empty());
    assert_eq!(
        warned(&doc),
        vec!["svg.no_text_content: no text content found in SVG"]
    );
}

#[test]
fn scanned_svg_is_read_as_given() {
    let i = input("d.svg", "");
    let scan = XmlScan {
        events: vec![
            XmlEvent::Start {
                tag: tag(
                    "x:Text",
                    vec![
                        attribute("aria-label", "raw", Some(" label ")),
                        attribute("aria-label", "raw", None),
                        attribute("x:aria-label", "other", Some("other")),
                        None,
                    ],
                ),
            },
            XmlEvent::Text {
                text: Some(" kept ".into()),
            },
        ],
        failure: Some(XmlFailure {
            position: 3,
            message: "why".into(),
        }),
    };
    let doc = read_svg(&i, &scan);
    assert_eq!(shown(&doc), vec!["p label"]);
    assert_eq!(
        warned(&doc),
        vec!["svg.malformed: SVG parse error at position 3: why"]
    );
    let nothing = read_svg(
        &i,
        &XmlScan {
            events: vec![],
            failure: Some(XmlFailure {
                position: 0,
                message: "why".into(),
            }),
        },
    );
    assert_eq!(
        warned(&nothing),
        vec![
            "svg.malformed: SVG parse error at position 0: why",
            "svg.no_text_content: no text content found in SVG",
        ]
    );
}

// ---------------------------------------------------------------------------
// HTML
// ---------------------------------------------------------------------------

#[test]
fn html_of_every_tag() {
    let html = "<!DOCTYPE html><html><head><title> A\n B </title><style>s</style></head><body>loose <b>bold</b><!-- c --><nav>no</nav><header>no</header><div><h3>Head <i>in</i></h3></div><p>one <img alt=' pic '><script>no</script> two</p><p> </p><pre><code class=\"x language-rust y\">fn a() {}\n  b</code></pre><pre>raw</pre><blockquote>said</blockquote><ul><li>a<ul><li>b</li></ul></li><li></li></ul><ol><li>n</li></ol><table><tr><th>h</th><th></th></tr><tr><td>1</td><td></td></tr></table><ul></ul></body></html>";
    let doc = HtmlExtractor.extract(&input("d.html", html)).unwrap();
    assert_eq!(
        shown(&doc),
        vec![
            "p loose",
            "p bold",
            "h3 Head in",
            "p one pic two",
            "c Some(\"rust\") fn a() {} b",
            "c None raw",
            "q said",
            "ul a b/b",
            "ol n",
            "t h : 1/",
        ]
    );
    assert_eq!(doc.title.as_deref(), Some("A\n B"));
    assert_eq!(note(&doc, "title"), Some("A\n B"));
    assert!(doc.warnings.is_empty());
}

#[test]
fn html_errors_are_counted() {
    let page = parse_html("<p>x");
    assert!(!page.errors.is_empty());
    let doc = HtmlExtractor.extract(&input("d.html", "<p>x")).unwrap();
    assert_eq!(shown(&doc), vec!["p x"]);
    assert_eq!(
        warned(&doc),
        vec![format!(
            "html.malformed: HTML parse errors ({}): {}",
            page.errors.len(),
            page.errors[0]
        )]
    );
    assert!(doc.title.is_none());
}

fn element(name: &str, children: Vec<HtmlNode>) -> HtmlElement {
    HtmlElement {
        name: name.into(),
        class: None,
        alt: None,
        children,
    }
}

fn text(s: &str) -> HtmlNode {
    HtmlNode::Text(s.into())
}

#[test]
fn parsed_html_is_read_as_given() {
    let i = input("d.html", "");
    let page = |body: Option<HtmlElement>| HtmlPage {
        errors: vec!["e1".into(), "e2".into()],
        title: Some(element(
            "title",
            vec![text(" a"), HtmlNode::Element(element("b", vec![text("b ")]))],
        )),
        body,
        root: element("html", vec![text("root"), HtmlNode::Other]),
    };
    let doc = read_html(&i, &page(None));
    assert_eq!(shown(&doc), vec!["p root"]);
    assert_eq!(
        warned(&doc),
        vec!["html.malformed: HTML parse errors (2): e1"]
    );
    assert_eq!(doc.title.as_deref(), Some("ab"));
    let body = element(
        "body",
        vec![HtmlNode::Element(element("H2", vec![text(" x ")]))],
    );
    assert_eq!(shown(&read_html(&i, &page(Some(body)))), vec!["h2 x"]);
}

#[test]
fn stripped_elements_do_not_matter() {
    let doc = |html: &str| shown(&HtmlExtractor.extract(&input("d.html", html)).unwrap());
    assert_eq!(
        doc("<!DOCTYPE html><title>t</title><body><aside>x<p>y</p></aside><p>z</p><footer>w</footer>"),
        doc("<!DOCTYPE html><title>t</title><body><p>z</p>")
    );
}

#[test]
fn html_templates_are_searched_but_not_read() {
    let read = |html: &str| {
        HtmlExtractor
            .extract(&input("d.html", &format!("<!DOCTYPE html><body>{html}")))
            .unwrap()
    };
    let list = read("<ul><template><li>A</li></template><li>B</li></ul>");
    assert_eq!(list.blocks.len(), 1);
    assert!(matches!(
        &list.blocks[0],
        Block::List { ordered: false, items } if items == &["A", "B"]
    ));
    let table = read("<table><tr><template><td>1</td></template><td>2</td></tr></table>");
    assert!(matches!(
        &table.blocks[0],
        Block::Table { rows, .. } if rows == &[vec!["1".to_string(), "2".to_string()]]
    ));
    let code = read("<pre>a<template><code class='language-rs'>c</code></template></pre>");
    assert!(matches!(
        &code.blocks[0],
        Block::Code { lang: Some(l), text } if l == "rs" && text == "c"
    ));
    let plain = read("<template><p>in</p>in</template><p>x<template>y</template>z</p>");
    assert_eq!(shown(&plain), vec!["p x z"]);
    let title = read("<svg><title>a<template>b<i>c</i></template>d</title></svg>");
    assert_eq!(title.title.as_deref(), Some("abcd"));
    assert_eq!(shown(&title), vec!["p a", "p d"]);
}
