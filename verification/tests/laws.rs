use sempack::bridge::json::{parse_json, Json};
use sempack::builtin::registry;
use sempack::emitters::html::{emit_html, esc};
use sempack::emitters::markdown::emit_md;
use sempack::emitters::plain::emit_text;
use sempack::normalize::{normalize_block, normalize_nfc};
use sempack::text::split_words;
use sempack::{
    approx_tokens, detect, run, Block, CompactReducer, DocumentIr, Emitter, Error, Extractor,
    Field, HtmlEmitter, HumanReducer, Input, JsonlEmitter, LlmReducer, MarkdownEmitter,
    JsonlExtractor, MarkdownExtractor, NdjsonEmitter, OutputFormat, Profile, Reducer, Registry,
    SourceInfo, SvgExtractor, TextExtractor, XmlExtractor,
};
use std::str::FromStr;

fn document(format: &str, blocks: Vec<Block>) -> DocumentIr {
    let mut d = DocumentIr::new(
        "id",
        SourceInfo {
            path: None,
            media_type: None,
            detected_format: format.into(),
            bytes: 1,
        },
    );
    d.metadata.extra.insert("format".into(), format.into());
    d.blocks = blocks;
    d
}

fn paragraph(text: &str) -> Block {
    Block::Paragraph { text: text.into() }
}

fn quote(text: &str) -> Block {
    Block::Quote { text: text.into() }
}

fn list(items: &[&str]) -> Block {
    Block::List {
        ordered: false,
        items: items.iter().map(|s| s.to_string()).collect(),
    }
}

fn mixed(format: &str) -> DocumentIr {
    document(
        format,
        vec![
            Block::Heading {
                level: 2,
                text: "  Some \n heading ".into(),
            },
            paragraph("first\tparagraph"),
            paragraph("   "),
            quote(" quoted  words "),
            quote("\u{2003}"),
            paragraph("first paragraph"),
            list(&[" a  b ", "", "c"]),
            list(&[" ", "\u{a0}"]),
            Block::Code {
                lang: None,
                text: "  code  \n".into(),
            },
            Block::Table {
                headers: vec!["h".into()],
                rows: (0..25).map(|i| vec![i.to_string()]).collect(),
            },
        ],
    )
}

fn reduced(r: &dyn Reducer, mut d: DocumentIr) -> DocumentIr {
    r.reduce(&mut d).unwrap();
    d
}

fn shown(d: &DocumentIr) -> String {
    format!("{:?}", d.blocks)
}

#[test]
fn tighter_profiles_build_on_human() {
    for format in ["markdown", "json"] {
        for r in [&LlmReducer as &dyn Reducer, &CompactReducer] {
            let after_human = reduced(r, reduced(&HumanReducer, mixed(format)));
            assert_eq!(shown(&after_human), shown(&reduced(r, mixed(format))));
        }
    }
}

#[test]
fn no_profile_leaves_an_empty_block() {
    for format in ["markdown", "json"] {
        for r in [&HumanReducer as &dyn Reducer, &LlmReducer, &CompactReducer] {
            for b in reduced(r, mixed(format)).blocks {
                match b {
                    Block::Paragraph { text } | Block::Quote { text } => {
                        assert!(!text.trim().is_empty())
                    }
                    Block::List { items, .. } => {
                        assert!(!items.is_empty());
                        assert!(items.iter().all(|i| !i.is_empty()));
                    }
                    _ => {}
                }
            }
        }
    }
}

#[test]
fn human_and_llm_keep_every_word() {
    let before = mixed("markdown").plain_text();
    for r in [&HumanReducer as &dyn Reducer, &LlmReducer] {
        let after = reduced(r, mixed("markdown")).plain_text();
        assert_eq!(split_words(&after), split_words(&before));
        assert!(after.chars().count() <= before.chars().count());
        assert!(approx_tokens(&after) <= approx_tokens(&before));
    }
}

#[test]
fn compact_adds_nothing() {
    let before = mixed("markdown").plain_text();
    let after = reduced(&CompactReducer, mixed("markdown")).plain_text();
    assert!(split_words(&after).len() < split_words(&before).len());
    assert!(after.len() < before.len());
    assert!(approx_tokens(&after) < approx_tokens(&before));
}

#[test]
fn markdown_reads_back() {
    let blocks = vec![
        Block::Heading {
            level: 1,
            text: "A # title".into(),
        },
        paragraph("Some *text* - with 1. things > in it"),
        paragraph("#hash"),
        quote("# not a heading"),
        list(&["one", "- two"]),
        Block::List {
            ordered: true,
            items: (1..=11).map(|i| format!("item {i}")).collect(),
        },
        list(&["next to a list"]),
        Block::Code {
            lang: Some("rust".into()),
            text: "fn a() {\n\n    # kept\n}\n".into(),
        },
        Block::Code {
            lang: None,
            text: "\n".into(),
        },
        Block::Heading {
            level: 6,
            text: "end".into(),
        },
    ];
    let written = MarkdownEmitter.emit(&document("markdown", blocks.clone())).unwrap();
    let bytes = written.into_bytes();
    let read = MarkdownExtractor
        .extract(&Input {
            path: None,
            detected: detect(None, &bytes),
            bytes,
        })
        .unwrap();
    assert_eq!(format!("{:?}", read.blocks), format!("{blocks:?}"));
    assert_eq!(read.title.as_deref(), Some("A # title"));
}

#[test]
fn an_empty_document_reads_back_from_markdown() {
    let bytes = MarkdownEmitter.emit(&document("markdown", vec![])).unwrap().into_bytes();
    assert_eq!(bytes, b"\n");
    let read = MarkdownExtractor
        .extract(&Input {
            path: None,
            detected: detect(None, &bytes),
            bytes,
        })
        .unwrap();
    assert!(read.blocks.is_empty());
}

#[test]
fn json_output_loses_nothing() {
    let field = |k: &str, v: &str| Field {
        key: k.into(),
        value: v.into(),
    };
    let blocks = vec![
        paragraph(""),
        paragraph("\""),
        paragraph("\\\""),
        quote(""),
        list(&[]),
        list(&[""]),
        list(&["", ""]),
        list(&["\",\""]),
        Block::Record { fields: vec![] },
        Block::Record {
            fields: vec![field("a", "b"), field("c", "d")],
        },
        Block::Record {
            fields: vec![field("a", "b\"},{\"key\":\"c\",\"value\":\"d")],
        },
        Block::Heading {
            level: 1,
            text: "x".into(),
        },
        Block::Heading {
            level: 11,
            text: "x".into(),
        },
        Block::Code {
            lang: None,
            text: "x".into(),
        },
        Block::Code {
            lang: Some("".into()),
            text: "x".into(),
        },
        Block::Section { children: vec![] },
        Block::Section {
            children: vec![Block::Section { children: vec![] }],
        },
    ];
    let written: Vec<String> = blocks
        .iter()
        .map(|b| {
            let out = JsonlEmitter.emit(&document("f", vec![b.clone()])).unwrap();
            out.lines().nth(1).unwrap().to_string()
        })
        .collect();
    for i in 0..written.len() {
        for j in 0..i {
            assert_ne!(written[i], written[j]);
        }
    }
    let base = NdjsonEmitter.emit(&document("f", vec![])).unwrap();
    let mut titled = document("f", vec![]);
    titled.title = Some("".into());
    let mut noted = document("f", vec![]);
    noted.metadata.extra.insert("k".into(), "v".into());
    let mut warned = document("f", vec![]);
    warned.warn("", "");
    for d in [titled, noted, warned, document("f", vec![paragraph("")])] {
        assert_ne!(NdjsonEmitter.emit(&d).unwrap(), base);
    }
}

#[test]
fn escaping_loses_nothing() {
    let texts = ["<", "&lt;", "&amp;lt;", "&", "&amp;", ">", "&gt;", ""];
    for a in texts {
        for b in texts {
            assert_eq!(esc(a) == esc(b), a == b);
        }
    }
}

#[test]
fn names_ignore_case() {
    for (a, b) in [("LLM", "llm"), ("Human", "hUMAN"), ("NoPe", "nope")] {
        assert_eq!(Profile::from_str(a), Profile::from_str(b));
    }
    for (a, b) in [("MD", "md"), ("HtMl", "html"), ("Pdf", "pDF")] {
        assert_eq!(OutputFormat::from_str(a), OutputFormat::from_str(b));
    }
}

#[test]
fn only_text_is_routed() {
    let sent = |path: Option<&str>, bytes: &[u8]| {
        let input = Input {
            path: path.map(|p| p.to_string()),
            bytes: bytes.to_vec(),
            detected: detect(path, bytes),
        };
        let reg = Registry::new().extractor(TextExtractor);
        run(&reg, input, Profile::Human, OutputFormat::Text)
    };
    assert!(matches!(
        sent(Some("a.gif"), b"text"),
        Err(Error::ImagePipelineUnavailable)
    ));
    assert!(matches!(
        sent(Some("a.bin"), b"\xff"),
        Err(Error::UnsupportedInput(_))
    ));
    assert!(matches!(
        sent(Some("a.bin"), b"text"),
        Err(Error::NoReducer(Profile::Human))
    ));
}

#[test]
fn builtin_plugins_are_found_by_name() {
    let reg = registry();
    for f in [
        "markdown", "text", "html", "xml", "svg", "json", "jsonl", "csv", "tsv", "psv",
    ] {
        assert_eq!(reg.find_extractor(f).unwrap().name(), f);
    }
    assert_eq!(reg.find_extractor("ndjson").unwrap().name(), "jsonl");
    assert!(reg.find_extractor("pdf").is_none());
    for (p, name) in [
        (Profile::Human, "human"),
        (Profile::Llm, "llm"),
        (Profile::Compact, "compact"),
    ] {
        assert_eq!(reg.find_reducer(p).unwrap().name(), name);
    }
    assert!(reg.find_reducer(Profile::Debug).is_none());
    for (f, name) in [
        (OutputFormat::Markdown, "markdown"),
        (OutputFormat::Jsonl, "jsonl"),
        (OutputFormat::Ndjson, "ndjson"),
        (OutputFormat::Text, "text"),
        (OutputFormat::Html, "html"),
    ] {
        let e = reg.find_emitter(f).unwrap();
        assert_eq!(e.name(), name);
        assert_eq!(e.format(), f);
    }
}

#[test]
fn windows_line_ends_make_no_difference() {
    let blocks = |text: &str| {
        let bytes = text.as_bytes().to_vec();
        let doc = TextExtractor
            .extract(&Input {
                path: None,
                detected: detect(None, &bytes),
                bytes,
            })
            .unwrap();
        shown(&doc)
    };
    for text in ["a\nb\n\nc", "a\r\n\r\nb", "\r\n \r\rx\ny\r", ""] {
        assert_eq!(blocks(&text.replace('\n', "\r\n")), blocks(text));
    }
}

#[test]
fn escaped_text_is_additive_and_reads_back() {
    let texts = ["<a href=\"x\">", "&lt;", "&&amp;", "a > b & c", "", "&l", "t;"];
    for a in texts {
        let back = esc(a)
            .replace("&lt;", "<")
            .replace("&gt;", ">")
            .replace("&amp;", "&");
        assert_eq!(back, a);
        for b in texts {
            assert_eq!(esc(&format!("{a}{b}")), format!("{}{}", esc(a), esc(b)));
        }
    }
    assert_eq!(esc("&lt;"), "&amp;lt;");
}

#[test]
fn brackets_depend_on_shape() {
    let page = |t: &str, level: u8| {
        let mut d = document(
            "f",
            vec![
                Block::Heading {
                    level,
                    text: t.into(),
                },
                paragraph(t),
                quote(t),
                list(&[t, t]),
                Block::Table {
                    headers: vec![t.into()],
                    rows: vec![vec![t.into(), t.into()]],
                },
                Block::Record {
                    fields: vec![Field {
                        key: t.into(),
                        value: t.into(),
                    }],
                },
                Block::Section {
                    children: vec![Block::Code {
                        lang: None,
                        text: t.into(),
                    }],
                },
                Block::Unsupported { note: t.into() },
            ],
        );
        d.title = Some(t.into());
        HtmlEmitter.emit(&d).unwrap()
    };
    let plain = page("x", 1);
    let hostile = page("--></script><p>", 200);
    for c in ['<', '>'] {
        assert_eq!(plain.matches(c).count(), hostile.matches(c).count());
    }
}

#[test]
fn containers_are_written_as_their_children() {
    let inner = vec![paragraph("a"), list(&["b"])];
    let nested = document(
        "f",
        vec![
            Block::Section {
                children: inner.clone(),
            },
            Block::Document { children: vec![] },
            paragraph("c"),
        ],
    );
    let mut flat = inner;
    flat.push(paragraph("c"));
    let flat = document("f", flat);
    assert_eq!(
        MarkdownEmitter.emit(&nested).unwrap(),
        MarkdownEmitter.emit(&flat).unwrap()
    );
    assert_eq!(
        HtmlEmitter.emit(&nested).unwrap(),
        HtmlEmitter.emit(&flat).unwrap()
    );
}

#[test]
fn compact_shows_every_paragraph_and_keeps_the_rest() {
    let human = reduced(&HumanReducer, mixed("markdown"));
    for r in [&LlmReducer as &dyn Reducer, &CompactReducer] {
        let tight = reduced(r, mixed("markdown"));
        for b in &human.blocks {
            if let Block::Paragraph { text } = b {
                assert!(tight
                    .blocks
                    .iter()
                    .any(|c| matches!(c, Block::Paragraph { text: t } if t.contains(text))));
            }
        }
        let rest = |d: &DocumentIr| {
            let kept: Vec<&Block> = d
                .blocks
                .iter()
                .filter(|b| !matches!(b, Block::Paragraph { .. } | Block::Quote { .. }))
                .collect();
            format!("{kept:?}")
        };
        assert_eq!(rest(&tight), rest(&human));
    }
}

#[test]
fn xml_records_have_one_of_three_key_lists() {
    let bytes = b"<r><a>t</a><b k='v'>u</b><c k='v'/><d/><e k='v'></e></r>".to_vec();
    let doc = XmlExtractor
        .extract(&Input {
            path: None,
            detected: detect(Some("x.xml"), &bytes),
            bytes,
        })
        .unwrap();
    let keys: Vec<String> = doc
        .blocks
        .iter()
        .map(|b| match b {
            Block::Record { fields } => fields
                .iter()
                .map(|f| f.key.as_str())
                .collect::<Vec<_>>()
                .join("/"),
            other => panic!("{other:?}"),
        })
        .collect();
    assert_eq!(keys, vec!["tag/text", "tag/text/attrs", "tag/attrs"]);
}

#[test]
fn normalizing_twice_is_normalizing_once() {
    let mut d = document(
        "f",
        vec![
            paragraph("e\u{301}\u{327} \u{1100}\u{1161}\u{11a8} \u{212b}"),
            list(&["\u{301}a\u{30a}", "\u{fb01}"]),
        ],
    );
    d.title = Some("o\u{302}\u{301}".into());
    normalize_nfc(&mut d);
    let once = format!("{d:?}");
    normalize_nfc(&mut d);
    assert_eq!(format!("{d:?}"), once);
    assert_eq!(d.title.as_deref(), Some("\u{1ed1}"));
}

#[test]
fn keys_of_parsed_objects_ascend() {
    match parse_json(r#"{"b":1,"":2,"a":3,"\u00e9":4,"B":5,"a":6,"ab":7}"#).unwrap() {
        Json::Object { members, .. } => {
            let keys: Vec<&str> = members.iter().map(|m| m.key.as_str()).collect();
            assert_eq!(keys, vec!["", "B", "a", "ab", "b", "\u{e9}"]);
        }
        other => panic!("{other:?}"),
    }
}

fn text_of(v: &serde_json::Value) -> String {
    v.as_str().unwrap().to_string()
}

fn texts_of(v: &serde_json::Value) -> Vec<String> {
    v.as_array().unwrap().iter().map(text_of).collect()
}

fn block_of(v: &serde_json::Value) -> Block {
    let children = || v["children"].as_array().unwrap().iter().map(block_of).collect();
    match v["kind"].as_str().unwrap() {
        "document" => Block::Document {
            children: children(),
        },
        "section" => Block::Section {
            children: children(),
        },
        "heading" => Block::Heading {
            level: v["level"].as_u64().unwrap() as u8,
            text: text_of(&v["text"]),
        },
        "paragraph" => paragraph(v["text"].as_str().unwrap()),
        "quote" => quote(v["text"].as_str().unwrap()),
        "list" => Block::List {
            ordered: v["ordered"].as_bool().unwrap(),
            items: texts_of(&v["items"]),
        },
        "table" => Block::Table {
            headers: texts_of(&v["headers"]),
            rows: v["rows"].as_array().unwrap().iter().map(texts_of).collect(),
        },
        "record" => Block::Record {
            fields: v["fields"]
                .as_array()
                .unwrap()
                .iter()
                .map(|f| Field {
                    key: text_of(&f["key"]),
                    value: text_of(&f["value"]),
                })
                .collect(),
        },
        "code" => Block::Code {
            lang: v["lang"].as_str().map(|s| s.to_string()),
            text: text_of(&v["text"]),
        },
        "unsupported" => Block::Unsupported {
            note: text_of(&v["note"]),
        },
        other => panic!("{other}"),
    }
}

#[test]
fn ndjson_reads_back() {
    let mut d = mixed("markdown");
    d.title = Some("\"quoted\" \u{1f600}\n".into());
    d.source.path = Some("a\\b".into());
    d.warn("code", "message\u{0}");
    d.push(Block::Section {
        children: vec![
            Block::Document { children: vec![] },
            Block::Record {
                fields: vec![Field {
                    key: "k".into(),
                    value: "v\t".into(),
                }],
            },
            Block::Code {
                lang: Some("l".into()),
                text: "".into(),
            },
            Block::Unsupported { note: "n".into() },
        ],
    });
    let line = NdjsonEmitter.emit(&d).unwrap();
    assert_eq!(line.matches('\n').count(), 1);
    let v: serde_json::Value = serde_json::from_str(&line).unwrap();
    let mut back = DocumentIr::new(
        v["id"].as_str().unwrap(),
        SourceInfo {
            path: v["source"]["path"].as_str().map(|s| s.to_string()),
            media_type: v["source"]["media_type"].as_str().map(|s| s.to_string()),
            detected_format: text_of(&v["source"]["detected_format"]),
            bytes: v["source"]["bytes"].as_u64().unwrap(),
        },
    );
    back.title = v["title"].as_str().map(|s| s.to_string());
    for (k, x) in v["metadata"]["extra"].as_object().unwrap() {
        back.metadata.extra.insert(k.clone(), text_of(x));
    }
    back.blocks = v["blocks"].as_array().unwrap().iter().map(block_of).collect();
    for w in v["warnings"].as_array().unwrap() {
        back.warn(w["code"].as_str().unwrap(), w["message"].as_str().unwrap());
    }
    assert_eq!(format!("{back:?}"), format!("{d:?}"));
}

#[test]
fn bad_lines_leave_the_others() {
    let read = |text: &str| {
        let bytes = text.as_bytes().to_vec();
        JsonlExtractor
            .extract(&Input {
                path: None,
                detected: detect(Some("x.jsonl"), &bytes),
                bytes,
            })
            .unwrap()
    };
    let bad = read("{\"a\":1}\n{oops\n2\n[\n\"x\"\n");
    let blank = read("{\"a\":1}\n\n2\n \n\"x\"\n");
    assert_eq!(shown(&bad), shown(&blank));
    assert_eq!(bad.blocks.len(), 3);
    assert!(blank.warnings.is_empty());
    let starts: Vec<&str> = bad
        .warnings
        .iter()
        .map(|w| w.message.split(':').next().unwrap())
        .collect();
    assert_eq!(starts, vec!["line 2", "line 4"]);
}

#[test]
fn svg_paragraphs_are_trimmed() {
    let bytes =
        b"<svg><title> a  b </title><g aria-label='\n c '/><desc> \t</desc><text> d</text></svg>"
            .to_vec();
    let doc = SvgExtractor
        .extract(&Input {
            path: None,
            detected: detect(Some("x.svg"), &bytes),
            bytes,
        })
        .unwrap();
    let texts: Vec<&str> = doc
        .blocks
        .iter()
        .map(|b| match b {
            Block::Paragraph { text } => text.as_str(),
            other => panic!("{other:?}"),
        })
        .collect();
    assert!(texts.iter().all(|t| !t.is_empty() && t.trim() == *t));
    assert_eq!(texts, vec!["a  b", "c", "d"]);
}

#[test]
fn blocks_are_normalized_in_place() {
    let mut b = Block::Section {
        children: vec![
            Block::Heading {
                level: 9,
                text: "e\u{301}".into(),
            },
            Block::Code {
                lang: Some("e\u{301}".into()),
                text: "\u{212b}".into(),
            },
            Block::Table {
                headers: vec!["o\u{302}".into()],
                rows: vec![vec!["a".into(), "n\u{303}".into()], vec![]],
            },
            Block::Record {
                fields: vec![Field {
                    key: "u\u{308}".into(),
                    value: "c\u{327}".into(),
                }],
            },
        ],
    };
    normalize_block(&mut b);
    let once = format!("{b:?}");
    assert_eq!(
        once,
        format!(
            "{:?}",
            Block::Section {
                children: vec![
                    Block::Heading {
                        level: 9,
                        text: "\u{e9}".into(),
                    },
                    Block::Code {
                        lang: Some("e\u{301}".into()),
                        text: "\u{c5}".into(),
                    },
                    Block::Table {
                        headers: vec!["\u{f4}".into()],
                        rows: vec![vec!["a".into(), "\u{f1}".into()], vec![]],
                    },
                    Block::Record {
                        fields: vec![Field {
                            key: "\u{fc}".into(),
                            value: "\u{e7}".into(),
                        }],
                    },
                ],
            }
        )
    );
    normalize_block(&mut b);
    assert_eq!(format!("{b:?}"), once);
}

#[test]
fn writing_appends() {
    let b = Block::Section {
        children: vec![paragraph("a<"), Block::Section { children: vec![] }, quote("b")],
    };
    let mut o = "x".to_string();
    emit_md(&b, &mut o);
    assert_eq!(o, "xa<\n\n> b\n\n");
    let mut o = "x".to_string();
    emit_html(&b, &mut o);
    assert_eq!(o, "x<p>a&lt;</p>\n<blockquote>b</blockquote>\n");
    let mut o = "x".to_string();
    emit_text(&b, &mut o);
    assert_eq!(o, "xa<\n\nb\n\n");
}
