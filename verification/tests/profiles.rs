use sempack::reducers::cleanup::{collapse_ws, drop_empty, drop_repeats, merge_paragraphs};
use sempack::reducers::trim::{is_record_outlier, is_table_row_outlier, sentinel_text, trim_data_rows};
use sempack::reducers::COMPACT_MERGE_LIMIT;
use sempack::{
    Block, CompactReducer, DocumentIr, Field, HumanReducer, LlmReducer, Reducer, SourceInfo,
};

fn doc(format: &str, blocks: Vec<Block>) -> DocumentIr {
    let mut d = DocumentIr::new(
        "t",
        SourceInfo {
            path: Some("p".into()),
            media_type: None,
            detected_format: format.into(),
            bytes: 3,
        },
    );
    d.title = Some("  title  ".into());
    d.metadata.extra.insert("format".into(), format.into());
    d.warn("w", "  kept  ");
    d.blocks = blocks;
    d
}

fn p(text: &str) -> Block {
    Block::Paragraph { text: text.into() }
}

fn q(text: &str) -> Block {
    Block::Quote { text: text.into() }
}

fn h(text: &str) -> Block {
    Block::Heading {
        level: 1,
        text: text.into(),
    }
}

fn record(value: &str) -> Block {
    Block::Record {
        fields: vec![Field {
            key: "k".into(),
            value: value.into(),
        }],
    }
}

fn table(rows: usize) -> Block {
    Block::Table {
        headers: vec!["  h  ".into()],
        rows: (0..rows).map(|i| vec![i.to_string()]).collect(),
    }
}

fn shown(d: &DocumentIr) -> Vec<String> {
    blocks_shown(&d.blocks)
}

fn blocks_shown(bs: &[Block]) -> Vec<String> {
    bs.iter()
        .map(|b| match b {
            Block::Paragraph { text } => format!("p:{text}"),
            Block::Heading { text, .. } => format!("h:{text}"),
            Block::Quote { text } => format!("q:{text}"),
            Block::List { items, .. } => format!("l:{}", items.join("/")),
            Block::Code { text, .. } => format!("c:{text}"),
            Block::Table { rows, .. } => format!("t:{}", rows.len()),
            Block::Record { fields } => format!("r:{}", fields[0].value),
            other => format!("{other:?}"),
        })
        .collect()
}

#[test]
fn human_cleans_prose_and_keeps_structure() {
    let mut d = doc(
        "json",
        vec![
            h(" a \u{2003} b "),
            q(" \t"),
            p("\u{a0}\n"),
            Block::List {
                ordered: true,
                items: vec![" x  y ".into(), "  ".into()],
            },
            Block::List {
                ordered: false,
                items: vec!["".into()],
            },
            Block::Code {
                lang: None,
                text: "  keep  ".into(),
            },
            Block::Code {
                lang: None,
                text: "".into(),
            },
            table(30),
            Block::Section {
                children: vec![p("  not  entered  "), p("")],
            },
            Block::Unsupported { note: "".into() },
        ],
    );
    HumanReducer.reduce(&mut d).unwrap();
    assert_eq!(
        shown(&d),
        vec![
            "h:a b".to_string(),
            "l:x y".to_string(),
            "c:  keep  ".to_string(),
            "c:".to_string(),
            "t:30".to_string(),
            format!(
                "{:?}",
                Block::Section {
                    children: vec![p("  not  entered  "), p("")],
                }
            ),
            format!("{:?}", Block::Unsupported { note: "".into() }),
        ]
    );
    // The rest of the document is left alone.
    assert_eq!(d.title.as_deref(), Some("  title  "));
    assert_eq!(d.warnings[0].message, "  kept  ");
    assert_eq!(d.source.path.as_deref(), Some("p"));
}

#[test]
fn human_twice_is_human_once() {
    let mut d = doc(
        "markdown",
        vec![p(" a  b "), p(" "), q("x\ny"), h("  z"), table(2)],
    );
    HumanReducer.reduce(&mut d).unwrap();
    let once = shown(&d);
    HumanReducer.reduce(&mut d).unwrap();
    assert_eq!(shown(&d), once);
    assert_eq!(once, vec!["p:a b", "q:x y", "h:z", "t:2"]);
}

#[test]
fn llm_folds_quotes_and_merges_all_neighbours() {
    let long = "x".repeat(300);
    let mut d = doc(
        "markdown",
        vec![p("a"), q("b"), p(" "), p(&long), h("t"), q("c"), p("d")],
    );
    LlmReducer.reduce(&mut d).unwrap();
    assert_eq!(
        shown(&d),
        vec![format!("p:a b {long}"), "h:t".to_string(), "p:c d".to_string()]
    );
}

#[test]
fn llm_twice_is_llm_once_where_nothing_is_trimmed() {
    let mut d = doc("csv", vec![p("a"), q(" b  c"), h("t"), p("d"), table(40)]);
    LlmReducer.reduce(&mut d).unwrap();
    let once = shown(&d);
    LlmReducer.reduce(&mut d).unwrap();
    assert_eq!(shown(&d), once);
}

#[test]
fn compact_merges_below_the_limit_only() {
    // The space between counts: 99 + 1 + 99 is below the limit, 99 + 1 + 100 is not.
    assert_eq!(COMPACT_MERGE_LIMIT, 200);
    let a = "a".repeat(99);
    let b = "\u{e9}".repeat(99);
    let c = "c".repeat(100);
    let mut d = doc("markdown", vec![p(&a), p(&b)]);
    CompactReducer.reduce(&mut d).unwrap();
    assert_eq!(d.blocks.len(), 1);
    let mut e = doc("markdown", vec![p(&a), p(&c)]);
    CompactReducer.reduce(&mut e).unwrap();
    assert_eq!(e.blocks.len(), 2);
}

#[test]
fn compact_drops_repeats_before_it_merges() {
    let mut d = doc(
        "markdown",
        vec![p("a"), h("t"), p(" a "), q("a"), p("b"), h("t"), p("a b")],
    );
    CompactReducer.reduce(&mut d).unwrap();
    assert_eq!(shown(&d), vec!["p:a", "h:t", "p:b", "h:t", "p:a b"]);
}

#[test]
fn tighter_profiles_leave_fewer_blocks() {
    let blocks = || vec![p("a"), p("b"), q("c"), h("t"), p("a"), table(25), record("x")];
    let mut human = doc("markdown", blocks());
    HumanReducer.reduce(&mut human).unwrap();
    let mut llm = doc("markdown", blocks());
    LlmReducer.reduce(&mut llm).unwrap();
    let mut compact = doc("markdown", blocks());
    CompactReducer.reduce(&mut compact).unwrap();
    assert_eq!(human.blocks.len(), 7);
    assert_eq!(shown(&llm), vec!["p:a b c", "h:t", "p:a", "t:25", "r:x"]);
    assert_eq!(shown(&compact), vec!["p:a b", "h:t", "t:25", "r:x"]);
}

#[test]
fn steps_by_themselves() {
    assert_eq!(
        blocks_shown(&collapse_ws(vec![p("  "), h(" a\tb ")])),
        vec!["p:", "h:a b"]
    );
    assert_eq!(blocks_shown(&drop_empty(vec![p(" "), p("x")])), vec!["p:x"]);
    assert_eq!(
        blocks_shown(&drop_repeats(vec![p("x"), q("x"), p("x"), h("x"), h("x")])),
        vec!["p:x", "q:x", "h:x", "h:x"]
    );
    assert_eq!(
        blocks_shown(&merge_paragraphs(vec![p("aa"), p("bb"), p("c")], Some(6))),
        vec!["p:aa bb", "p:c"]
    );
}

#[test]
fn each_kind_of_outlier_is_found() {
    let row = |v: &str| vec!["ok".to_string(), v.to_string()];
    for v in [
        "ERROR 5",
        "it Failed",
        "NullPointerException",
        "null",
        "NULL",
    ] {
        assert!(is_table_row_outlier(&row(v)), "{v}");
    }
    for v in ["", "nullable", "err", "excepted", "fai l"] {
        assert!(!is_table_row_outlier(&row(v)), "{v}");
    }
    assert!(!is_table_row_outlier(&Vec::new()));
    let fields = |key: &str, value: &str| {
        vec![Field {
            key: key.into(),
            value: value.into(),
        }]
    };
    assert!(is_record_outlier(&fields("x", "Null")));
    assert!(!is_record_outlier(&fields("error", "fine")));
}

#[test]
fn sentinel_says_what_is_left_out() {
    assert_eq!(
        sentinel_text(30, 21, 1),
        "[9 rows omitted \u{2014} 21 shown including 1 outlier row]"
    );
    assert_eq!(
        sentinel_text(5, 5, 0),
        "[0 rows omitted \u{2014} 5 shown including 0 outlier rows]"
    );
    assert_eq!(
        sentinel_text(1, 4, 2),
        "[0 rows omitted \u{2014} 4 shown including 2 outlier rows]"
    );
}

#[test]
fn each_run_of_records_is_trimmed_by_itself() {
    let blocks = vec![
        record("1"),
        record("2"),
        record("3"),
        p("between"),
        record("4"),
        record("5"),
        table(3),
        record("6"),
        record("7"),
        record("fail"),
        record("8"),
    ];
    assert_eq!(
        blocks_shown(&trim_data_rows(blocks, 2)),
        vec![
            "r:1",
            "r:2",
            "p:[1 rows omitted \u{2014} 2 shown including 0 outlier rows]",
            "p:between",
            "r:4",
            "r:5",
            "t:2",
            "p:[1 rows omitted \u{2014} 2 shown including 0 outlier rows]",
            "r:6",
            "r:7",
            "r:fail",
            "p:[1 rows omitted \u{2014} 3 shown including 1 outlier row]",
        ]
    );
}

#[test]
fn short_arrays_are_kept() {
    let blocks = vec![record("1"), table(2), record("2"), record("3"), h("x")];
    let before = blocks_shown(&blocks);
    assert_eq!(blocks_shown(&trim_data_rows(blocks, 2)), before);
    assert!(trim_data_rows(Vec::new(), 0).is_empty());
}

#[test]
fn only_json_is_trimmed() {
    for format in ["csv", "tsv", "psv", "xml", "markdown", "ndjson", "JSON"] {
        for blocks in [
            vec![table(50)],
            (0..50).map(|i| record(&i.to_string())).collect(),
        ] {
            let n = blocks.len();
            let mut d = doc(format, blocks);
            CompactReducer.reduce(&mut d).unwrap();
            assert_eq!(d.blocks.len(), n, "{format}");
        }
    }
    let mut d = doc("json", vec![p("a"), table(11), p("b")]);
    CompactReducer.reduce(&mut d).unwrap();
    assert_eq!(
        shown(&d),
        vec![
            "p:a",
            "t:10",
            "p:[1 rows omitted \u{2014} 10 shown including 0 outlier rows]",
            "p:b"
        ]
    );
    // Without the metadata entry nothing is trimmed either.
    let mut e = DocumentIr::new(
        "t",
        SourceInfo {
            path: None,
            media_type: None,
            detected_format: "json".into(),
            bytes: 0,
        },
    );
    e.blocks = vec![table(50)];
    LlmReducer.reduce(&mut e).unwrap();
    assert_eq!(shown(&e), vec!["t:50"]);
}
