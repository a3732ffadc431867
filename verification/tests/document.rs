use sempack::normalize::normalize_nfc;
use sempack::text::{collapsed, decimal_of, is_at_most, lowered, name_of, split_lines, split_words, trimmed};
use sempack::text_map::TextMap;
use sempack::{approx_tokens, Block, DocumentIr, Field, Metadata, SourceInfo};

fn document() -> DocumentIr {
    let mut d = DocumentIr::new(
        "id",
        SourceInfo {
            path: Some("p".into()),
            media_type: Some("m".into()),
            detected_format: "f".into(),
            bytes: 12,
        },
    );
    d.title = Some("cafe\u{301}".into());
    d.metadata.extra.insert("cafe\u{301}".into(), "e\u{301}".into());
    d.warn("w", "e\u{301}");
    d.push(Block::Document {
        children: vec![
            Block::Heading {
                level: 3,
                text: "h".into(),
            },
            Block::Section {
                children: vec![Block::Paragraph { text: "p".into() }],
            },
        ],
    });
    d.push(Block::List {
        ordered: true,
        items: vec!["a".into(), "b c".into()],
    });
    d.push(Block::Table {
        headers: vec!["x".into(), "y".into()],
        rows: vec![vec!["1".into(), "2".into()], vec![]],
    });
    d.push(Block::Record {
        fields: vec![Field {
            key: "k".into(),
            value: "v".into(),
        }],
    });
    d.push(Block::Code {
        lang: Some("l".into()),
        text: "c".into(),
    });
    d.push(Block::Quote { text: "q".into() });
    d.push(Block::Unsupported { note: "u".into() });
    d
}

#[test]
fn a_new_document_is_empty() {
    let d = DocumentIr::new(
        "id",
        SourceInfo {
            path: None,
            media_type: None,
            detected_format: "f".into(),
            bytes: 0,
        },
    );
    assert_eq!(d.id, "id");
    assert!(d.title.is_none());
    assert!(d.blocks.is_empty() && d.warnings.is_empty());
    assert!(d.metadata.extra.is_empty());
    assert!(Metadata::default().extra.is_empty());
    assert_eq!(d.plain_text(), "");
}

#[test]
fn plain_text_goes_through_every_block() {
    assert_eq!(
        document().plain_text(),
        "h\np\na\nb c\nx y\n1 2\n\nk: v\nc\nq\nu\n"
    );
    let mut s = String::from(">");
    Block::Quote { text: "q".into() }.write_text(&mut s);
    assert_eq!(s, ">q\n");
}

#[test]
fn plain_text_is_additive() {
    let d = document();
    let mut front = document();
    let mut back = document();
    front.blocks.truncate(3);
    back.blocks.drain(..3);
    assert_eq!(
        d.plain_text(),
        format!("{}{}", front.plain_text(), back.plain_text())
    );
}

#[test]
fn clones_are_equal() {
    let d = document();
    assert_eq!(format!("{:?}", d.clone()), format!("{d:?}"));
}

#[test]
fn normalization_composes_the_text_of_blocks() {
    // Every text of every block, and the title; nothing else.
    let blocks = |e: &str| {
        vec![
            Block::Heading {
                level: 1,
                text: e.into(),
            },
            Block::Paragraph { text: e.into() },
            Block::Quote { text: e.into() },
            Block::List {
                ordered: false,
                items: vec![e.into(), "x".into()],
            },
            Block::Code {
                lang: Some("e\u{301}".into()),
                text: e.into(),
            },
            Block::Table {
                headers: vec![e.into()],
                rows: vec![vec![e.into()]],
            },
            Block::Record {
                fields: vec![Field {
                    key: e.into(),
                    value: e.into(),
                }],
            },
            Block::Section {
                children: vec![Block::Document {
                    children: vec![Block::Paragraph { text: e.into() }],
                }],
            },
            Block::Unsupported { note: e.into() },
        ]
    };
    let mut d = document();
    d.blocks = blocks("e\u{301}");
    normalize_nfc(&mut d);
    assert_eq!(format!("{:?}", d.blocks), format!("{:?}", blocks("\u{e9}")));
    assert_eq!(d.title.as_deref(), Some("caf\u{e9}"));
    assert_eq!(d.warnings[0].message, "e\u{301}");
    assert_eq!(
        d.metadata.extra.get("cafe\u{301}").map(|s| s.as_str()),
        Some("e\u{301}")
    );
}

#[test]
fn maps_list_their_keys_in_order() {
    let mut m = TextMap::new();
    assert!(m.is_empty());
    assert_eq!(m.insert("b".into(), "1".into()), None);
    assert_eq!(m.insert("\u{e9}".into(), "2".into()), None);
    assert_eq!(m.insert("".into(), "3".into()), None);
    assert_eq!(m.insert("ba".into(), "4".into()), None);
    assert_eq!(m.insert("b".into(), "5".into()), Some("1".to_string()));
    assert_eq!(m.len(), 4);
    let keys: Vec<&str> = m.entries().iter().map(|e| e.0.as_str()).collect();
    assert_eq!(keys, vec!["", "b", "ba", "\u{e9}"]);
    assert_eq!(m.get("b").map(|s| s.as_str()), Some("5"));
    assert_eq!(m.get("a"), None);
    assert_eq!(format!("{:?}", m.clone().entries()), format!("{:?}", m.entries()));
}

#[test]
fn tokens_by_characters_and_words() {
    assert_eq!(approx_tokens("a"), 1);
    assert_eq!(approx_tokens("abcd"), 1);
    assert_eq!(approx_tokens("abcde"), 2);
    assert_eq!(approx_tokens("a b c d e"), 5);
    assert_eq!(approx_tokens("\u{e9}\u{e9}\u{e9}\u{e9}\u{e9}"), 2);
    assert_eq!(approx_tokens(" \n\t "), 1);
}

#[test]
fn collapsing_twice_is_collapsing_once() {
    let s = "\u{2003}a\u{85} b\u{b}\u{c}\u{1680}c \u{3000}";
    let once = collapsed(s);
    assert_eq!(once, "a b c");
    assert_eq!(collapsed(&once), once);
}

#[test]
fn strings_are_handled_as_std_does() {
    let samples = [
        "",
        " ",
        "\n",
        "\r\n",
        "a\r",
        "a\r\nb\n\nc",
        "a\r\r\n",
        "\u{a0}x\u{200b}y\u{2028}z\u{feff} ",
        "\u{180e}m\u{205f}n\u{202f}",
        "tab\tnl\nend\n",
        "A\u{c9}\u{130}z",
        "dir\\a/b.txt",
        "a/",
        "noslash",
    ];
    for s in samples {
        assert_eq!(split_lines(s), s.lines().collect::<Vec<_>>(), "{s:?}");
        assert_eq!(split_words(s), s.split_whitespace().collect::<Vec<_>>(), "{s:?}");
        assert_eq!(trimmed(s), s.trim(), "{s:?}");
        assert_eq!(lowered(s), s.to_ascii_lowercase(), "{s:?}");
        assert_eq!(name_of(s), s.rsplit(['/', '\\']).next().unwrap(), "{s:?}");
        for t in samples {
            assert_eq!(is_at_most(s, t), s <= t, "{s:?} {t:?}");
        }
    }
    for n in [0u128, 7, 10, 909, u64::MAX as u128, u128::MAX] {
        assert_eq!(decimal_of(n), n.to_string());
    }
    for c in (0..0x11_0000u32).filter_map(char::from_u32) {
        assert_eq!(sempack::text::is_whitespace(c), c.is_whitespace(), "{c:?}");
    }
}
