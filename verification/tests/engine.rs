use sempack::builtin::registry;
use sempack::ir::DocumentView;
use sempack::plugin::{
    Emission, Emitter, Extraction, Extractor, FormatKeys, Input, InputView, PluginName, Reducer,
    Reduction,
};
use sempack::registry::{
    EmitterSlot, ExtractorSlot, PlugEmitter, PlugExtractor, PlugReducer, ReducerSlot,
};
use sempack::{
    detect, run, Block, ContentClass, Detected, DocumentIr, Error, HumanReducer, LlmReducer,
    MarkdownEmitter, OutputFormat, Profile, Registry, SourceInfo, TextEmitter, TextExtractor,
};

fn input(name: &str, body: &str) -> Input {
    let bytes = body.as_bytes().to_vec();
    let detected = detect(Some(name), &bytes);
    Input {
        path: Some(name.to_string()),
        bytes,
        detected,
    }
}

fn keyed(key: &str, class: ContentClass) -> Input {
    Input {
        path: None,
        bytes: b"hello".to_vec(),
        detected: Detected {
            format: key.to_string(),
            media_type: None,
            class,
        },
    }
}

/// An extractor that says its own name, for two formats.
struct Named(&'static str);

impl Extractor for Named {
    fn named(&self) -> PluginName {
        unreachable!()
    }
    fn handles(&self) -> FormatKeys {
        unreachable!()
    }
    fn extracts(&self, _: InputView, _: Extraction) -> bool {
        unreachable!()
    }
    fn name(&self) -> &'static str {
        self.0
    }
    fn formats(&self) -> &'static [&'static str] {
        &["odd", "text"]
    }
    fn extract(&self, _input: &Input) -> sempack::Result<DocumentIr> {
        let mut doc = DocumentIr::new(
            "n",
            SourceInfo {
                path: None,
                media_type: None,
                detected_format: "odd".into(),
                bytes: 0,
            },
        );
        doc.push(Block::Paragraph { text: self.0.into() });
        doc.warn("named", "by name");
        Ok(doc)
    }
}

impl PlugExtractor for Named {
    fn plug(self) -> ExtractorSlot {
        ExtractorSlot {
            plugin: Box::new(self),
        }
    }
}

/// Fails in every stage.
struct Broken;

impl Extractor for Broken {
    fn named(&self) -> PluginName {
        unreachable!()
    }
    fn handles(&self) -> FormatKeys {
        unreachable!()
    }
    fn extracts(&self, _: InputView, _: Extraction) -> bool {
        unreachable!()
    }
    fn name(&self) -> &'static str {
        "broken"
    }
    fn formats(&self) -> &'static [&'static str] {
        &["broken"]
    }
    fn extract(&self, _input: &Input) -> sempack::Result<DocumentIr> {
        Err(Error::Other("cannot extract".into()))
    }
}

impl Reducer for Broken {
    fn named(&self) -> PluginName {
        unreachable!()
    }
    fn serves(&self) -> Profile {
        unreachable!()
    }
    fn reduces(&self, _: DocumentView, _: DocumentView, _: Reduction) -> bool {
        unreachable!()
    }
    fn name(&self) -> &'static str {
        "broken"
    }
    fn profile(&self) -> Profile {
        Profile::Debug
    }
    fn reduce(&self, _doc: &mut DocumentIr) -> sempack::Result<()> {
        Err(Error::Other("cannot reduce".into()))
    }
}

impl Emitter for Broken {
    fn named(&self) -> PluginName {
        unreachable!()
    }
    fn writes(&self) -> OutputFormat {
        unreachable!()
    }
    fn emits(&self, _: DocumentView, _: Emission) -> bool {
        unreachable!()
    }
    fn name(&self) -> &'static str {
        "broken"
    }
    fn format(&self) -> OutputFormat {
        OutputFormat::Html
    }
    fn emit(&self, _doc: &DocumentIr) -> sempack::Result<String> {
        Err(Error::Other("cannot emit".into()))
    }
}

impl PlugExtractor for Broken {
    fn plug(self) -> ExtractorSlot {
        ExtractorSlot {
            plugin: Box::new(self),
        }
    }
}

impl PlugReducer for Broken {
    fn plug(self) -> ReducerSlot {
        ReducerSlot {
            plugin: Box::new(self),
        }
    }
}

impl PlugEmitter for Broken {
    fn plug(self) -> EmitterSlot {
        EmitterSlot {
            plugin: Box::new(self),
        }
    }
}

fn small() -> Registry {
    Registry::new()
        .extractor(Named("first"))
        .extractor(Named("second"))
        .extractor(Broken)
        .reducer(HumanReducer)
        .reducer(Broken)
        .emitter(TextEmitter)
        .emitter(Broken)
}

#[test]
fn first_registered_plugin_wins() {
    let reg = small();
    assert_eq!(reg.find_extractor("odd").unwrap().name(), "first");
    assert_eq!(reg.find_extractor("text").unwrap().name(), "first");
    assert_eq!(reg.find_extractor("broken").unwrap().name(), "broken");
    assert!(reg.find_extractor("csv").is_none());
    assert_eq!(reg.find_reducer(Profile::Human).unwrap().name(), "human");
    assert!(reg.find_reducer(Profile::Llm).is_none());
    assert_eq!(reg.find_emitter(OutputFormat::Text).unwrap().name(), "text");
    assert!(reg.find_emitter(OutputFormat::Ndjson).is_none());
    assert!(Registry::default().find_extractor("text").is_none());
}

#[test]
fn unknown_format_falls_back_to_text() {
    let out = run(
        &small(),
        keyed("never-heard-of", ContentClass::Text),
        Profile::Human,
        OutputFormat::Text,
    )
    .unwrap();
    assert_eq!(out.content, "first\n");
    assert_eq!(out.warnings.len(), 1);
    assert_eq!(out.warnings[0].code, "named");
}

#[test]
fn each_error_has_its_cause_and_its_message() {
    let image = run(
        &small(),
        keyed("png", ContentClass::Image),
        Profile::Human,
        OutputFormat::Text,
    )
    .unwrap_err();
    assert!(matches!(image, Error::ImagePipelineUnavailable));
    assert_eq!(
        image.message(),
        "image pipeline is not available yet (planned for P6)"
    );

    let unknown = run(
        &small(),
        keyed("unknown", ContentClass::Unknown),
        Profile::Human,
        OutputFormat::Text,
    )
    .unwrap_err();
    assert_eq!(
        unknown.message(),
        "unrecognized input: input is neither valid UTF-8 text nor a recognized image format"
    );

    let no_extractor = run(
        &Registry::new(),
        keyed("csv", ContentClass::Text),
        Profile::Human,
        OutputFormat::Text,
    )
    .unwrap_err();
    assert!(matches!(no_extractor, Error::NoExtractor(ref f) if f == "csv"));
    assert_eq!(
        no_extractor.message(),
        "no extractor registered for format `csv`"
    );

    let no_reducer = run(
        &small(),
        keyed("odd", ContentClass::Text),
        Profile::Llm,
        OutputFormat::Text,
    )
    .unwrap_err();
    assert!(matches!(no_reducer, Error::NoReducer(Profile::Llm)));
    assert_eq!(
        no_reducer.message(),
        "no reducer registered for profile `Llm`"
    );

    let no_emitter = run(
        &small(),
        keyed("odd", ContentClass::Text),
        Profile::Human,
        OutputFormat::Ndjson,
    )
    .unwrap_err();
    assert!(matches!(
        no_emitter,
        Error::NoEmitter(OutputFormat::Ndjson)
    ));
    assert_eq!(
        no_emitter.message(),
        "no emitter registered for format `Ndjson`"
    );
}

#[test]
fn failures_of_plugins_come_through() {
    let extract = run(
        &small(),
        keyed("broken", ContentClass::Text),
        Profile::Human,
        OutputFormat::Text,
    );
    assert_eq!(extract.unwrap_err().message(), "cannot extract");
    let reduce = run(
        &small(),
        keyed("odd", ContentClass::Text),
        Profile::Debug,
        OutputFormat::Text,
    );
    assert_eq!(reduce.unwrap_err().message(), "cannot reduce");
    let emit = run(
        &small(),
        keyed("odd", ContentClass::Text),
        Profile::Human,
        OutputFormat::Html,
    );
    assert_eq!(emit.unwrap_err().message(), "cannot emit");
}

#[test]
fn metrics_compare_raw_input_with_output() {
    // Nine characters in ten bytes; two words.
    let out = run(
        &registry(),
        input("a.txt", "caf\u{e9}   ol"),
        Profile::Human,
        OutputFormat::Text,
    )
    .unwrap();
    assert_eq!(out.content, "caf\u{e9} ol\n");
    assert_eq!(out.bytes_in, 10);
    assert_eq!(out.bytes_out, 9);
    assert_eq!(out.tokens_in, 3);
    assert_eq!(out.tokens_out, 2);
    assert_eq!(out.format, OutputFormat::Text);
    assert!(out.warnings.is_empty());
    let copy = out.clone();
    assert_eq!(copy.content, out.content);
}

#[test]
fn text_is_normalized_before_it_is_reduced() {
    // A letter and a combining accent become one character, in titles and code too.
    let out = run(
        &registry(),
        input("a.md", "# e\u{301}\n\n- e\u{301}\n\n```e\u{301}\ne\u{301}\n```\n"),
        Profile::Human,
        OutputFormat::Markdown,
    )
    .unwrap();
    assert_eq!(
        out.content,
        "# \u{e9}\n\n- \u{e9}\n\n```e\u{301}\n\u{e9}\n```\n"
    );
    let html = run(
        &registry(),
        input("a.md", "# e\u{301}\n"),
        Profile::Human,
        OutputFormat::Html,
    )
    .unwrap();
    assert!(html.content.contains("<title>\u{e9}</title>"));
}

#[test]
fn invalid_utf8_of_a_known_format_is_decoded_lossily() {
    let bytes = vec![b'a', 0xff, b'b'];
    let detected = detect(Some("a.txt"), &bytes);
    let input = Input {
        path: Some("a.txt".into()),
        bytes,
        detected,
    };
    assert_eq!(input.text(), "a\u{fffd}b");
    let out = run(&registry(), input, Profile::Human, OutputFormat::Text).unwrap();
    assert_eq!(out.content, "a\u{fffd}b\n");
    assert_eq!(out.bytes_in, 3);
    assert_eq!(out.bytes_out, 6);
}

#[test]
fn builtin_pipeline_fails_on_debug_only() {
    for profile in [Profile::Human, Profile::Llm, Profile::Compact] {
        for format in [
            OutputFormat::Markdown,
            OutputFormat::Jsonl,
            OutputFormat::Ndjson,
            OutputFormat::Text,
            OutputFormat::Html,
        ] {
            let out = run(&registry(), input("a.md", "# T\n\nbody"), profile, format).unwrap();
            assert!(!out.content.is_empty());
        }
    }
    let err = run(
        &registry(),
        input("a.md", "x"),
        Profile::Debug,
        OutputFormat::Text,
    )
    .unwrap_err();
    assert!(matches!(err, Error::NoReducer(Profile::Debug)));
}

#[test]
fn every_detected_text_format_has_its_extractor() {
    let reg = registry();
    for (file, name) in [
        ("a.md", "markdown"),
        ("a.txt", "text"),
        ("a.json", "json"),
        ("a.ndjson", "jsonl"),
        ("a.csv", "csv"),
        ("a.tsv", "tsv"),
        ("a.htm", "html"),
        ("a.xml", "xml"),
        ("a.svg", "svg"),
        ("plain", "text"),
    ] {
        let d = detect(Some(file), b"");
        assert_eq!(reg.find_extractor(&d.format).unwrap().name(), name);
    }
    assert_eq!(reg.find_extractor("psv").unwrap().name(), "psv");
    assert_eq!(reg.find_extractor("ndjson").unwrap().name(), "jsonl");
}

#[test]
fn builtin_runs_are_determined() {
    let once = |_: u32| {
        run(
            &registry(),
            input("d.json", r#"[{"b":[1, 2],"a":null},3]"#),
            Profile::Llm,
            OutputFormat::Jsonl,
        )
        .unwrap()
    };
    assert_eq!(once(1).content, once(2).content);
    assert_eq!(
        once(3).content,
        concat_lines(&[
            r#"{"id":"d.json","source":{"bytes":25,"detected_format":"json","media_type":"application/json","path":"d.json"},"title":null,"type":"document"}"#,
            r#"{"kind":"record","fields":[{"key":"a","value":"null"},{"key":"b","value":"[1,2]"}]}"#,
            r#"{"kind":"paragraph","text":"3"}"#,
        ])
    );
}

fn concat_lines(lines: &[&str]) -> String {
    let mut s = String::new();
    for l in lines {
        s.push_str(l);
        s.push('\n');
    }
    s
}

#[test]
fn names_of_profiles_and_formats_are_read() {
    assert_eq!("HUMAN".parse::<Profile>(), Ok(Profile::Human));
    assert_eq!("Llm".parse::<Profile>(), Ok(Profile::Llm));
    assert_eq!("compact".parse::<Profile>(), Ok(Profile::Compact));
    assert_eq!(
        "Debug".parse::<Profile>(),
        Err("debug profile is not yet available".to_string())
    );
    assert_eq!(
        "RAG".parse::<Profile>(),
        Err("unknown profile `rag` (try: human, llm, compact)".to_string())
    );
    assert_eq!("MARKDOWN".parse::<OutputFormat>(), Ok(OutputFormat::Markdown));
    assert_eq!("md".parse::<OutputFormat>(), Ok(OutputFormat::Markdown));
    assert_eq!("jsonl".parse::<OutputFormat>(), Ok(OutputFormat::Jsonl));
    assert_eq!("ndJSON".parse::<OutputFormat>(), Ok(OutputFormat::Ndjson));
    assert_eq!("txt".parse::<OutputFormat>(), Ok(OutputFormat::Text));
    assert_eq!("text".parse::<OutputFormat>(), Ok(OutputFormat::Text));
    assert_eq!("html".parse::<OutputFormat>(), Ok(OutputFormat::Html));
    assert_eq!(
        "PDF".parse::<OutputFormat>(),
        Err("unknown format `pdf` (try: markdown, jsonl, ndjson, text, html)".to_string())
    );
}

#[test]
fn extractors_reducers_and_emitters_tell_their_names() {
    assert_eq!(TextExtractor.formats(), ["text"]);
    assert_eq!(LlmReducer.name(), "llm");
    assert_eq!(LlmReducer.profile(), Profile::Llm);
    assert_eq!(MarkdownEmitter.name(), "markdown");
    assert_eq!(MarkdownEmitter.format(), OutputFormat::Markdown);
}
