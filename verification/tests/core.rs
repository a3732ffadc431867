use sempack::{detect, run, ContentClass, Error, Input, OutputFormat, Profile, Registry};

#[test]
fn detects_markdown_by_extension() {
    let d = detect(Some("notes/readme.md"), b"# hi");
    assert_eq!(d.format, "markdown");
    assert_eq!(d.class, ContentClass::Text);
}

#[test]
fn detects_image_by_extension() {
    let d = detect(Some("photo.PNG"), &[]);
    assert_eq!(d.class, ContentClass::Image);
}

#[test]
fn unknown_binary_sniffs_to_unknown() {
    let d = detect(None, &[0xff, 0xfe, 0x00]);
    assert_eq!(d.class, ContentClass::Unknown);
}

#[test]
fn unknown_input_is_rejected_by_pipeline() {
    // Non-UTF8 binary with no known extension must error, not flow through
    // the text path as replacement characters.
    let bytes = vec![0xff, 0xfe, 0x00];
    let detected = detect(None, &bytes);
    let input = Input {
        path: None,
        bytes,
        detected,
    };
    let err = run(&Registry::new(), input, Profile::Human, OutputFormat::Text).unwrap_err();
    assert!(matches!(err, Error::UnsupportedInput(_)));
}

#[test]
fn profile_and_format_parse() {
    assert_eq!("llm".parse::<Profile>().unwrap(), Profile::Llm);
    assert_eq!("compact".parse::<Profile>().unwrap(), Profile::Compact);
    assert_eq!(
        "md".parse::<OutputFormat>().unwrap(),
        OutputFormat::Markdown
    );
    assert!("nope".parse::<Profile>().is_err());
    assert!("debug".parse::<Profile>().is_err());
}
