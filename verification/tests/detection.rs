use sempack::detect::{detect as detect_file, ContentClass};

fn told(path: &str) -> (String, ContentClass, String) {
    let d = detect_file(Some(path), &[0xff]);
    (d.format, d.class, d.media_type.unwrap())
}

fn is(path: &str, format: &str, class: ContentClass, media: &str) {
    assert_eq!(told(path), (format.to_string(), class, media.to_string()));
}

#[test]
fn every_known_extension_has_its_format() {
    is("a.md", "markdown", ContentClass::Text, "text/markdown");
    is("a.markdown", "markdown", ContentClass::Text, "text/markdown");
    is("a.txt", "text", ContentClass::Text, "text/plain");
    is("a.text", "text", ContentClass::Text, "text/plain");
    is("a.log", "text", ContentClass::Text, "text/plain");
    is("a.json", "json", ContentClass::Text, "application/json");
    is("a.jsonl", "jsonl", ContentClass::Text, "application/x-ndjson");
    is("a.ndjson", "jsonl", ContentClass::Text, "application/x-ndjson");
    is("a.csv", "csv", ContentClass::Text, "text/csv");
    is("a.tsv", "tsv", ContentClass::Text, "text/tab-separated-values");
    is("a.html", "html", ContentClass::Text, "text/html");
    is("a.htm", "html", ContentClass::Text, "text/html");
    is("a.xml", "xml", ContentClass::Text, "application/xml");
    is("a.svg", "svg", ContentClass::Text, "image/svg+xml");
    is("a.png", "png", ContentClass::Image, "image/png");
    is("a.jpg", "jpeg", ContentClass::Image, "image/jpeg");
    is("a.jpeg", "jpeg", ContentClass::Image, "image/jpeg");
    is("a.webp", "webp", ContentClass::Image, "image/webp");
    is("a.gif", "gif", ContentClass::Image, "image/gif");
}

#[test]
fn detection_ignores_case() {
    assert_eq!(told("DIR/READ.ME.MarkDown"), told("dir/read.me.markdown"));
    assert_eq!(told("x.SVG"), told("x.svg"));
}

#[test]
fn extension_decides_over_content() {
    let a = detect_file(Some("a.json"), b"# not json");
    let b = detect_file(Some("a.json"), &[0xff, 0x00]);
    assert_eq!(a.format, "json");
    assert_eq!(b.format, "json");
}

#[test]
fn only_the_file_name_is_looked_at() {
    // The dot stands in a directory, on either kind of separator.
    let a = detect_file(Some("v1.md/plain"), b"x");
    let b = detect_file(Some("v1.md\\plain"), b"x");
    assert_eq!(a.format, "text");
    assert_eq!(b.format, "text");
    assert_eq!(told("dir.x\\a.csv").0, "csv");
    // A name that is nothing but an extension has that extension.
    assert_eq!(told("dir/.md").0, "markdown");
    // A trailing dot leaves an empty extension, which is not a known one.
    assert_eq!(told("a.md.").0, "unknown");
}

#[test]
fn content_tells_what_no_extension_does() {
    let text = detect_file(None, "h\u{e9}llo".as_bytes());
    assert_eq!(text.format, "text");
    assert_eq!(text.class, ContentClass::Text);
    assert_eq!(text.media_type.as_deref(), Some("text/plain"));
    let empty = detect_file(Some("noext"), b"");
    assert_eq!(empty.format, "text");
    // A surrogate, an overlong form and a cut sequence are not valid UTF-8.
    for bytes in [&[0xed, 0xa0, 0x80][..], &[0xc0, 0x80][..], &[0xe2, 0x82][..]] {
        let d = detect_file(Some("blob.bin"), bytes);
        assert_eq!(d.format, "unknown");
        assert_eq!(d.class, ContentClass::Unknown);
        assert_eq!(d.media_type.as_deref(), Some("application/octet-stream"));
    }
}
