//! Detection of a file's format, and the class that the pipeline routes on.
use crate::bridge::unicode::is_utf8;
use crate::ir::opt_view;
use crate::text::{
    extension, extension_of, file_name, lemma_trailing_bounds, lower, lower_char, lowered, name_of,
    same,
    trailing, within_segment, within_suffix,
};
use vstd::prelude::*;
use vstd::utf8::valid_utf8;

verus! {

/// Top-level content class that the router dispatches on.
#[derive(Debug, Clone, Copy, PartialEq, Eq, Structural)]
pub enum ContentClass {
    Text,
    Image,
    Unknown,
}

/// The result of detection: a format key plus the routing class.
#[derive(Debug)]
pub struct Detected {
    pub format: String,
    pub media_type: Option<String>,
    pub class: ContentClass,
}

/// View of a [`Detected`].
#[verifier::ext_equal]
pub struct DetectedView {
    pub format: Seq<char>,
    pub media_type: Option<Seq<char>>,
    pub class: ContentClass,
}

impl View for Detected {
    type V = DetectedView;

    open spec fn view(&self) -> DetectedView {
        DetectedView {
            format: self.format@,
            media_type: opt_view(self.media_type),
            class: self.class,
        }
    }
}

impl Clone for Detected {
    /// The same detection.
    fn clone(&self) -> (d: Self)
        ensures
            d@ == self@,
    {
        Detected {
            format: self.format.clone(),
            media_type: match &self.media_type {
                Some(m) => Some(m.clone()),
                None => None,
            },
            class: self.class,
        }
    }
}

/// A format that an extension stands for: its key, its class and its media type.
pub open spec fn known(
    format: Seq<char>,
    class: ContentClass,
    media_type: Seq<char>,
) -> DetectedView {
    DetectedView { format, media_type: Some(media_type), class }
}

/// The format that a lower-case extension stands for.
pub open spec fn format_of_extension(e: Seq<char>) -> Option<DetectedView> {
    if e == "md"@ || e == "markdown"@ {
        Some(known("markdown"@, ContentClass::Text, "text/markdown"@))
    } else if e == "txt"@ || e == "text"@ || e == "log"@ {
        Some(known("text"@, ContentClass::Text, "text/plain"@))
    } else if e == "json"@ {
        Some(known("json"@, ContentClass::Text, "application/json"@))
    } else if e == "jsonl"@ || e == "ndjson"@ {
        Some(known("jsonl"@, ContentClass::Text, "application/x-ndjson"@))
    } else if e == "csv"@ {
        Some(known("csv"@, ContentClass::Text, "text/csv"@))
    } else if e == "tsv"@ {
        Some(known("tsv"@, ContentClass::Text, "text/tab-separated-values"@))
    } else if e == "html"@ || e == "htm"@ {
        Some(known("html"@, ContentClass::Text, "text/html"@))
    } else if e == "xml"@ {
        Some(known("xml"@, ContentClass::Text, "application/xml"@))
    } else if e == "svg"@ {
        Some(known("svg"@, ContentClass::Text, "image/svg+xml"@))
    } else if e == "png"@ {
        Some(known("png"@, ContentClass::Image, "image/png"@))
    } else if e == "jpg"@ || e == "jpeg"@ {
        Some(known("jpeg"@, ContentClass::Image, "image/jpeg"@))
    } else if e == "webp"@ {
        Some(known("webp"@, ContentClass::Image, "image/webp"@))
    } else if e == "gif"@ {
        Some(known("gif"@, ContentClass::Image, "image/gif"@))
    } else {
        None
    }
}

/// The format of content that no extension tells: text if it is valid UTF-8.
pub open spec fn sniff(bytes: Seq<u8>) -> DetectedView {
    if valid_utf8(bytes) {
        known("text"@, ContentClass::Text, "text/plain"@)
    } else {
        known("unknown"@, ContentClass::Unknown, "application/octet-stream"@)
    }
}

/// The extension of the file that `path` names, in lower case.
pub open spec fn lower_extension(path: Option<Seq<char>>) -> Option<Seq<char>> {
    match path {
        Some(p) => match extension(file_name(p)) {
            Some(e) => Some(lower(e)),
            None => None,
        },
        None => None,
    }
}

/// The format told by the extension or, failing that, by the content.
pub open spec fn detection(path: Option<Seq<char>>, bytes: Seq<u8>) -> DetectedView {
    match lower_extension(path) {
        Some(e) => match format_of_extension(e) {
            Some(d) => d,
            None => sniff(bytes),
        },
        None => sniff(bytes),
    }
}

/// View of an optional borrowed string.
pub open spec fn str_view(s: Option<&str>) -> Option<Seq<char>> {
    match s {
        Some(t) => Some(t@),
        None => None,
    }
}

/// Builds a detection.
fn detected(format: &str, class: ContentClass, media_type: &str) -> (d: Detected)
    ensures
        d@ == known(format@, class, media_type@),
{
    Detected { format: format.to_owned(), media_type: Some(media_type.to_owned()), class }
}

/// The format that a lower-case extension stands for.
fn by_extension(e: &str) -> (d: Option<Detected>)
    ensures
        d is Some <==> format_of_extension(e@) is Some,
        d matches Some(x) ==> format_of_extension(e@) == Some(x@),
{
    if same(e, "md") || same(e, "markdown") {
        Some(detected("markdown", ContentClass::Text, "text/markdown"))
    } else if same(e, "txt") || same(e, "text") || same(e, "log") {
        Some(detected("text", ContentClass::Text, "text/plain"))
    } else if same(e, "json") {
        Some(detected("json", ContentClass::Text, "application/json"))
    } else if same(e, "jsonl") || same(e, "ndjson") {
        Some(detected("jsonl", ContentClass::Text, "application/x-ndjson"))
    } else if same(e, "csv") {
        Some(detected("csv", ContentClass::Text, "text/csv"))
    } else if same(e, "tsv") {
        Some(detected("tsv", ContentClass::Text, "text/tab-separated-values"))
    } else if same(e, "html") || same(e, "htm") {
        Some(detected("html", ContentClass::Text, "text/html"))
    } else if same(e, "xml") {
        Some(detected("xml", ContentClass::Text, "application/xml"))
    } else if same(e, "svg") {
        Some(detected("svg", ContentClass::Text, "image/svg+xml"))
    } else if same(e, "png") {
        Some(detected("png", ContentClass::Image, "image/png"))
    } else if same(e, "jpg") || same(e, "jpeg") {
        Some(detected("jpeg", ContentClass::Image, "image/jpeg"))
    } else if same(e, "webp") {
        Some(detected("webp", ContentClass::Image, "image/webp"))
    } else if same(e, "gif") {
        Some(detected("gif", ContentClass::Image, "image/gif"))
    } else {
        None
    }
}

/// Detects a file's format from its extension, falling back to a look at its content.
pub fn detect(path: Option<&str>, bytes: &[u8]) -> (d: Detected)
    ensures
        d@ == detection(str_view(path), bytes@),
{
    if let Some(p) = path {
        let name = name_of(p);
        if let Some(e) = extension_of(name.as_str()) {
            let low = lowered(e.as_str());
            if let Some(d) = by_extension(low.as_str()) {
                return d;
            }
        }
    }
    if is_utf8(bytes) {
        detected("text", ContentClass::Text, "text/plain")
    } else {
        detected("unknown", ContentClass::Unknown, "application/octet-stream")
    }
}

// ---------------------------------------------------------------------------
// Laws
// ---------------------------------------------------------------------------

/// Two strings that a test cannot tell apart end in runs of the same length.
proof fn lemma_trailing_alike(s: Seq<char>, t: Seq<char>, p: spec_fn(char) -> bool)
    requires
        s.len() == t.len(),
        forall|i: int| 0 <= i < s.len() ==> p(#[trigger] s[i]) == p(t[i]),
    ensures
        trailing(s, p) == trailing(t, p),
    decreases s.len(),
{
    if s.len() > 0 {
        assert(p(s[s.len() - 1]) == p(t[t.len() - 1]));
        assert forall|i: int| 0 <= i < s.drop_last().len() implies p(#[trigger] s.drop_last()[i])
            == p(t.drop_last()[i]) by {
            assert(s.drop_last()[i] == s[i]);
        }
        lemma_trailing_alike(s.drop_last(), t.drop_last(), p);
    }
}

/// Lower case keeps a character off, or on, any mark that has no case.
proof fn lemma_lower_keeps_marks(s: Seq<char>, t: Seq<char>)
    requires
        lower(s) == lower(t),
    ensures
        s.len() == t.len(),
        forall|i: int|
            0 <= i < s.len() ==> within_segment()(#[trigger] s[i]) == within_segment()(t[i])
                && within_suffix()(s[i]) == within_suffix()(t[i]),
        forall|from: int| 0 <= from <= s.len() ==> lower(#[trigger] s.skip(from)) == lower(t.skip(from)),
{
    assert(lower(s).len() == s.len());
    assert(lower(t).len() == t.len());
    assert forall|i: int| 0 <= i < s.len() implies within_segment()(#[trigger] s[i])
        == within_segment()(t[i]) && within_suffix()(s[i]) == within_suffix()(t[i]) by {
        assert(lower(s)[i] == lower_char(s[i]));
        assert(lower(t)[i] == lower_char(t[i]));
    }
    assert forall|from: int| 0 <= from <= s.len() implies lower(#[trigger] s.skip(from)) == lower(
        t.skip(from),
    ) by {
        assert forall|i: int| 0 <= i < s.skip(from).len() implies lower(s.skip(from))[i] == lower(
            t.skip(from),
        )[i] by {
            assert(lower(s)[i + from] == lower_char(s[i + from]));
            assert(lower(t)[i + from] == lower_char(t[i + from]));
            assert(s.skip(from)[i] == s[i + from]);
            assert(t.skip(from)[i] == t[i + from]);
        }
        assert(lower(s.skip(from)) =~= lower(t.skip(from)));
    }
}

/// Two paths that differ in case alone are detected alike.
pub proof fn law_detection_ignores_case(p: Seq<char>, q: Seq<char>, bytes: Seq<u8>)
    requires
        lower(p) == lower(q),
    ensures
        detection(Some(p), bytes) == detection(Some(q), bytes),
{
    lemma_lower_keeps_marks(p, q);
    lemma_trailing_alike(p, q, within_segment());
    lemma_trailing_bounds(p, within_segment());
    let m = file_name(p);
    let n = file_name(q);
    assert(lower(m) == lower(n));
    lemma_lower_keeps_marks(m, n);
    lemma_trailing_alike(m, n, within_suffix());
    lemma_trailing_bounds(m, within_suffix());
}

/// Where the extension is a known one, the content is not looked at.
pub proof fn law_extension_decides(path: Seq<char>, e: Seq<char>, a: Seq<u8>, b: Seq<u8>)
    requires
        lower_extension(Some(path)) == Some(e),
        format_of_extension(e) is Some,
    ensures
        detection(Some(path), a) == detection(Some(path), b),
        detection(Some(path), a) == format_of_extension(e)->0,
{
}

/// Content is of unknown class exactly if no known extension tells its format and it is not
/// valid UTF-8.
pub proof fn law_unknown_class(path: Option<Seq<char>>, bytes: Seq<u8>)
    ensures
        detection(path, bytes).class == ContentClass::Unknown <==> !valid_utf8(bytes) && (
        lower_extension(path) matches Some(e) ==> format_of_extension(e) is None),
{
}

/// Each extension that is known stands for its format, whatever the content is; any other, like
/// none at all, leaves it to the content.
pub proof fn law_known_extensions(path: Seq<char>, bytes: Seq<u8>)
    ensures
        ({
            let d = detection(Some(path), bytes);
            let text = ContentClass::Text;
            let image = ContentClass::Image;
            match lower_extension(Some(path)) {
                Some(e) => {
                    &&& e == "md"@ || e == "markdown"@ ==> d == known(
                        "markdown"@,
                        text,
                        "text/markdown"@,
                    )
                    &&& e == "txt"@ || e == "text"@ || e == "log"@ ==> d == known(
                        "text"@,
                        text,
                        "text/plain"@,
                    )
                    &&& e == "json"@ ==> d == known("json"@, text, "application/json"@)
                    &&& e == "jsonl"@ || e == "ndjson"@ ==> d == known(
                        "jsonl"@,
                        text,
                        "application/x-ndjson"@,
                    )
                    &&& e == "csv"@ ==> d == known("csv"@, text, "text/csv"@)
                    &&& e == "tsv"@ ==> d == known("tsv"@, text, "text/tab-separated-values"@)
                    &&& e == "html"@ || e == "htm"@ ==> d == known("html"@, text, "text/html"@)
                    &&& e == "xml"@ ==> d == known("xml"@, text, "application/xml"@)
                    &&& e == "svg"@ ==> d == known("svg"@, text, "image/svg+xml"@)
                    &&& e == "png"@ ==> d == known("png"@, image, "image/png"@)
                    &&& e == "jpg"@ || e == "jpeg"@ ==> d == known("jpeg"@, image, "image/jpeg"@)
                    &&& e == "webp"@ ==> d == known("webp"@, image, "image/webp"@)
                    &&& e == "gif"@ ==> d == known("gif"@, image, "image/gif"@)
                    &&& !is_known_extension(e) ==> d == detection(None, bytes)
                },
                None => d == detection(None, bytes),
            }
        }),
        detection(None, bytes) == if valid_utf8(bytes) {
            known("text"@, ContentClass::Text, "text/plain"@)
        } else {
            known("unknown"@, ContentClass::Unknown, "application/octet-stream"@)
        },
{
    lemma_extensions_differ();
}

/// The extensions that tell a format.
pub open spec fn is_known_extension(e: Seq<char>) -> bool {
    ||| e == "md"@ || e == "markdown"@ || e == "txt"@ || e == "text"@ || e == "log"@
    ||| e == "json"@ || e == "jsonl"@ || e == "ndjson"@ || e == "csv"@ || e == "tsv"@
    ||| e == "html"@ || e == "htm"@ || e == "xml"@ || e == "svg"@ || e == "png"@
    ||| e == "jpg"@ || e == "jpeg"@ || e == "webp"@ || e == "gif"@
}

/// No two known extensions are the same: they differ in length or in one of the first characters.
proof fn lemma_extensions_differ()
    ensures
        "md"@.len() == 2 && "md"@[0] == 'm' && "md"@[1] == 'd',
        "markdown"@.len() == 8 && "markdown"@[0] == 'm' && "markdown"@[1] == 'a',
        "txt"@.len() == 3 && "txt"@[0] == 't' && "txt"@[1] == 'x' && "txt"@[2] == 't',
        "text"@.len() == 4 && "text"@[0] == 't' && "text"@[1] == 'e' && "text"@[2] == 'x',
        "log"@.len() == 3 && "log"@[0] == 'l' && "log"@[1] == 'o' && "log"@[2] == 'g',
        "json"@.len() == 4 && "json"@[0] == 'j' && "json"@[1] == 's' && "json"@[2] == 'o',
        "jsonl"@.len() == 5 && "jsonl"@[0] == 'j' && "jsonl"@[1] == 's' && "jsonl"@[2] == 'o',
        "ndjson"@.len() == 6 && "ndjson"@[0] == 'n' && "ndjson"@[1] == 'd' && "ndjson"@[2] == 'j',
        "csv"@.len() == 3 && "csv"@[0] == 'c' && "csv"@[1] == 's' && "csv"@[2] == 'v',
        "tsv"@.len() == 3 && "tsv"@[0] == 't' && "tsv"@[1] == 's' && "tsv"@[2] == 'v',
        "html"@.len() == 4 && "html"@[0] == 'h' && "html"@[1] == 't' && "html"@[2] == 'm',
        "htm"@.len() == 3 && "htm"@[0] == 'h' && "htm"@[1] == 't' && "htm"@[2] == 'm',
        "xml"@.len() == 3 && "xml"@[0] == 'x' && "xml"@[1] == 'm' && "xml"@[2] == 'l',
        "svg"@.len() == 3 && "svg"@[0] == 's' && "svg"@[1] == 'v' && "svg"@[2] == 'g',
        "png"@.len() == 3 && "png"@[0] == 'p' && "png"@[1] == 'n' && "png"@[2] == 'g',
        "jpg"@.len() == 3 && "jpg"@[0] == 'j' && "jpg"@[1] == 'p' && "jpg"@[2] == 'g',
        "jpeg"@.len() == 4 && "jpeg"@[0] == 'j' && "jpeg"@[1] == 'p' && "jpeg"@[2] == 'e',
        "webp"@.len() == 4 && "webp"@[0] == 'w' && "webp"@[1] == 'e' && "webp"@[2] == 'b',
        "gif"@.len() == 3 && "gif"@[0] == 'g' && "gif"@[1] == 'i' && "gif"@[2] == 'f',
{
    reveal_strlit("md");
    reveal_strlit("markdown");
    reveal_strlit("txt");
    reveal_strlit("text");
    reveal_strlit("log");
    reveal_strlit("json");
    reveal_strlit("jsonl");
    reveal_strlit("ndjson");
    reveal_strlit("csv");
    reveal_strlit("tsv");
    reveal_strlit("html");
    reveal_strlit("htm");
    reveal_strlit("xml");
    reveal_strlit("svg");
    reveal_strlit("png");
    reveal_strlit("jpg");
    reveal_strlit("jpeg");
    reveal_strlit("webp");
    reveal_strlit("gif");
}

} // verus!
