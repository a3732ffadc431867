//! Compression profiles and output formats.
use crate::text::{lower, lowered, same};
use std::str::FromStr;
use vstd::prelude::*;

verus! {

/// Compression profile: which reducer to run.
#[derive(Debug, Clone, Copy, PartialEq, Eq, Structural)]
pub enum Profile {
    Human,
    Llm,
    Compact,
    Debug,
}

/// Serialization target: which emitter to run.
#[derive(Debug, Clone, Copy, PartialEq, Eq, Structural)]
pub enum OutputFormat {
    Markdown,
    Jsonl,
    Ndjson,
    Text,
    Html,
}

/// The profile that `s` names, whatever its case.
pub open spec fn profile_named(s: Seq<char>) -> Result<Profile, Seq<char>> {
    let name = lower(s);
    if name == "human"@ {
        Ok(Profile::Human)
    } else if name == "llm"@ {
        Ok(Profile::Llm)
    } else if name == "compact"@ {
        Ok(Profile::Compact)
    } else if name == "debug"@ {
        Err("debug profile is not yet available"@)
    } else {
        Err("unknown profile `"@ + name + "` (try: human, llm, compact)"@)
    }
}

/// The output format that `s` names, whatever its case.
pub open spec fn format_named(s: Seq<char>) -> Result<OutputFormat, Seq<char>> {
    let name = lower(s);
    if name == "markdown"@ || name == "md"@ {
        Ok(OutputFormat::Markdown)
    } else if name == "jsonl"@ {
        Ok(OutputFormat::Jsonl)
    } else if name == "ndjson"@ {
        Ok(OutputFormat::Ndjson)
    } else if name == "text"@ || name == "txt"@ {
        Ok(OutputFormat::Text)
    } else if name == "html"@ {
        Ok(OutputFormat::Html)
    } else {
        Err("unknown format `"@ + name + "` (try: markdown, jsonl, ndjson, text, html)"@)
    }
}

/// A result whose error is text, with the text viewed.
pub open spec fn text_result<T>(r: Result<T, String>) -> Result<T, Seq<char>> {
    match r {
        Ok(v) => Ok(v),
        Err(e) => Err(e@),
    }
}

impl FromStr for Profile {
    type Err = String;

    /// Reads the name of a profile; its case does not matter.
    fn from_str(s: &str) -> (r: Result<Self, String>)
        ensures
            text_result(r) == profile_named(s@),
    {
        let name = lowered(s);
        if same(name.as_str(), "human") {
            Ok(Profile::Human)
        } else if same(name.as_str(), "llm") {
            Ok(Profile::Llm)
        } else if same(name.as_str(), "compact") {
            Ok(Profile::Compact)
        } else if same(name.as_str(), "debug") {
            Err("debug profile is not yet available".to_owned())
        } else {
            let mut e = "unknown profile `".to_owned();
            e.append(name.as_str());
            e.append("` (try: human, llm, compact)");
            Err(e)
        }
    }
}

impl FromStr for OutputFormat {
    type Err = String;

    /// Reads the name of an output format; its case does not matter.
    fn from_str(s: &str) -> (r: Result<Self, String>)
        ensures
            text_result(r) == format_named(s@),
    {
        let name = lowered(s);
        if same(name.as_str(), "markdown") || same(name.as_str(), "md") {
            Ok(OutputFormat::Markdown)
        } else if same(name.as_str(), "jsonl") {
            Ok(OutputFormat::Jsonl)
        } else if same(name.as_str(), "ndjson") {
            Ok(OutputFormat::Ndjson)
        } else if same(name.as_str(), "text") || same(name.as_str(), "txt") {
            Ok(OutputFormat::Text)
        } else if same(name.as_str(), "html") {
            Ok(OutputFormat::Html)
        } else {
            let mut e = "unknown format `".to_owned();
            e.append(name.as_str());
            e.append("` (try: markdown, jsonl, ndjson, text, html)");
            Err(e)
        }
    }
}

/// Two names that differ in case alone name the same profile, or none, and the same output
/// format, or none.
pub proof fn law_names_ignore_case(s: Seq<char>, t: Seq<char>)
    requires
        lower(s) == lower(t),
    ensures
        profile_named(s) == profile_named(t),
        format_named(s) == format_named(t),
{
}

/// How a profile is written in messages.
pub open spec fn profile_label(p: Profile) -> Seq<char> {
    match p {
        Profile::Human => "Human"@,
        Profile::Llm => "Llm"@,
        Profile::Compact => "Compact"@,
        Profile::Debug => "Debug"@,
    }
}

/// How an output format is written in messages.
pub open spec fn format_label(f: OutputFormat) -> Seq<char> {
    match f {
        OutputFormat::Markdown => "Markdown"@,
        OutputFormat::Jsonl => "Jsonl"@,
        OutputFormat::Ndjson => "Ndjson"@,
        OutputFormat::Text => "Text"@,
        OutputFormat::Html => "Html"@,
    }
}

impl Profile {
    /// How the profile is written in messages.
    pub fn label(self) -> (s: &'static str)
        ensures
            s@ == profile_label(self),
    {
        match self {
            Profile::Human => "Human",
            Profile::Llm => "Llm",
            Profile::Compact => "Compact",
            Profile::Debug => "Debug",
        }
    }
}

impl OutputFormat {
    /// How the format is written in messages.
    pub fn label(self) -> (s: &'static str)
        ensures
            s@ == format_label(self),
    {
        match self {
            OutputFormat::Markdown => "Markdown",
            OutputFormat::Jsonl => "Jsonl",
            OutputFormat::Ndjson => "Ndjson",
            OutputFormat::Text => "Text",
            OutputFormat::Html => "Html",
        }
    }
}

/// Every profile but the debugging one goes by its name, every output format by its name, and two
/// of them by a shorter one too. No other name is one.
pub proof fn law_names(s: Seq<char>)
    ensures
        profile_named(s) == Ok::<Profile, Seq<char>>(Profile::Human) <==> lower(s) == "human"@,
        profile_named(s) == Ok::<Profile, Seq<char>>(Profile::Llm) <==> lower(s) == "llm"@,
        profile_named(s) == Ok::<Profile, Seq<char>>(Profile::Compact) <==> lower(s) == "compact"@,
        lower(s) == "debug"@ ==> profile_named(s) == Err::<Profile, Seq<char>>(
            "debug profile is not yet available"@,
        ),
        profile_named(s) is Err && lower(s) != "debug"@ ==> profile_named(s)->Err_0
            == "unknown profile `"@ + lower(s) + "` (try: human, llm, compact)"@,
        profile_named(s) != Ok::<Profile, Seq<char>>(Profile::Debug),
        format_named(s) == Ok::<OutputFormat, Seq<char>>(OutputFormat::Markdown) <==> lower(s)
            == "markdown"@ || lower(s) == "md"@,
        format_named(s) == Ok::<OutputFormat, Seq<char>>(OutputFormat::Jsonl) <==> lower(s)
            == "jsonl"@,
        format_named(s) == Ok::<OutputFormat, Seq<char>>(OutputFormat::Ndjson) <==> lower(s)
            == "ndjson"@,
        format_named(s) == Ok::<OutputFormat, Seq<char>>(OutputFormat::Text) <==> lower(s)
            == "text"@ || lower(s) == "txt"@,
        format_named(s) == Ok::<OutputFormat, Seq<char>>(OutputFormat::Html) <==> lower(s)
            == "html"@,
        format_named(s) matches Err(e) ==> e == "unknown format `"@ + lower(s)
            + "` (try: markdown, jsonl, ndjson, text, html)"@,
{
    reveal_strlit("human");
    reveal_strlit("llm");
    reveal_strlit("compact");
    reveal_strlit("debug");
    reveal_strlit("markdown");
    reveal_strlit("md");
    reveal_strlit("jsonl");
    reveal_strlit("ndjson");
    reveal_strlit("text");
    reveal_strlit("txt");
    reveal_strlit("html");
    assert("human"@[0] != "llm"@[0]);
    assert("compact"@[0] != "llm"@[0]);
    assert("jsonl"@[0] != "html"@[0]);
    assert("text"@[0] != "html"@[0]);
    assert("txt"@[0] != "llm"@[0]);
}

} // verus!
