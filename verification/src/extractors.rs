//! Built-in extractor plugins.
pub mod common;
pub mod delimited;
pub mod delimited_laws;
pub mod html;
pub mod html_laws;
pub mod json;
pub mod json_laws;
pub mod jsonl;
pub mod jsonl_laws;
pub mod markdown;
pub mod markdown_laws;
pub mod origin_laws;
pub mod plain;
pub mod plain_laws;
pub mod svg;
pub mod svg_laws;
pub mod xml;
pub mod xml_laws;
