//! Emitter plugins: serialization of a document to a string.
pub mod ending;
pub mod html;
pub mod html_laws;
pub mod json;
pub mod json_back;
pub mod json_laws;
pub mod json_reading;
pub mod markdown;
pub mod markdown_laws;
pub mod plain;
pub mod written_laws;
