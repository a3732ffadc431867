//! Calls into other crates, and into the parts of std that carry no specification of their own.
pub mod csv;
pub mod html;
pub mod json;
pub mod unicode;
pub mod xml;
