//! Multitext: a line-oriented container format that stores several named
//! text blobs in one text stream.
//!
//! The first line containing the literal text `"multitext header"` declares
//! the format; the characters before that literal (right-trimmed) become the
//! marker that opens each section.  Every later line that starts with the
//! marker begins a new section whose name is the rest of that line, trimmed;
//! all other lines belong to the body of the section that is currently open.

pub mod error;
pub mod parse;
pub mod sections;
pub mod text;

pub use error::Error;
pub use parse::parse_lines;
pub use sections::SectionMap;
pub use text::is_whitespace;
