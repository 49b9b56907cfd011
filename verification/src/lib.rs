//! Converts textual dumps of PDF reading annotations (file markers, page
//! markers, highlighted and underlined passages) into a single Markdown
//! document.
//!
//! The pipeline has two stages: a line-classification state machine that
//! turns raw annotation text into an ordered sequence of typed records
//! ([`records::ParsedItem`]), and a context-sensitive renderer that folds
//! that sequence into formatted Markdown ([`render_md::render_md`]).

pub mod laws;
pub mod matchers;
pub mod offset;
pub mod parse_goodreader;
pub mod parser_goodreader;
pub mod records;
pub mod render_md;
pub mod text;
