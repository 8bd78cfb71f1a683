//! Reformats a Markdown document into a canonical layout: classifies its lines
//! into front matter, headings tagged with their depth relative to the
//! document's top level, fenced code and prose, then renders those sections
//! again with a configured number of blank lines before each.

pub mod errors;
pub mod formatting;
pub mod headings;
pub mod laws;
pub mod locale;
pub mod numeral;
pub mod options;
pub mod parsing;
pub mod stability;
pub mod text;
pub mod tokens;
