//! The formatter's options, as the host hands them over: every gap is a
//! count written as text, and may be missing.
use vstd::prelude::*;

use crate::locale::LocaleTable;

verus! {

/// Gaps before headings.
#[derive(Debug)]
pub struct HeadingGaps {
    /// The gap before a top-level heading.
    pub before_top_level_headings: Option<String>,
    /// The gap before a heading that goes one level deeper.
    pub before_first_sub_heading: Option<String>,
    /// The gap before other headings below the top level.
    pub before_sub_headings: Option<String>,
}

/// Gaps around front matter, prose and code.
#[derive(Debug)]
pub struct OtherGaps {
    /// The gap after the front matter.
    pub after_properties: Option<String>,
    /// The gap before prose.
    pub before_contents: Option<String>,
    /// The gap before prose that follows a code block.
    pub before_contents_after_code_blocks: Option<String>,
    /// The gap before a code block.
    pub before_code_blocks: Option<String>,
    /// The gap before a code block that follows a heading.
    pub before_code_blocks_after_headings: Option<String>,
}

/// Options on the output as a whole.
#[derive(Debug)]
pub struct FormatOptions {
    /// Ends the document with a newline.
    pub insert_newline: Option<bool>,
}

/// Options on messages.
#[derive(Debug)]
pub struct OtherOptions {
    /// Tells the user when nothing had to change.
    pub notify_when_unchanged: Option<bool>,
    /// Names the line in a message about a document that cannot be parsed.
    pub show_more_detailed_error_messages: Option<bool>,
}

/// All options of one formatting run.
#[derive(Debug)]
pub struct PluginOptions {
    pub heading_gaps: HeadingGaps,
    pub other_gaps: OtherGaps,
    pub format_options: FormatOptions,
    pub other_options: OtherOptions,
}

/// What one formatting run is given besides the document: its options and the
/// translations of its messages.
#[derive(Debug)]
pub struct Preferences {
    pub options: PluginOptions,
    pub locales: LocaleTable,
}

/// The text of an optional string.
pub open spec fn view_opt(o: Option<String>) -> Option<Seq<char>> {
    match o {
        Some(s) => Some(s@),
        None => None,
    }
}

impl Preferences {
    /// Messages name the line of a block that is never closed.
    pub open spec fn detailed(&self) -> bool {
        self.options.other_options.show_more_detailed_error_messages == Some(true)
    }

    /// The output ends with an added newline.
    pub open spec fn trailing_newline(&self) -> bool {
        self.options.format_options.insert_newline == Some(true)
    }
}

} // verus!
