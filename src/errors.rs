//! The two ways a formatting run can fail, with their messages.
use vstd::prelude::*;

use crate::locale::{
    get_locale_string, replace_text, resolve, replace_all, LocaleCategory, LocaleTable,
    LINE_PLACEHOLDER, OPTION_EMPTY, OPTION_MISSING, OPTION_NOT_A_NUMBER, PARSE_FAILURE,
    PARSE_FAILURE_AT_LINE,
};
use crate::numeral::{decimal, decimal_of};
use crate::options::Preferences;

verus! {

/// Why a formatting run gave no output.
#[derive(Debug, PartialEq, Eq)]
pub enum FormatError {
    /// Front matter or a code block is still open at the end of the document;
    /// `line` is the 0-based line on which it starts.
    UnterminatedBlock { line: usize, message: String },
    /// A gap option is missing, empty or not a count.
    InvalidGapConfiguration { message: String },
}

/// A failure as the contracts see it.
pub enum ErrorView {
    UnterminatedBlock(nat, Seq<char>),
    InvalidGapConfiguration(Seq<char>),
}

impl View for FormatError {
    type V = ErrorView;

    open spec fn view(&self) -> ErrorView {
        match self {
            FormatError::UnterminatedBlock { line, message } => ErrorView::UnterminatedBlock(
                *line as nat,
                message@,
            ),
            FormatError::InvalidGapConfiguration { message } => ErrorView::InvalidGapConfiguration(
                message@,
            ),
        }
    }
}

impl FormatError {
    /// The message to show the user.
    pub fn message(&self) -> (r: String)
        ensures
            r@ == match self@ {
                ErrorView::UnterminatedBlock(_, m) => m,
                ErrorView::InvalidGapConfiguration(m) => m,
            },
    {
        match self {
            FormatError::UnterminatedBlock { message, .. } => message.clone(),
            FormatError::InvalidGapConfiguration { message } => message.clone(),
        }
    }
}

/// Why a gap option cannot be read.
pub enum GapFault {
    Missing,
    Empty,
    NotANumber,
}

/// The message key for a gap option that cannot be read.
pub open spec fn fault_key(f: GapFault) -> Seq<char> {
    match f {
        GapFault::Missing => OPTION_MISSING@,
        GapFault::Empty => OPTION_EMPTY@,
        GapFault::NotANumber => OPTION_NOT_A_NUMBER@,
    }
}

/// The message for a gap option that cannot be read.
pub open spec fn gap_message(locales: LocaleTable, f: GapFault) -> Seq<char> {
    resolve(locales.entries(LocaleCategory::Formatting), fault_key(f))
}

/// The message for a block that starts on line `line` and is never closed:
/// with detailed messages, the translated template with the line filled in.
pub open spec fn unterminated_message(p: Preferences, line: nat) -> Seq<char> {
    let es = p.locales.entries(LocaleCategory::Parsing);
    if p.detailed() {
        replace_all(resolve(es, PARSE_FAILURE_AT_LINE@), LINE_PLACEHOLDER@, decimal(line))
    } else {
        resolve(es, PARSE_FAILURE@)
    }
}

/// The failure for a block that starts on line `line` and is never closed.
pub fn unterminated(preferences: &Preferences, line: usize) -> (r: FormatError)
    ensures
        r@ == ErrorView::UnterminatedBlock(line as nat, unterminated_message(*preferences, line as nat)),
{
    let detailed = match preferences.options.other_options.show_more_detailed_error_messages {
        Some(d) => d,
        None => false,
    };
    let message = if detailed {
        let template = get_locale_string(
            &preferences.locales,
            LocaleCategory::Parsing,
            PARSE_FAILURE_AT_LINE,
        );
        replace_text(template.as_str(), LINE_PLACEHOLDER, &decimal_of(line))
    } else {
        get_locale_string(&preferences.locales, LocaleCategory::Parsing, PARSE_FAILURE)
    };
    FormatError::UnterminatedBlock { line, message }
}

/// The failure for a gap option that cannot be read.
pub fn invalid_gap(locales: &LocaleTable, f: GapFault) -> (r: FormatError)
    ensures
        r@ == ErrorView::InvalidGapConfiguration(gap_message(*locales, f)),
{
    let key = match f {
        GapFault::Missing => OPTION_MISSING,
        GapFault::Empty => OPTION_EMPTY,
        GapFault::NotANumber => OPTION_NOT_A_NUMBER,
    };
    FormatError::InvalidGapConfiguration {
        message: get_locale_string(locales, LocaleCategory::Formatting, key),
    }
}

} // verus!
