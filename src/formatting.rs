//! The renderer: puts the sections of a document back together with the
//! configured number of blank lines before each, and the whole formatting run.
use vstd::prelude::*;

use crate::errors::{
    gap_message, invalid_gap, unterminated_message, ErrorView, FormatError, GapFault,
};
use crate::locale::LocaleTable;
use crate::numeral::{numeral_value, parse_numeral};
use crate::options::{view_opt, PluginOptions, Preferences};
use crate::parsing::{classify, get_sections};
use crate::text::{append_newlines, chars_of, push_newline, split_lines};
use crate::tokens::{render_blocks, view_sections, Depth, MarkdownSection, SectionView};

verus! {

/// The gaps of one run, each a number of blank lines.
#[derive(Debug)]
pub struct Gaps {
    pub before_top_level_headings: usize,
    pub before_first_sub_heading: usize,
    pub before_sub_headings: usize,
    pub after_properties: usize,
    pub before_contents: usize,
    pub before_contents_after_code_blocks: usize,
    pub before_code_blocks: usize,
    pub before_code_blocks_after_headings: usize,
}

/// The count an optional gap option gives, or why it gives none.
pub open spec fn gap_value(o: Option<Seq<char>>) -> Result<nat, GapFault> {
    match o {
        None => Err(GapFault::Missing),
        Some(s) => if s.len() == 0 {
            Err(GapFault::Empty)
        } else {
            match numeral_value(s) {
                Some(v) => Ok(v),
                None => Err(GapFault::NotANumber),
            }
        },
    }
}

/// The gap options in the order they are read.
pub open spec fn gap_fields(o: PluginOptions) -> Seq<Option<Seq<char>>> {
    seq![
        view_opt(o.heading_gaps.before_top_level_headings),
        view_opt(o.heading_gaps.before_first_sub_heading),
        view_opt(o.heading_gaps.before_sub_headings),
        view_opt(o.other_gaps.after_properties),
        view_opt(o.other_gaps.before_contents),
        view_opt(o.other_gaps.before_contents_after_code_blocks),
        view_opt(o.other_gaps.before_code_blocks),
        view_opt(o.other_gaps.before_code_blocks_after_headings),
    ]
}

/// The fault of the first gap option that cannot be read.
pub open spec fn first_fault(fs: Seq<Option<Seq<char>>>) -> Option<GapFault>
    decreases fs.len(),
{
    if fs.len() == 0 {
        None
    } else {
        match gap_value(fs[0]) {
            Err(f) => Some(f),
            Ok(_) => first_fault(fs.drop_first()),
        }
    }
}

/// The gaps the options give, or the fault of the first one that cannot be read.
pub open spec fn gap_sizes(o: PluginOptions) -> Result<Gaps, GapFault> {
    let fs = gap_fields(o);
    match first_fault(fs) {
        Some(f) => Err(f),
        None => Ok(
            Gaps {
                before_top_level_headings: gap_value(fs[0])->Ok_0 as usize,
                before_first_sub_heading: gap_value(fs[1])->Ok_0 as usize,
                before_sub_headings: gap_value(fs[2])->Ok_0 as usize,
                after_properties: gap_value(fs[3])->Ok_0 as usize,
                before_contents: gap_value(fs[4])->Ok_0 as usize,
                before_contents_after_code_blocks: gap_value(fs[5])->Ok_0 as usize,
                before_code_blocks: gap_value(fs[6])->Ok_0 as usize,
                before_code_blocks_after_headings: gap_value(fs[7])->Ok_0 as usize,
            },
        ),
    }
}

/// `n` newline characters.
pub open spec fn newlines(n: nat) -> Seq<char> {
    Seq::new(n, |_j: int| '\n')
}

/// The number of newlines put before section `i`: none before the first
/// section; after front matter, its own gap; before other front matter, none;
/// else the gap that the section's kind, and for prose and code the kind of
/// the section before, call for. A gap of `n` blank lines is `n + 1` newlines.
pub open spec fn gap_before(vs: Seq<SectionView>, i: int, g: Gaps) -> nat {
    if i <= 0 {
        0
    } else {
        let prev = vs[i - 1];
        if prev is Property {
            (g.after_properties + 1) as nat
        } else {
            match vs[i] {
                SectionView::Property(_) => 0,
                SectionView::Heading(Depth::Top, _) => (g.before_top_level_headings + 1) as nat,
                SectionView::Heading(Depth::FirstSub, _) => (g.before_first_sub_heading + 1) as nat,
                SectionView::Heading(Depth::Sub, _) => (g.before_sub_headings + 1) as nat,
                SectionView::Content(_) => if prev is Code {
                    (g.before_contents_after_code_blocks + 1) as nat
                } else {
                    (g.before_contents + 1) as nat
                },
                SectionView::Code(_) => if prev is Heading {
                    (g.before_code_blocks_after_headings + 1) as nat
                } else {
                    (g.before_code_blocks + 1) as nat
                },
            }
        }
    }
}

/// The first `n` sections, each after its gap.
pub open spec fn render_prefix(vs: Seq<SectionView>, n: int, g: Gaps) -> Seq<char>
    decreases n,
{
    if n <= 0 {
        Seq::empty()
    } else {
        render_prefix(vs, n - 1, g) + newlines(gap_before(vs, n - 1, g)) + vs[n - 1].text()
    }
}

/// The rendered sections, with the trailing newline if asked for.
pub open spec fn render(vs: Seq<SectionView>, g: Gaps, trailing_newline: bool) -> Seq<char> {
    render_prefix(vs, vs.len() as int, g) + if trailing_newline {
        seq!['\n']
    } else {
        Seq::empty()
    }
}

/// The output of a formatting run on `input`, or its failure.
pub open spec fn formatted(input: Seq<char>, p: Preferences) -> Result<Seq<char>, ErrorView> {
    if input.len() == 0 {
        Ok(Seq::empty())
    } else {
        match classify(split_lines(input)) {
            Err(n) => Err(ErrorView::UnterminatedBlock(n, unterminated_message(p, n))),
            Ok(bs) => match gap_sizes(p.options) {
                Err(f) => Err(ErrorView::InvalidGapConfiguration(gap_message(p.locales, f))),
                Ok(g) => Ok(render(render_blocks(bs), g, p.trailing_newline())),
            },
        }
    }
}

/// Inserts line breaks before and after an input.
pub fn insert_line_breaks(input: &str, before_count: usize, after_count: usize) -> (r: String)
    ensures
        r@ == newlines(before_count as nat) + input@ + newlines(after_count as nat),
{
    let mut r = String::new();
    append_newlines(&mut r, before_count);
    r.append(input);
    append_newlines(&mut r, after_count);
    r
}

/// Reads a gap option as a count.
pub fn parse_string_to_usize(input: &Option<String>, locales: &LocaleTable) -> (r: Result<
    usize,
    FormatError,
>)
    ensures
        match gap_value(view_opt(*input)) {
            Ok(v) => r == Ok::<usize, FormatError>(v as usize),
            Err(f) => r is Err && r->Err_0@ == ErrorView::InvalidGapConfiguration(
                gap_message(*locales, f),
            ),
        },
{
    match input {
        None => Err(invalid_gap(locales, GapFault::Missing)),
        Some(s) => {
            if s.as_str().is_empty() {
                Err(invalid_gap(locales, GapFault::Empty))
            } else {
                match parse_numeral(&chars_of(s.as_str())) {
                    Some(v) => Ok(v),
                    None => Err(invalid_gap(locales, GapFault::NotANumber)),
                }
            }
        },
    }
}

/// Reads every gap option, in order, stopping at the first that cannot be read.
pub fn read_gaps(options: &PluginOptions, locales: &LocaleTable) -> (r: Result<Gaps, FormatError>)
    ensures
        match gap_sizes(*options) {
            Ok(g) => r == Ok::<Gaps, FormatError>(g),
            Err(f) => r is Err && r->Err_0@ == ErrorView::InvalidGapConfiguration(
                gap_message(*locales, f),
            ),
        },
{
    proof {
        reveal_with_fuel(first_fault, 9);
    }
    let h = &options.heading_gaps;
    let o = &options.other_gaps;
    let a = match parse_string_to_usize(&h.before_top_level_headings, locales) {
        Ok(v) => v,
        Err(e) => return Err(e),
    };
    let b = match parse_string_to_usize(&h.before_first_sub_heading, locales) {
        Ok(v) => v,
        Err(e) => return Err(e),
    };
    let c = match parse_string_to_usize(&h.before_sub_headings, locales) {
        Ok(v) => v,
        Err(e) => return Err(e),
    };
    let d = match parse_string_to_usize(&o.after_properties, locales) {
        Ok(v) => v,
        Err(e) => return Err(e),
    };
    let e = match parse_string_to_usize(&o.before_contents, locales) {
        Ok(v) => v,
        Err(e) => return Err(e),
    };
    let f = match parse_string_to_usize(&o.before_contents_after_code_blocks, locales) {
        Ok(v) => v,
        Err(e) => return Err(e),
    };
    let g = match parse_string_to_usize(&o.before_code_blocks, locales) {
        Ok(v) => v,
        Err(e) => return Err(e),
    };
    let k = match parse_string_to_usize(&o.before_code_blocks_after_headings, locales) {
        Ok(v) => v,
        Err(e) => return Err(e),
    };
    Ok(
        Gaps {
            before_top_level_headings: a,
            before_first_sub_heading: b,
            before_sub_headings: c,
            after_properties: d,
            before_contents: e,
            before_contents_after_code_blocks: f,
            before_code_blocks: g,
            before_code_blocks_after_headings: k,
        },
    )
}

/// The literal text of a section.
fn section_text(s: &MarkdownSection) -> (r: &str)
    ensures
        r@ == s@.text(),
{
    match s {
        MarkdownSection::Property(t) => t.as_str(),
        MarkdownSection::Heading(h) => match h {
            crate::tokens::HeadingLevel::Top(t) => t.as_str(),
            crate::tokens::HeadingLevel::FirstSub(t) => t.as_str(),
            crate::tokens::HeadingLevel::Sub(t) => t.as_str(),
        },
        MarkdownSection::Content(t) => t.as_str(),
        MarkdownSection::Code(t) => t.as_str(),
    }
}

/// The gap before section `i`, as the count of blank lines, or `None` where
/// no newline goes before it.
fn blank_lines_before(sections: &Vec<MarkdownSection>, i: usize, g: &Gaps) -> (r: Option<usize>)
    requires
        i < sections@.len(),
    ensures
        gap_before(view_sections(sections@), i as int, *g) == match r {
            Some(n) => n + 1,
            None => 0,
        },
{
    let ghost vs = view_sections(sections@);
    if i == 0 {
        return None;
    }
    let prev = &sections[i - 1];
    let cur = &sections[i];
    assert(vs[i - 1] == prev@ && vs[i as int] == cur@);
    match prev {
        MarkdownSection::Property(_) => Some(g.after_properties),
        _ => match cur {
            MarkdownSection::Property(_) => None,
            MarkdownSection::Heading(crate::tokens::HeadingLevel::Top(_)) => Some(
                g.before_top_level_headings,
            ),
            MarkdownSection::Heading(crate::tokens::HeadingLevel::FirstSub(_)) => Some(
                g.before_first_sub_heading,
            ),
            MarkdownSection::Heading(crate::tokens::HeadingLevel::Sub(_)) => Some(
                g.before_sub_headings,
            ),
            MarkdownSection::Content(_) => match prev {
                MarkdownSection::Code(_) => Some(g.before_contents_after_code_blocks),
                _ => Some(g.before_contents),
            },
            MarkdownSection::Code(_) => match prev {
                MarkdownSection::Heading(_) => Some(g.before_code_blocks_after_headings),
                _ => Some(g.before_code_blocks),
            },
        },
    }
}

/// Renders the sections with the given gaps.
fn render_sections(sections: &Vec<MarkdownSection>, g: &Gaps, trailing_newline: bool) -> (r: String)
    ensures
        r@ == render(view_sections(sections@), *g, trailing_newline),
{
    let ghost vs = view_sections(sections@);
    let mut out = String::new();
    let mut i: usize = 0;
    while i < sections.len()
        invariant
            i <= sections@.len(),
            vs == view_sections(sections@),
            out@ == render_prefix(vs, i as int, *g),
        decreases sections@.len() - i,
    {
        let t = section_text(&sections[i]);
        assert(vs[i as int] == sections@[i as int]@);
        match blank_lines_before(sections, i, g) {
            Some(n) => {
                push_newline(&mut out);
                let piece = insert_line_breaks(t, n, 0);
                out.append(piece.as_str());
                assert(newlines((n + 1) as nat) =~= seq!['\n'] + newlines(n as nat));
                assert(newlines(0) =~= Seq::<char>::empty());
            },
            None => {
                out.append(t);
                assert(newlines(0) =~= Seq::<char>::empty());
            },
        }
        assert(out@ =~= render_prefix(vs, i + 1, *g));
        i += 1;
    }
    if trailing_newline {
        push_newline(&mut out);
    } else {
        assert(out@ =~= out@ + Seq::<char>::empty());
    }
    out
}

/// Renders classified sections, separating them by the gaps that the options
/// set; fails when a gap option cannot be read.
pub fn get_formatted_string(sections: Vec<MarkdownSection>, preferences: &Preferences) -> (r: Result<
    String,
    FormatError,
>)
    ensures
        match gap_sizes(preferences.options) {
            Ok(g) => r is Ok && r->Ok_0@ == render(
                view_sections(sections@),
                g,
                preferences.trailing_newline(),
            ),
            Err(f) => r is Err && r->Err_0@ == ErrorView::InvalidGapConfiguration(
                gap_message(preferences.locales, f),
            ),
        },
{
    let g = match read_gaps(&preferences.options, &preferences.locales) {
        Ok(g) => g,
        Err(e) => return Err(e),
    };
    let nl = match preferences.options.format_options.insert_newline {
        Some(b) => b,
        None => false,
    };
    Ok(render_sections(&sections, &g, nl))
}

/// Formats a document: classifies its lines into sections and renders them
/// with the configured gaps. An empty document stays empty.
pub fn parse_input(input: &str, preferences: &Preferences) -> (r: Result<String, FormatError>)
    ensures
        match formatted(input@, *preferences) {
            Ok(t) => r is Ok && r->Ok_0@ == t,
            Err(e) => r is Err && r->Err_0@ == e,
        },
{
    if input.is_empty() {
        return Ok(String::new());
    }
    let sections = match get_sections(input, preferences) {
        Ok(s) => s,
        Err(e) => return Err(e),
    };
    get_formatted_string(sections, preferences)
}

} // verus!
