//! The sections a document is classified into, and their mathematical model.
use vstd::prelude::*;

use crate::text::join_lines;

verus! {

/// A heading, tagged with its depth relative to the document's top level,
/// holding its literal text (hashes or underline included).
#[derive(Debug, PartialEq, Eq)]
pub enum HeadingLevel {
    Top(String),
    FirstSub(String),
    Sub(String),
}

/// One section of a classified document.
#[derive(Debug, PartialEq, Eq)]
pub enum MarkdownSection {
    Property(String),
    Heading(HeadingLevel),
    Content(String),
    Code(String),
}

/// The depth tag of a heading.
pub enum Depth {
    Top,
    FirstSub,
    Sub,
}

/// A section as the classifier sees it: its kind and the lines it was made of.
pub enum Block {
    Property(Seq<Seq<char>>),
    Heading(Depth, Seq<Seq<char>>),
    Content(Seq<Seq<char>>),
    Code(Seq<Seq<char>>),
}

/// A section as text: its kind and its literal text.
pub enum SectionView {
    Property(Seq<char>),
    Heading(Depth, Seq<char>),
    Content(Seq<char>),
    Code(Seq<char>),
}

impl Block {
    /// The text of the section: its lines joined by newlines.
    pub open spec fn rendered(self) -> SectionView {
        match self {
            Block::Property(ls) => SectionView::Property(join_lines(ls)),
            Block::Heading(d, ls) => SectionView::Heading(d, join_lines(ls)),
            Block::Content(ls) => SectionView::Content(join_lines(ls)),
            Block::Code(ls) => SectionView::Code(join_lines(ls)),
        }
    }
}

impl SectionView {
    /// The literal text of the section.
    pub open spec fn text(self) -> Seq<char> {
        match self {
            SectionView::Property(t) => t,
            SectionView::Heading(_, t) => t,
            SectionView::Content(t) => t,
            SectionView::Code(t) => t,
        }
    }
}

impl View for MarkdownSection {
    type V = SectionView;

    open spec fn view(&self) -> SectionView {
        match self {
            MarkdownSection::Property(t) => SectionView::Property(t@),
            MarkdownSection::Heading(HeadingLevel::Top(t)) => SectionView::Heading(Depth::Top, t@),
            MarkdownSection::Heading(HeadingLevel::FirstSub(t)) => SectionView::Heading(
                Depth::FirstSub,
                t@,
            ),
            MarkdownSection::Heading(HeadingLevel::Sub(t)) => SectionView::Heading(Depth::Sub, t@),
            MarkdownSection::Content(t) => SectionView::Content(t@),
            MarkdownSection::Code(t) => SectionView::Code(t@),
        }
    }
}

/// The views of a sequence of sections.
pub open spec fn view_sections(v: Seq<MarkdownSection>) -> Seq<SectionView> {
    v.map_values(|s: MarkdownSection| s@)
}

/// The texts of a sequence of blocks.
pub open spec fn render_blocks(bs: Seq<Block>) -> Seq<SectionView> {
    bs.map_values(|b: Block| b.rendered())
}

} // verus!
