//! The section classifier: one pass over the lines of a document that turns
//! them into front matter, headings tagged with their relative depth, fenced
//! code and prose.
use vstd::prelude::*;

use crate::headings::{
    atx_level, atx_line, fence_line, fence_run, is_atx, is_fence,
    setext_level, setext_level_at, top_level, top_level_of, view_lines,
};
use crate::errors::{unterminated, unterminated_message, ErrorView, FormatError};
use crate::options::Preferences;
use crate::text::{
    append_chars, chars_of, join_lines, lemma_join_split, leading_run, lines_of, push_newline,
    split_lines, trim_end, without_trailing_whitespace,
};
use crate::tokens::{
    render_blocks, view_sections, Block, Depth, HeadingLevel, MarkdownSection, SectionView,
};

verus! {

/// A block that is still open: the line it started on, the backtick run of its
/// opening fence (for code), and the lines read so far.
pub struct OpenBlock {
    pub start: nat,
    pub run: nat,
    pub lines: Seq<Seq<char>>,
}

/// The classifier's state after some lines: the sections emitted, the level of
/// the last heading (0 before any), the open front matter or code block, and
/// the pending prose lines.
pub struct Scan {
    pub blocks: Seq<Block>,
    pub level: nat,
    pub property: Option<OpenBlock>,
    pub code: Option<OpenBlock>,
    pub content: Seq<Seq<char>>,
}

/// A line that is exactly `---`.
pub open spec fn dashes(l: Seq<char>) -> bool {
    l == seq!['-', '-', '-']
}

/// Emits the prose lines `c`, joined and without the white space at their end,
/// as a content section (unless nothing is left of them) and empties the
/// pending prose.
pub open spec fn flush_content(s: Scan, c: Seq<Seq<char>>) -> Scan {
    let t = trim_end(join_lines(c));
    Scan {
        blocks: if t.len() > 0 {
            s.blocks.push(Block::Content(split_lines(t)))
        } else {
            s.blocks
        },
        content: Seq::empty(),
        ..s
    }
}

/// What flushing prose adds to the text of the sections.
pub proof fn lemma_flush_render(s: Scan, c: Seq<Seq<char>>)
    ensures
        ({
            let t = trim_end(join_lines(c));
            render_blocks(flush_content(s, c).blocks) == if t.len() > 0 {
                render_blocks(s.blocks).push(SectionView::Content(t))
            } else {
                render_blocks(s.blocks)
            }
        }),
        c.len() == 0 ==> flush_content(s, c).blocks == s.blocks,
{
    let t = trim_end(join_lines(c));
    if t.len() > 0 {
        lemma_join_split(t);
        assert(render_blocks(s.blocks.push(Block::Content(split_lines(t)))) =~= render_blocks(
            s.blocks,
        ).push(SectionView::Content(t)));
    }
}

/// The depth tag of a heading of level `lv`, given the document's top level
/// and the level of the previous heading.
pub open spec fn depth_of(lv: nat, top: nat, current: nat) -> Depth {
    if lv == top {
        Depth::Top
    } else if lv > current {
        Depth::FirstSub
    } else {
        Depth::Sub
    }
}

/// The state before any line.
pub open spec fn initial_scan() -> Scan {
    Scan {
        blocks: Seq::empty(),
        level: 0,
        property: None,
        code: None,
        content: Seq::empty(),
    }
}

/// What line `i` does to the state. The checks come in order and the first
/// that applies wins: an empty line outside prose and code is skipped; front
/// matter is read until its closing `---`; a `---` as the first non-empty line
/// opens front matter; code is read until a fence with the same backtick run;
/// a fence opens code; an ATX heading, then a Setext underline under a pending
/// prose line, emit a heading; anything else is prose.
pub open spec fn step(s: Scan, ls: Seq<Seq<char>>, i: int, top: Option<nat>) -> Scan {
    let l = ls[i];
    if l.len() == 0 && s.content.len() == 0 && s.code is None {
        s
    } else if s.property is Some {
        let p = s.property->0;
        if dashes(l) {
            Scan { blocks: s.blocks.push(Block::Property(p.lines.push(l))), property: None, ..s }
        } else {
            Scan { property: Some(OpenBlock { lines: p.lines.push(l), ..p }), ..s }
        }
    } else if s.blocks.len() == 0 && s.content.len() == 0 && s.code is None && dashes(l) {
        Scan { property: Some(OpenBlock { start: i as nat, run: 0, lines: seq![l] }), ..s }
    } else if s.code is Some {
        let c = s.code->0;
        if is_fence(l) && fence_run(l) == c.run {
            Scan { blocks: s.blocks.push(Block::Code(c.lines.push(l))), code: None, ..s }
        } else {
            Scan { code: Some(OpenBlock { lines: c.lines.push(l), ..c }), ..s }
        }
    } else if is_fence(l) {
        let f = flush_content(s, s.content);
        Scan { code: Some(OpenBlock { start: i as nat, run: fence_run(l), lines: seq![l] }), ..f }
    } else if is_atx(l) && top is Some {
        let f = flush_content(s, s.content);
        Scan {
            blocks: f.blocks.push(
                Block::Heading(depth_of(atx_level(l), top->0, s.level), seq![l]),
            ),
            level: atx_level(l),
            ..f
        }
    } else if setext_level(ls, i) is Some && top is Some && s.content.len() > 0 {
        let f = flush_content(s, s.content.drop_last());
        let lv = setext_level(ls, i)->0;
        Scan {
            blocks: f.blocks.push(
                Block::Heading(depth_of(lv, top->0, s.level), seq![ls[i - 1], l]),
            ),
            level: lv,
            ..f
        }
    } else {
        Scan { content: s.content.push(l), ..s }
    }
}

/// The state after the first `n` lines.
pub open spec fn scan(ls: Seq<Seq<char>>, n: int, top: Option<nat>) -> Scan
    decreases n,
{
    if n <= 0 {
        initial_scan()
    } else {
        step(scan(ls, n - 1, top), ls, n - 1, top)
    }
}

/// The sections of a document given as lines, or the line on which the front
/// matter or code block that is never closed starts.
pub open spec fn classify(ls: Seq<Seq<char>>) -> Result<Seq<Block>, nat> {
    let s = scan(ls, ls.len() as int, top_level(ls));
    if s.property is Some {
        Err(s.property->0.start)
    } else if s.code is Some {
        Err(s.code->0.start)
    } else {
        Ok(flush_content(s, s.content).blocks)
    }
}

proof fn lemma_join_push(ls: Seq<Seq<char>>, a: int, b: int)
    requires
        0 <= a < b < ls.len(),
    ensures
        join_lines(ls.subrange(a, b + 1)) == join_lines(ls.subrange(a, b)) + seq!['\n'] + ls[b],
{
    assert(ls.subrange(a, b + 1).drop_last() =~= ls.subrange(a, b));
}

/// The lines `a..b` joined by newlines.
fn text_of(lines: &Vec<Vec<char>>, a: usize, b: usize) -> (r: String)
    requires
        a < b <= lines@.len(),
    ensures
        r@ == join_lines(view_lines(lines@).subrange(a as int, b as int)),
{
    let ghost ls = view_lines(lines@);
    let mut r = String::new();
    append_chars(&mut r, &lines[a]);
    assert(ls.subrange(a as int, a + 1) =~= seq![ls[a as int]]);
    let mut k: usize = a + 1;
    while k < b
        invariant
            a < k <= b <= lines@.len(),
            ls == view_lines(lines@),
            r@ == join_lines(ls.subrange(a as int, k as int)),
        decreases b - k,
    {
        push_newline(&mut r);
        append_chars(&mut r, &lines[k]);
        proof {
            lemma_join_push(ls, a as int, k as int);
        }
        k += 1;
    }
    r
}

/// Pushes the prose lines `a..b`, joined and without the white space at their
/// end, as a content section, unless nothing is left of them.
fn push_content(sections: &mut Vec<MarkdownSection>, lines: &Vec<Vec<char>>, a: usize, b: usize)
    requires
        a <= b <= lines@.len(),
    ensures
        ({
            let t = trim_end(join_lines(view_lines(lines@).subrange(a as int, b as int)));
            view_sections(final(sections)@) == if t.len() > 0 {
                view_sections(old(sections)@).push(SectionView::Content(t))
            } else {
                view_sections(old(sections)@)
            }
        }),
{
    let ghost ls = view_lines(lines@);
    if a == b {
        assert(ls.subrange(a as int, b as int) =~= Seq::<Seq<char>>::empty());
        return;
    }
    let text = text_of(lines, a, b);
    let t = without_trailing_whitespace(text.as_str());
    if !t.as_str().is_empty() {
        let ghost old_v = sections@;
        let ghost tv = t@;
        sections.push(MarkdownSection::Content(t));
        assert(view_sections(sections@) =~= view_sections(old_v).push(SectionView::Content(tv)));
    }
}

/// Whether `l` is exactly `---`.
fn dash_line(l: &Vec<char>) -> (r: bool)
    ensures
        r == dashes(l@),
{
    if l.len() == 3 && l[0] == '-' && l[1] == '-' && l[2] == '-' {
        assert(l@ =~= seq!['-', '-', '-']);
        true
    } else {
        false
    }
}

/// A heading section of level `lv` with text `t`, tagged by its depth.
fn tagged_heading(lv: usize, top: usize, current: usize, t: String) -> (r: MarkdownSection)
    ensures
        r@ == SectionView::Heading(depth_of(lv as nat, top as nat, current as nat), t@),
{
    if lv == top {
        MarkdownSection::Heading(HeadingLevel::Top(t))
    } else if lv > current {
        MarkdownSection::Heading(HeadingLevel::FirstSub(t))
    } else {
        MarkdownSection::Heading(HeadingLevel::Sub(t))
    }
}

/// Classifies a document given as lines: its sections, or the line on which
/// a front matter or code block that is never closed starts.
pub fn classify_lines(lines: &Vec<Vec<char>>) -> (r: Result<Vec<MarkdownSection>, usize>)
    ensures
        match classify(view_lines(lines@)) {
            Ok(bs) => r is Ok && view_sections(r->Ok_0@) == render_blocks(bs),
            Err(n) => n < lines@.len() && r == Err::<Vec<MarkdownSection>, usize>(n as usize),
        },
{
    let ghost ls = view_lines(lines@);
    let top = top_level_of(lines);
    let ghost tl = top_level(ls);
    let mut sections: Vec<MarkdownSection> = Vec::new();
    let mut level: usize = 0;
    let mut prop_open = false;
    let mut prop_start: usize = 0;
    let mut prop_text = String::new();
    let mut code_open = false;
    let mut code_start: usize = 0;
    let mut code_run: usize = 0;
    let mut content_open = false;
    let mut content_start: usize = 0;
    let mut k: usize = 0;
    assert(view_sections(sections@) =~= render_blocks(Seq::<Block>::empty()));
    while k < lines.len()
        invariant
            k <= lines@.len(),
            ls == view_lines(lines@),
            tl == top_level(ls),
            top matches Some(x) ==> tl == Some(x as nat),
            top is None ==> tl is None,
            ({
                let s = scan(ls, k as int, tl);
                &&& view_sections(sections@) == render_blocks(s.blocks)
                &&& s.level == level as nat
                &&& (s.property is Some) == prop_open
                &&& prop_open ==> s.blocks.len() == 0 && s.code is None && s.content.len() == 0
                &&& prop_open ==> s.property->0.start == prop_start as nat && prop_start < k
                &&& prop_open ==> s.property->0.lines.len() > 0
                &&& prop_open ==> prop_text@ == join_lines(s.property->0.lines)
                &&& (s.code is Some) == code_open
                &&& code_open ==> s.content.len() == 0
                &&& code_open ==> s.code->0.start == code_start as nat && code_start < k
                &&& code_open ==> s.code->0.run == code_run as nat
                &&& code_open ==> s.code->0.lines == ls.subrange(code_start as int, k as int)
                &&& (s.content.len() > 0) == content_open
                &&& content_open ==> content_start < k
                &&& content_open ==> s.content == ls.subrange(content_start as int, k as int)
            }),
        decreases lines@.len() - k,
    {
        let ghost s = scan(ls, k as int, tl);
        let ghost old_v = sections@;
        let l = &lines[k];
        assert(ls[k as int] == l@);
        if l.len() == 0 && !content_open && !code_open {
        } else if prop_open {
            assert(s.property->0.lines.push(l@).drop_last() =~= s.property->0.lines);
            push_newline(&mut prop_text);
            append_chars(&mut prop_text, l);
            assert(prop_text@ == join_lines(s.property->0.lines.push(l@)));
            if dash_line(l) {
                let t = prop_text.clone();
                assert(t@ == prop_text@);
                sections.push(MarkdownSection::Property(t));
                prop_text = String::new();
                prop_open = false;
                assert(view_sections(sections@) =~= view_sections(old_v).push(
                    Block::Property(s.property->0.lines.push(l@)).rendered(),
                ));
                assert(render_blocks(s.blocks.push(Block::Property(s.property->0.lines.push(l@))))
                    =~= render_blocks(s.blocks).push(
                    Block::Property(s.property->0.lines.push(l@)).rendered(),
                ));
            }
        } else if sections.len() == 0 && !content_open && !code_open && dash_line(l) {
            prop_open = true;
            prop_start = k;
            prop_text = String::new();
            append_chars(&mut prop_text, l);
        } else if code_open {
            if fence_line(l) && leading_run(l, '`') == code_run {
                let t = text_of(lines, code_start, k + 1);
                sections.push(MarkdownSection::Code(t));
                code_open = false;
                assert(ls.subrange(code_start as int, k + 1) =~= s.code->0.lines.push(l@));
                assert(view_sections(sections@) =~= view_sections(old_v).push(
                    Block::Code(s.code->0.lines.push(l@)).rendered(),
                ));
                assert(render_blocks(s.blocks.push(Block::Code(s.code->0.lines.push(l@))))
                    =~= render_blocks(s.blocks).push(
                    Block::Code(s.code->0.lines.push(l@)).rendered(),
                ));
            } else {
                assert(ls.subrange(code_start as int, k + 1) =~= s.code->0.lines.push(l@));
            }
        } else if fence_line(l) {
            if content_open {
                push_content(&mut sections, lines, content_start, k);
            }
            proof {
                lemma_flush_render(s, s.content);
            }
            content_open = false;
            code_open = true;
            code_start = k;
            code_run = leading_run(l, '`');
            assert(ls.subrange(k as int, k + 1) =~= seq![l@]);
            assert(view_sections(sections@) == render_blocks(flush_content(s, s.content).blocks));
        } else if atx_line(l) && top.is_some() {
            if content_open {
                push_content(&mut sections, lines, content_start, k);
            }
            let ghost f = flush_content(s, s.content);
            proof {
                lemma_flush_render(s, s.content);
            }
            content_open = false;
            let lv = leading_run(l, '#');
            let t = text_of(lines, k, k + 1);
            assert(ls.subrange(k as int, k + 1) =~= seq![l@]);
            let ghost mid = sections@;
            let h = tagged_heading(lv, top.unwrap(), level, t);
            sections.push(h);
            let ghost b = Block::Heading(depth_of(lv as nat, tl->0, s.level), seq![l@]);
            assert(view_sections(sections@) =~= view_sections(mid).push(b.rendered()));
            assert(view_sections(mid) == render_blocks(f.blocks));
            assert(render_blocks(f.blocks.push(b)) =~= render_blocks(f.blocks).push(b.rendered()));
            level = lv;
        } else {
            let sl = setext_level_at(lines, k);
            if sl.is_some() && top.is_some() && content_open {
                let lv = sl.unwrap();
                let ghost c2 = s.content.drop_last();
                assert(c2 =~= ls.subrange(content_start as int, k - 1));
                push_content(&mut sections, lines, content_start, k - 1);
                let ghost f = flush_content(s, c2);
                proof {
                    lemma_flush_render(s, c2);
                }
                content_open = false;
                let t = text_of(lines, k - 1, k + 1);
                assert(ls.subrange(k - 1, k + 1) =~= seq![ls[k - 1], l@]);
                let ghost mid = sections@;
                let h = tagged_heading(lv, top.unwrap(), level, t);
                sections.push(h);
                let ghost b = Block::Heading(
                    depth_of(lv as nat, tl->0, s.level),
                    seq![ls[k - 1], l@],
                );
                assert(view_sections(sections@) =~= view_sections(mid).push(b.rendered()));
                assert(render_blocks(f.blocks.push(b)) =~= render_blocks(f.blocks).push(
                    b.rendered(),
                ));
                level = lv;
            } else {
                if !content_open {
                    content_open = true;
                    content_start = k;
                }
                assert(ls.subrange(content_start as int, k + 1) =~= s.content.push(l@));
            }
        }
        assert(view_sections(sections@) == render_blocks(step(s, ls, k as int, tl).blocks));
        k += 1;
    }
    let ghost s = scan(ls, k as int, tl);
    if prop_open {
        return Err(prop_start);
    }
    if code_open {
        return Err(code_start);
    }
    if content_open {
        push_content(&mut sections, lines, content_start, k);
    }
    proof {
        lemma_flush_render(s, s.content);
    }
    Ok(sections)
}

/// Serializes a document into sections; fails, naming the line it starts on,
/// when front matter or a code block is never closed.
pub fn get_sections(input: &str, preferences: &Preferences) -> (r: Result<
    Vec<MarkdownSection>,
    FormatError,
>)
    ensures
        match classify(split_lines(input@)) {
            Ok(bs) => r is Ok && view_sections(r->Ok_0@) == render_blocks(bs),
            Err(n) => r is Err && r->Err_0@ == ErrorView::UnterminatedBlock(
                n,
                unterminated_message(*preferences, n),
            ),
        },
{
    let cs = chars_of(input);
    let lines = lines_of(&cs);
    assert(view_lines(lines@) =~= split_lines(input@));
    assert(classify(view_lines(lines@)) == classify(split_lines(input@)));
    let ghost c = classify(split_lines(input@));
    let count = lines.len();
    match classify_lines(&lines) {
        Ok(s) => {
            assert(c is Ok);
            assert(view_sections(s@) == render_blocks(c->Ok_0));
            Ok(s)
        },
        Err(n) => {
            assert(c is Err);
            assert(c->Err_0 < count);
            Err(unterminated(preferences, n))
        },
    }
}

/// Appends a line to a buffer of lines, after a line break unless the buffer
/// is empty.
pub fn append_a_line_break(string: &mut String, line: &str)
    ensures
        final(string)@ == if old(string)@.len() == 0 {
            line@
        } else {
            old(string)@ + seq!['\n'] + line@
        },
{
    if !string.as_str().is_empty() {
        push_newline(string);
    }
    string.append(line);
}

/// Finishes the pending prose: unless the buffer is empty, pushes it, without
/// the white space at its end, as a content section and empties it.
pub fn finish_current_content_section(
    is_reading_content_section: &mut bool,
    sections: &mut Vec<MarkdownSection>,
    temp_content_section: &mut String,
)
    ensures
        !*final(is_reading_content_section),
        final(temp_content_section)@.len() == 0,
        old(temp_content_section)@.len() == 0 ==> final(sections)@ == old(sections)@,
        old(temp_content_section)@.len() > 0 ==> view_sections(final(sections)@) == view_sections(
            old(sections)@,
        ).push(SectionView::Content(trim_end(old(temp_content_section)@))),
{
    *is_reading_content_section = false;
    if temp_content_section.as_str().is_empty() {
        return;
    }
    let t = without_trailing_whitespace(temp_content_section.as_str());
    let ghost v = sections@;
    sections.push(MarkdownSection::Content(t));
    assert(view_sections(sections@) =~= view_sections(v).push(SectionView::Content(t@)));
    *temp_content_section = String::new();
}

} // verus!
