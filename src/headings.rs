//! Recognising headings: ATX (`#`-prefixed) lines, Setext underlines with the
//! context that makes them headings, and the shallowest heading level of a
//! whole document.
use vstd::prelude::*;

use crate::text::{all_are, chars_of, leading_run, lemma_run_end, lemma_run_len_all, run_len};

verus! {

/// Somewhere in `l` a `#` is directly followed by a space.
pub open spec fn has_hash_space(l: Seq<char>) -> bool {
    exists|j: int| 0 <= j && j + 1 < l.len() && #[trigger] l[j] == '#' && l[j + 1] == ' '
}

/// An ATX heading line: it starts with `#`, and either holds `"# "` or consists
/// of `#` alone (a heading without a title).
pub open spec fn is_atx(l: Seq<char>) -> bool {
    l.len() > 0 && l[0] == '#' && (has_hash_space(l) || all_are(l, '#'))
}

/// The level of an ATX heading line: the number of its leading `#`.
pub open spec fn atx_level(l: Seq<char>) -> nat {
    run_len(l, '#')
}

/// The level a Setext underline stands for: 1 for a line of `=` alone, 2 for a
/// line of `-` alone.
pub open spec fn underline_level(l: Seq<char>) -> Option<nat> {
    if l.len() == 0 {
        None
    } else if all_are(l, '=') {
        Some(1)
    } else if all_are(l, '-') {
        Some(2)
    } else {
        None
    }
}

/// The line before `i` can be the title of a Setext heading underlined at `i`:
/// it is neither empty nor an ATX heading, and it stands at the start of the
/// document, after an empty line or after an ATX heading.
pub open spec fn setext_context(ls: Seq<Seq<char>>, i: int) -> bool {
    &&& 1 <= i < ls.len()
    &&& ls[i - 1].len() > 0
    &&& !is_atx(ls[i - 1])
    &&& (i == 1 || ls[i - 2].len() == 0 || is_atx(ls[i - 2]))
}

/// The level of the Setext heading whose underline is line `i`, if that line is
/// one.
pub open spec fn setext_level(ls: Seq<Seq<char>>, i: int) -> Option<nat> {
    if 0 <= i < ls.len() && underline_level(ls[i]) is Some && setext_context(ls, i) {
        underline_level(ls[i])
    } else {
        None
    }
}

/// A code fence line: it starts with a run of at least three backticks.
pub open spec fn is_fence(l: Seq<char>) -> bool {
    run_len(l, '`') >= 3
}

/// The length of the backtick run that opens a fence line.
pub open spec fn fence_run(l: Seq<char>) -> nat {
    run_len(l, '`')
}

/// The smaller of a running minimum and a new level.
pub open spec fn min_level(m: Option<nat>, lv: nat) -> Option<nat> {
    match m {
        Some(x) => if lv < x { Some(lv) } else { Some(x) },
        None => Some(lv),
    }
}

/// The shallowest heading level among the first `n` lines and whether line
/// `n - 1` leaves a code fence open. A fence line flips the fence state; lines
/// inside a fence are not looked at.
pub open spec fn top_scan(ls: Seq<Seq<char>>, n: int) -> (Option<nat>, bool)
    decreases n,
{
    if n <= 0 {
        (None, false)
    } else {
        let (m, in_code) = top_scan(ls, n - 1);
        let l = ls[n - 1];
        let in_code2 = if is_fence(l) { !in_code } else { in_code };
        if in_code2 {
            (m, in_code2)
        } else if is_atx(l) {
            (min_level(m, atx_level(l)), in_code2)
        } else if setext_level(ls, n - 1) is Some {
            (min_level(m, setext_level(ls, n - 1)->0), in_code2)
        } else {
            (m, in_code2)
        }
    }
}

/// The top heading level of a document: the shallowest level of a heading
/// outside code fences, or `None` when it has no heading.
pub open spec fn top_level(ls: Seq<Seq<char>>) -> Option<nat> {
    top_scan(ls, ls.len() as int).0
}

/// The lines that a vector of character vectors holds.
pub open spec fn view_lines(v: Seq<Vec<char>>) -> Seq<Seq<char>> {
    v.map_values(|l: Vec<char>| l@)
}

/// The lines that a slice of string slices holds.
pub open spec fn view_strs(v: Seq<&str>) -> Seq<Seq<char>> {
    v.map_values(|l: &str| l@)
}

/// An ATX heading line has a level of at least 1.
pub proof fn lemma_atx_level_positive(l: Seq<char>)
    requires
        is_atx(l),
    ensures
        atx_level(l) >= 1,
{
    assert(l[0] == '#');
    lemma_run_end(l, '#', 1);
    reveal_with_fuel(crate::text::run_end, 2);
}

/// Once the running minimum is 1, the rest of the scan keeps it at 1.
pub proof fn lemma_top_scan_one(ls: Seq<Seq<char>>, k: int, n: int)
    requires
        0 <= k <= n <= ls.len(),
        top_scan(ls, k).0 == Some(1nat),
    ensures
        top_scan(ls, n).0 == Some(1nat),
    decreases n - k,
{
    if k < n {
        let l = ls[k];
        if is_atx(l) {
            lemma_atx_level_positive(l);
        }
        assert(top_scan(ls, k + 1).0 == Some(1nat));
        lemma_top_scan_one(ls, k + 1, n);
    }
}

/// Converts each string slice into the vector of its characters.
pub fn lines_of_strs(input_lines: &[&str]) -> (r: Vec<Vec<char>>)
    ensures
        view_lines(r@) == view_strs(input_lines@),
{
    let mut r: Vec<Vec<char>> = Vec::new();
    let mut k: usize = 0;
    while k < input_lines.len()
        invariant
            k <= input_lines@.len(),
            view_lines(r@) == view_strs(input_lines@).take(k as int),
        decreases input_lines@.len() - k,
    {
        let ghost old_r = r@;
        let v = chars_of(input_lines[k]);
        r.push(v);
        assert(view_lines(r@) =~= view_lines(old_r).push(input_lines@[k as int]@));
        assert(view_strs(input_lines@).take(k + 1 as int) =~= view_strs(input_lines@).take(
            k as int,
        ).push(input_lines@[k as int]@));
        k += 1;
    }
    assert(view_strs(input_lines@).take(k as int) =~= view_strs(input_lines@));
    r
}

/// Whether every character of `l` is `c`.
pub fn all_chars_are(l: &Vec<char>, c: char) -> (r: bool)
    ensures
        r == all_are(l@, c),
{
    proof {
        lemma_run_len_all(l@, c);
    }
    leading_run(l, c) == l.len()
}

/// Whether `l` holds a `#` directly followed by a space.
pub fn holds_hash_space(l: &Vec<char>) -> (r: bool)
    ensures
        r == has_hash_space(l@),
{
    if l.len() < 2 {
        return false;
    }
    let mut j: usize = 0;
    while j < l.len() - 1
        invariant
            l@.len() >= 2,
            forall|k: int| 0 <= k < j && k + 1 < l@.len() ==> !(#[trigger] l@[k] == '#' && l@[k + 1] == ' '),
        decreases l.len() - j,
    {
        if l[j] == '#' && l[j + 1] == ' ' {
            return true;
        }
        j += 1;
    }
    false
}

/// Whether `l` is an ATX heading line.
pub fn atx_line(l: &Vec<char>) -> (r: bool)
    ensures
        r == is_atx(l@),
{
    l.len() > 0 && l[0] == '#' && (holds_hash_space(l) || all_chars_are(l, '#'))
}

/// The level a Setext underline line stands for.
pub fn underline_of(l: &Vec<char>) -> (r: Option<usize>)
    ensures
        r matches Some(x) ==> underline_level(l@) == Some(x as nat),
        r is None ==> underline_level(l@) is None,
{
    if l.len() == 0 {
        None
    } else if all_chars_are(l, '=') {
        Some(1)
    } else if all_chars_are(l, '-') {
        Some(2)
    } else {
        None
    }
}

/// Whether the lines before `i` make line `i` eligible as a Setext underline.
pub fn setext_context_at(lines: &Vec<Vec<char>>, i: usize) -> (r: bool)
    ensures
        r == setext_context(view_lines(lines@), i as int),
{
    let ghost ls = view_lines(lines@);
    if i < 1 || i >= lines.len() {
        return false;
    }
    let title = &lines[i - 1];
    if title.len() == 0 || atx_line(title) {
        return false;
    }
    i == 1 || lines[i - 2].len() == 0 || atx_line(&lines[i - 2])
}

/// The level of the Setext heading underlined at line `i`, if any.
pub fn setext_level_at(lines: &Vec<Vec<char>>, i: usize) -> (r: Option<usize>)
    ensures
        r matches Some(x) ==> setext_level(view_lines(lines@), i as int) == Some(x as nat),
        r is None ==> setext_level(view_lines(lines@), i as int) is None,
{
    if i >= lines.len() {
        return None;
    }
    let lv = underline_of(&lines[i]);
    if lv.is_some() && setext_context_at(lines, i) {
        lv
    } else {
        None
    }
}

/// Whether `l` is a code fence line.
pub fn fence_line(l: &Vec<char>) -> (r: bool)
    ensures
        r == is_fence(l@),
{
    leading_run(l, '`') >= 3
}

/// The top heading level of a document given as lines.
pub fn top_level_of(lines: &Vec<Vec<char>>) -> (r: Option<usize>)
    ensures
        r matches Some(x) ==> top_level(view_lines(lines@)) == Some(x as nat),
        r is None ==> top_level(view_lines(lines@)) is None,
{
    let ghost ls = view_lines(lines@);
    let mut top: Option<usize> = None;
    let mut in_code = false;
    let mut k: usize = 0;
    while k < lines.len()
        invariant
            k <= lines@.len(),
            ls == view_lines(lines@),
            top_scan(ls, k as int).1 == in_code,
            top matches Some(x) ==> top_scan(ls, k as int).0 == Some(x as nat),
            top is None ==> top_scan(ls, k as int).0 is None,
        decreases lines@.len() - k,
    {
        let line = &lines[k];
        assert(ls[k as int] == line@);
        if fence_line(line) {
            in_code = !in_code;
        }
        if !in_code {
            if atx_line(line) {
                let lv = leading_run(line, '#');
                top = match top {
                    Some(x) => if lv < x { Some(lv) } else { Some(x) },
                    None => Some(lv),
                };
            } else {
                let s = setext_level_at(lines, k);
                if let Some(lv) = s {
                    top = match top {
                        Some(x) => if lv < x { Some(lv) } else { Some(x) },
                        None => Some(lv),
                    };
                }
            }
        }
        k += 1;
        if top == Some(1usize) {
            proof {
                lemma_top_scan_one(ls, k as int, ls.len() as int);
            }
            return top;
        }
    }
    top
}

/// Returns the shallowest heading level of a document given as lines, looking
/// at ATX headings and valid Setext headings outside code fences, or `None`
/// when the document has no heading.
pub fn get_top_heading_level(input_lines: &[&str]) -> (r: Option<usize>)
    ensures
        r matches Some(x) ==> top_level(view_strs(input_lines@)) == Some(x as nat),
        r is None ==> top_level(view_strs(input_lines@)) is None,
{
    let lines = lines_of_strs(input_lines);
    top_level_of(&lines)
}

/// An optional count as a natural number.
pub open spec fn opt_nat(o: Option<usize>) -> Option<nat> {
    match o {
        Some(x) => Some(x as nat),
        None => None,
    }
}

/// `s` begins with `p`.
pub open spec fn starts_with(s: Seq<char>, p: Seq<char>) -> bool {
    p.len() <= s.len() && s.take(p.len() as int) == p
}

/// Whether `s` begins with `p`.
fn begins_with(s: &Vec<char>, p: &Vec<char>) -> (r: bool)
    ensures
        r == starts_with(s@, p@),
{
    if p.len() > s.len() {
        return false;
    }
    let mut j: usize = 0;
    while j < p.len()
        invariant
            j <= p@.len() <= s@.len(),
            forall|x: int| 0 <= x < j ==> s@[x] == p@[x],
        decreases p@.len() - j,
    {
        if s[j] != p[j] {
            assert(s@.take(p@.len() as int)[j as int] != p@[j as int]);
            return false;
        }
        j += 1;
    }
    assert(s@.take(p@.len() as int) =~= p@);
    true
}

/// Validates hash heading syntax.
pub fn validate_hash_heading(line: &str) -> (r: bool)
    ensures
        r == is_atx(line@),
{
    atx_line(&chars_of(line))
}

/// Validates hash heading syntax (top level heading): the line starts with the
/// top level's hashes and not with one hash more.
pub fn validate_top_hash_heading(line: &str, top_heading_hash_literal: &str) -> (r: bool)
    ensures
        r == (starts_with(line@, top_heading_hash_literal@) && !starts_with(
            line@,
            top_heading_hash_literal@.push('#'),
        )),
{
    let l = chars_of(line);
    let mut lit = chars_of(top_heading_hash_literal);
    if !begins_with(&l, &lit) {
        return false;
    }
    lit.push('#');
    !begins_with(&l, &lit)
}

/// Validates hash heading syntax (sub level heading): the line holds `"# "`,
/// or is made of hashes alone as the caller says.
pub fn validate_sub_hash_heading(line: &str, only_contains_header_symbols: bool) -> (r: bool)
    ensures
        r == (has_hash_space(line@) || only_contains_header_symbols),
{
    holds_hash_space(&chars_of(line)) || only_contains_header_symbols
}

/// Checks which level of alternate (Setext) heading a line underlines:
/// 1 for `=` alone, 2 for `-` alone.
pub fn get_alternate_heading_level(line: &str) -> (r: Option<usize>)
    ensures
        opt_nat(r) == underline_level(line@),
{
    underline_of(&chars_of(line))
}

/// Checks that the lines before `reading_index` let it underline a heading:
/// the line before is a title that stands at a paragraph boundary.
pub fn validate_previous_alternate_headings(input_lines: &[&str], reading_index: usize) -> (r:
    bool)
    ensures
        r == setext_context(view_strs(input_lines@), reading_index as int),
{
    let lines = lines_of_strs(input_lines);
    setext_context_at(&lines, reading_index)
}

/// Checks a valid alternate heading syntax and returns its level.
pub fn get_valid_alternate_heading_level(input_lines: &[&str], reading_index: usize) -> (r:
    Option<usize>)
    ensures
        opt_nat(r) == setext_level(view_strs(input_lines@), reading_index as int),
{
    let lines = lines_of_strs(input_lines);
    setext_level_at(&lines, reading_index)
}

/// Validates an alternate heading at the document's top level.
pub fn validate_alternate_top_heading(lines: &[&str], reading_index: usize, top_heading_level: usize) -> (r: bool)
    ensures
        r == (setext_level(view_strs(lines@), reading_index as int) == Some(
            top_heading_level as nat,
        )),
{
    match get_valid_alternate_heading_level(lines, reading_index) {
        Some(lv) => lv == top_heading_level,
        None => false,
    }
}

/// Validates an alternate heading below the document's top level.
pub fn validate_alternate_sub_heading(lines: &[&str], reading_index: usize, top_heading_level: usize) -> (r: bool)
    ensures
        r == (setext_level(view_strs(lines@), reading_index as int) matches Some(lv) && lv
            > top_heading_level),
{
    match get_valid_alternate_heading_level(lines, reading_index) {
        Some(lv) => lv > top_heading_level,
        None => false,
    }
}

} // verus!
