//! Laws of the classifier, proved over its model: front matter only comes
//! first, code fences balance, Setext underlines need a title, and heading
//! depths follow the levels.
use vstd::prelude::*;

use crate::headings::{
    atx_level, fence_run, is_atx, is_fence, setext_level, top_level, top_scan, underline_level,
};
use crate::parsing::{classify, dashes, flush_content, lemma_flush_render, scan, step, Scan};
use crate::text::{join_lines, split_lines, trim_end};
use crate::stability::{atx_only, lemma_atx_only_concat, lemma_empty_line};
use crate::text::{all_are, lemma_run_len_all, run_end, run_len};
use crate::tokens::{Block, Depth};

verus! {

/// No line after the first of `ls` closes a fence opened with a run of `run`
/// backticks.
pub open spec fn no_closer(ls: Seq<Seq<char>>, run: nat) -> bool {
    forall|j: int| 0 < j < ls.len() ==> !(is_fence(#[trigger] ls[j]) && fence_run(ls[j]) == run)
}

/// The lines of a code section open and close with fences of the same
/// backtick run, and no line between them has that run.
pub open spec fn balanced(ls: Seq<Seq<char>>) -> bool {
    &&& ls.len() >= 2
    &&& is_fence(ls[0])
    &&& is_fence(ls.last())
    &&& fence_run(ls[0]) == fence_run(ls.last())
    &&& no_closer(ls.drop_last(), fence_run(ls[0]))
}

/// What holds of the classifier's state after every line.
pub open spec fn scan_inv(s: Scan) -> bool {
    &&& s.property is Some ==> s.blocks.len() == 0 && s.code is None
    &&& s.code is Some ==> {
        let c = s.code->0;
        &&& c.lines.len() >= 1
        &&& is_fence(c.lines[0])
        &&& fence_run(c.lines[0]) == c.run
        &&& no_closer(c.lines, c.run)
    }
    &&& forall|k: int| 1 <= k < s.blocks.len() ==> !(#[trigger] s.blocks[k] is Property)
    &&& forall|k: int|
        0 <= k < s.blocks.len() && #[trigger] s.blocks[k] is Code ==> balanced(
            s.blocks[k]->Code_0,
        )
}

proof fn lemma_flush_inv(s: Scan, c: Seq<Seq<char>>)
    requires
        scan_inv(s),
        s.property is None,
    ensures
        scan_inv(flush_content(s, c)),
        flush_content(s, c).blocks.len() >= s.blocks.len(),
        flush_content(s, c).blocks.len() >= 1 ==> flush_content(s, c).blocks[0] == if s.blocks.len()
            > 0 {
            s.blocks[0]
        } else {
            Block::Content(split_lines(trim_end(join_lines(c))))
        },
{
    let f = flush_content(s, c);
    assert forall|k: int| 1 <= k < f.blocks.len() implies !(#[trigger] f.blocks[k] is Property) by {
        if k < s.blocks.len() {
            assert(f.blocks[k] == s.blocks[k]);
        }
    }
    assert forall|k: int|
        0 <= k < f.blocks.len() && #[trigger] f.blocks[k] is Code implies balanced(
            f.blocks[k]->Code_0,
        ) by {
        if k < s.blocks.len() {
            assert(f.blocks[k] == s.blocks[k]);
        }
    }
}

proof fn lemma_step_inv(s: Scan, ls: Seq<Seq<char>>, i: int, top: Option<nat>)
    requires
        0 <= i < ls.len(),
        scan_inv(s),
    ensures
        scan_inv(step(s, ls, i, top)),
{
    let l = ls[i];
    let t = step(s, ls, i, top);
    if l.len() == 0 && s.content.len() == 0 && s.code is None {
    } else if s.property is Some {
        if dashes(l) {
            assert(t.blocks =~= seq![t.blocks[0]]);
        }
    } else if s.blocks.len() == 0 && s.content.len() == 0 && s.code is None && dashes(l) {
    } else if s.code is Some {
        let c = s.code->0;
        if is_fence(l) && fence_run(l) == c.run {
            assert forall|k: int|
                1 <= k < t.blocks.len() implies !(#[trigger] t.blocks[k] is Property) by {
                if k < s.blocks.len() {
                    assert(t.blocks[k] == s.blocks[k]);
                }
            }
            assert forall|k: int|
                0 <= k < t.blocks.len() && #[trigger] t.blocks[k] is Code implies balanced(
                    t.blocks[k]->Code_0,
                ) by {
                if k < s.blocks.len() {
                    assert(t.blocks[k] == s.blocks[k]);
                } else {
                    assert(c.lines.push(l)[0] == c.lines[0]);
                    assert(c.lines.push(l).drop_last() =~= c.lines);
                }
            }
        } else {
            assert(c.lines.push(l)[0] == c.lines[0]);
            assert forall|j: int| 0 < j < c.lines.push(l).len() implies !(is_fence(
                #[trigger] c.lines.push(l)[j],
            ) && fence_run(c.lines.push(l)[j]) == c.run) by {
                if j < c.lines.len() {
                    assert(c.lines.push(l)[j] == c.lines[j]);
                }
            }
        }
    } else if is_fence(l) {
        lemma_flush_inv(s, s.content);
    } else if is_atx(l) && top is Some {
        lemma_flush_inv(s, s.content);
        let f = flush_content(s, s.content);
        assert forall|k: int| 1 <= k < t.blocks.len() implies !(#[trigger] t.blocks[k] is Property) by {
            if k < f.blocks.len() {
                assert(t.blocks[k] == f.blocks[k]);
            }
        }
        assert forall|k: int|
            0 <= k < t.blocks.len() && #[trigger] t.blocks[k] is Code implies balanced(
                t.blocks[k]->Code_0,
            ) by {
            if k < f.blocks.len() {
                assert(t.blocks[k] == f.blocks[k]);
            }
        }
    } else if setext_level(ls, i) is Some && top is Some && s.content.len() > 0 {
        lemma_flush_inv(s, s.content.drop_last());
        let f = flush_content(s, s.content.drop_last());
        assert forall|k: int| 1 <= k < t.blocks.len() implies !(#[trigger] t.blocks[k] is Property) by {
            if k < f.blocks.len() {
                assert(t.blocks[k] == f.blocks[k]);
            }
        }
        assert forall|k: int|
            0 <= k < t.blocks.len() && #[trigger] t.blocks[k] is Code implies balanced(
                t.blocks[k]->Code_0,
            ) by {
            if k < f.blocks.len() {
                assert(t.blocks[k] == f.blocks[k]);
            }
        }
    } else {
    }
}

proof fn lemma_scan_inv(ls: Seq<Seq<char>>, n: int, top: Option<nat>)
    requires
        0 <= n <= ls.len(),
    ensures
        scan_inv(scan(ls, n, top)),
    decreases n,
{
    if n > 0 {
        lemma_scan_inv(ls, n - 1, top);
        lemma_step_inv(scan(ls, n - 1, top), ls, n - 1, top);
    }
}

/// Front matter is never anything but the first section: in a document that
/// classifies, no section after the first is front matter.
pub proof fn front_matter_comes_first(ls: Seq<Seq<char>>)
    requires
        classify(ls) is Ok,
    ensures
        forall|k: int|
            1 <= k < classify(ls)->Ok_0.len() ==> !(#[trigger] classify(ls)->Ok_0[k] is Property),
{
    let s = scan(ls, ls.len() as int, top_level(ls));
    lemma_scan_inv(ls, ls.len() as int, top_level(ls));
    lemma_flush_inv(s, s.content);
}

/// Line `i` is the first non-empty line of `ls`.
pub open spec fn first_nonblank(ls: Seq<Seq<char>>, i: int) -> bool {
    &&& 0 <= i < ls.len()
    &&& ls[i].len() > 0
    &&& forall|j: int| 0 <= j < i ==> (#[trigger] ls[j]).len() == 0
}

/// Front matter, open or emitted, starts at the first non-empty line, which is
/// `---`; and while nothing has been read, every line so far is empty.
pub open spec fn opener_inv(ls: Seq<Seq<char>>, n: int, s: Scan) -> bool {
    &&& (s.blocks.len() == 0 && s.content.len() == 0 && s.code is None && s.property is None)
        ==> forall|j: int| 0 <= j < n ==> (#[trigger] ls[j]).len() == 0
    &&& s.property is Some ==> {
        let p = s.property->0;
        &&& first_nonblank(ls, p.start as int)
        &&& dashes(ls[p.start as int])
        &&& p.lines.len() >= 1
        &&& p.lines[0] == ls[p.start as int]
    }
    &&& (s.blocks.len() > 0 && s.blocks[0] is Property) ==> exists|i: int|
        first_nonblank(ls, i) && dashes(ls[i]) && s.blocks[0]->Property_0[0] == #[trigger] ls[i]
}

proof fn lemma_step_opener(s: Scan, ls: Seq<Seq<char>>, i: int, top: Option<nat>)
    requires
        0 <= i < ls.len(),
        opener_inv(ls, i, s),
        scan_inv(s),
    ensures
        opener_inv(ls, i + 1, step(s, ls, i, top)),
{
    let l = ls[i];
    let t = step(s, ls, i, top);
    if l.len() == 0 && s.content.len() == 0 && s.code is None {
    } else if s.property is Some {
        let p = s.property->0;
        assert(p.lines.push(l)[0] == p.lines[0]);
        if dashes(l) {
            assert(t.blocks[0]->Property_0[0] == ls[p.start as int]);
        }
    } else if s.blocks.len() == 0 && s.content.len() == 0 && s.code is None && dashes(l) {
        assert(l.len() > 0);
    } else {
        lemma_flush_render(s, s.content);
        lemma_flush_render(s, s.content.drop_last());
        if s.blocks.len() > 0 && s.blocks[0] is Property {
            let w = choose|w: int|
                first_nonblank(ls, w) && dashes(ls[w]) && s.blocks[0]->Property_0[0] == #[trigger] ls[w];
            assert(t.blocks[0] == s.blocks[0]);
            assert(first_nonblank(ls, w) && dashes(ls[w]) && t.blocks[0]->Property_0[0] == ls[w]);
        }
    }
}

proof fn lemma_scan_opener(ls: Seq<Seq<char>>, n: int, top: Option<nat>)
    requires
        0 <= n <= ls.len(),
    ensures
        opener_inv(ls, n, scan(ls, n, top)),
    decreases n,
{
    if n > 0 {
        lemma_scan_opener(ls, n - 1, top);
        lemma_scan_inv(ls, n - 1, top);
        lemma_step_opener(scan(ls, n - 1, top), ls, n - 1, top);
    }
}

/// Front matter can only be opened by the first non-empty line: when the first
/// section of a document is front matter, its first line is that line, a `---`.
pub proof fn front_matter_opens_at_first_line(ls: Seq<Seq<char>>)
    requires
        classify(ls) is Ok,
        classify(ls)->Ok_0.len() > 0,
        classify(ls)->Ok_0[0] is Property,
    ensures
        exists|i: int|
            first_nonblank(ls, i) && dashes(ls[i]) && classify(ls)->Ok_0[0]->Property_0[0]
                == #[trigger] ls[i],
{
    let top = top_level(ls);
    let s = scan(ls, ls.len() as int, top);
    lemma_scan_opener(ls, ls.len() as int, top);
    lemma_flush_render(s, s.content);
    let b = classify(ls)->Ok_0;
    if s.blocks.len() > 0 {
        assert(b[0] == s.blocks[0]);
        let w = choose|w: int|
            first_nonblank(ls, w) && dashes(ls[w]) && s.blocks[0]->Property_0[0] == #[trigger] ls[w];
        assert(first_nonblank(ls, w) && dashes(ls[w]) && b[0]->Property_0[0] == ls[w]);
    }
}

/// Every code section opens and closes with fences of the same backtick run,
/// and no line between them has that run; and a document that ends inside a
/// code block fails, naming the line of its opening fence.
pub proof fn fences_balance(ls: Seq<Seq<char>>)
    ensures
        classify(ls) is Ok ==> forall|k: int|
            0 <= k < classify(ls)->Ok_0.len() && #[trigger] classify(ls)->Ok_0[k] is Code
                ==> balanced(classify(ls)->Ok_0[k]->Code_0),
        ({
            let s = scan(ls, ls.len() as int, top_level(ls));
            s.code is Some ==> classify(ls) == Err::<Seq<Block>, nat>(s.code->0.start)
        }),
{
    let s = scan(ls, ls.len() as int, top_level(ls));
    lemma_scan_inv(ls, ls.len() as int, top_level(ls));
    if s.property is None {
        lemma_flush_inv(s, s.content);
    }
}

/// A line of `=` or `-` alone under an empty line, or under another such line
/// that does not itself stand under an empty line, an ATX heading or the start
/// of the document, does not underline a heading.
pub proof fn setext_needs_title(ls: Seq<Seq<char>>, i: int)
    requires
        1 <= i < ls.len(),
        underline_level(ls[i]) is Some,
        ls[i - 1].len() == 0 || (underline_level(ls[i - 1]) is Some && i >= 2 && ls[i - 2].len()
            > 0 && !is_atx(ls[i - 2])),
    ensures
        setext_level(ls, i) is None,
{
}

/// A line that underlines no heading adds no heading section, whatever the
/// classifier's state.
pub proof fn no_title_no_heading(s: Scan, ls: Seq<Seq<char>>, i: int, top: Option<nat>)
    requires
        0 <= i < ls.len(),
        underline_level(ls[i]) is Some,
        setext_level(ls, i) is None,
    ensures
        ({
            let t = step(s, ls, i, top);
            &&& t.blocks.len() >= s.blocks.len()
            &&& forall|k: int| 0 <= k < s.blocks.len() ==> t.blocks[k] == s.blocks[k]
            &&& forall|k: int|
                s.blocks.len() <= k < t.blocks.len() ==> !(#[trigger] t.blocks[k] is Heading)
        }),
{
    let l = ls[i];
    lemma_run_len_all(l, '#');
    lemma_run_len_all(l, '`');
    if l[0] == '#' {
        assert(all_are(l, '=') || all_are(l, '-'));
    }
    if run_len(l, '`') >= 3 {
        assert(l[0] == '`');
        assert(all_are(l, '=') || all_are(l, '-'));
    }
    assert(!is_atx(l));
    assert(!is_fence(l));
}

/// Heading lines that never get shallower: at least one, each an ATX
/// heading, none shallower than the one before.
pub open spec fn ascending_atx(hs: Seq<Seq<char>>) -> bool {
    &&& hs.len() >= 1
    &&& forall|k: int| 0 <= k < hs.len() ==> is_atx(#[trigger] hs[k])
    &&& forall|k: int| 1 <= k < hs.len() ==> atx_level(hs[k - 1]) <= atx_level(#[trigger] hs[k])
}

/// A document of ATX headings and empty lines whose headings never get
/// shallower.
pub open spec fn ascending_headings(ls: Seq<Seq<char>>) -> bool {
    &&& forall|k: int| 0 <= k < ls.len() ==> (#[trigger] ls[k]).len() == 0 || is_atx(ls[k])
    &&& ascending_atx(atx_only(ls))
}

/// The tag of heading `k` among such headings: `Top` at the level of the
/// first heading; `FirstSub` when deeper than the heading before; `Sub`
/// otherwise.
pub open spec fn ascending_depth(hs: Seq<Seq<char>>, k: int) -> Depth {
    if atx_level(hs[k]) == atx_level(hs[0]) {
        Depth::Top
    } else if k > 0 && atx_level(hs[k]) > atx_level(hs[k - 1]) {
        Depth::FirstSub
    } else {
        Depth::Sub
    }
}

/// The sections expected for the first `n` of such headings.
pub open spec fn ascending_blocks(hs: Seq<Seq<char>>, n: int) -> Seq<Block> {
    Seq::new(n as nat, |k: int| Block::Heading(ascending_depth(hs, k), seq![hs[k]]))
}

proof fn lemma_ascending_min(hs: Seq<Seq<char>>, k: int)
    requires
        ascending_atx(hs),
        0 <= k < hs.len(),
    ensures
        atx_level(hs[0]) <= atx_level(hs[k]),
    decreases k,
{
    if k > 0 {
        lemma_ascending_min(hs, k - 1);
        assert(atx_level(hs[k - 1]) <= atx_level(hs[k]));
    }
}

pub(crate) proof fn lemma_atx_not_fence(l: Seq<char>)
    requires
        is_atx(l),
    ensures
        !is_fence(l),
        !dashes(l),
{
    assert(run_end(l, '`', 0) == 0);
    if dashes(l) {
        assert(l[0] == '-');
    }
}

/// The heading lines among the first `n` lines begin the heading lines of
/// the whole document, and grow by the line read.
proof fn lemma_atx_prefix(ls: Seq<Seq<char>>, n: int)
    requires
        0 <= n < ls.len(),
    ensures
        atx_only(ls.take(n)) == atx_only(ls).take(atx_only(ls.take(n)).len() as int),
        atx_only(ls.take(n + 1)) == if is_atx(ls[n]) {
            atx_only(ls.take(n)).push(ls[n])
        } else {
            atx_only(ls.take(n))
        },
        atx_only(ls.take(n)).len() <= atx_only(ls).len(),
{
    assert(ls.take(n + 1).drop_last() =~= ls.take(n));
    assert(ls.take(n + 1).last() == ls[n]);
    lemma_atx_only_concat(ls.take(n), ls.skip(n));
    assert(ls.take(n) + ls.skip(n) =~= ls);
    let a = atx_only(ls.take(n));
    assert(atx_only(ls).take(a.len() as int) =~= a);
}

proof fn lemma_ascending_step(ls: Seq<Seq<char>>, n: int)
    requires
        ascending_headings(ls),
        0 <= n < ls.len(),
    ensures
        ({
            let m = atx_only(ls.take(n)).len() as int;
            let hs = atx_only(ls);
            &&& atx_only(ls.take(n)) == hs.take(m)
            &&& is_atx(ls[n]) ==> m < hs.len() && hs[m] == ls[n] && atx_only(ls.take(n + 1))
                == hs.take(m + 1)
            &&& !is_atx(ls[n]) ==> ls[n].len() == 0 && atx_only(ls.take(n + 1)) == hs.take(m)
        }),
{
    lemma_atx_prefix(ls, n);
    lemma_atx_prefix(ls, n);
    let m = atx_only(ls.take(n)).len() as int;
    let hs = atx_only(ls);
    assert(ls[n].len() == 0 || is_atx(ls[n]));
    if is_atx(ls[n]) {
        let a1 = atx_only(ls.take(n + 1));
        assert(a1 == atx_only(ls.take(n)).push(ls[n]));
        assert(a1.len() == m + 1);
        if n + 1 < ls.len() {
            lemma_atx_prefix(ls, n + 1);
        } else {
            assert(ls.take(n + 1) =~= ls);
            assert(hs.take(m + 1) =~= hs);
        }
        assert(a1 == hs.take(m + 1));
        assert(a1[m] == ls[n]);
        assert(hs.take(m + 1)[m] == hs[m]);
    } else {
        assert(ls[n].len() == 0);
    }
}

proof fn lemma_ascending_top(ls: Seq<Seq<char>>, n: int)
    requires
        ascending_headings(ls),
        0 <= n <= ls.len(),
    ensures
        top_scan(ls, n) == (if atx_only(ls.take(n)).len() == 0 {
            None
        } else {
            Some(atx_level(atx_only(ls)[0]))
        }, false),
    decreases n,
{
    if n == 0 {
        assert(ls.take(0) =~= Seq::<Seq<char>>::empty());
    } else {
        lemma_ascending_top(ls, n - 1);
        lemma_ascending_step(ls, n - 1);
        let l = ls[n - 1];
        let m = atx_only(ls.take(n - 1)).len() as int;
        if is_atx(l) {
            lemma_atx_not_fence(l);
            lemma_ascending_min(atx_only(ls), m);
        } else {
            lemma_empty_line(l);
        }
    }
}

proof fn lemma_ascending_scan(ls: Seq<Seq<char>>, n: int)
    requires
        ascending_headings(ls),
        0 <= n <= ls.len(),
    ensures
        ({
            let hs = atx_only(ls);
            let m = atx_only(ls.take(n)).len() as int;
            let s = scan(ls, n, Some(atx_level(hs[0])));
            &&& s.blocks == ascending_blocks(hs, m)
            &&& s.level == if m == 0 {
                0
            } else {
                atx_level(hs[m - 1])
            }
            &&& s.property is None
            &&& s.code is None
            &&& s.content.len() == 0
        }),
    decreases n,
{
    let hs = atx_only(ls);
    if n == 0 {
        assert(ls.take(0) =~= Seq::<Seq<char>>::empty());
        assert(ascending_blocks(hs, 0) =~= Seq::<Block>::empty());
    } else {
        lemma_ascending_scan(ls, n - 1);
        lemma_ascending_step(ls, n - 1);
        let l = ls[n - 1];
        let m = atx_only(ls.take(n - 1)).len() as int;
        let s = scan(ls, n - 1, Some(atx_level(hs[0])));
        if is_atx(l) {
            lemma_atx_not_fence(l);
            lemma_flush_render(s, s.content);
            assert(hs.take(m + 1).len() == m + 1);
            assert(ascending_blocks(hs, m + 1) =~= ascending_blocks(hs, m).push(
                Block::Heading(ascending_depth(hs, m), seq![l]),
            ));
            lemma_ascending_min(hs, m);
        } else {
            lemma_empty_line(l);
        }
    }
}

/// In a document of ATX headings and empty lines whose headings never get
/// shallower, the sections are the headings in order: the first is `Top`,
/// and so is every heading at its level; a heading deeper than the one before
/// is `FirstSub`; any other is `Sub`.
pub proof fn heading_depths(ls: Seq<Seq<char>>)
    requires
        ascending_headings(ls),
    ensures
        classify(ls) == Ok::<Seq<Block>, nat>(
            ascending_blocks(atx_only(ls), atx_only(ls).len() as int),
        ),
{
    let n = ls.len() as int;
    assert(ls.take(n) =~= ls);
    lemma_ascending_top(ls, n);
    lemma_ascending_scan(ls, n);
    let s = scan(ls, n, top_level(ls));
    lemma_flush_render(s, s.content);
}

} // verus!
