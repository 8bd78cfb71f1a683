//! Formatting twice changes nothing, proved for documents made of ATX
//! headings, plain prose and empty lines: their output classifies into the
//! same sections again, and so renders to the same text.
use vstd::prelude::*;

use crate::formatting::{formatted, gap_before, gap_sizes, newlines, render, render_prefix, Gaps};
use crate::headings::{
    atx_level, is_atx, is_fence, min_level, top_level, top_scan, underline_level,
};
use crate::laws::lemma_atx_not_fence;
use crate::options::Preferences;
use crate::parsing::{
    classify, dashes, depth_of, flush_content, initial_scan, scan, step, Scan,
};
use crate::text::{
    all_are, is_white, join_lines, lemma_run_len_all, lemma_split_nonempty, run_end, split_lines,
    trim_end,
};
use crate::tokens::{render_blocks, Block};

verus! {

/// Prose lines without the empty lines at their end.
pub open spec fn trim_blank_tail(c: Seq<Seq<char>>) -> Seq<Seq<char>>
    decreases c.len(),
{
    if c.len() > 0 && c.last().len() == 0 {
        trim_blank_tail(c.drop_last())
    } else {
        c
    }
}

/// `n` empty lines.
pub open spec fn blank_lines(n: nat) -> Seq<Seq<char>> {
    Seq::new(n, |_j: int| Seq::<char>::empty())
}

/// Splitting at a newline splits the two sides apart.
proof fn lemma_split_concat(a: Seq<char>, b: Seq<char>)
    ensures
        split_lines(a + seq!['\n'] + b) == split_lines(a) + split_lines(b),
    decreases b.len(),
{
    let x = a + seq!['\n'] + b;
    if b.len() == 0 {
        assert(x.drop_last() =~= a);
        assert(split_lines(b) =~= seq![Seq::<char>::empty()]);
        assert(split_lines(a).push(Seq::<char>::empty()) =~= split_lines(a) + split_lines(b));
    } else {
        lemma_split_concat(a, b.drop_last());
        lemma_split_nonempty(b.drop_last());
        assert(x.drop_last() =~= a + seq!['\n'] + b.drop_last());
        let pa = split_lines(a);
        let pb = split_lines(b.drop_last());
        if b.last() == '\n' {
            assert((pa + pb).push(Seq::<char>::empty()) =~= pa + pb.push(Seq::<char>::empty()));
        } else {
            let q = pa + pb;
            assert(q.update(q.len() - 1, q.last().push(b.last())) =~= pa + pb.update(
                pb.len() - 1,
                pb.last().push(b.last()),
            ));
        }
    }
}

/// A string without newlines is a single line.
proof fn lemma_split_single(s: Seq<char>)
    requires
        forall|j: int| 0 <= j < s.len() ==> s[j] != '\n',
    ensures
        split_lines(s) == seq![s],
    decreases s.len(),
{
    if s.len() == 0 {
        assert(s =~= Seq::<char>::empty());
    } else {
        lemma_split_single(s.drop_last());
        assert(s.last() != '\n');
        assert(s.drop_last().push(s.last()) =~= s);
        assert(seq![s.drop_last()].update(0, s) =~= seq![s]);
    }
}

/// Newlines at the end of a string are empty lines at the end of its lines.
proof fn lemma_split_newlines(a: Seq<char>, n: nat)
    ensures
        split_lines(a + newlines(n)) == split_lines(a) + blank_lines(n),
    decreases n,
{
    if n == 0 {
        assert(a + newlines(0) =~= a);
        assert(split_lines(a) + blank_lines(0) =~= split_lines(a));
    } else {
        lemma_split_newlines(a, (n - 1) as nat);
        assert(a + newlines(n) =~= (a + newlines(
            (n - 1) as nat,
        )) + seq!['\n'] + Seq::<char>::empty());
        lemma_split_concat(a + newlines((n - 1) as nat), Seq::<char>::empty());
        assert(split_lines(Seq::<char>::empty()) =~= seq![Seq::<char>::empty()]);
        assert(split_lines(a) + blank_lines((n - 1) as nat) + seq![Seq::<char>::empty()]
            =~= split_lines(a) + blank_lines(n));
    }
}

/// No line of a split string holds a newline.
proof fn lemma_split_no_newline(s: Seq<char>)
    ensures
        forall|k: int, j: int|
            0 <= k < split_lines(s).len() && 0 <= j < split_lines(s)[k].len() ==> #[trigger] split_lines(s)[k][j]
                != '\n',
    decreases s.len(),
{
    if s.len() > 0 {
        lemma_split_no_newline(s.drop_last());
        lemma_split_nonempty(s.drop_last());
    }
}

/// The shallowest level among heading lines.
pub open spec fn min_atx(hs: Seq<Seq<char>>) -> Option<nat>
    decreases hs.len(),
{
    if hs.len() == 0 {
        None
    } else {
        min_level(min_atx(hs.drop_last()), atx_level(hs.last()))
    }
}

pub(crate) proof fn lemma_empty_line(l: Seq<char>)
    requires
        l.len() == 0,
    ensures
        !is_fence(l),
        !is_atx(l),
        underline_level(l) is None,
{
    assert(run_end(l, '`', 0) == 0);
}

proof fn lemma_headings_min_some(hs: Seq<Seq<char>>)
    ensures
        hs.len() > 0 ==> min_atx(hs) is Some,
    decreases hs.len(),
{
    if hs.len() > 0 {
        lemma_headings_min_some(hs.drop_last());
    }
}

/// A prose line that nothing else claims: not empty, not ending in white
/// space, not an ATX heading, not a fence, and not a line of `=` or `-` alone.
pub open spec fn plain(l: Seq<char>) -> bool {
    l.len() > 0 && !is_white(l.last()) && !is_atx(l) && !is_fence(l) && underline_level(l) is None
}

/// Every line is empty, an ATX heading or plain prose.
pub open spec fn notes_only(ls: Seq<Seq<char>>) -> bool {
    forall|k: int|
        0 <= k < ls.len() ==> (#[trigger] ls[k]).len() == 0 || is_atx(ls[k]) || plain(ls[k])
}

/// What a line of such a document does to the classifier's state.
pub open spec fn note_step(s: Scan, l: Seq<char>, top: Option<nat>) -> Scan {
    if l.len() == 0 && s.content.len() == 0 {
        s
    } else if is_atx(l) && top is Some {
        let f = flush_content(s, s.content);
        Scan {
            blocks: f.blocks.push(
                Block::Heading(depth_of(atx_level(l), top->0, s.level), seq![l]),
            ),
            level: atx_level(l),
            ..f
        }
    } else {
        Scan { content: s.content.push(l), ..s }
    }
}

/// The state after the lines `ls`, from state `s`.
pub open spec fn note_run(s: Scan, ls: Seq<Seq<char>>, top: Option<nat>) -> Scan
    decreases ls.len(),
{
    if ls.len() == 0 {
        s
    } else {
        note_step(note_run(s, ls.drop_last(), top), ls.last(), top)
    }
}

/// The ATX heading lines, in order.
pub open spec fn atx_only(ls: Seq<Seq<char>>) -> Seq<Seq<char>>
    decreases ls.len(),
{
    if ls.len() == 0 {
        Seq::empty()
    } else if is_atx(ls.last()) {
        atx_only(ls.drop_last()).push(ls.last())
    } else {
        atx_only(ls.drop_last())
    }
}

proof fn lemma_note_step(s: Scan, ls: Seq<Seq<char>>, i: int, top: Option<nat>)
    requires
        0 <= i < ls.len(),
        s.property is None,
        s.code is None,
        ls[i].len() == 0 || is_atx(ls[i]) || plain(ls[i]),
    ensures
        step(s, ls, i, top) == note_step(s, ls[i], top),
{
    let l = ls[i];
    if l.len() == 0 {
        lemma_empty_line(l);
    } else if is_atx(l) {
        lemma_atx_not_fence(l);
        assert(l[0] == '#');
        lemma_run_len_all(l, '#');
        if underline_level(l) is Some {
            assert(all_are(l, '=') || all_are(l, '-'));
        }
    } else {
        if dashes(l) {
            assert(all_are(l, '-'));
        }
    }
}

proof fn lemma_note_run_concat(s: Scan, a: Seq<Seq<char>>, b: Seq<Seq<char>>, top: Option<nat>)
    ensures
        note_run(s, a + b, top) == note_run(note_run(s, a, top), b, top),
    decreases b.len(),
{
    if b.len() == 0 {
        assert(a + b =~= a);
    } else {
        lemma_note_run_concat(s, a, b.drop_last(), top);
        assert((a + b).drop_last() =~= a + b.drop_last());
    }
}

proof fn lemma_note_scan(ls: Seq<Seq<char>>, n: int, top: Option<nat>)
    requires
        notes_only(ls),
        0 <= n <= ls.len(),
    ensures
        scan(ls, n, top) == note_run(initial_scan(), ls.take(n), top),
        scan(ls, n, top).property is None,
        scan(ls, n, top).code is None,
    decreases n,
{
    if n == 0 {
        assert(ls.take(0) =~= Seq::<Seq<char>>::empty());
    } else {
        lemma_note_scan(ls, n - 1, top);
        assert(ls.take(n).drop_last() =~= ls.take(n - 1));
        lemma_note_step(scan(ls, n - 1, top), ls, n - 1, top);
    }
}

proof fn lemma_notes_top(ls: Seq<Seq<char>>, n: int)
    requires
        notes_only(ls),
        0 <= n <= ls.len(),
    ensures
        top_scan(ls, n) == (min_atx(atx_only(ls.take(n))), false),
    decreases n,
{
    if n == 0 {
        assert(ls.take(0) =~= Seq::<Seq<char>>::empty());
    } else {
        lemma_notes_top(ls, n - 1);
        assert(ls.take(n).drop_last() =~= ls.take(n - 1));
        let l = ls[n - 1];
        if l.len() == 0 {
            lemma_empty_line(l);
        } else if is_atx(l) {
            lemma_atx_not_fence(l);
            assert(atx_only(ls.take(n)).drop_last() =~= atx_only(ls.take(n - 1)));
        } else {
            assert(plain(l));
        }
    }
}

/// No line holds a newline.
pub open spec fn single_lines(ls: Seq<Seq<char>>) -> bool {
    forall|k: int, j: int| 0 <= k < ls.len() && 0 <= j < ls[k].len() ==> #[trigger] ls[k][j] != '\n'
}

/// Pending prose: empty, or a plain line followed by empty and plain lines.
pub open spec fn pending_ok(c: Seq<Seq<char>>) -> bool {
    &&& c.len() > 0 ==> plain(c[0])
    &&& forall|k: int| 0 <= k < c.len() ==> (#[trigger] c[k]).len() == 0 || plain(c[k])
    &&& single_lines(c)
}

/// A heading of one ATX line, or prose that starts and ends with a non-empty
/// line.
pub open spec fn note_block_ok(b: Block) -> bool {
    match b {
        Block::Heading(_, ls) => ls.len() == 1 && is_atx(ls[0]) && single_lines(ls),
        Block::Content(cs) => cs.len() >= 1 && cs.last().len() > 0 && pending_ok(cs),
        _ => false,
    }
}

/// The level of the last heading among `bs`, 0 when there is none.
pub open spec fn last_level(bs: Seq<Block>) -> nat
    decreases bs.len(),
{
    if bs.len() == 0 {
        0
    } else if bs.last() is Heading {
        atx_level(bs.last()->Heading_1[0])
    } else {
        last_level(bs.drop_last())
    }
}

/// The heading lines of `bs`, in order.
pub open spec fn heading_lines(bs: Seq<Block>) -> Seq<Seq<char>>
    decreases bs.len(),
{
    if bs.len() == 0 {
        Seq::empty()
    } else if bs.last() is Heading {
        heading_lines(bs.drop_last()).push(bs.last()->Heading_1[0])
    } else {
        heading_lines(bs.drop_last())
    }
}

/// The sections of a document of headings and prose: each is well formed, no
/// two prose sections are neighbours, and each heading's tag follows from its
/// level, the top level `t` and the level of the heading before it.
#[verifier::opaque]
pub open spec fn note_blocks(bs: Seq<Block>, t: nat) -> bool {
    &&& forall|k: int| 0 <= k < bs.len() ==> note_block_ok(#[trigger] bs[k])
    &&& forall|k: int|
        0 <= k < bs.len() - 1 && (#[trigger] bs[k]) is Content ==> bs[k + 1] is Heading
    &&& forall|k: int|
        0 <= k < bs.len() && (#[trigger] bs[k]) is Heading ==> bs[k]->Heading_0 == depth_of(
            atx_level(bs[k]->Heading_1[0]),
            t,
            last_level(bs.take(k)),
        )
}

/// What holds of the state after lines of headings and prose.
pub open spec fn note_state_ok(s: Scan, t: nat) -> bool {
    &&& note_blocks(s.blocks, t)
    &&& s.blocks.len() > 0 ==> s.blocks.last() is Heading
    &&& pending_ok(s.content)
    &&& s.level == last_level(s.blocks)
    &&& s.property is None
    &&& s.code is None
}

proof fn lemma_trim_shape(c: Seq<Seq<char>>)
    ensures
        trim_blank_tail(c).len() <= c.len(),
        trim_blank_tail(c) == c.take(trim_blank_tail(c).len() as int),
        trim_blank_tail(c).len() > 0 ==> trim_blank_tail(c).last().len() > 0,
        c.len() > 0 && c[0].len() > 0 ==> trim_blank_tail(c).len() >= 1,
    decreases c.len(),
{
    if c.len() > 0 && c.last().len() == 0 {
        lemma_trim_shape(c.drop_last());
        let t = trim_blank_tail(c.drop_last());
        assert(c.drop_last().take(t.len() as int) =~= c.take(t.len() as int));
        if c.len() == 1 {
            assert(c[0].len() == 0);
        }
    } else {
        assert(c.take(c.len() as int) =~= c);
    }
}

proof fn lemma_take_push<A>(bs: Seq<A>, b: A, k: int)
    requires
        0 <= k <= bs.len(),
    ensures
        bs.push(b).take(k) == bs.take(k),
{
    assert(bs.push(b).take(k) =~= bs.take(k));
}

proof fn lemma_push_content_ok(s: Scan, t: nat)
    requires
        note_state_ok(s, t),
    ensures
        ({
            let f = flush_content(s, s.content);
            &&& note_blocks(f.blocks, t)
            &&& last_level(f.blocks) == last_level(s.blocks)
            &&& heading_lines(f.blocks) == heading_lines(s.blocks)
            &&& f.content.len() == 0
        }),
{
    lemma_flush_plain(s, s.content);
    reveal(note_blocks);
    let c = s.content;
    let tr = trim_blank_tail(c);
    lemma_trim_shape(c);
    let f = flush_content(s, c);
    if tr.len() > 0 {
        let b = Block::Content(tr);
        assert(f.blocks == s.blocks.push(b));
        assert(f.blocks.drop_last() =~= s.blocks);
        assert forall|k: int| 0 <= k < tr.len() implies (#[trigger] tr[k]).len() == 0 || plain(
            tr[k],
        ) by {
            assert(tr[k] == c[k]);
        }
        assert forall|k: int, j: int| 0 <= k < tr.len() && 0 <= j < tr[k].len() implies #[trigger] tr[k][j]
            != '\n' by {
            assert(tr[k] == c[k]);
        }
        assert(tr[0] == c[0]);
        assert(note_block_ok(b));
        assert forall|k: int| 0 <= k < f.blocks.len() implies note_block_ok(#[trigger] f.blocks[k]) by {
            if k < s.blocks.len() {
                assert(f.blocks[k] == s.blocks[k]);
            }
        }
        assert forall|k: int|
            0 <= k < f.blocks.len() - 1 && (#[trigger] f.blocks[k]) is Content implies f.blocks[k
                + 1] is Heading by {
            assert(f.blocks[k] == s.blocks[k]);
            if k + 1 < s.blocks.len() {
                assert(f.blocks[k + 1] == s.blocks[k + 1]);
            }
        }
        assert forall|k: int|
            0 <= k < f.blocks.len() && (#[trigger] f.blocks[k]) is Heading implies f.blocks[k]->Heading_0
                == depth_of(atx_level(f.blocks[k]->Heading_1[0]), t, last_level(f.blocks.take(k))) by {
            assert(f.blocks[k] == s.blocks[k]);
            lemma_take_push(s.blocks, b, k);
        }
    } else {
        assert(f.blocks == s.blocks);
    }
}

proof fn lemma_note_step_ok(s: Scan, l: Seq<char>, top: Option<nat>, t: nat)
    requires
        note_state_ok(s, t),
        l.len() == 0 || is_atx(l) || plain(l),
        forall|j: int| 0 <= j < l.len() ==> l[j] != '\n',
        is_atx(l) ==> top == Some(t),
    ensures
        note_state_ok(note_step(s, l, top), t),
        heading_lines(note_step(s, l, top).blocks) == if is_atx(l) {
            heading_lines(s.blocks).push(l)
        } else {
            heading_lines(s.blocks)
        },
{
    reveal(note_blocks);
    let n = note_step(s, l, top);
    if l.len() == 0 && s.content.len() == 0 {
    } else if is_atx(l) && top is Some {
        lemma_push_content_ok(s, t);
        let f = flush_content(s, s.content);
        let b = Block::Heading(depth_of(atx_level(l), t, s.level), seq![l]);
        assert(n.blocks == f.blocks.push(b));
        assert(n.blocks.drop_last() =~= f.blocks);
        assert(note_block_ok(b));
        assert forall|k: int| 0 <= k < n.blocks.len() implies note_block_ok(#[trigger] n.blocks[k]) by {
            if k < f.blocks.len() {
                assert(n.blocks[k] == f.blocks[k]);
            }
        }
        assert forall|k: int|
            0 <= k < n.blocks.len() - 1 && (#[trigger] n.blocks[k]) is Content implies n.blocks[k
                + 1] is Heading by {
            assert(n.blocks[k] == f.blocks[k]);
            if k + 1 < f.blocks.len() {
                assert(n.blocks[k + 1] == f.blocks[k + 1]);
            }
        }
        assert forall|k: int|
            0 <= k < n.blocks.len() && (#[trigger] n.blocks[k]) is Heading implies n.blocks[k]->Heading_0
                == depth_of(atx_level(n.blocks[k]->Heading_1[0]), t, last_level(n.blocks.take(k))) by {
            lemma_take_push(f.blocks, b, k);
            if k < f.blocks.len() {
                assert(n.blocks[k] == f.blocks[k]);
            } else {
                assert(n.blocks.take(k) =~= f.blocks);
            }
        }
    } else {
        let c = s.content.push(l);
        assert forall|k: int| 0 <= k < c.len() implies (#[trigger] c[k]).len() == 0 || plain(c[k]) by {
            if k < s.content.len() {
                assert(c[k] == s.content[k]);
            }
        }
        assert forall|k: int, j: int| 0 <= k < c.len() && 0 <= j < c[k].len() implies #[trigger] c[k][j]
            != '\n' by {
            if k < s.content.len() {
                assert(c[k] == s.content[k]);
            }
        }
    }
}

proof fn lemma_atx_only_monotone(xs: Seq<Seq<char>>)
    requires
        xs.len() > 0,
    ensures
        atx_only(xs.drop_last()).len() <= atx_only(xs).len(),
        is_atx(xs.last()) ==> atx_only(xs).len() > 0,
{
}

proof fn lemma_note_run_ok(xs: Seq<Seq<char>>, top: Option<nat>, t: nat)
    requires
        notes_only(xs),
        single_lines(xs),
        top == Some(t) || atx_only(xs).len() == 0,
    ensures
        note_state_ok(note_run(initial_scan(), xs, top), t),
        heading_lines(note_run(initial_scan(), xs, top).blocks) == atx_only(xs),
    decreases xs.len(),
{
    if xs.len() == 0 {
        reveal(note_blocks);
        assert(note_blocks(Seq::<Block>::empty(), t));
        assert(pending_ok(Seq::<Seq<char>>::empty()));
    } else {
        let p = xs.drop_last();
        assert forall|k: int| 0 <= k < p.len() implies (#[trigger] p[k]).len() == 0 || is_atx(p[k])
            || plain(p[k]) by {
            assert(p[k] == xs[k]);
        }
        assert forall|k: int, j: int| 0 <= k < p.len() && 0 <= j < p[k].len() implies #[trigger] p[k][j]
            != '\n' by {
            assert(p[k] == xs[k]);
        }
        lemma_atx_only_monotone(xs);
        lemma_note_run_ok(p, top, t);
        let l = xs.last();
        assert(l == xs[xs.len() - 1]);
        assert(forall|j: int| 0 <= j < l.len() ==> l[j] != '\n');
        lemma_note_step_ok(note_run(initial_scan(), p, top), l, top, t);
    }
}

/// A top level as a number, 0 when there is none.
pub open spec fn level_or_zero(top: Option<nat>) -> nat {
    match top {
        Some(x) => x,
        None => 0,
    }
}

proof fn lemma_notes_classify(ls: Seq<Seq<char>>)
    requires
        notes_only(ls),
        single_lines(ls),
    ensures
        top_level(ls) == min_atx(atx_only(ls)),
        ({
            let top = top_level(ls);
            let s = note_run(initial_scan(), ls, top);
            let b = flush_content(s, s.content).blocks;
            &&& classify(ls) == Ok::<Seq<Block>, nat>(b)
            &&& note_blocks(b, level_or_zero(top))
            &&& heading_lines(b) == atx_only(ls)
        }),
{
    let n = ls.len() as int;
    assert(ls.take(n) =~= ls);
    lemma_notes_top(ls, n);
    lemma_headings_min_some(atx_only(ls));
    let top = top_level(ls);
    let t = level_or_zero(top);
    lemma_note_scan(ls, n, top);
    lemma_note_run_ok(ls, top, t);
    let s = note_run(initial_scan(), ls, top);
    lemma_push_content_ok(s, t);
}

/// Joined lines split back into the same lines.
proof fn lemma_split_join(ls: Seq<Seq<char>>)
    requires
        ls.len() >= 1,
        single_lines(ls),
    ensures
        split_lines(join_lines(ls)) == ls,
    decreases ls.len(),
{
    assert(forall|j: int| 0 <= j < ls.last().len() ==> ls.last()[j] != '\n');
    lemma_split_single(ls.last());
    if ls.len() == 1 {
        assert(seq![ls[0]] =~= ls);
    } else {
        let p = ls.drop_last();
        assert forall|k: int, j: int| 0 <= k < p.len() && 0 <= j < p[k].len() implies #[trigger] p[k][j]
            != '\n' by {
            assert(p[k] == ls[k]);
        }
        lemma_split_join(p);
        lemma_split_concat(join_lines(p), ls.last());
        assert(p + seq![ls.last()] =~= ls);
    }
}

proof fn lemma_note_run_blanks(s: Scan, n: nat, top: Option<nat>)
    ensures
        note_run(s, blank_lines(n), top) == if s.content.len() == 0 {
            s
        } else {
            (Scan { content: s.content + blank_lines(n), ..s })
        },
    decreases n,
{
    if n == 0 {
        assert(s.content + blank_lines(0) =~= s.content);
    } else {
        assert(blank_lines(n).drop_last() =~= blank_lines((n - 1) as nat));
        lemma_note_run_blanks(s, (n - 1) as nat, top);
        assert((s.content + blank_lines((n - 1) as nat)).push(Seq::<char>::empty()) =~= s.content
            + blank_lines(n));
    }
}

proof fn lemma_note_run_prose(s: Scan, cs: Seq<Seq<char>>, j: int, top: Option<nat>)
    requires
        s.content.len() == 0,
        1 <= j <= cs.len(),
        pending_ok(cs),
    ensures
        note_run(s, cs.take(j), top) == (Scan { content: cs.take(j), ..s }),
    decreases j,
{
    let l = cs[j - 1];
    assert(cs.take(j).drop_last() =~= cs.take(j - 1));
    assert(cs.take(j).last() == l);
    assert(l.len() == 0 || plain(l));
    if j == 1 {
        assert(cs.take(0) =~= Seq::<Seq<char>>::empty());
        assert(note_run(s, cs.take(0), top) == s);
        assert(plain(cs[0]));
        assert(!is_atx(l));
        assert(s.content =~= Seq::<Seq<char>>::empty());
        assert(note_step(s, l, top) == (Scan { content: s.content.push(l), ..s }));
        assert(Seq::<Seq<char>>::empty().push(l) =~= cs.take(1));
    } else {
        lemma_note_run_prose(s, cs, j - 1, top);
        assert(cs.take(j - 1).push(l) =~= cs.take(j));
    }
}

proof fn lemma_trim_blanks(cs: Seq<Seq<char>>, n: nat)
    requires
        cs.len() > 0,
        cs.last().len() > 0,
    ensures
        trim_blank_tail(cs + blank_lines(n)) == cs,
    decreases n,
{
    if n == 0 {
        assert(cs + blank_lines(0) =~= cs);
    } else {
        lemma_trim_blanks(cs, (n - 1) as nat);
        assert((cs + blank_lines(n)).drop_last() =~= cs + blank_lines((n - 1) as nat));
    }
}

pub(crate) proof fn lemma_atx_only_concat(a: Seq<Seq<char>>, b: Seq<Seq<char>>)
    ensures
        atx_only(a + b) == atx_only(a) + atx_only(b),
    decreases b.len(),
{
    if b.len() == 0 {
        assert(a + b =~= a);
        assert(atx_only(a) + atx_only(b) =~= atx_only(a));
    } else {
        lemma_atx_only_concat(a, b.drop_last());
        assert((a + b).drop_last() =~= a + b.drop_last());
        if is_atx(b.last()) {
            assert((atx_only(a) + atx_only(b.drop_last())).push(b.last()) =~= atx_only(a)
                + atx_only(b.drop_last()).push(b.last()));
        }
    }
}

proof fn lemma_atx_only_none(ls: Seq<Seq<char>>)
    requires
        forall|k: int| 0 <= k < ls.len() ==> !is_atx(#[trigger] ls[k]),
    ensures
        atx_only(ls) == Seq::<Seq<char>>::empty(),
    decreases ls.len(),
{
    if ls.len() > 0 {
        let p = ls.drop_last();
        assert forall|k: int| 0 <= k < p.len() implies !is_atx(#[trigger] p[k]) by {
            assert(p[k] == ls[k]);
        }
        lemma_atx_only_none(p);
        assert(!is_atx(ls[ls.len() - 1]));
    }
}

proof fn lemma_blank_lines_notes(n: nat)
    ensures
        notes_only(blank_lines(n)),
        single_lines(blank_lines(n)),
        atx_only(blank_lines(n)) == Seq::<Seq<char>>::empty(),
{
    assert forall|k: int| 0 <= k < blank_lines(n).len() implies !is_atx(
        #[trigger] blank_lines(n)[k],
    ) by {
        assert(blank_lines(n)[k].len() == 0);
    }
    lemma_atx_only_none(blank_lines(n));
}

/// The lines a section was made of.
pub open spec fn block_lines(b: Block) -> Seq<Seq<char>> {
    match b {
        Block::Property(ls) => ls,
        Block::Heading(_, ls) => ls,
        Block::Content(ls) => ls,
        Block::Code(ls) => ls,
    }
}

/// The state expected after the lines of the first `n` rendered sections: the
/// last of them, if prose, is still pending.
pub open spec fn rendered_state(bs: Seq<Block>, n: int) -> Scan {
    if n > 0 && bs[n - 1] is Content {
        Scan {
            blocks: bs.take(n - 1),
            level: last_level(bs.take(n)),
            property: None,
            code: None,
            content: bs[n - 1]->Content_0,
        }
    } else {
        Scan {
            blocks: bs.take(n),
            level: last_level(bs.take(n)),
            property: None,
            code: None,
            content: Seq::empty(),
        }
    }
}

proof fn lemma_notes_concat(a: Seq<Seq<char>>, b: Seq<Seq<char>>)
    requires
        notes_only(a),
        notes_only(b),
        single_lines(a),
        single_lines(b),
    ensures
        notes_only(a + b),
        single_lines(a + b),
{
    assert forall|k: int| 0 <= k < (a + b).len() implies (#[trigger] (a + b)[k]).len() == 0
        || is_atx((a + b)[k]) || plain((a + b)[k]) by {
        if k < a.len() {
            assert((a + b)[k] == a[k]);
        } else {
            assert((a + b)[k] == b[k - a.len()]);
        }
    }
    assert forall|k: int, j: int| 0 <= k < (a + b).len() && 0 <= j < (a + b)[k].len() implies #[trigger] (a
        + b)[k][j] != '\n' by {
        if k < a.len() {
            assert((a + b)[k] == a[k]);
        } else {
            assert((a + b)[k] == b[k - a.len()]);
        }
    }
}

proof fn lemma_block_lines_notes(b: Block)
    requires
        note_block_ok(b),
    ensures
        notes_only(block_lines(b)),
        single_lines(block_lines(b)),
        block_lines(b).len() >= 1,
        split_lines(join_lines(block_lines(b))) == block_lines(b),
        atx_only(block_lines(b)) == if b is Heading {
            block_lines(b)
        } else {
            Seq::<Seq<char>>::empty()
        },
{
    let ls = block_lines(b);
    lemma_split_join(ls);
    if b is Heading {
        assert(ls.drop_last() =~= Seq::<Seq<char>>::empty());
        assert(atx_only(Seq::<Seq<char>>::empty()) == Seq::<Seq<char>>::empty());
        assert(atx_only(ls) =~= ls);
    } else {
        assert forall|k: int| 0 <= k < ls.len() implies !is_atx(#[trigger] ls[k]) by {
            assert(ls[k].len() == 0 || plain(ls[k]));
        }
        lemma_atx_only_none(ls);
    }
}

proof fn lemma_heading_lines_empty(bs: Seq<Block>, k: int)
    requires
        heading_lines(bs).len() == 0,
        0 <= k < bs.len(),
    ensures
        !(bs[k] is Heading),
    decreases bs.len(),
{
    if k < bs.len() - 1 {
        assert(bs.drop_last()[k] == bs[k]);
        lemma_heading_lines_empty(bs.drop_last(), k);
    }
}

proof fn lemma_render_text(bs: Seq<Block>, t: nat, g: Gaps, n: int)
    requires
        note_blocks(bs, t),
        1 <= n <= bs.len(),
    ensures
        n == 1 ==> split_lines(render_prefix(render_blocks(bs), n, g)) == block_lines(bs[0]),
        n >= 2 ==> gap_before(render_blocks(bs), n - 1, g) >= 1,
        n >= 2 ==> split_lines(render_prefix(render_blocks(bs), n, g)) == split_lines(
            render_prefix(render_blocks(bs), n - 1, g),
        ) + blank_lines((gap_before(render_blocks(bs), n - 1, g) - 1) as nat) + block_lines(
            bs[n - 1],
        ),
{
    let vs = render_blocks(bs);
    let r = render_prefix(vs, n, g);
    let b = bs[n - 1];
    lemma_note_blocks_at(bs, t, n - 1);
    lemma_block_lines_notes(b);
    let bl = block_lines(b);
    assert(vs[n - 1] == b.rendered());
    assert(vs[n - 1].text() == join_lines(bl));
    if n == 1 {
        assert(gap_before(vs, 0, g) == 0);
        assert(render_prefix(vs, 0, g) == Seq::<char>::empty());
        assert(newlines(0) =~= Seq::<char>::empty());
        assert(r == Seq::<char>::empty() + newlines(0) + vs[0].text());
        assert(r =~= join_lines(bl));
    } else {
        let pr = render_prefix(vs, n - 1, g);
        let k = gap_before(vs, n - 1, g);
        let pb = bs[n - 2];
        lemma_note_blocks_at(bs, t, n - 2);
        assert(vs[n - 2] == pb.rendered());
        assert(k >= 1);
        assert(r =~= (pr + newlines((k - 1) as nat)) + seq!['\n'] + join_lines(bl));
        lemma_split_concat(pr + newlines((k - 1) as nat), join_lines(bl));
        lemma_split_newlines(pr, (k - 1) as nat);
    }
}

proof fn lemma_advance_heading(bs: Seq<Block>, t: nat, top: Option<nat>, n: int, mid: Scan, h: Seq<char>)
    requires
        0 <= n < bs.len(),
        top == Some(t),
        is_atx(h),
        bs[n] == Block::Heading(depth_of(atx_level(h), t, last_level(bs.take(n))), seq![h]),
        mid.property is None,
        mid.code is None,
        mid.level == last_level(bs.take(n)),
        n > 0 && bs[n - 1] is Content ==> mid.blocks == bs.take(n - 1) && trim_blank_tail(
            mid.content,
        ) == bs[n - 1]->Content_0 && bs[n - 1]->Content_0.len() > 0,
        !(n > 0 && bs[n - 1] is Content) ==> mid.blocks == bs.take(n) && mid.content.len() == 0,
        flush_content(mid, mid.content) == flush_lines(mid, mid.content),
    ensures
        note_step(mid, h, top) == rendered_state(bs, n + 1),
{
    assert(bs.take(n + 1).drop_last() =~= bs.take(n));
    assert(bs.take(n + 1).last() == bs[n]);
    let f = flush_content(mid, mid.content);
    if n > 0 && bs[n - 1] is Content {
        assert(bs.take(n).drop_last() =~= bs.take(n - 1));
        assert(bs.take(n - 1).push(bs[n - 1]) =~= bs.take(n));
        assert(bs[n - 1] == Block::Content(bs[n - 1]->Content_0));
        assert(f.blocks == bs.take(n));
    } else {
        assert(trim_blank_tail(mid.content) =~= mid.content);
        assert(f.blocks == bs.take(n));
    }
    assert(note_step(mid, h, top).blocks == f.blocks.push(bs[n]));
    assert(bs.take(n).push(bs[n]) =~= bs.take(n + 1));
}

proof fn lemma_advance_prose(bs: Seq<Block>, top: Option<nat>, n: int, mid: Scan, cs: Seq<Seq<char>>)
    requires
        0 <= n < bs.len(),
        bs[n] == Block::Content(cs),
        cs.len() >= 1,
        pending_ok(cs),
        mid.property is None,
        mid.code is None,
        mid.level == last_level(bs.take(n)),
        mid.blocks == bs.take(n),
        mid.content.len() == 0,
    ensures
        note_run(mid, cs, top) == rendered_state(bs, n + 1),
{
    assert(bs.take(n + 1).drop_last() =~= bs.take(n));
    assert(bs.take(n + 1).last() == bs[n]);
    lemma_note_run_prose(mid, cs, cs.len() as int, top);
    assert(cs.take(cs.len() as int) =~= cs);
}

proof fn lemma_advance(bs: Seq<Block>, t: nat, top: Option<nat>, n: int, m: nat)
    requires
        0 <= n < bs.len(),
        n == 0 ==> m == 0,
        note_block_ok(bs[n]),
        n > 0 ==> note_block_ok(bs[n - 1]),
        n > 0 && bs[n - 1] is Content ==> bs[n] is Heading,
        bs[n] is Heading ==> top == Some(t) && bs[n]->Heading_0 == depth_of(
            atx_level(bs[n]->Heading_1[0]),
            t,
            last_level(bs.take(n)),
        ),
    ensures
        note_run(
            note_run(rendered_state(bs, n), blank_lines(m), top),
            block_lines(bs[n]),
            top,
        ) == rendered_state(bs, n + 1),
{
    let b = bs[n];
    assert(note_block_ok(b));
    let bl = block_lines(b);
    let st = rendered_state(bs, n);
    lemma_note_run_blanks(st, m, top);
    let mid = note_run(st, blank_lines(m), top);
    if n == 0 {
        assert(bs.take(0) =~= Seq::<Block>::empty());
    }
    if b is Heading {
        let h = bl[0];
        assert(bl =~= seq![h]);
        assert(bl.drop_last() =~= Seq::<Seq<char>>::empty());
        assert(note_run(mid, bl.drop_last(), top) == mid);
        assert(bl.last() == h);
        assert(note_run(mid, bl, top) == note_step(mid, h, top));
        if n > 0 && bs[n - 1] is Content {
            lemma_trim_blanks(bs[n - 1]->Content_0, m);
            lemma_pending_blanks(bs[n - 1]->Content_0, m);
        } else {
            assert(mid.content =~= Seq::<Seq<char>>::empty());
        }
        lemma_flush_plain(mid, mid.content);
        lemma_advance_heading(bs, t, top, n, mid, h);
    } else {
        lemma_advance_prose(bs, top, n, mid, b->Content_0);
    }
}

proof fn lemma_note_blocks_at(bs: Seq<Block>, t: nat, k: int)
    requires
        note_blocks(bs, t),
        0 <= k < bs.len(),
    ensures
        note_block_ok(bs[k]),
        k < bs.len() - 1 && bs[k] is Content ==> bs[k + 1] is Heading,
        bs[k] is Heading ==> bs[k]->Heading_0 == depth_of(
            atx_level(bs[k]->Heading_1[0]),
            t,
            last_level(bs.take(k)),
        ),
{
    reveal(note_blocks);
}

proof fn lemma_advance_facts(bs: Seq<Block>, t: nat, top: Option<nat>, n: int)
    requires
        note_blocks(bs, t),
        top == Some(t) || heading_lines(bs).len() == 0,
        0 <= n < bs.len(),
    ensures
        note_block_ok(bs[n]),
        n > 0 ==> note_block_ok(bs[n - 1]),
        n > 0 && bs[n - 1] is Content ==> bs[n] is Heading,
        bs[n] is Heading ==> top == Some(t) && bs[n]->Heading_0 == depth_of(
            atx_level(bs[n]->Heading_1[0]),
            t,
            last_level(bs.take(n)),
        ),
{
    lemma_note_blocks_at(bs, t, n);
    if n > 0 {
        lemma_note_blocks_at(bs, t, n - 1);
    }
    if bs[n] is Heading && top != Some(t) {
        lemma_heading_lines_empty(bs, n);
    }
}

proof fn lemma_render_notes(bs: Seq<Block>, t: nat, top: Option<nat>, g: Gaps, n: int)
    requires
        note_blocks(bs, t),
        top == Some(t) || heading_lines(bs).len() == 0,
        0 <= n <= bs.len(),
    ensures
        ({
            let ls = split_lines(render_prefix(render_blocks(bs), n, g));
            &&& notes_only(ls)
            &&& single_lines(ls)
            &&& atx_only(ls) == heading_lines(bs.take(n))
            &&& note_run(initial_scan(), ls, top) == rendered_state(bs, n)
        }),
    decreases n,
{
    let vs = render_blocks(bs);
    let r = render_prefix(vs, n, g);
    if n == 0 {
        let e = seq![Seq::<char>::empty()];
        assert(r =~= Seq::<char>::empty());
        assert(split_lines(r) =~= e);
        assert(e.drop_last() =~= Seq::<Seq<char>>::empty());
        assert(atx_only(Seq::<Seq<char>>::empty()) == Seq::<Seq<char>>::empty());
        assert(atx_only(e) =~= Seq::<Seq<char>>::empty());
        assert(bs.take(0) =~= Seq::<Block>::empty());
        assert(note_run(initial_scan(), Seq::<Seq<char>>::empty(), top) == initial_scan());
        assert(e.last().len() == 0);
        assert(rendered_state(bs, 0) == initial_scan());
    } else {
        let b = bs[n - 1];
        lemma_note_blocks_at(bs, t, n - 1);
        lemma_block_lines_notes(b);
        let bl = block_lines(b);
        lemma_render_text(bs, t, g, n);
        assert(bs.take(n).drop_last() =~= bs.take(n - 1));
        assert(bs.take(n).last() == b);
        if b is Heading {
            assert(heading_lines(bs.take(n)) == heading_lines(bs.take(n - 1)).push(bl[0]));
            assert(heading_lines(bs.take(n - 1)) + atx_only(bl) =~= heading_lines(bs.take(n)));
        } else {
            assert(heading_lines(bs.take(n)) == heading_lines(bs.take(n - 1)));
            assert(heading_lines(bs.take(n - 1)) + atx_only(bl) =~= heading_lines(bs.take(n)));
        }
        if n == 1 {
            assert(bs.take(0) =~= Seq::<Block>::empty());
            assert(heading_lines(bs.take(0)) == Seq::<Seq<char>>::empty());
            assert(Seq::<Seq<char>>::empty() + atx_only(bl) =~= atx_only(bl));
            assert(rendered_state(bs, 0) == initial_scan());
            assert(split_lines(r) == bl);
            lemma_advance_facts(bs, t, top, 0);
            lemma_advance(bs, t, top, 0, 0);
            assert(note_run(initial_scan(), blank_lines(0), top) == initial_scan());
        } else {
            lemma_render_notes(bs, t, top, g, n - 1);
            let k = gap_before(vs, n - 1, g);
            let a = split_lines(render_prefix(vs, n - 1, g));
            let bk = blank_lines((k - 1) as nat);
            lemma_blank_lines_notes((k - 1) as nat);
            lemma_notes_concat(a, bk);
            lemma_notes_concat(a + bk, bl);
            lemma_atx_only_concat(a, bk);
            lemma_atx_only_concat(a + bk, bl);
            assert(atx_only(a) + Seq::<Seq<char>>::empty() =~= atx_only(a));
            lemma_note_run_concat(initial_scan(), a, bk, top);
            lemma_note_run_concat(initial_scan(), a + bk, bl, top);
            assert(split_lines(r) == a + bk + bl);
            assert(atx_only(a + bk) == atx_only(a));
            lemma_advance_facts(bs, t, top, n - 1);
            lemma_advance(bs, t, top, n - 1, (k - 1) as nat);
        }
    }
}

proof fn lemma_rendered_flush(bs: Seq<Block>, t: nat, top: Option<nat>, m: nat)
    requires
        note_blocks(bs, t),
        m <= 1,
    ensures
        ({
            let st = note_run(rendered_state(bs, bs.len() as int), blank_lines(m), top);
            flush_content(st, st.content).blocks == bs
        }),
{
    let n = bs.len() as int;
    let st0 = rendered_state(bs, n);
    lemma_note_run_blanks(st0, m, top);
    let st = note_run(st0, blank_lines(m), top);
    assert(bs.take(n) =~= bs);
    if n > 0 && bs[n - 1] is Content {
        lemma_note_blocks_at(bs, t, n - 1);
        let cs = bs[n - 1]->Content_0;
        lemma_trim_blanks(cs, m);
        lemma_pending_blanks(cs, m);
        lemma_flush_plain(st, st.content);
        assert(bs.take(n - 1).push(bs[n - 1]) =~= bs);
    } else {
        assert(st.content =~= Seq::<Seq<char>>::empty());
        lemma_flush_plain(st, st.content);
        assert(trim_blank_tail(st.content) =~= st.content);
    }
}

/// Formatting is stable on documents whose lines are all empty, ATX headings
/// or plain prose (neither a fence nor a line of `=` or `-` alone): where
/// formatting such a document succeeds, formatting its output again gives that
/// same output.
pub proof fn reformatting_notes_is_stable(input: Seq<char>, p: Preferences)
    requires
        notes_only(split_lines(input)),
        formatted(input, p) is Ok,
    ensures
        formatted(formatted(input, p)->Ok_0, p) == formatted(input, p),
{
    if input.len() > 0 {
        let ls = split_lines(input);
        lemma_split_no_newline(input);
        assert(single_lines(ls));
        lemma_notes_classify(ls);
        let top = top_level(ls);
        let t = level_or_zero(top);
        let s = note_run(initial_scan(), ls, top);
        let bs = flush_content(s, s.content).blocks;
        lemma_headings_min_some(atx_only(ls));
        assert(top == Some(t) || heading_lines(bs).len() == 0);
        let g = gap_sizes(p.options)->Ok_0;
        let nl = p.trailing_newline();
        let vs = render_blocks(bs);
        let n = bs.len() as int;
        lemma_render_notes(bs, t, top, g, n);
        assert(bs.take(n) =~= bs);
        let r = render_prefix(vs, n, g);
        let o = render(vs, g, nl);
        assert(formatted(input, p) == Ok::<Seq<char>, crate::errors::ErrorView>(o));
        if o.len() > 0 {
            let a = split_lines(r);
            let m: nat = if nl {
                1
            } else {
                0
            };
            if nl {
                assert(o =~= r + seq!['\n'] + Seq::<char>::empty());
                lemma_split_concat(r, Seq::<char>::empty());
                assert(split_lines(Seq::<char>::empty()) =~= blank_lines(1));
            } else {
                assert(o =~= r);
                assert(a + blank_lines(0) =~= a);
            }
            let lo = split_lines(o);
            assert(lo == a + blank_lines(m));
            lemma_blank_lines_notes(m);
            lemma_notes_concat(a, blank_lines(m));
            lemma_atx_only_concat(a, blank_lines(m));
            assert(atx_only(a) + Seq::<Seq<char>>::empty() =~= atx_only(a));
            lemma_note_run_concat(initial_scan(), a, blank_lines(m), top);
            lemma_notes_classify(lo);
            assert(top_level(lo) == top);
            lemma_rendered_flush(bs, t, top, m);
        }
    }
}

/// Emits prose as the lines left after dropping empty lines at the end.
pub open spec fn flush_lines(s: Scan, c: Seq<Seq<char>>) -> Scan {
    let t = trim_blank_tail(c);
    Scan {
        blocks: if t.len() > 0 {
            s.blocks.push(Block::Content(t))
        } else {
            s.blocks
        },
        content: Seq::empty(),
        ..s
    }
}

proof fn lemma_trim_end_plain(c: Seq<Seq<char>>)
    requires
        forall|k: int| 0 <= k < c.len() ==> (#[trigger] c[k]).len() == 0 || plain(c[k]),
    ensures
        trim_end(join_lines(c)) == join_lines(trim_blank_tail(c)),
        trim_blank_tail(c).len() > 0 ==> join_lines(trim_blank_tail(c)).len() > 0,
    decreases c.len(),
{
    if c.len() == 0 {
    } else if c.last().len() == 0 {
        let p = c.drop_last();
        assert forall|k: int| 0 <= k < p.len() implies (#[trigger] p[k]).len() == 0 || plain(p[k]) by {
            assert(p[k] == c[k]);
        }
        lemma_trim_end_plain(p);
        if c.len() == 1 {
            assert(p =~= Seq::<Seq<char>>::empty());
            assert(join_lines(c) == c[0]);
            assert(c[0] =~= Seq::<char>::empty());
        } else {
            assert(join_lines(c) =~= join_lines(p).push('\n'));
            assert(join_lines(p).push('\n').drop_last() =~= join_lines(p));
        }
    } else {
        assert(plain(c[c.len() - 1]));
        let l = c.last();
        if c.len() == 1 {
            assert(join_lines(c) == l);
        } else {
            assert((join_lines(c.drop_last()) + seq!['\n'] + l).last() == l.last());
        }
    }
}

proof fn lemma_flush_plain(s: Scan, c: Seq<Seq<char>>)
    requires
        forall|k: int| 0 <= k < c.len() ==> (#[trigger] c[k]).len() == 0 || plain(c[k]),
        single_lines(c),
    ensures
        flush_content(s, c) == flush_lines(s, c),
{
    lemma_trim_end_plain(c);
    let t = trim_blank_tail(c);
    lemma_trim_shape(c);
    if t.len() > 0 {
        assert forall|k: int, j: int| 0 <= k < t.len() && 0 <= j < t[k].len() implies #[trigger] t[k][j]
            != '\n' by {
            assert(t[k] == c[k]);
        }
        lemma_split_join(t);
    } else {
        assert(t =~= Seq::<Seq<char>>::empty());
    }
}

proof fn lemma_pending_blanks(cs: Seq<Seq<char>>, m: nat)
    requires
        pending_ok(cs),
    ensures
        forall|k: int|
            0 <= k < (cs + blank_lines(m)).len() ==> (#[trigger] (cs + blank_lines(m))[k]).len() == 0
                || plain((cs + blank_lines(m))[k]),
        single_lines(cs + blank_lines(m)),
{
    let c = cs + blank_lines(m);
    assert forall|k: int| 0 <= k < c.len() implies (#[trigger] c[k]).len() == 0 || plain(c[k]) by {
        if k < cs.len() {
            assert(c[k] == cs[k]);
        }
    }
    assert forall|k: int, j: int| 0 <= k < c.len() && 0 <= j < c[k].len() implies #[trigger] c[k][j]
        != '\n' by {
        if k < cs.len() {
            assert(c[k] == cs[k]);
        }
    }
}

} // verus!
