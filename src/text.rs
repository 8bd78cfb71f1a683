//! Character-level helpers: lines of a document, joining lines, runs of a
//! repeated character, and building strings from characters.
use vstd::prelude::*;

verus! {

broadcast use vstd::string::group_string_axioms;

/// The lines of `s`, split at every `'\n'`; the separators are dropped.
/// A string without a newline is one line, and `""` is one empty line.
pub open spec fn split_lines(s: Seq<char>) -> Seq<Seq<char>>
    decreases s.len(),
{
    if s.len() == 0 {
        seq![Seq::<char>::empty()]
    } else {
        let prev = split_lines(s.drop_last());
        if s.last() == '\n' {
            prev.push(Seq::<char>::empty())
        } else {
            prev.update(prev.len() - 1, prev.last().push(s.last()))
        }
    }
}

/// Lines put back together with a `'\n'` between each two of them.
pub open spec fn join_lines(ls: Seq<Seq<char>>) -> Seq<char>
    decreases ls.len(),
{
    if ls.len() == 0 {
        Seq::<char>::empty()
    } else if ls.len() == 1 {
        ls[0]
    } else {
        join_lines(ls.drop_last()) + seq!['\n'] + ls.last()
    }
}

/// Index one past the end of the run of `c` that starts at `k`.
pub open spec fn run_end(l: Seq<char>, c: char, k: int) -> int
    decreases l.len() - k,
{
    if 0 <= k < l.len() && l[k] == c {
        run_end(l, c, k + 1)
    } else {
        k
    }
}

/// Length of the run of `c` at the start of `l`.
pub open spec fn run_len(l: Seq<char>, c: char) -> nat {
    run_end(l, c, 0) as nat
}

/// Every character of `l` is `c`.
pub open spec fn all_are(l: Seq<char>, c: char) -> bool {
    forall|j: int| 0 <= j < l.len() ==> l[j] == c
}

/// Every character before the end of the run is `c`, and the run ends at a
/// character other than `c` or at the end of `l`.
pub proof fn lemma_run_end(l: Seq<char>, c: char, k: int)
    requires
        0 <= k <= l.len(),
        forall|j: int| 0 <= j < k ==> l[j] == c,
    ensures
        k <= run_end(l, c, k) <= l.len(),
        forall|j: int| 0 <= j < run_end(l, c, k) ==> l[j] == c,
        run_end(l, c, k) == l.len() || l[run_end(l, c, k)] != c,
    decreases l.len() - k,
{
    if k < l.len() && l[k] == c {
        lemma_run_end(l, c, k + 1);
    }
}

/// The run of `c` at the start of `l` is all of `l` exactly when `l` holds
/// nothing but `c`.
pub proof fn lemma_run_len_all(l: Seq<char>, c: char)
    ensures
        run_len(l, c) <= l.len(),
        (run_len(l, c) == l.len()) == all_are(l, c),
        forall|j: int| 0 <= j < run_len(l, c) ==> l[j] == c,
{
    lemma_run_end(l, c, 0);
}

/// Collects the characters of a string slice into a vector.
pub fn chars_of(s: &str) -> (r: Vec<char>)
    ensures
        r@ == s@,
{
    let mut r: Vec<char> = Vec::new();
    for c in it: s.chars()
        invariant
            r@ == it.seq().take(it.index() as int),
    {
        r.push(c);
    }
    assert(r@ == s@);
    r
}

/// Relies on `String::push`: the character is appended at the end.
#[verifier::external_body]
fn push_char(s: &mut String, c: char)
    ensures
        final(s)@ == old(s)@.push(c),
{
    s.push(c);
}

/// Appends one newline character to `s`.
pub fn push_newline(s: &mut String)
    ensures
        final(s)@ == old(s)@.push('\n'),
{
    push_char(s, '\n');
}

/// Appends the characters of `seg` to `s`.
pub fn append_chars(s: &mut String, seg: &Vec<char>)
    ensures
        final(s)@ == old(s)@ + seg@,
{
    let ghost start = s@;
    let mut k: usize = 0;
    while k < seg.len()
        invariant
            k <= seg.len(),
            s@ == start + seg@.take(k as int),
        decreases seg.len() - k,
    {
        push_char(s, seg[k]);
        k += 1;
        assert(seg@.take(k as int) == seg@.take(k - 1 as int).push(seg@[k - 1]));
    }
    assert(seg@.take(k as int) == seg@);
}

/// Appends `n` newline characters to `s`.
pub fn append_newlines(s: &mut String, n: usize)
    ensures
        final(s)@ == old(s)@ + Seq::new(n as nat, |_j: int| '\n'),
{
    let ghost start = s@;
    let mut k: usize = 0;
    while k < n
        invariant
            k <= n,
            s@ == start + Seq::new(k as nat, |_j: int| '\n'),
        decreases n - k,
    {
        push_char(s, '\n');
        k += 1;
        assert(Seq::new(k as nat, |_j: int| '\n') == Seq::new((k - 1) as nat, |_j: int| '\n').push(
            '\n',
        ));
    }
}

/// Length of the run of `c` at the start of `l`.
pub fn leading_run(l: &Vec<char>, c: char) -> (r: usize)
    ensures
        r == run_len(l@, c),
{
    let mut k: usize = 0;
    while k < l.len() && l[k] == c
        invariant
            k <= l.len(),
            run_end(l@, c, 0) == run_end(l@, c, k as int),
        decreases l.len() - k,
    {
        k += 1;
    }
    k
}

/// Splits a document into its lines at every `'\n'`.
pub fn lines_of(s: &Vec<char>) -> (r: Vec<Vec<char>>)
    ensures
        r@.len() == split_lines(s@).len(),
        forall|k: int| 0 <= k < r@.len() ==> #[trigger] r@[k]@ == split_lines(s@)[k],
{
    let mut r: Vec<Vec<char>> = Vec::new();
    let mut cur: Vec<char> = Vec::new();
    let mut k: usize = 0;
    while k < s.len()
        invariant
            k <= s.len(),
            r@.len() + 1 == split_lines(s@.take(k as int)).len(),
            forall|j: int| 0 <= j < r@.len() ==> #[trigger] r@[j]@ == split_lines(s@.take(k as int))[j],
            cur@ == split_lines(s@.take(k as int)).last(),
        decreases s.len() - k,
    {
        let c = s[k];
        let ghost before = s@.take(k as int);
        assert(s@.take(k + 1 as int).drop_last() == before);
        if c == '\n' {
            r.push(cur);
            cur = Vec::new();
        } else {
            cur.push(c);
        }
        k += 1;
    }
    assert(s@.take(k as int) == s@);
    r.push(cur);
    r
}

/// A white-space character, as `char::is_whitespace` lists them (the
/// Unicode `White_Space` property).
pub open spec fn is_white(c: char) -> bool {
    ||| ('\u{9}' <= c && c <= '\u{d}')
    ||| c == ' '
    ||| c == '\u{85}'
    ||| c == '\u{a0}'
    ||| c == '\u{1680}'
    ||| ('\u{2000}' <= c && c <= '\u{200a}')
    ||| c == '\u{2028}'
    ||| c == '\u{2029}'
    ||| c == '\u{202f}'
    ||| c == '\u{205f}'
    ||| c == '\u{3000}'
}

/// `s` without the white space at its end.
pub open spec fn trim_end(s: Seq<char>) -> Seq<char>
    decreases s.len(),
{
    if s.len() > 0 && is_white(s.last()) {
        trim_end(s.drop_last())
    } else {
        s
    }
}

/// Whether `c` is white space.
pub fn white_char(c: char) -> (r: bool)
    ensures
        r == is_white(c),
{
    ('\u{9}' <= c && c <= '\u{d}') || c == ' ' || c == '\u{85}' || c == '\u{a0}' || c
        == '\u{1680}' || ('\u{2000}' <= c && c <= '\u{200a}') || c == '\u{2028}' || c
        == '\u{2029}' || c == '\u{202f}' || c == '\u{205f}' || c == '\u{3000}'
}

/// `s` without the white space at its end.
pub fn without_trailing_whitespace(s: &str) -> (r: String)
    ensures
        r@ == trim_end(s@),
{
    let cs = chars_of(s);
    let mut e: usize = cs.len();
    assert(cs@.take(e as int) =~= cs@);
    while e > 0 && white_char(cs[e - 1])
        invariant
            e <= cs@.len(),
            trim_end(s@) == trim_end(cs@.take(e as int)),
            cs@ == s@,
        decreases e,
    {
        assert(cs@.take(e as int).drop_last() =~= cs@.take(e - 1));
        e -= 1;
    }
    let mut r = String::new();
    let mut k: usize = 0;
    while k < e
        invariant
            k <= e <= cs@.len(),
            r@ == cs@.take(k as int),
        decreases e - k,
    {
        push_char(&mut r, cs[k]);
        k += 1;
        assert(cs@.take(k as int) =~= cs@.take(k - 1).push(cs@[k - 1]));
    }
    r
}

/// Every string splits into at least one line.
pub proof fn lemma_split_nonempty(s: Seq<char>)
    ensures
        split_lines(s).len() >= 1,
    decreases s.len(),
{
    if s.len() > 0 {
        lemma_split_nonempty(s.drop_last());
    }
}

/// Splitting a string into lines and joining them again gives the string.
pub proof fn lemma_join_split(s: Seq<char>)
    ensures
        join_lines(split_lines(s)) == s,
    decreases s.len(),
{
    if s.len() == 0 {
        assert(s =~= Seq::<char>::empty());
    } else {
        let p = s.drop_last();
        lemma_join_split(p);
        lemma_split_nonempty(p);
        let ls = split_lines(p);
        if s.last() == '\n' {
            assert(ls.push(Seq::<char>::empty()).drop_last() =~= ls);
            assert(p + seq!['\n'] + Seq::<char>::empty() =~= s);
        } else {
            let u = ls.update(ls.len() - 1, ls.last().push(s.last()));
            if ls.len() == 1 {
                assert(p.push(s.last()) =~= s);
            } else {
                assert(u.drop_last() =~= ls.drop_last());
                assert(join_lines(ls.drop_last()) + seq!['\n'] + ls.last().push(s.last())
                    =~= (join_lines(ls.drop_last()) + seq!['\n'] + ls.last()).push(s.last()));
                assert(p.push(s.last()) =~= s);
            }
        }
    }
}

} // verus!
