//! Localised messages: a table from message keys to translations, the lookup
//! that falls back to the key itself, and the fixed keys the formatter uses.
use vstd::prelude::*;

use crate::text::{append_chars, chars_of};

verus! {

/// Key of the message for a document that cannot be parsed.
pub const PARSE_FAILURE: &'static str = "Failed to parse the document.";

/// Key of the message for a document that cannot be parsed, naming the line.
pub const PARSE_FAILURE_AT_LINE: &'static str = "Failed to parse the document. [Line: {LINE_NUMBER}]";

/// The placeholder for the line in `PARSE_FAILURE_AT_LINE`.
pub const LINE_PLACEHOLDER: &'static str = "{LINE_NUMBER}";

/// Key of the message for a gap option that is not there.
pub const OPTION_MISSING: &'static str = "Failed to read option properties.";

/// Key of the message for a gap option that is empty.
pub const OPTION_EMPTY: &'static str =
    "Failed to read options. Please make sure there is no option with an empty value.";

/// Key of the message for a gap option that is not a count.
pub const OPTION_NOT_A_NUMBER: &'static str =
    "Failed to read options. Some of them are possibly not positive number values.";

/// The category of a message.
#[derive(Debug, Clone, Copy, PartialEq, Eq, Structural)]
pub enum LocaleCategory {
    Parsing,
    Formatting,
}

/// Translations of messages, one list of `(key, message)` pairs per category.
/// Where a key occurs twice, its first entry is the one used.
#[derive(Debug)]
pub struct LocaleTable {
    pub parsing: Vec<(String, String)>,
    pub formatting: Vec<(String, String)>,
}

/// The keys and messages of a list of entries.
pub open spec fn view_entries(v: Seq<(String, String)>) -> Seq<(Seq<char>, Seq<char>)> {
    v.map_values(|e: (String, String)| (e.0@, e.1@))
}

/// The message of the first entry with the given key.
pub open spec fn lookup(es: Seq<(Seq<char>, Seq<char>)>, key: Seq<char>) -> Option<Seq<char>>
    decreases es.len(),
{
    if es.len() == 0 {
        None
    } else if es[0].0 == key {
        Some(es[0].1)
    } else {
        lookup(es.drop_first(), key)
    }
}

/// The text shown for a key: its translation where there is a non-empty one,
/// the key itself otherwise.
pub open spec fn resolve(es: Seq<(Seq<char>, Seq<char>)>, key: Seq<char>) -> Seq<char> {
    match lookup(es, key) {
        Some(m) => if m.len() > 0 { m } else { key },
        None => key,
    }
}

/// `s` with every occurrence of `pat`, read from left to right, replaced by
/// `rep`.
pub open spec fn replace_all(s: Seq<char>, pat: Seq<char>, rep: Seq<char>) -> Seq<char>
    decreases s.len(),
{
    if pat.len() == 0 || s.len() < pat.len() {
        s
    } else if s.take(pat.len() as int) == pat {
        rep + replace_all(s.skip(pat.len() as int), pat, rep)
    } else {
        seq![s[0]] + replace_all(s.skip(1), pat, rep)
    }
}

impl LocaleTable {
    /// The entries of one category.
    pub open spec fn entries(&self, category: LocaleCategory) -> Seq<(Seq<char>, Seq<char>)> {
        match category {
            LocaleCategory::Parsing => view_entries(self.parsing@),
            LocaleCategory::Formatting => view_entries(self.formatting@),
        }
    }

    /// A table without translations: every key stands for itself.
    pub fn new() -> (r: LocaleTable)
        ensures
            r.entries(LocaleCategory::Parsing).len() == 0,
            r.entries(LocaleCategory::Formatting).len() == 0,
    {
        LocaleTable { parsing: Vec::new(), formatting: Vec::new() }
    }

    /// Adds a translation at the end of a category.
    pub fn insert(&mut self, category: LocaleCategory, key: String, message: String)
        ensures
            final(self).entries(category) == old(self).entries(category).push((key@, message@)),
            forall|c: LocaleCategory|
                c != category ==> #[trigger] final(self).entries(c) == old(self).entries(c),
    {
        let ghost k = key@;
        let ghost m = message@;
        match category {
            LocaleCategory::Parsing => {
                let ghost v = self.parsing@;
                self.parsing.push((key, message));
                assert(view_entries(self.parsing@) =~= view_entries(v).push((k, m)));
            },
            LocaleCategory::Formatting => {
                let ghost v = self.formatting@;
                self.formatting.push((key, message));
                assert(view_entries(self.formatting@) =~= view_entries(v).push((k, m)));
            },
        }
    }
}

/// The message of the first entry with the given key, if any.
fn find_entry<'a>(entries: &'a Vec<(String, String)>, key: &String) -> (r: Option<&'a String>)
    ensures
        r matches Some(m) ==> lookup(view_entries(entries@), key@) == Some(m@),
        r is None ==> lookup(view_entries(entries@), key@) is None,
{
    let ghost es = view_entries(entries@);
    let mut j: usize = 0;
    assert(es.skip(0) =~= es);
    while j < entries.len()
        invariant
            j <= entries@.len(),
            es == view_entries(entries@),
            lookup(es, key@) == lookup(es.skip(j as int), key@),
        decreases entries@.len() - j,
    {
        let e = &entries[j];
        assert(es.skip(j as int)[0] == (e.0@, e.1@));
        assert(es.skip(j as int).drop_first() =~= es.skip(j + 1));
        if e.0 == *key {
            return Some(&e.1);
        }
        j += 1;
    }
    None
}

/// Returns a message in the user's language: the translation of `key` in the
/// given category, or `key` itself when there is none or it is empty.
pub fn get_locale_string(locales: &LocaleTable, category: LocaleCategory, key: &str) -> (r: String)
    ensures
        r@ == resolve(locales.entries(category), key@),
{
    let k = key.to_owned();
    let found = match category {
        LocaleCategory::Parsing => find_entry(&locales.parsing, &k),
        LocaleCategory::Formatting => find_entry(&locales.formatting, &k),
    };
    match found {
        Some(m) => {
            if !m.as_str().is_empty() {
                m.clone()
            } else {
                k
            }
        },
        None => k,
    }
}

/// Whether `pat` occurs in `s` at position `j`.
fn occurs_at(s: &Vec<char>, j: usize, pat: &Vec<char>) -> (r: bool)
    requires
        j <= s@.len(),
    ensures
        r == (pat@.len() <= s@.len() - j && s@.skip(j as int).take(pat@.len() as int) == pat@),
{
    let n = s.len();
    if pat.len() > n - j {
        return false;
    }
    let mut q: usize = 0;
    while q < pat.len()
        invariant
            q <= pat@.len() <= s@.len() - j,
            j + pat@.len() <= n,
            n == s@.len(),
            forall|x: int| 0 <= x < q ==> s@[j + x] == pat@[x],
        decreases pat@.len() - q,
    {
        let at: usize = j + q;
        if s[at] != pat[q] {
            assert(s@.skip(j as int).take(pat@.len() as int)[q as int] != pat@[q as int]);
            return false;
        }
        q += 1;
    }
    assert(s@.skip(j as int).take(pat@.len() as int) =~= pat@);
    true
}

/// `s` with every occurrence of `pat` replaced by `rep`.
pub fn replace_text(s: &str, pat: &str, rep: &Vec<char>) -> (r: String)
    ensures
        r@ == replace_all(s@, pat@, rep@),
{
    let cs = chars_of(s);
    let p = chars_of(pat);
    let mut r = String::new();
    let mut j: usize = 0;
    assert(cs@.skip(0) =~= cs@);
    assert(r@ + replace_all(cs@, p@, rep@) =~= replace_all(cs@, p@, rep@));
    while j < cs.len()
        invariant
            j <= cs@.len(),
            cs@ == s@,
            p@ == pat@,
            r@ + replace_all(cs@.skip(j as int), p@, rep@) == replace_all(cs@, p@, rep@),
        decreases cs@.len() - j,
    {
        let ghost rest = cs@.skip(j as int);
        if p.len() > 0 && occurs_at(&cs, j, &p) {
            assert(rest.skip(p@.len() as int) =~= cs@.skip(j + p@.len()));
            append_chars(&mut r, rep);
            assert(r@ + replace_all(cs@.skip(j + p@.len()), p@, rep@) =~= r@.take(
                r@.len() - rep@.len(),
            ) + replace_all(rest, p@, rep@));
            j += p.len();
        } else {
            assert(rest.skip(1) =~= cs@.skip(j + 1));
            let c = cs[j];
            let mut one: Vec<char> = Vec::new();
            one.push(c);
            append_chars(&mut r, &one);
            assert(r@ + replace_all(cs@.skip(j + 1), p@, rep@) =~= r@.take(r@.len() - 1)
                + replace_all(rest, p@, rep@));
            j += 1;
        }
    }
    assert(cs@.skip(j as int) =~= Seq::<char>::empty());
    assert(r@ + Seq::<char>::empty() =~= r@);
    r
}

} // verus!
