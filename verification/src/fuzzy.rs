//! Fuzzy matching of whitespace-separated query terms against text fields.
//!
//! Every term and every field is lower-cased character by character before
//! matching. A term that starts a field scores highest, one that starts a word
//! inside a field (after ` `, `-`, `_`, `/`, `.` or `:`) scores less, and one
//! found anywhere else scores least; earlier positions and shorter fields score
//! more. A query matches only when every term matches at least one field.

use vstd::prelude::*;
use crate::text::{
    chars_of, in_i64, is_space, lowercase, lowercase_chars, split_words, view_words, words_of,
};

verus! {

/// How a term was found in a field.
#[derive(Clone, Copy, Debug, PartialEq, Eq, Structural)]
pub enum MatchQuality {
    FieldPrefix,
    WordPrefix,
    Substring,
}

/// The score of one term against one field.
#[derive(Clone, Copy, Debug, PartialEq, Eq, Structural)]
pub struct TermMatch {
    pub score: i64,
    pub echo_bonus: i64,
    pub quality: MatchQuality,
}

// ---------------------------------------------------------------------------
// Specification
// ---------------------------------------------------------------------------

/// Characters that end a word for word-prefix matching.
pub open spec fn is_boundary(c: char) -> bool {
    c == ' ' || c == '-' || c == '_' || c == '/' || c == '.' || c == ':'
}

/// `t` occurs in `h` at character position `i`.
pub open spec fn occurs_at(h: Seq<char>, t: Seq<char>, i: int) -> bool {
    0 <= i && i + t.len() <= h.len() && h.subrange(i, i + t.len()) == t
}

/// The first position at or after `from` where `t` occurs in `h`.
pub open spec fn find_from(h: Seq<char>, t: Seq<char>, from: int) -> Option<int>
    decreases h.len() + 1 - from,
{
    if from < 0 || from + t.len() > h.len() {
        None
    } else if occurs_at(h, t, from) {
        Some(from)
    } else {
        find_from(h, t, from + 1)
    }
}

pub proof fn lemma_find_from_bounds(h: Seq<char>, t: Seq<char>, from: int)
    requires
        from >= 0,
    ensures
        find_from(h, t, from) matches Some(i) ==> from <= i && occurs_at(h, t, i) && (
        forall|k: int| from <= k < i ==> !occurs_at(h, t, k)),
        find_from(h, t, from) is None ==> forall|k: int| from <= k ==> !occurs_at(h, t, k),
    decreases h.len() + 1 - from,
{
    if from < 0 || from + t.len() > h.len() {
    } else if occurs_at(h, t, from) {
    } else {
        lemma_find_from_bounds(h, t, from + 1);
    }
}

/// Scanning the non-overlapping occurrences of `t` in `h` from `from` on, the
/// first one that starts `h` or follows a word boundary.
pub open spec fn word_prefix_from(h: Seq<char>, t: Seq<char>, from: int) -> Option<int>
    decreases h.len() + 1 - from,
{
    if t.len() == 0 || from < 0 || from > h.len() {
        None
    } else {
        match find_from(h, t, from) {
            None => None,
            Some(i) => {
                proof {
                    lemma_find_from_bounds(h, t, from);
                }
                if i == 0 || is_boundary(h[i - 1]) {
                    Some(i)
                } else {
                    word_prefix_from(h, t, i + t.len())
                }
            },
        }
    }
}

/// Where and how a lower-cased, non-empty term `t` matches a lower-cased field `h`.
pub open spec fn locate(t: Seq<char>, h: Seq<char>) -> Option<(MatchQuality, int)> {
    if find_from(h, t, 0) == Some(0int) {
        Some((MatchQuality::FieldPrefix, 0))
    } else {
        match word_prefix_from(h, t, 0) {
            Some(i) => Some((MatchQuality::WordPrefix, i)),
            None => match find_from(h, t, 0) {
                Some(i) => Some((MatchQuality::Substring, i)),
                None => None,
            },
        }
    }
}

pub open spec fn base_score(q: MatchQuality) -> int {
    match q {
        MatchQuality::FieldPrefix => 180,
        MatchQuality::WordPrefix => 120,
        MatchQuality::Substring => 70,
    }
}

pub open spec fn base_echo(q: MatchQuality) -> int {
    match q {
        MatchQuality::FieldPrefix => 18,
        MatchQuality::WordPrefix => 12,
        MatchQuality::Substring => 6,
    }
}

/// A quarter of how much longer the field is than the term.
pub open spec fn length_penalty(t: Seq<char>, h: Seq<char>) -> int {
    if h.len() > t.len() {
        (h.len() - t.len()) / 4
    } else {
        0
    }
}

/// The result of matching lower-cased `t` against lower-cased `h`:
/// `None` when a length or the score leaves the `i64` range, `Some(None)` when
/// `t` does not occur in `h`, else `Some(Some(m))`.
pub open spec fn lowered_outcome(t: Seq<char>, h: Seq<char>) -> Option<Option<TermMatch>> {
    if t.len() == 0 {
        Some(Some(TermMatch { score: 0, echo_bonus: 0, quality: MatchQuality::Substring }))
    } else if h.len() > i64::MAX || t.len() > i64::MAX {
        None
    } else {
        match locate(t, h) {
            None => Some(None),
            Some((q, i)) => {
                let v = base_score(q) - i - length_penalty(t, h);
                if in_i64(v) {
                    Some(Some(TermMatch { score: v as i64, echo_bonus: base_echo(q) as i64, quality: q }))
                } else {
                    None
                }
            },
        }
    }
}

/// The result of matching a term against a field, both lower-cased first.
pub open spec fn term_outcome(term: Seq<char>, field: Seq<char>) -> Option<Option<TermMatch>> {
    lowered_outcome(lowercase(term), lowercase(field))
}

/// The lower-cased, non-empty words of a query.
pub open spec fn lowered_words(ws: Seq<Seq<char>>) -> Seq<Seq<char>>
    decreases ws.len(),
{
    if ws.len() == 0 {
        Seq::empty()
    } else {
        let r = lowered_words(ws.drop_last());
        let t = lowercase(ws.last());
        if t.len() > 0 {
            r.push(t)
        } else {
            r
        }
    }
}

/// The terms of a query: its whitespace-separated words, lower-cased, empty ones dropped.
pub open spec fn query_terms(query: Seq<char>) -> Seq<Seq<char>> {
    lowered_words(split_words(query))
}

/// Sums the term scores of `terms[k..]` against one field onto `total`:
/// `None` on leaving the `i64` range, `Some(None)` at the first term that does not match.
pub open spec fn score_fold(terms: Seq<Seq<char>>, field: Seq<char>, k: int, total: int) -> Option<
    Option<int>,
>
    decreases terms.len() - k,
{
    if k < 0 || k >= terms.len() {
        Some(Some(total))
    } else {
        match term_outcome(terms[k], field) {
            None => None,
            Some(None) => Some(None),
            Some(Some(m)) => if in_i64(total + m.score) {
                score_fold(terms, field, k + 1, total + m.score)
            } else {
                None
            },
        }
    }
}

/// What `score` computes: `Some(Some(0))` for a query without terms, else the
/// sum of the term scores (`Some(None)` when a term does not match); `None`
/// when an intermediate value leaves the `i64` range.
pub open spec fn score_outcome(query: Seq<char>, haystack: Seq<char>) -> Option<Option<int>> {
    let terms = query_terms(query);
    if terms.len() == 0 {
        Some(Some(0))
    } else {
        score_fold(terms, haystack, 0, 0)
    }
}

/// A field and its bonus, as plain values.
pub open spec fn field_views(fields: Seq<(&str, i64)>) -> Seq<(Seq<char>, int)> {
    fields.map_values(|f: (&str, i64)| (f.0@, f.1 as int))
}

/// The non-negative part of a bonus that echoes into secondary matches.
pub open spec fn echo_share(bonus: int) -> int {
    if bonus > 0 {
        bonus / 10
    } else {
        0
    }
}

/// For the first `n` fields, the `(score + bonus, echo + echo_share(bonus))`
/// pairs of those the term matches, in field order; `None` if a field's
/// evaluation leaves the `i64` range.
pub open spec fn term_entries(term: Seq<char>, fields: Seq<(Seq<char>, int)>, n: int) -> Option<
    Seq<(int, int)>,
>
    decreases n,
{
    if n <= 0 {
        Some(Seq::empty())
    } else {
        match term_entries(term, fields, n - 1) {
            None => None,
            Some(es) => {
                let f = fields[n - 1];
                match term_outcome(term, f.0) {
                    None => None,
                    Some(None) => Some(es),
                    Some(Some(m)) => if in_i64(m.score + f.1) {
                        Some(es.push((m.score + f.1, m.echo_bonus + echo_share(f.1))))
                    } else {
                        None
                    },
                }
            },
        }
    }
}

/// The index of the first entry with the greatest score among the first `n`.
pub open spec fn best_index(es: Seq<(int, int)>, n: int) -> int
    decreases n,
{
    if n <= 1 {
        0
    } else {
        let k = best_index(es, n - 1);
        if es[n - 1].0 > es[k].0 {
            n - 1
        } else {
            k
        }
    }
}

/// The sum of the echo values of the first `n` entries.
pub open spec fn echo_sum(es: Seq<(int, int)>, n: int) -> int
    decreases n,
{
    if n <= 0 {
        0
    } else {
        echo_sum(es, n - 1) + es[n - 1].1
    }
}

/// The echo values of every entry but the best one.
pub open spec fn echo_rest(es: Seq<(int, int)>) -> int {
    echo_sum(es, es.len() as int) - es[best_index(es, es.len() as int)].1
}

/// Sums the term contributions of `terms[k..]` against weighted fields onto `total`.
pub open spec fn fields_fold(
    terms: Seq<Seq<char>>,
    fields: Seq<(Seq<char>, int)>,
    k: int,
    total: int,
) -> Option<Option<int>>
    decreases terms.len() - k,
{
    if k < 0 || k >= terms.len() {
        Some(Some(total))
    } else {
        match term_entries(terms[k], fields, fields.len() as int) {
            None => None,
            Some(es) => if es.len() == 0 {
                Some(None)
            } else {
                let best = es[best_index(es, es.len() as int)].0;
                let rest = echo_rest(es);
                if in_i64(total + best) && in_i64(rest) && in_i64(total + best + rest) {
                    fields_fold(terms, fields, k + 1, total + best + rest)
                } else {
                    None
                }
            },
        }
    }
}

/// What `score_fields` computes: `Some(Some(0))` for a query without terms;
/// `Some(None)` when some term matches no field; otherwise, summed over the
/// terms, the best `score + bonus` among the fields the term matches plus the
/// echo values of all its other matches; `None` when an intermediate value
/// leaves the `i64` range.
pub open spec fn score_fields_outcome(query: Seq<char>, fields: Seq<(Seq<char>, int)>) -> Option<
    Option<int>,
> {
    let terms = query_terms(query);
    if terms.len() == 0 {
        Some(Some(0))
    } else {
        fields_fold(terms, fields, 0, 0)
    }
}

/// An optional `i64` as an optional integer.
pub open spec fn opt_int(r: Option<i64>) -> Option<int> {
    match r {
        Some(v) => Some(v as int),
        None => None,
    }
}

/// An optional index as an optional integer.
pub open spec fn opt_idx(r: Option<usize>) -> Option<int> {
    match r {
        Some(v) => Some(v as int),
        None => None,
    }
}

// ---------------------------------------------------------------------------
// Implementation
// ---------------------------------------------------------------------------

fn is_word_boundary(c: char) -> (b: bool)
    ensures
        b == is_boundary(c),
{
    c == ' ' || c == '-' || c == '_' || c == '/' || c == '.' || c == ':'
}

fn occurs_at_index(h: &[char], t: &[char], i: usize) -> (b: bool)
    ensures
        b == occurs_at(h@, t@, i as int),
{
    if i > h.len() || t.len() > h.len() - i {
        return false;
    }
    let mut k: usize = 0;
    while k < t.len()
        invariant
            i + t@.len() <= h@.len(),
            k <= t@.len(),
            h.len() == h@.len(),
            t.len() == t@.len(),
            forall|j: int| 0 <= j < k ==> h@[i + j] == t@[j],
        decreases t.len() - k,
    {
        if h[i + k] != t[k] {
            proof {
                assert(h@.subrange(i as int, i + t@.len())[k as int] == h@[i + k]);
            }
            return false;
        }
        k = k + 1;
    }
    proof {
        assert(h@.subrange(i as int, i + t@.len()) =~= t@);
    }
    true
}

fn find_from_index(h: &[char], t: &[char], from: usize) -> (r: Option<usize>)
    ensures
        opt_idx(r) == find_from(h@, t@, from as int),
{
    if t.len() == 0 {
        if from <= h.len() {
            proof {
                assert(h@.subrange(from as int, from as int) =~= t@);
            }
            return Some(from);
        }
        return None;
    }
    let mut i: usize = from;
    while i <= h.len() && t.len() <= h.len() - i
        invariant
            from <= i,
            t@.len() > 0,
            find_from(h@, t@, from as int) == find_from(h@, t@, i as int),
        decreases h.len() + 1 - i,
    {
        if occurs_at_index(h, t, i) {
            return Some(i);
        }
        i = i + 1;
    }
    None
}

/// The first non-overlapping occurrence of `t` in `h` that starts `h` or follows a word boundary.
fn word_prefix_index(h: &[char], t: &[char]) -> (r: Option<usize>)
    requires
        t@.len() > 0,
    ensures
        opt_idx(r) == word_prefix_from(h@, t@, 0),
{
    let mut from: usize = 0;
    loop
        invariant
            t@.len() > 0,
            from <= h@.len() + 1,
            word_prefix_from(h@, t@, 0) == word_prefix_from(h@, t@, from as int),
        decreases h.len() + 1 - from,
    {
        if from > h.len() {
            return None;
        }
        match find_from_index(h, t, from) {
            None => {
                return None;
            },
            Some(i) => {
                proof {
                    lemma_find_from_bounds(h@, t@, from as int);
                }
                if i == 0 || is_word_boundary(h[i - 1]) {
                    return Some(i);
                }
                from = i + t.len();
            },
        }
    }
}

/// Matches a lower-cased term against a lower-cased field.
fn match_lowered(t: &[char], h: &[char]) -> (r: Option<Option<TermMatch>>)
    ensures
        r == lowered_outcome(t@, h@),
{
    if t.len() == 0 {
        return Some(Some(TermMatch { score: 0, echo_bonus: 0, quality: MatchQuality::Substring }));
    }
    if h.len() as u64 > i64::MAX as u64 || t.len() as u64 > i64::MAX as u64 {
        return None;
    }
    let hl = h.len() as i64;
    let tl = t.len() as i64;
    let penalty: i64 = if hl > tl {
        (hl - tl) / 4
    } else {
        0
    };
    let first = find_from_index(h, t, 0);
    let field_prefix = match first {
        Some(i) => i == 0,
        None => false,
    };
    let (quality, index) = if field_prefix {
        (MatchQuality::FieldPrefix, 0usize)
    } else {
        match word_prefix_index(h, t) {
            Some(i) => (MatchQuality::WordPrefix, i),
            None => match first {
                Some(i) => (MatchQuality::Substring, i),
                None => {
                    return Some(None);
                },
            },
        }
    };
    proof {
        lemma_find_from_bounds(h@, t@, 0);
        if !field_prefix {
            if let Some(i) = word_prefix_from(h@, t@, 0) {
                lemma_word_prefix_bounds(h@, t@, 0);
            }
        }
    }
    let (base, echo): (i64, i64) = match quality {
        MatchQuality::FieldPrefix => (180, 18),
        MatchQuality::WordPrefix => (120, 12),
        MatchQuality::Substring => (70, 6),
    };
    let before_penalty = base - index as i64;
    match before_penalty.checked_sub(penalty) {
        Some(v) => Some(Some(TermMatch { score: v, echo_bonus: echo, quality })),
        None => None,
    }
}

proof fn lemma_word_prefix_bounds(h: Seq<char>, t: Seq<char>, from: int)
    requires
        from >= 0,
    ensures
        word_prefix_from(h, t, from) matches Some(i) ==> from <= i && occurs_at(h, t, i),
    decreases h.len() + 1 - from,
{
    if t.len() == 0 || from < 0 || from > h.len() {
    } else {
        lemma_find_from_bounds(h, t, from);
        match find_from(h, t, from) {
            None => {},
            Some(i) => {
                if i == 0 || is_boundary(h[i - 1]) {
                } else {
                    lemma_word_prefix_bounds(h, t, i + t.len());
                }
            },
        }
    }
}

/// The terms of a query: lower-cased whitespace-separated words.
fn split_terms(query: &[char]) -> (r: Vec<Vec<char>>)
    ensures
        view_words(r@) == query_terms(query@),
{
    let words = words_of(query);
    let ghost ws = view_words(words@);
    let mut terms: Vec<Vec<char>> = Vec::new();
    let n = words.len();
    let mut k: usize = 0;
    while k < n
        invariant
            n == words@.len(),
            ws == view_words(words@),
            k <= n,
            view_words(terms@) == lowered_words(ws.take(k as int)),
        decreases n - k,
    {
        let t = lowercase_chars(words[k].as_slice());
        proof {
            assert(ws.take(k + 1).drop_last() =~= ws.take(k as int));
            assert(ws.take(k + 1).last() == words@[k as int]@);
        }
        let ghost before = view_words(terms@);
        if t.len() > 0 {
            terms.push(t);
            proof {
                assert(view_words(terms@) =~= before.push(t@));
            }
        }
        k = k + 1;
    }
    proof {
        assert(ws.take(n as int) =~= ws);
    }
    terms
}

/// Scores `query` against one text: the sum of its term scores, or `None`
/// when some term does not occur. The outer `None` says that a value left
/// the `i64` range.
pub fn try_score(query: &str, haystack: &str) -> (r: Option<Option<i64>>)
    ensures
        r matches Some(x) ==> score_outcome(query@, haystack@) == Some(opt_int(x)),
        r is None ==> score_outcome(query@, haystack@) is None,
{
    let q = chars_of(query);
    let terms = split_terms(q.as_slice());
    let ghost tv = view_words(terms@);
    if terms.len() == 0 {
        return Some(Some(0));
    }
    let hay_chars = chars_of(haystack);
    let h = lowercase_chars(hay_chars.as_slice());
    let mut total: i64 = 0;
    let n = terms.len();
    let mut k: usize = 0;
    while k < n
        invariant
            n == terms@.len(),
            tv == view_words(terms@),
            tv == query_terms(query@),
            h@ == lowercase(haystack@),
            k <= n,
            score_fold(tv, haystack@, 0, 0) == score_fold(tv, haystack@, k as int, total as int),
        decreases n - k,
    {
        let t = lowercase_chars(terms[k].as_slice());
        proof {
            assert(tv[k as int] == terms@[k as int]@);
        }
        match match_lowered(t.as_slice(), h.as_slice()) {
            None => {
                return None;
            },
            Some(None) => {
                return Some(None);
            },
            Some(Some(m)) => match total.checked_add(m.score) {
                None => {
                    return None;
                },
                Some(v) => {
                    total = v;
                },
            },
        }
        k = k + 1;
    }
    Some(Some(total))
}

/// Scores `query` against one text: the sum over its terms of how well each
/// term matches, `Some(0)` for a query without terms, and `None` when some
/// term does not occur in the text.
pub fn score(query: &str, haystack: &str) -> (r: Option<i64>)
    requires
        score_outcome(query@, haystack@) is Some,
    ensures
        score_outcome(query@, haystack@) == Some(opt_int(r)),
{
    match try_score(query, haystack) {
        Some(x) => x,
        None => None,
    }
}

/// Score and echo pairs as integers.
pub open spec fn entries_view(es: Seq<(i64, i64)>) -> Seq<(int, int)> {
    es.map_values(|e: (i64, i64)| (e.0 as int, e.1 as int))
}

proof fn lemma_term_entries_none(term: Seq<char>, fields: Seq<(Seq<char>, int)>, a: int, b: int)
    requires
        a <= b,
        term_entries(term, fields, a) is None,
    ensures
        term_entries(term, fields, b) is None,
    decreases b - a,
{
    if a < b {
        lemma_term_entries_none(term, fields, a, b - 1);
    }
}

/// The entries of one lower-cased term against every lower-cased field.
fn term_entries_of(
    Ghost(term): Ghost<Seq<char>>,
    t: &[char],
    lowered: &Vec<Vec<char>>,
    fields: &[(&str, i64)],
) -> (r: Option<Vec<(i64, i64)>>)
    requires
        t@ == lowercase(term),
        lowered@.len() == fields@.len(),
        forall|j: int| 0 <= j < fields@.len() ==> #[trigger] lowered@[j]@ == lowercase(fields@[j].0@),
    ensures
        r is None ==> term_entries(term, field_views(fields@), fields@.len() as int) is None,
        r matches Some(es) ==> term_entries(term, field_views(fields@), fields@.len() as int) == Some(
            entries_view(es@),
        ) && (forall|j: int| 0 <= j < es@.len() ==> #[trigger] es@[j].1 >= 0),
{
    let ghost fv = field_views(fields@);
    let n = fields.len();
    let mut es: Vec<(i64, i64)> = Vec::new();
    let mut k: usize = 0;
    while k < n
        invariant
            n == fields@.len(),
            fv == field_views(fields@),
            t@ == lowercase(term),
            lowered@.len() == fields@.len(),
            forall|j: int| 0 <= j < fields@.len() ==> #[trigger] lowered@[j]@ == lowercase(fields@[j].0@),
            k <= n,
            term_entries(term, fv, k as int) == Some(entries_view(es@)),
            forall|j: int| 0 <= j < es@.len() ==> #[trigger] es@[j].1 >= 0,
        decreases n - k,
    {
        let bonus = fields[k].1;
        proof {
            assert(fv[k as int] == (fields@[k as int].0@, bonus as int));
            assert(lowered@[k as int]@ == lowercase(fields@[k as int].0@));
        }
        match match_lowered(t, lowered[k].as_slice()) {
            None => {
                proof {
                    lemma_term_entries_none(term, fv, k + 1, n as int);
                }
                return None;
            },
            Some(None) => {},
            Some(Some(m)) => {
                match m.score.checked_add(bonus) {
                    None => {
                        proof {
                            lemma_term_entries_none(term, fv, k + 1, n as int);
                        }
                        return None;
                    },
                    Some(v) => {
                        let share: i64 = if bonus > 0 {
                            bonus / 10
                        } else {
                            0
                        };
                        proof {
                            assert(m.echo_bonus == 0 || m.echo_bonus == 6 || m.echo_bonus == 12
                                || m.echo_bonus == 18);
                        }
                        let ghost before = es@;
                        es.push((v, m.echo_bonus + share));
                        proof {
                            assert(entries_view(es@) =~= entries_view(before).push(
                                (v as int, (m.echo_bonus + share) as int),
                            ));
                        }
                    },
                }
            },
        }
        k = k + 1;
    }
    Some(es)
}

/// The index of the first entry with the greatest score.
fn best_entry(es: &Vec<(i64, i64)>) -> (b: usize)
    requires
        es@.len() > 0,
    ensures
        b < es@.len(),
        b == best_index(entries_view(es@), es@.len() as int),
{
    let ghost ev = entries_view(es@);
    let n = es.len();
    let mut b: usize = 0;
    let mut k: usize = 1;
    while k < n
        invariant
            n == es@.len(),
            ev == entries_view(es@),
            1 <= k <= n,
            b < k,
            b == best_index(ev, k as int),
        decreases n - k,
    {
        if es[k].0 > es[b].0 {
            b = k;
        }
        k = k + 1;
    }
    b
}

proof fn lemma_echo_sum_nonneg(es: Seq<(int, int)>, a: int)
    requires
        0 <= a <= es.len(),
        forall|j: int| 0 <= j < es.len() ==> #[trigger] es[j].1 >= 0,
    ensures
        echo_sum(es, a) >= 0,
    decreases a,
{
    if a > 0 {
        lemma_echo_sum_nonneg(es, a - 1);
    }
}

proof fn lemma_echo_sum_mono(es: Seq<(int, int)>, a: int, c: int)
    requires
        0 <= a <= c <= es.len(),
        forall|j: int| 0 <= j < es.len() ==> #[trigger] es[j].1 >= 0,
    ensures
        echo_sum(es, a) <= echo_sum(es, c),
        echo_sum(es, a) >= 0,
    decreases c,
{
    lemma_echo_sum_nonneg(es, a);
    if a < c {
        lemma_echo_sum_mono(es, a, c - 1);
    }
}

/// The sum of the echo values of every entry but entry `b`, if it fits in an `i64`.
fn echo_rest_of(es: &Vec<(i64, i64)>, b: usize) -> (r: Option<i64>)
    requires
        b < es@.len(),
        forall|j: int| 0 <= j < es@.len() ==> #[trigger] es@[j].1 >= 0,
    ensures
        r matches Some(v) ==> v == echo_sum(entries_view(es@), es@.len() as int) - es@[b as int].1,
        r is None ==> !in_i64(echo_sum(entries_view(es@), es@.len() as int) - es@[b as int].1),
{
    let ghost ev = entries_view(es@);
    let n = es.len();
    proof {
        assert forall|j: int| 0 <= j < ev.len() implies #[trigger] ev[j].1 >= 0 by {
            assert(ev[j].1 == es@[j].1);
        }
        lemma_echo_sum_mono(ev, b as int, b + 1);
        lemma_echo_sum_mono(ev, b + 1, n as int);
    }
    let mut acc: i64 = 0;
    let mut k: usize = 0;
    while k < n
        invariant
            n == es@.len(),
            ev == entries_view(es@),
            b < n,
            forall|j: int| 0 <= j < ev.len() ==> #[trigger] ev[j].1 >= 0,
            k <= n,
            acc == echo_sum(ev, k as int) - (if b < k {
                ev[b as int].1
            } else {
                0
            }),
            acc >= 0,
            echo_sum(ev, b + 1) <= echo_sum(ev, n as int),
        decreases n - k,
    {
        if k != b {
            proof {
                assert(ev[k as int].1 == es@[k as int].1);
            }
            match acc.checked_add(es[k].1) {
                None => {
                    proof {
                        if b < k {
                            lemma_echo_sum_mono(ev, k + 1, n as int);
                        } else {
                            lemma_echo_sum_mono(ev, k + 1, b as int);
                        }
                    }
                    return None;
                },
                Some(v) => {
                    acc = v;
                },
            }
        }
        k = k + 1;
    }
    Some(acc)
}

/// Scores `query` against weighted fields; the outer `None` says that a
/// value left the `i64` range.
pub fn try_score_fields(query: &str, fields: &[(&str, i64)]) -> (r: Option<Option<i64>>)
    ensures
        r matches Some(x) ==> score_fields_outcome(query@, field_views(fields@)) == Some(opt_int(x)),
        r is None ==> score_fields_outcome(query@, field_views(fields@)) is None,
{
    let q = chars_of(query);
    let terms = split_terms(q.as_slice());
    let ghost tv = view_words(terms@);
    let ghost fv = field_views(fields@);
    if terms.len() == 0 {
        return Some(Some(0));
    }
    let nf = fields.len();
    let mut lowered: Vec<Vec<char>> = Vec::new();
    let mut j: usize = 0;
    while j < nf
        invariant
            nf == fields@.len(),
            j <= nf,
            lowered@.len() == j,
            forall|i: int| 0 <= i < j ==> #[trigger] lowered@[i]@ == lowercase(fields@[i].0@),
        decreases nf - j,
    {
        let field_chars = chars_of(fields[j].0);
        lowered.push(lowercase_chars(field_chars.as_slice()));
        j = j + 1;
    }
    let mut total: i64 = 0;
    let n = terms.len();
    let mut k: usize = 0;
    while k < n
        invariant
            n == terms@.len(),
            tv == view_words(terms@),
            tv == query_terms(query@),
            fv == field_views(fields@),
            lowered@.len() == fields@.len(),
            forall|i: int| 0 <= i < fields@.len() ==> #[trigger] lowered@[i]@ == lowercase(fields@[i].0@),
            k <= n,
            fields_fold(tv, fv, 0, 0) == fields_fold(tv, fv, k as int, total as int),
        decreases n - k,
    {
        let t = lowercase_chars(terms[k].as_slice());
        proof {
            assert(tv[k as int] == terms@[k as int]@);
            assert(fv.len() == fields@.len());
        }
        match term_entries_of(Ghost(tv[k as int]), t.as_slice(), &lowered, fields) {
            None => {
                return None;
            },
            Some(es) => {
                if es.len() == 0 {
                    return Some(None);
                }
                let b = best_entry(&es);
                let ghost ev = entries_view(es@);
                proof {
                    assert(ev[b as int].0 == es@[b as int].0);
                    assert(ev[b as int].1 == es@[b as int].1);
                }
                let t1 = match total.checked_add(es[b].0) {
                    None => {
                        return None;
                    },
                    Some(v) => v,
                };
                let rest = match echo_rest_of(&es, b) {
                    None => {
                        return None;
                    },
                    Some(v) => v,
                };
                match t1.checked_add(rest) {
                    None => {
                        return None;
                    },
                    Some(v) => {
                        total = v;
                    },
                }
            },
        }
        k = k + 1;
    }
    Some(Some(total))
}

/// Scores `query` against weighted fields. Each term takes its best
/// `score + bonus` among the fields it matches, plus an echo value for every
/// other field it matches; the query's score is the sum over its terms,
/// `Some(0)` when it has no terms, and `None` when some term matches no field.
pub fn score_fields(query: &str, fields: &[(&str, i64)]) -> (r: Option<i64>)
    requires
        score_fields_outcome(query@, field_views(fields@)) is Some,
    ensures
        score_fields_outcome(query@, field_views(fields@)) == Some(opt_int(r)),
{
    match try_score_fields(query, fields) {
        Some(x) => x,
        None => None,
    }
}

// ---------------------------------------------------------------------------
// Laws
// ---------------------------------------------------------------------------

proof fn lemma_blank_words(s: Seq<char>)
    requires
        forall|i: int| 0 <= i < s.len() ==> is_space(#[trigger] s[i]),
    ensures
        split_words(s).len() == 0,
    decreases s.len(),
{
    if s.len() > 0 {
        assert(is_space(s[s.len() - 1]));
        lemma_blank_words(s.drop_last());
    }
}

/// A query of nothing but whitespace matches every text and every set of
/// fields, with score 0.
pub proof fn lemma_blank_query_scores_zero(query: Seq<char>, haystack: Seq<char>, fields: Seq<(Seq<char>, int)>)
    requires
        forall|i: int| 0 <= i < query.len() ==> is_space(#[trigger] query[i]),
    ensures
        score_outcome(query, haystack) == Some(Some(0int)),
        score_fields_outcome(query, fields) == Some(Some(0int)),
{
    lemma_blank_words(query);
    assert(query_terms(query).len() == 0);
}

proof fn lemma_single_field_fold(terms: Seq<Seq<char>>, h: Seq<char>, k: int, total: int)
    requires
        0 <= k,
    ensures
        fields_fold(terms, seq![(h, 0int)], k, total) == score_fold(terms, h, k, total),
    decreases terms.len() - k,
{
    let f = seq![(h, 0int)];
    if k < terms.len() {
        let t = terms[k];
        assert(term_entries(t, f, 0) == Some(Seq::<(int, int)>::empty()));
        match term_outcome(t, h) {
            None => {},
            Some(None) => {},
            Some(Some(m)) => {
                let es = seq![(m.score as int, m.echo_bonus + echo_share(0))];
                assert(term_entries(t, f, 1) == Some(es));
                assert(best_index(es, 1) == 0);
                assert(echo_sum(es, 1) == es[0].1 + echo_sum(es, 0));
                assert(echo_rest(es) == 0);
                lemma_single_field_fold(terms, h, k + 1, total + m.score);
            },
        }
    }
}

/// Scoring a text is scoring a single field that holds it with no bonus.
pub proof fn lemma_score_is_single_field(query: Seq<char>, haystack: Seq<char>)
    ensures
        score_fields_outcome(query, seq![(haystack, 0int)]) == score_outcome(query, haystack),
{
    lemma_single_field_fold(query_terms(query), haystack, 0, 0);
}

proof fn lemma_fold_terms_matched(terms: Seq<Seq<char>>, fields: Seq<(Seq<char>, int)>, k: int, total: int)
    requires
        0 <= k,
        fields_fold(terms, fields, k, total) matches Some(Some(_)),
    ensures
        forall|j: int|
            k <= j < terms.len() ==> ((#[trigger] term_entries(terms[j], fields, fields.len() as int))
                matches Some(es) && es.len() > 0),
    decreases terms.len() - k,
{
    if k < terms.len() {
        let es = term_entries(terms[k], fields, fields.len() as int)->0;
        let best = es[best_index(es, es.len() as int)].0;
        let rest = echo_rest(es);
        lemma_fold_terms_matched(terms, fields, k + 1, total + best + rest);
    }
}

/// A query scores against fields only when each of its terms matches at
/// least one of the fields.
pub proof fn lemma_every_term_matches_a_field(query: Seq<char>, fields: Seq<(Seq<char>, int)>)
    requires
        score_fields_outcome(query, fields) matches Some(Some(_)),
    ensures
        forall|j: int|
            0 <= j < query_terms(query).len() ==> ((#[trigger] term_entries(
                query_terms(query)[j],
                fields,
                fields.len() as int,
            )) matches Some(es) && es.len() > 0),
{
    if query_terms(query).len() > 0 {
        lemma_fold_terms_matched(query_terms(query), fields, 0, 0);
    }
}

/// The term occurs in none of the fields (both lower-cased).
pub open spec fn unmatched(term: Seq<char>, fields: Seq<(Seq<char>, int)>) -> bool {
    forall|i: int|
        0 <= i < fields.len() ==> #[trigger] term_outcome(term, fields[i].0) == Some(
            None::<TermMatch>,
        )
}

proof fn lemma_term_entries_empty(term: Seq<char>, fields: Seq<(Seq<char>, int)>, n: int)
    requires
        0 <= n <= fields.len(),
        term_entries(term, fields, n) is Some,
    ensures
        (term_entries(term, fields, n)->0.len() == 0) <==> forall|i: int|
            0 <= i < n ==> #[trigger] term_outcome(term, fields[i].0) == Some(None::<TermMatch>),
    decreases n,
{
    if n > 0 {
        lemma_term_entries_empty(term, fields, n - 1);
        let es = term_entries(term, fields, n - 1)->0;
        match term_outcome(term, fields[n - 1].0) {
            None => {},
            Some(None) => {
                if es.len() == 0 {
                    assert forall|i: int| 0 <= i < n implies #[trigger] term_outcome(
                        term,
                        fields[i].0,
                    ) == Some(None::<TermMatch>) by {
                        if i < n - 1 {
                            assert(term_outcome(term, fields[i].0) == Some(None::<TermMatch>));
                        }
                    }
                } else {
                    if forall|i: int|
                        0 <= i < n ==> #[trigger] term_outcome(term, fields[i].0) == Some(
                            None::<TermMatch>,
                        ) {
                        assert forall|i: int| 0 <= i < n - 1 implies #[trigger] term_outcome(
                            term,
                            fields[i].0,
                        ) == Some(None::<TermMatch>) by {
                            assert(term_outcome(term, fields[i].0) == Some(None::<TermMatch>));
                        }
                    }
                }
            },
            Some(Some(m)) => {
                assert(term_outcome(term, fields[n - 1].0) != Some(None::<TermMatch>));
            },
        }
    }
}

proof fn lemma_fold_unmatched(terms: Seq<Seq<char>>, fields: Seq<(Seq<char>, int)>, k: int, total: int)
    requires
        0 <= k,
        fields_fold(terms, fields, k, total) == Some(None::<int>),
    ensures
        exists|j: int|
            k <= j < terms.len() && #[trigger] term_entries(terms[j], fields, fields.len() as int)
                == Some(Seq::<(int, int)>::empty()),
    decreases terms.len() - k,
{
    if k < terms.len() {
        let es = term_entries(terms[k], fields, fields.len() as int)->0;
        if es.len() == 0 {
            assert(es =~= Seq::<(int, int)>::empty());
            assert(term_entries(terms[k], fields, fields.len() as int) == Some(
                Seq::<(int, int)>::empty(),
            ));
        } else {
            let best = es[best_index(es, es.len() as int)].0;
            let rest = echo_rest(es);
            lemma_fold_unmatched(terms, fields, k + 1, total + best + rest);
        }
    }
}

/// Scoring a query against fields, where nothing leaves the `i64` range,
/// fails exactly when some term of the query occurs in none of the fields
/// (both lower-cased); so with no fields every query that has a term fails.
pub proof fn lemma_unmatched_term_fails(query: Seq<char>, fields: Seq<(Seq<char>, int)>)
    requires
        score_fields_outcome(query, fields) is Some,
    ensures
        score_fields_outcome(query, fields) == Some(None::<int>) <==> exists|j: int|
            0 <= j < query_terms(query).len() && #[trigger] unmatched(query_terms(query)[j], fields),
        fields.len() == 0 && query_terms(query).len() > 0 ==> score_fields_outcome(query, fields)
            == Some(None::<int>),
{
    let terms = query_terms(query);
    let n = fields.len() as int;
    if score_fields_outcome(query, fields) == Some(None::<int>) {
        assert(terms.len() > 0);
        lemma_fold_unmatched(terms, fields, 0, 0);
        let j = choose|j: int|
            0 <= j < terms.len() && #[trigger] term_entries(terms[j], fields, n) == Some(
                Seq::<(int, int)>::empty(),
            );
        lemma_term_entries_empty(terms[j], fields, n);
        assert(unmatched(terms[j], fields));
    } else {
        assert(score_fields_outcome(query, fields) matches Some(Some(_)));
        lemma_every_term_matches_a_field(query, fields);
        assert forall|j: int| 0 <= j < terms.len() implies !#[trigger] unmatched(terms[j], fields) by {
            assert(term_entries(terms[j], fields, n) matches Some(es) && es.len() > 0);
            lemma_term_entries_empty(terms[j], fields, n);
        }
    }
    if fields.len() == 0 && terms.len() > 0 {
        assert(term_entries(terms[0], fields, 0) == Some(Seq::<(int, int)>::empty()));
    }
}

proof fn lemma_bonus_field_fold(terms: Seq<Seq<char>>, h: Seq<char>, bonus: int, k: int, ts: int)
    requires
        0 <= k <= terms.len(),
        fields_fold(terms, seq![(h, bonus)], k, ts + bonus * k) is Some,
        score_fold(terms, h, k, ts) is Some,
    ensures
        match score_fold(terms, h, k, ts) {
            Some(Some(x)) => fields_fold(terms, seq![(h, bonus)], k, ts + bonus * k) == Some(
                Some(x + bonus * terms.len()),
            ),
            _ => fields_fold(terms, seq![(h, bonus)], k, ts + bonus * k) == Some(None::<int>),
        },
    decreases terms.len() - k,
{
    let f = seq![(h, bonus)];
    if k < terms.len() {
        let t = terms[k];
        assert(term_entries(t, f, 0) == Some(Seq::<(int, int)>::empty()));
        match term_outcome(t, h) {
            None => {},
            Some(None) => {
                assert(term_entries(t, f, 1) == Some(Seq::<(int, int)>::empty()));
            },
            Some(Some(m)) => {
                let es = seq![(m.score + bonus, m.echo_bonus + echo_share(bonus))];
                assert(term_entries(t, f, 1) == Some(es));
                assert(best_index(es, 1) == 0);
                assert(echo_sum(es, 1) == es[0].1 + echo_sum(es, 0));
                assert(echo_rest(es) == 0);
                assert(ts + bonus * k + (m.score + bonus) + 0 == (ts + m.score) + bonus * (k + 1))
                    by (nonlinear_arith);
                lemma_bonus_field_fold(terms, h, bonus, k + 1, ts + m.score);
            },
        }
    }
}

/// Scoring one field that carries a bonus, where nothing leaves the `i64`
/// range, gives the score of its text plus the bonus once for every term of
/// the query; it fails exactly when scoring the text fails.
pub proof fn lemma_bonus_field_adds_bonus_per_term(query: Seq<char>, haystack: Seq<char>, bonus: int)
    requires
        score_outcome(query, haystack) is Some,
        score_fields_outcome(query, seq![(haystack, bonus)]) is Some,
    ensures
        match score_outcome(query, haystack) {
            Some(Some(s)) => score_fields_outcome(query, seq![(haystack, bonus)]) == Some(
                Some(s + bonus * query_terms(query).len()),
            ),
            _ => score_fields_outcome(query, seq![(haystack, bonus)]) == Some(None::<int>),
        },
{
    let terms = query_terms(query);
    if terms.len() > 0 {
        assert(bonus * 0 == 0);
        lemma_bonus_field_fold(terms, haystack, bonus, 0, 0);
    }
}

/// What one term adds to the total against fields with entries `es`: the
/// best entry's score and the echo values of all the others.
pub open spec fn contribution(es: Seq<(int, int)>) -> int {
    es[best_index(es, es.len() as int)].0 + echo_rest(es)
}

/// The term `t` matches the field text `g`, with a positive echo value.
pub open spec fn echoes_in(t: Seq<char>, g: Seq<char>) -> bool {
    term_outcome(t, g) matches Some(Some(m)) && m.echo_bonus > 0
}

proof fn lemma_term_outcome_echo(t: Seq<char>, h: Seq<char>)
    ensures
        term_outcome(t, h) matches Some(Some(m)) ==> m.echo_bonus >= 0,
{
}

proof fn lemma_term_entries_prefix(t: Seq<char>, fs: Seq<(Seq<char>, int)>, g: (Seq<char>, int), n: int)
    requires
        0 <= n <= fs.len(),
    ensures
        term_entries(t, fs.push(g), n) == term_entries(t, fs, n),
    decreases n,
{
    if n > 0 {
        lemma_term_entries_prefix(t, fs, g, n - 1);
        assert(fs.push(g)[n - 1] == fs[n - 1]);
    }
}

proof fn lemma_term_entries_echo(t: Seq<char>, fs: Seq<(Seq<char>, int)>, n: int)
    requires
        0 <= n <= fs.len(),
        term_entries(t, fs, n) is Some,
    ensures
        forall|i: int|
            0 <= i < term_entries(t, fs, n)->0.len() ==> #[trigger] term_entries(t, fs, n)->0[i].1
                >= 0,
    decreases n,
{
    if n > 0 {
        lemma_term_entries_echo(t, fs, n - 1);
        lemma_term_outcome_echo(t, fs[n - 1].0);
        let es = term_entries(t, fs, n - 1)->0;
        assert forall|i: int|
            0 <= i < term_entries(t, fs, n)->0.len() implies #[trigger] term_entries(
            t,
            fs,
            n,
        )->0[i].1 >= 0 by {
            if i < es.len() {
                assert(es[i].1 >= 0);
            }
        }
    }
}

proof fn lemma_best_index_prefix(es: Seq<(int, int)>, e: (int, int), n: int)
    requires
        0 <= n <= es.len(),
    ensures
        best_index(es.push(e), n) == best_index(es, n),
        echo_sum(es.push(e), n) == echo_sum(es, n),
        0 < n ==> 0 <= best_index(es, n) < n,
    decreases n,
{
    if n > 0 {
        lemma_best_index_prefix(es, e, n - 1);
        assert(es.push(e)[n - 1] == es[n - 1]);
    }
}

proof fn lemma_echo_sum_at(es: Seq<(int, int)>, k: int, n: int)
    requires
        0 <= k < n <= es.len(),
        forall|i: int| 0 <= i < es.len() ==> #[trigger] es[i].1 >= 0,
    ensures
        echo_sum(es, n) >= es[k].1,
    decreases n,
{
    if n - 1 > k {
        lemma_echo_sum_at(es, k, n - 1);
    } else {
        lemma_echo_sum_nonneg(es, k);
    }
}

/// Adding an entry to a term's entries never lowers what the term adds, and
/// raises it when the new entry's echo value is positive.
proof fn lemma_push_contribution(es: Seq<(int, int)>, e: (int, int))
    requires
        es.len() > 0,
        forall|i: int| 0 <= i < es.len() ==> #[trigger] es[i].1 >= 0,
        e.1 >= 0,
    ensures
        contribution(es.push(e)) >= contribution(es),
        e.1 > 0 ==> contribution(es.push(e)) > contribution(es),
{
    let n = es.len() as int;
    let es2 = es.push(e);
    lemma_best_index_prefix(es, e, n);
    let k = best_index(es, n);
    assert(echo_sum(es2, n + 1) == echo_sum(es, n) + e.1);
    lemma_echo_sum_at(es, k, n);
    if e.0 > es[k].0 {
        assert(best_index(es2, n + 1) == n);
    } else {
        assert(best_index(es2, n + 1) == k);
        assert(es2[k] == es[k]);
    }
}

proof fn lemma_fold_append(
    terms: Seq<Seq<char>>,
    fs: Seq<(Seq<char>, int)>,
    g: (Seq<char>, int),
    k: int,
    t1: int,
    t2: int,
)
    requires
        0 <= k <= terms.len(),
        t1 <= t2,
        fields_fold(terms, fs, k, t1) matches Some(Some(_)),
        fields_fold(terms, fs.push(g), k, t2) is Some,
    ensures
        fields_fold(terms, fs.push(g), k, t2) matches Some(Some(s2)) && s2 - t2 >= fields_fold(
            terms,
            fs,
            k,
            t1,
        )->0->0 - t1,
        (forall|j: int| k <= j < terms.len() ==> !(#[trigger] term_outcome(terms[j], g.0) matches Some(Some(_))))
            ==> fields_fold(terms, fs.push(g), k, t2)->0->0 - t2 == fields_fold(terms, fs, k, t1)->0->0 - t1,
        (exists|j: int| k <= j < terms.len() && #[trigger] echoes_in(terms[j], g.0))
            ==> fields_fold(terms, fs.push(g), k, t2)->0->0 - t2 > fields_fold(terms, fs, k, t1)->0->0 - t1,
    decreases terms.len() - k,
{
    if k < terms.len() {
        let t = terms[k];
        let n = fs.len() as int;
        let fs2 = fs.push(g);
        lemma_term_entries_prefix(t, fs, g, n);
        let es = term_entries(t, fs, n)->0;
        lemma_term_entries_echo(t, fs, n);
        lemma_term_outcome_echo(t, g.0);
        assert(fs2[n] == g);
        assert(es.len() > 0);
        let es2 = term_entries(t, fs2, n + 1)->0;
        match term_outcome(t, g.0) {
            None => {},
            Some(None) => {
                assert(es2 == es);
            },
            Some(Some(m)) => {
                let e = (m.score + g.1, m.echo_bonus + echo_share(g.1));
                assert(es2 == es.push(e));
                lemma_push_contribution(es, e);
            },
        }
        let c1 = contribution(es);
        let c2 = contribution(es2);
        assert(c2 >= c1);
        lemma_fold_append(terms, fs, g, k + 1, t1 + c1, t2 + c2);
        if exists|j: int| k <= j < terms.len() && #[trigger] echoes_in(terms[j], g.0) {
            let j = choose|j: int| k <= j < terms.len() && #[trigger] echoes_in(terms[j], g.0);
            if j == k {
                assert(c2 > c1);
            } else {
                assert(k + 1 <= j < terms.len() && echoes_in(terms[j], g.0));
            }
        }
        if forall|j: int| k <= j < terms.len() ==> !(#[trigger] term_outcome(terms[j], g.0) matches Some(Some(_))) {
            assert(!(term_outcome(terms[k], g.0) matches Some(Some(_))));
            assert(c2 == c1);
        }
    }
}

/// Adding a field never lowers the score of a query, where nothing leaves
/// the `i64` range: it stays a score, unchanged when no term of the query
/// occurs in the new field, and higher when one does (with a positive echo
/// value, which every term that occurs has).
pub proof fn lemma_more_fields_never_lower(
    query: Seq<char>,
    fields: Seq<(Seq<char>, int)>,
    extra: (Seq<char>, int),
)
    requires
        score_fields_outcome(query, fields) matches Some(Some(_)),
        score_fields_outcome(query, fields.push(extra)) is Some,
    ensures
        score_fields_outcome(query, fields.push(extra)) matches Some(Some(s2)) && s2
            >= score_fields_outcome(query, fields)->0->0,
        (forall|j: int|
            0 <= j < query_terms(query).len() ==> !(#[trigger] term_outcome(
                query_terms(query)[j],
                extra.0,
            ) matches Some(Some(_)))) ==> score_fields_outcome(query, fields.push(extra))
            == score_fields_outcome(query, fields),
        (exists|j: int|
            0 <= j < query_terms(query).len() && #[trigger] echoes_in(query_terms(query)[j], extra.0))
            ==> score_fields_outcome(query, fields.push(extra))->0->0 > score_fields_outcome(
            query,
            fields,
        )->0->0,
{
    let terms = query_terms(query);
    if terms.len() > 0 {
        lemma_fold_append(terms, fields, extra, 0, 0, 0);
    }
}

/// The sum, over the terms from `k` on, of the score of each term against
/// one text.
pub open spec fn term_score_sum(terms: Seq<Seq<char>>, h: Seq<char>, k: int) -> int
    decreases terms.len() - k,
{
    if k < 0 || k >= terms.len() {
        0
    } else {
        term_outcome(terms[k], h)->0->0.score + term_score_sum(terms, h, k + 1)
    }
}

/// The sum, over the terms from `k` on, of what each term adds against the
/// fields (`contribution` of its entries).
pub open spec fn contribution_sum(terms: Seq<Seq<char>>, fields: Seq<(Seq<char>, int)>, k: int) -> int
    decreases terms.len() - k,
{
    if k < 0 || k >= terms.len() {
        0
    } else {
        contribution(term_entries(terms[k], fields, fields.len() as int)->0) + contribution_sum(
            terms,
            fields,
            k + 1,
        )
    }
}

proof fn lemma_score_fold_sum(terms: Seq<Seq<char>>, h: Seq<char>, k: int, total: int)
    requires
        0 <= k,
        score_fold(terms, h, k, total) matches Some(Some(_)),
    ensures
        score_fold(terms, h, k, total)->0->0 == total + term_score_sum(terms, h, k),
    decreases terms.len() - k,
{
    if k < terms.len() {
        let m = term_outcome(terms[k], h)->0->0;
        lemma_score_fold_sum(terms, h, k + 1, total + m.score);
    }
}

proof fn lemma_fields_fold_sum(terms: Seq<Seq<char>>, fields: Seq<(Seq<char>, int)>, k: int, total: int)
    requires
        0 <= k,
        fields_fold(terms, fields, k, total) matches Some(Some(_)),
    ensures
        fields_fold(terms, fields, k, total)->0->0 == total + contribution_sum(terms, fields, k),
    decreases terms.len() - k,
{
    if k < terms.len() {
        let es = term_entries(terms[k], fields, fields.len() as int)->0;
        lemma_fields_fold_sum(terms, fields, k + 1, total + contribution(es));
    }
}

/// The score of a query against a text is the sum of the scores of its terms
/// (0 for a query without terms).
pub proof fn lemma_score_sums_terms(query: Seq<char>, haystack: Seq<char>)
    requires
        score_outcome(query, haystack) matches Some(Some(_)),
    ensures
        score_outcome(query, haystack)->0->0 == term_score_sum(query_terms(query), haystack, 0),
{
    if query_terms(query).len() > 0 {
        lemma_score_fold_sum(query_terms(query), haystack, 0, 0);
    }
}

/// The score of a query against fields is the sum, over its terms, of the
/// best `score + bonus` among the fields the term matches (the first of
/// equal ones) plus the echo values of all its other matches.
pub proof fn lemma_score_fields_sums_terms(query: Seq<char>, fields: Seq<(Seq<char>, int)>)
    requires
        score_fields_outcome(query, fields) matches Some(Some(_)),
    ensures
        score_fields_outcome(query, fields)->0->0 == contribution_sum(query_terms(query), fields, 0),
{
    if query_terms(query).len() > 0 {
        lemma_fields_fold_sum(query_terms(query), fields, 0, 0);
    }
}

/// A term whose first occurrence in a field comes right after a space, `-`,
/// `_`, `/`, `.` or `:` (and not at the start of the field) matches as a word
/// prefix at that position.
pub proof fn lemma_separator_starts_a_word(t: Seq<char>, h: Seq<char>, i: int)
    requires
        t.len() > 0,
        0 < i,
        find_from(h, t, 0) == Some(i),
        h[i - 1] == ' ' || h[i - 1] == '-' || h[i - 1] == '_' || h[i - 1] == '/' || h[i - 1]
            == '.' || h[i - 1] == ':',
    ensures
        locate(t, h) == Some((MatchQuality::WordPrefix, i)),
{
    lemma_find_from_bounds(h, t, 0);
    assert(word_prefix_from(h, t, 0) == Some(i));
}

/// A query, where nothing leaves the `i64` range, scores against fields
/// whenever one of the fields holds every term of the query.
pub proof fn lemma_one_field_holding_every_term_scores(
    query: Seq<char>,
    fields: Seq<(Seq<char>, int)>,
    k: int,
)
    requires
        score_fields_outcome(query, fields) is Some,
        0 <= k < fields.len(),
        forall|j: int|
            0 <= j < query_terms(query).len() ==> #[trigger] term_outcome(
                query_terms(query)[j],
                fields[k].0,
            ) matches Some(Some(_)),
    ensures
        score_fields_outcome(query, fields) matches Some(Some(_)),
{
    lemma_unmatched_term_fails(query, fields);
    if score_fields_outcome(query, fields) == Some(None::<int>) {
        let j = choose|j: int|
            0 <= j < query_terms(query).len() && #[trigger] unmatched(query_terms(query)[j], fields);
        assert(term_outcome(query_terms(query)[j], fields[k].0) matches Some(Some(_)));
        assert(term_outcome(query_terms(query)[j], fields[k].0) == Some(None::<TermMatch>));
    }
}

/// Every term of the query occurs in `text` (both lower-cased).
pub open spec fn holds_every_term(query: Seq<char>, text: Seq<char>) -> bool {
    forall|j: int|
        0 <= j < query_terms(query).len() ==> #[trigger] term_outcome(query_terms(query)[j], text)
            matches Some(Some(_))
}

/// No term of the query occurs in `text` (both lower-cased).
pub open spec fn absent_from(query: Seq<char>, text: Seq<char>) -> bool {
    forall|j: int|
        0 <= j < query_terms(query).len() ==> #[trigger] term_outcome(query_terms(query)[j], text)
            == Some(None::<TermMatch>)
}

/// No term of the query occurs in any field but the one at `k`.
pub open spec fn only_in_field(query: Seq<char>, fields: Seq<(Seq<char>, int)>, k: int) -> bool {
    forall|j: int, i: int|
        0 <= j < query_terms(query).len() && 0 <= i < fields.len() && i != k ==> #[trigger] term_outcome(
            query_terms(query)[j],
            fields[i].0,
        ) == Some(None::<TermMatch>)
}

proof fn lemma_entries_of_one_field(t: Seq<char>, fields: Seq<(Seq<char>, int)>, k: int, n: int)
    requires
        0 <= k < fields.len(),
        0 <= n <= fields.len(),
        term_outcome(t, fields[k].0) matches Some(Some(_)),
        forall|i: int|
            0 <= i < fields.len() && i != k ==> #[trigger] term_outcome(t, fields[i].0) == Some(
                None::<TermMatch>,
            ),
        n > k ==> in_i64(term_outcome(t, fields[k].0)->0->0.score + fields[k].1),
    ensures
        term_entries(t, fields, n) == (if n <= k {
            Some(Seq::<(int, int)>::empty())
        } else {
            let m = term_outcome(t, fields[k].0)->0->0;
            Some(seq![(m.score + fields[k].1, m.echo_bonus + echo_share(fields[k].1))])
        }),
    decreases n,
{
    if n > 0 {
        lemma_entries_of_one_field(t, fields, k, n - 1);
        if n - 1 == k {
            let m = term_outcome(t, fields[k].0)->0->0;
            assert(Seq::<(int, int)>::empty().push(
                (m.score + fields[k].1, m.echo_bonus + echo_share(fields[k].1)),
            ) =~= seq![(m.score + fields[k].1, m.echo_bonus + echo_share(fields[k].1))]);
        } else {
            assert(term_outcome(t, fields[n - 1].0) == Some(None::<TermMatch>));
        }
    }
}

proof fn lemma_entries_in_range(t: Seq<char>, fields: Seq<(Seq<char>, int)>, k: int, n: int)
    requires
        0 <= k < n <= fields.len(),
        term_entries(t, fields, n) is Some,
        term_outcome(t, fields[k].0) matches Some(Some(_)),
    ensures
        in_i64(term_outcome(t, fields[k].0)->0->0.score + fields[k].1),
    decreases n,
{
    if n - 1 > k {
        lemma_entries_in_range(t, fields, k, n - 1);
    }
}

proof fn lemma_contributions_of_one_field(
    terms: Seq<Seq<char>>,
    fields: Seq<(Seq<char>, int)>,
    k: int,
    j: int,
)
    requires
        0 <= k < fields.len(),
        0 <= j <= terms.len(),
        forall|x: int|
            j <= x < terms.len() ==> (#[trigger] term_entries(terms[x], fields, fields.len() as int))
                == ({
                let m = term_outcome(terms[x], fields[k].0)->0->0;
                Some(seq![(m.score + fields[k].1, m.echo_bonus + echo_share(fields[k].1))])
            }),
    ensures
        contribution_sum(terms, fields, j) == term_score_sum(terms, fields[k].0, j) + fields[k].1 * (
        terms.len() - j),
    decreases terms.len() - j,
{
    if j < terms.len() {
        lemma_contributions_of_one_field(terms, fields, k, j + 1);
        let m = term_outcome(terms[j], fields[k].0)->0->0;
        let es = seq![(m.score + fields[k].1, m.echo_bonus + echo_share(fields[k].1))];
        assert(term_entries(terms[j], fields, fields.len() as int) == Some(es));
        assert(best_index(es, 1) == 0);
        assert(echo_sum(es, 1) == es[0].1 + echo_sum(es, 0));
        assert(echo_sum(es, 0) == 0);
        assert(echo_rest(es) == 0);
        assert(contribution(es) == m.score + fields[k].1);
        let b = fields[k].1;
        let r = terms.len() - j;
        assert(b * r == b + b * (r - 1)) by (nonlinear_arith);
        assert(contribution_sum(terms, fields, j) == contribution(es) + contribution_sum(
            terms,
            fields,
            j + 1,
        ));
        assert(term_score_sum(terms, fields[k].0, j) == m.score + term_score_sum(
            terms,
            fields[k].0,
            j + 1,
        ));
    } else {
        assert(fields[k].1 * 0 == 0);
    }
}

/// When the terms of a query occur in one field alone, where nothing leaves
/// the `i64` range, the score is that field's score for the query plus the
/// field's bonus once per term.
pub proof fn lemma_score_from_one_field(query: Seq<char>, fields: Seq<(Seq<char>, int)>, k: int)
    requires
        score_fields_outcome(query, fields) is Some,
        0 <= k < fields.len(),
        holds_every_term(query, fields[k].0),
        only_in_field(query, fields, k),
    ensures
        score_fields_outcome(query, fields) == Some(
            Some(
                term_score_sum(query_terms(query), fields[k].0, 0) + fields[k].1 * query_terms(
                    query,
                ).len(),
            ),
        ),
{
    let terms = query_terms(query);
    let n = fields.len() as int;
    lemma_one_field_holding_every_term_scores(query, fields, k);
    lemma_every_term_matches_a_field(query, fields);
    assert forall|x: int| 0 <= x < terms.len() implies (#[trigger] term_entries(terms[x], fields, n))
        == ({
        let m = term_outcome(terms[x], fields[k].0)->0->0;
        Some(seq![(m.score + fields[k].1, m.echo_bonus + echo_share(fields[k].1))])
    }) by {
        assert(term_outcome(terms[x], fields[k].0) matches Some(Some(_)));
        assert(term_entries(terms[x], fields, n) matches Some(es) && es.len() > 0);
        lemma_entries_in_range(terms[x], fields, k, n);
        assert forall|i: int| 0 <= i < n && i != k implies #[trigger] term_outcome(
            terms[x],
            fields[i].0,
        ) == Some(None::<TermMatch>) by {
            assert(term_outcome(query_terms(query)[x], fields[i].0) == Some(None::<TermMatch>));
        }
        lemma_entries_of_one_field(terms[x], fields, k, n);
    }
    lemma_contributions_of_one_field(terms, fields, k, 0);
    lemma_score_fields_sums_terms(query, fields);
    if terms.len() == 0 {
        assert(fields[k].1 * 0 == 0);
    }
}

} // verus!
