//! Intent detection for a user utterance: a leading "remember this" phrase
//! turns the rest of the utterance into a fact to save; anything else is a
//! question for the assistant.

use vstd::prelude::*;
use crate::text::{is_white_space, lemma_trim_edges, lemma_trim_idempotent, chars_of, slice_of, starts_with_at, string_of_range, trim, trimmed_bounds};

verus! {

/// What the user wants from an utterance.
pub enum Intent {
    /// Save the given fact (the utterance without its leading phrase).
    SaveFact(String),
    /// An ordinary question.
    Query,
}

/// The phrases that mark a fact to save: 覚えて, メモして, 記録して, 保存して.
pub open spec fn save_prefixes() -> Seq<Seq<char>> {
    seq![
        seq!['覚', 'え', 'て'],
        seq!['メ', 'モ', 'し', 'て'],
        seq!['記', '録', 'し', 'て'],
        seq!['保', '存', 'し', 'て'],
    ]
}

/// Characters dropped between the phrase and the fact: 、 。 space, ideographic space.
pub open spec fn is_fact_delimiter(c: char) -> bool {
    c == '、' || c == '。' || c == ' ' || c == '\u{3000}'
}

/// `s` without its leading delimiters.
pub open spec fn skip_delimiters(s: Seq<char>) -> Seq<char>
    decreases s.len(),
{
    if s.len() > 0 && is_fact_delimiter(s[0]) {
        skip_delimiters(s.drop_first())
    } else {
        s
    }
}

/// The fact carried by `t` when tried against the phrases from index `k` on, in order.
pub open spec fn fact_from(t: Seq<char>, k: nat) -> Option<Seq<char>>
    decreases 4 - k,
{
    if k >= 4 {
        None
    } else {
        let p = save_prefixes()[k as int];
        if p.is_prefix_of(t) && skip_delimiters(t.skip(p.len() as int)).len() > 0 {
            Some(skip_delimiters(t.skip(p.len() as int)))
        } else {
            fact_from(t, k + 1)
        }
    }
}

/// The fact carried by an utterance, if it asks to save one.
pub open spec fn fact_of(text: Seq<char>) -> Option<Seq<char>> {
    fact_from(trim(text), 0)
}

/// The `k`-th phrase as characters.
fn save_prefix(k: usize) -> (p: Vec<char>)
    requires
        k < 4,
    ensures
        p@ == save_prefixes()[k as int],
{
    let p = if k == 0 {
        vec!['覚', 'え', 'て']
    } else if k == 1 {
        vec!['メ', 'モ', 'し', 'て']
    } else if k == 2 {
        vec!['記', '録', 'し', 'て']
    } else {
        vec!['保', '存', 'し', 'て']
    };
    assert(p@ =~= save_prefixes()[k as int]);
    p
}

/// Index of the first non-delimiter character of `v[lo..hi]` (or `hi`), and
/// `skip_delimiters(v[lo..hi]) == v[i..hi]`.
fn skip_delimiters_at(v: &Vec<char>, lo: usize, hi: usize) -> (i: usize)
    requires
        lo <= hi <= v.len(),
    ensures
        lo <= i <= hi,
        skip_delimiters(v@.subrange(lo as int, hi as int)) == v@.subrange(i as int, hi as int),
{
    let mut i = lo;
    while i < hi && (v[i] == '、' || v[i] == '。' || v[i] == ' ' || v[i] == '\u{3000}')
        invariant
            lo <= i <= hi <= v.len(),
            skip_delimiters(v@.subrange(lo as int, hi as int)) == skip_delimiters(
                v@.subrange(i as int, hi as int),
            ),
        decreases hi - i,
    {
        assert(v@.subrange(i as int, hi as int).drop_first() =~= v@.subrange(i + 1, hi as int));
        i = i + 1;
    }
    assert(i < hi ==> v@.subrange(i as int, hi as int)[0] == v@[i as int]);
    i
}

/// Decides whether an utterance asks to save a fact.
///
/// The utterance is trimmed; if it starts with one of the phrases 覚えて,
/// メモして, 記録して, 保存して (tried in that order) and what follows, with
/// leading 、 。 and spaces removed, is not empty, that remainder is the fact.
/// Otherwise the utterance is a query.
pub fn detect_intent(text: &str) -> (r: Intent)
    ensures
        match r {
            Intent::SaveFact(fact) => fact_of(text@) == Some(fact@),
            Intent::Query => fact_of(text@) is None,
        },
{
    let v = chars_of(text);
    let (a, b) = trimmed_bounds(&v, 0, v.len());
    let t = slice_of(&v, a, b);
    assert(v@.subrange(0, v@.len() as int) =~= v@);
    let ghost tt = t@;
    let mut k: usize = 0;
    while k < 4
        invariant
            0 <= k <= 4,
            t@ == tt,
            fact_of(text@) == fact_from(tt, k as nat),
        decreases 4 - k,
    {
        let p = save_prefix(k);
        assert(t@.subrange(0, t.len() as int) =~= t@);
        if starts_with_at(&t, 0, &p) {
            let i = skip_delimiters_at(&t, p.len(), t.len());
            assert(t@.subrange(p.len() as int, t.len() as int) =~= t@.skip(p@.len() as int));
            if i < t.len() {
                return Intent::SaveFact(string_of_range(&t, i, t.len()));
            }
        }
        k = k + 1;
    }
    Intent::Query
}

proof fn lemma_skip_delimiters(s: Seq<char>)
    ensures
        skip_delimiters(s).len() > 0 ==> !is_fact_delimiter(skip_delimiters(s)[0]),
    decreases s.len(),
{
    if s.len() > 0 && is_fact_delimiter(s[0]) {
        lemma_skip_delimiters(s.drop_first());
    }
}

proof fn lemma_fact_from(t: Seq<char>, k: nat)
    ensures
        fact_from(t, k) matches Some(f) ==> f.len() > 0 && !is_fact_delimiter(f[0]),
    decreases 4 - k,
{
    if k < 4 {
        let p = save_prefixes()[k as int];
        lemma_skip_delimiters(t.skip(p.len() as int));
        lemma_fact_from(t, k + 1);
    }
}

/// A fact to save is never empty and never starts with a delimiter.
pub proof fn law_fact_is_nonempty(text: Seq<char>)
    ensures
        fact_of(text) matches Some(f) ==> f.len() > 0 && !is_fact_delimiter(f[0]),
{
    lemma_fact_from(trim(text), 0);
}

proof fn lemma_skip_delimiters_suffix(s: Seq<char>)
    ensures
        skip_delimiters(s).len() <= s.len(),
        skip_delimiters(s) == s.skip(s.len() - skip_delimiters(s).len()),
    decreases s.len(),
{
    if s.len() > 0 && is_fact_delimiter(s[0]) {
        lemma_skip_delimiters_suffix(s.drop_first());
        let r = skip_delimiters(s.drop_first());
        assert(s.drop_first().skip(s.drop_first().len() - r.len()) =~= s.skip(s.len() - r.len()));
    } else {
        assert(s.skip(0) =~= s);
    }
}

proof fn lemma_fact_from_suffix(t: Seq<char>, k: nat)
    ensures
        fact_from(t, k) matches Some(f) ==> f.len() <= t.len() && f == t.skip(t.len() - f.len()),
    decreases 4 - k,
{
    if k < 4 {
        let p = save_prefixes()[k as int];
        if p.is_prefix_of(t) {
            let rest = t.skip(p.len() as int);
            lemma_skip_delimiters_suffix(rest);
            let f = skip_delimiters(rest);
            assert(rest.skip(rest.len() - f.len()) =~= t.skip(t.len() - f.len()));
        }
        lemma_fact_from(t, k + 1);
        lemma_fact_from_suffix(t, k + 1);
    }
}

/// The fact saved is the whole end of the utterance: everything after the
/// phrase and its delimiters, up to the end of the trimmed text, with
/// nothing cut off.
pub proof fn law_fact_runs_to_the_end(text: Seq<char>)
    ensures
        fact_of(text) matches Some(f) ==> f.len() <= trim(text).len() && f == trim(text).skip(
            trim(text).len() - f.len(),
        ),
{
    lemma_fact_from_suffix(trim(text), 0);
}

/// A save phrase followed by a trimmed text that does not start with a
/// delimiter saves exactly that text.
pub proof fn law_phrase_then_fact(k: int, b: Seq<char>)
    requires
        0 <= k < 4,
        b.len() > 0,
        trim(b) == b,
        !is_fact_delimiter(b[0]),
    ensures
        fact_of(save_prefixes()[k] + b) == Some(b),
{
    let p = save_prefixes()[k];
    let t = p + b;
    lemma_trim_edges(b);
    assert(t[0] == p[0]);
    assert(!is_white_space(t[0]));
    assert(t.last() == b.last());
    assert(crate::text::trim_start(t) == t);
    assert(crate::text::trim_end(t) == t);
    assert(trim(t) == t);
    assert(t.skip(p.len() as int) =~= b);
    assert(p.is_prefix_of(t)) by {
        assert(t.take(p.len() as int) =~= p);
    }
    assert(skip_delimiters(b) == b);
    lemma_other_phrases_skipped(t, 0, k);
}

proof fn lemma_other_phrases_skipped(t: Seq<char>, j: int, k: int)
    requires
        0 <= j <= k < 4,
        t.len() > 0,
        t[0] == save_prefixes()[k][0],
    ensures
        fact_from(t, j as nat) == fact_from(t, k as nat),
    decreases k - j,
{
    if j < k {
        let q = save_prefixes()[j];
        assert(q[0] != t[0]);
        if q.is_prefix_of(t) {
            assert(t.subrange(0, q.len() as int)[0] == q[0]);
        }
        lemma_other_phrases_skipped(t, j + 1, k);
    }
}

/// Whitespace around an utterance does not change its intent.
pub proof fn law_intent_ignores_surrounding_whitespace(text: Seq<char>)
    ensures
        fact_of(trim(text)) == fact_of(text),
{
    lemma_trim_idempotent(text);
}

} // verus!
