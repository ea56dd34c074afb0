//! Splits streamed assistant text into sentences as tokens arrive.
//!
//! Tokens are buffered; whenever the buffer holds a sentence end (。！？!? or a
//! newline, with any closing brackets 」』）) that follow it), the text up to
//! there is emitted as a trimmed sentence. A buffer that grows past its limit
//! without a sentence end is split at its last 、 , or space, or emitted whole.

use vstd::prelude::*;
use crate::text::{
    chars_of, is_white_space, lemma_trim_edges, slice_of, string_of_range, trim, trimmed_bounds,
};

verus! {

/// Characters that end a sentence: 。 ！ ？ ! ?
pub open spec fn is_terminator(c: char) -> bool {
    c == '。' || c == '！' || c == '？' || c == '!' || c == '?'
}

/// Closing brackets kept with the sentence they follow: 」 』 ） )
pub open spec fn is_closing_bracket(c: char) -> bool {
    c == '」' || c == '』' || c == '）' || c == ')'
}

/// Characters at which an overlong buffer may be split: 、 , space, ideographic space.
pub open spec fn is_force_split_char(c: char) -> bool {
    c == '、' || c == ',' || c == ' ' || c == '\u{3000}'
}

/// A sentence terminator or a newline.
pub open spec fn is_break(c: char) -> bool {
    is_terminator(c) || c == '\n'
}

/// Index of the first break character of `s` at or after `i`.
pub open spec fn first_break_from(s: Seq<char>, i: int) -> Option<int>
    decreases s.len() - i,
{
    if i < 0 || i >= s.len() {
        None
    } else if is_break(s[i]) {
        Some(i)
    } else {
        first_break_from(s, i + 1)
    }
}

/// End of the run of closing brackets of `s` that starts at `j`.
pub open spec fn closing_end(s: Seq<char>, j: int) -> int
    decreases s.len() - j,
{
    if 0 <= j < s.len() && is_closing_bracket(s[j]) {
        closing_end(s, j + 1)
    } else {
        j
    }
}

/// Length of the first sentence of `s`: through its first terminator and the
/// closing brackets right after it, or through its first newline.
pub open spec fn boundary(s: Seq<char>) -> Option<int> {
    match first_break_from(s, 0) {
        Some(i) => if s[i] == '\n' {
            Some(i + 1)
        } else {
            Some(closing_end(s, i + 1))
        },
        None => None,
    }
}

pub proof fn lemma_first_break_from(s: Seq<char>, i: int)
    requires
        0 <= i <= s.len(),
    ensures
        match first_break_from(s, i) {
            Some(k) => i <= k < s.len() && is_break(s[k]) && forall|m: int|
                i <= m < k ==> !is_break(#[trigger] s[m]),
            None => forall|m: int| i <= m < s.len() ==> !is_break(#[trigger] s[m]),
        },
    decreases s.len() - i,
{
    if i < s.len() && !is_break(s[i]) {
        lemma_first_break_from(s, i + 1);
    }
}

pub proof fn lemma_closing_end(s: Seq<char>, j: int)
    requires
        0 <= j <= s.len(),
    ensures
        j <= closing_end(s, j) <= s.len(),
        forall|m: int| j <= m < closing_end(s, j) ==> is_closing_bracket(#[trigger] s[m]),
        closing_end(s, j) < s.len() ==> !is_closing_bracket(s[closing_end(s, j)]),
    decreases s.len() - j,
{
    if j < s.len() && is_closing_bracket(s[j]) {
        lemma_closing_end(s, j + 1);
    }
}

pub proof fn lemma_boundary_range(s: Seq<char>)
    ensures
        boundary(s) matches Some(p) ==> 1 <= p <= s.len(),
{
    lemma_first_break_from(s, 0);
    if let Some(i) = first_break_from(s, 0) {
        lemma_closing_end(s, i + 1);
    }
}

/// The sentences of `s` in order (trimmed, empty ones dropped) and the text
/// after the last sentence end.
pub open spec fn split_complete(s: Seq<char>) -> (Seq<Seq<char>>, Seq<char>)
    decreases s.len(),
{
    if let Some(p) = boundary(s) {
        proof {
            lemma_boundary_range(s);
        }
        let rest = split_complete(s.skip(p));
        let t = trim(s.take(p));
        (if t.len() > 0 {
            seq![t] + rest.0
        } else {
            rest.0
        }, rest.1)
    } else {
        (seq![], s)
    }
}

/// Index of the last force-split character of `s[..j]`.
pub open spec fn last_split_before(s: Seq<char>, j: int) -> Option<int>
    decreases j,
{
    if j <= 0 {
        None
    } else if is_force_split_char(s[j - 1]) {
        Some(j - 1)
    } else {
        last_split_before(s, j - 1)
    }
}

/// Forced split of an overlong `s`: the trimmed text through its last
/// force-split character and the text after it; without such a character,
/// the whole trimmed text and nothing left.
pub open spec fn force_split_of(s: Seq<char>) -> (Seq<char>, Seq<char>) {
    match last_split_before(s, s.len() as int) {
        Some(i) => (trim(s.take(i + 1)), s.skip(i + 1)),
        None => (trim(s), seq![]),
    }
}

/// The sentences emitted from buffer contents `s` with length limit `max`,
/// and what stays buffered.
pub open spec fn extract(s: Seq<char>, max: nat) -> (Seq<Seq<char>>, Seq<char>) {
    let (sents, rest) = split_complete(s);
    if rest.len() > max {
        let (f, r) = force_split_of(rest);
        (if f.len() > 0 {
            sents.push(f)
        } else {
            sents
        }, r)
    } else {
        (sents, rest)
    }
}

/// The views of a vector of strings.
pub open spec fn string_views(v: Seq<String>) -> Seq<Seq<char>> {
    v.map_values(|x: String| x@)
}

/// Buffers streamed text and hands out whole sentences.
pub struct SentenceSplitter {
    buffer: Vec<char>,
    max_buffer_len: usize,
}

impl View for SentenceSplitter {
    type V = Seq<char>;

    /// The buffered text not yet emitted.
    closed spec fn view(&self) -> Seq<char> {
        self.buffer@
    }
}

impl SentenceSplitter {
    /// Number of buffered characters above which the buffer is split by force.
    pub closed spec fn max_len(&self) -> nat {
        self.max_buffer_len as nat
    }

    /// An empty splitter with a limit of 200 characters.
    pub fn new() -> (r: Self)
        ensures
            r@ == Seq::<char>::empty(),
            r.max_len() == 200,
    {
        SentenceSplitter { buffer: Vec::new(), max_buffer_len: 200 }
    }

    /// Appends `token` and returns the sentences that are now complete.
    pub fn push(&mut self, token: &str) -> (r: Vec<String>)
        ensures
            string_views(r@) == extract(old(self)@ + token@, old(self).max_len()).0,
            final(self)@ == extract(old(self)@ + token@, old(self).max_len()).1,
            final(self).max_len() == old(self).max_len(),
    {
        let t = chars_of(token);
        let mut i: usize = 0;
        let ghost b0 = self.buffer@;
        while i < t.len()
            invariant
                i <= t.len(),
                self.buffer@ == b0 + t@.take(i as int),
                self.max_buffer_len == old(self).max_buffer_len,
            decreases t.len() - i,
        {
            self.buffer.push(t[i]);
            assert(t@.take(i + 1) =~= t@.take(i as int).push(t@[i as int]));
            i = i + 1;
        }
        assert(t@.take(t.len() as int) =~= t@);
        self.extract_sentences()
    }

    /// Empties the buffer, returning its trimmed text unless that is empty.
    pub fn flush(&mut self) -> (r: Option<String>)
        ensures
            final(self)@ == Seq::<char>::empty(),
            final(self).max_len() == old(self).max_len(),
            match r {
                Some(s) => s@ == trim(old(self)@) && s@.len() > 0,
                None => trim(old(self)@).len() == 0,
            },
    {
        let (a, b) = trimmed_bounds(&self.buffer, 0, self.buffer.len());
        assert(self.buffer@.subrange(0, self.buffer@.len() as int) =~= self.buffer@);
        let remaining = string_of_range(&self.buffer, a, b);
        self.buffer = Vec::new();
        if a == b {
            None
        } else {
            Some(remaining)
        }
    }

    fn extract_sentences(&mut self) -> (r: Vec<String>)
        ensures
            string_views(r@) == extract(old(self)@, old(self).max_len()).0,
            final(self)@ == extract(old(self)@, old(self).max_len()).1,
            final(self).max_len() == old(self).max_len(),
    {
        let mut sentences: Vec<String> = Vec::new();
        let ghost s0 = self.buffer@;
        loop
            invariant
                self.max_buffer_len == old(self).max_buffer_len,
                s0 == old(self)@,
                split_complete(s0).0 == string_views(sentences@) + split_complete(
                    self.buffer@,
                ).0,
                split_complete(s0).1 == split_complete(self.buffer@).1,
            ensures
                boundary(self.buffer@) is None,
                self.max_buffer_len == old(self).max_buffer_len,
                split_complete(s0).0 == string_views(sentences@),
                split_complete(s0).1 == self.buffer@,
            decreases self.buffer@.len(),
        {
            let split_pos = self.find_sentence_boundary();
            match split_pos {
                Some(pos) => {
                    let ghost buf = self.buffer@;
                    proof {
                        lemma_boundary_range(buf);
                    }
                    let (a, b) = trimmed_bounds(&self.buffer, 0, pos);
                    let sentence = string_of_range(&self.buffer, a, b);
                    let len = self.buffer.len();
                    self.buffer = slice_of(&self.buffer, pos, len);
                    proof {
                        assert(buf.subrange(0, pos as int) =~= buf.take(pos as int));
                        assert(buf.subrange(pos as int, len as int) =~= buf.skip(pos as int));
                    }
                    let ghost prev = sentences@;
                    if a < b {
                        sentences.push(sentence);
                        proof {
                            assert(string_views(sentences@) =~= string_views(prev).push(
                                sentence@,
                            ));
                            assert(string_views(prev) + split_complete(buf).0 =~= string_views(
                                sentences@,
                            ) + split_complete(self.buffer@).0);
                        }
                    }
                }
                None => {
                    assert(split_complete(self.buffer@).0 =~= Seq::<Seq<char>>::empty());
                    assert(string_views(sentences@) + Seq::<Seq<char>>::empty()
                        =~= string_views(sentences@));
                    break ;
                }
            }
        }
        if self.buffer.len() > self.max_buffer_len {
            let ghost rest = self.buffer@;
            if let Some(forced) = self.force_split() {
                let ghost prev = sentences@;
                if !forced.as_str().is_empty() {
                    sentences.push(forced);
                    assert(string_views(sentences@) =~= string_views(prev).push(forced@));
                }
            }
        }
        sentences
    }

    /// Length of the first sentence in the buffer, if it holds one.
    fn find_sentence_boundary(&self) -> (r: Option<usize>)
        ensures
            match r {
                Some(p) => boundary(self@) == Some(p as int),
                None => boundary(self@) is None,
            },
    {
        let len = self.buffer.len();
        let mut i: usize = 0;
        while i < len
            invariant
                len == self.buffer@.len(),
                i <= len,
                first_break_from(self.buffer@, 0) == first_break_from(self.buffer@, i as int),
            decreases len - i,
        {
            let ch = self.buffer[i];
            if ch == '。' || ch == '！' || ch == '？' || ch == '!' || ch == '?' {
                let mut end_idx = i + 1;
                while end_idx < len && (self.buffer[end_idx] == '」' || self.buffer[end_idx]
                    == '』' || self.buffer[end_idx] == '）' || self.buffer[end_idx] == ')')
                    invariant
                        len == self.buffer@.len(),
                        i < end_idx <= len,
                        closing_end(self.buffer@, i + 1) == closing_end(
                            self.buffer@,
                            end_idx as int,
                        ),
                    decreases len - end_idx,
                {
                    end_idx = end_idx + 1;
                }
                return Some(end_idx);
            }
            if ch == '\n' {
                return Some(i + 1);
            }
            i = i + 1;
        }
        None
    }

    /// Splits the buffer at its last force-split character (or takes all of it).
    fn force_split(&mut self) -> (r: Option<String>)
        ensures
            r matches Some(s) && s@ == force_split_of(old(self)@).0,
            final(self)@ == force_split_of(old(self)@).1,
            final(self).max_len() == old(self).max_len(),
    {
        let len = self.buffer.len();
        let mut j = len;
        while j > 0
            invariant
                self.buffer@ == old(self)@,
                self.max_buffer_len == old(self).max_buffer_len,
                len == self.buffer@.len(),
                j <= len,
                last_split_before(self.buffer@, len as int) == last_split_before(
                    self.buffer@,
                    j as int,
                ),
            decreases j,
        {
            let ch = self.buffer[j - 1];
            if ch == '、' || ch == ',' || ch == ' ' || ch == '\u{3000}' {
                let ghost buf = self.buffer@;
                let (a, b) = trimmed_bounds(&self.buffer, 0, j);
                let sentence = string_of_range(&self.buffer, a, b);
                self.buffer = slice_of(&self.buffer, j, len);
                assert(buf.subrange(0, j as int) =~= buf.take(j as int));
                assert(buf.subrange(j as int, len as int) =~= buf.skip(j as int));
                return Some(sentence);
            }
            j = j - 1;
        }
        let ghost buf = self.buffer@;
        let (a, b) = trimmed_bounds(&self.buffer, 0, len);
        assert(buf.subrange(0, len as int) =~= buf);
        let sentence = string_of_range(&self.buffer, a, b);
        self.buffer = Vec::new();
        Some(sentence)
    }
}

/// The pieces of `s` cut at its sentence ends, before trimming, and the text
/// after the last sentence end.
pub open spec fn split_raw(s: Seq<char>) -> (Seq<Seq<char>>, Seq<char>)
    decreases s.len(),
{
    if let Some(p) = boundary(s) {
        proof {
            lemma_boundary_range(s);
        }
        let rest = split_raw(s.skip(p));
        (seq![s.take(p)] + rest.0, rest.1)
    } else {
        (seq![], s)
    }
}

/// All pieces of `pieces`, concatenated.
pub open spec fn concat(pieces: Seq<Seq<char>>) -> Seq<char>
    decreases pieces.len(),
{
    if pieces.len() == 0 {
        seq![]
    } else {
        pieces[0] + concat(pieces.drop_first())
    }
}

/// The trimmed pieces, empty ones dropped.
pub open spec fn trimmed_nonempty(pieces: Seq<Seq<char>>) -> Seq<Seq<char>>
    decreases pieces.len(),
{
    if pieces.len() == 0 {
        seq![]
    } else {
        let t = trim(pieces[0]);
        (if t.len() > 0 {
            seq![t]
        } else {
            seq![]
        }) + trimmed_nonempty(pieces.drop_first())
    }
}

/// No text is lost when buffered text is split into sentences: the buffer is
/// the sentence pieces followed by what stays buffered, and each emitted
/// sentence is one of those pieces with its surrounding whitespace removed
/// (pieces that are only whitespace are not emitted).
pub proof fn law_splitting_keeps_text(s: Seq<char>)
    ensures
        concat(split_raw(s).0) + split_raw(s).1 == s,
        split_complete(s).0 == trimmed_nonempty(split_raw(s).0),
        split_complete(s).1 == split_raw(s).1,
    decreases s.len(),
{
    if let Some(p) = boundary(s) {
        lemma_boundary_range(s);
        law_splitting_keeps_text(s.skip(p));
        let pieces = seq![s.take(p)] + split_raw(s.skip(p)).0;
        assert(pieces.drop_first() =~= split_raw(s.skip(p)).0);
        assert(concat(pieces) == s.take(p) + concat(split_raw(s.skip(p)).0));
        assert(s.take(p) + (concat(split_raw(s.skip(p)).0) + split_raw(s.skip(p)).1) =~= s);
        assert(concat(pieces) + split_raw(s).1 =~= s);
    } else {
        assert(concat(Seq::<Seq<char>>::empty()) + s =~= s);
    }
}

/// Every sentence the splitter emits is non-empty and has no whitespace at
/// either end.
pub proof fn law_sentences_trimmed(s: Seq<char>, max: nat)
    ensures
        forall|k: int|
            0 <= k < extract(s, max).0.len() ==> {
                let t = #[trigger] extract(s, max).0[k];
                t.len() > 0 && !is_white_space(t[0]) && !is_white_space(t.last())
            },
{
    lemma_split_sentences_trimmed(s);
    let rest = split_complete(s).1;
    lemma_trim_edges(rest);
    if let Some(i) = last_split_before(rest, rest.len() as int) {
        lemma_trim_edges(rest.take(i + 1));
    }
}

proof fn lemma_split_sentences_trimmed(s: Seq<char>)
    ensures
        forall|k: int|
            0 <= k < split_complete(s).0.len() ==> {
                let t = #[trigger] split_complete(s).0[k];
                t.len() > 0 && !is_white_space(t[0]) && !is_white_space(t.last())
            },
    decreases s.len(),
{
    if let Some(p) = boundary(s) {
        lemma_boundary_range(s);
        lemma_split_sentences_trimmed(s.skip(p));
        lemma_trim_edges(s.take(p));
        let t = trim(s.take(p));
        let rest = split_complete(s.skip(p)).0;
        if t.len() > 0 {
            assert forall|k: int| 0 <= k < split_complete(s).0.len() implies {
                let u = #[trigger] split_complete(s).0[k];
                u.len() > 0 && !is_white_space(u[0]) && !is_white_space(u.last())
            } by {
                if k > 0 {
                    assert(split_complete(s).0[k] == rest[k - 1]);
                }
            }
        }
    }
}

/// After a push, the buffer holds no sentence end (no terminator and no
/// newline), and a buffer longer than the limit holds no character at which
/// it could be split.
pub proof fn law_buffer_after_push(s: Seq<char>, max: nat)
    ensures
        forall|i: int| 0 <= i < extract(s, max).1.len() ==> !is_break(#[trigger] extract(s, max).1[i]),
        extract(s, max).1.len() > max ==> forall|i: int|
            0 <= i < extract(s, max).1.len() ==> !is_force_split_char(
                #[trigger] extract(s, max).1[i],
            ),
{
    lemma_split_rest_has_no_break(s);
    let rest = split_complete(s).1;
    if rest.len() > max {
        lemma_last_split_before(rest, rest.len() as int);
        let r = extract(s, max).1;
        match last_split_before(rest, rest.len() as int) {
            Some(i) => {
                assert forall|j: int| 0 <= j < r.len() implies !is_break(#[trigger] r[j])
                    && !is_force_split_char(r[j]) by {
                    assert(r[j] == rest[j + i + 1]);
                }
            },
            None => {},
        }
    }
}

proof fn lemma_split_rest_has_no_break(s: Seq<char>)
    ensures
        forall|i: int| 0 <= i < split_complete(s).1.len() ==> !is_break(#[trigger] split_complete(s).1[i]),
    decreases s.len(),
{
    if let Some(p) = boundary(s) {
        lemma_boundary_range(s);
        lemma_split_rest_has_no_break(s.skip(p));
        assert(split_complete(s).1 == split_complete(s.skip(p)).1);
    } else {
        lemma_first_break_from(s, 0);
        assert(first_break_from(s, 0) is None);
        assert(split_complete(s).1 == s);
    }
}

proof fn lemma_last_split_before(s: Seq<char>, j: int)
    requires
        0 <= j <= s.len(),
    ensures
        match last_split_before(s, j) {
            Some(i) => 0 <= i < j && is_force_split_char(s[i]) && forall|m: int|
                i < m < j ==> !is_force_split_char(#[trigger] s[m]),
            None => forall|m: int| 0 <= m < j ==> !is_force_split_char(#[trigger] s[m]),
        },
    decreases j,
{
    if j > 0 && !is_force_split_char(s[j - 1]) {
        lemma_last_split_before(s, j - 1);
    }
}

/// Flushing an empty buffer gives nothing: a second flush right after a
/// first one returns `None`.
pub proof fn law_flush_of_empty_is_none()
    ensures
        trim(Seq::<char>::empty()).len() == 0,
{
    assert(crate::text::trim_start(Seq::<char>::empty()) == Seq::<char>::empty());
}

/// `s` with every whitespace character removed.
pub open spec fn strip_ws(s: Seq<char>) -> Seq<char>
    decreases s.len(),
{
    if s.len() == 0 {
        s
    } else if is_white_space(s[0]) {
        strip_ws(s.drop_first())
    } else {
        seq![s[0]] + strip_ws(s.drop_first())
    }
}

/// The sentences handed out while `tokens` are pushed, in order, into an
/// empty splitter with limit `max`, and what stays buffered after the last.
pub open spec fn run_pushes(tokens: Seq<Seq<char>>, max: nat) -> (Seq<Seq<char>>, Seq<char>)
    decreases tokens.len(),
{
    if tokens.len() == 0 {
        (seq![], seq![])
    } else {
        let prev = run_pushes(tokens.drop_last(), max);
        let step = extract(prev.1 + tokens.last(), max);
        (prev.0 + step.0, step.1)
    }
}

proof fn lemma_strip_add(a: Seq<char>, b: Seq<char>)
    ensures
        strip_ws(a + b) == strip_ws(a) + strip_ws(b),
    decreases a.len(),
{
    if a.len() == 0 {
        assert(a + b =~= b);
        assert(strip_ws(a) + strip_ws(b) =~= strip_ws(b));
    } else {
        assert((a + b).drop_first() =~= a.drop_first() + b);
        assert((a + b)[0] == a[0]);
        lemma_strip_add(a.drop_first(), b);
        if !is_white_space(a[0]) {
            assert(seq![a[0]] + strip_ws(a.drop_first() + b) =~= seq![a[0]] + strip_ws(
                a.drop_first(),
            ) + strip_ws(b));
        }
    }
}

proof fn lemma_strip_trim_start(s: Seq<char>)
    ensures
        strip_ws(crate::text::trim_start(s)) == strip_ws(s),
    decreases s.len(),
{
    if s.len() > 0 && is_white_space(s[0]) {
        lemma_strip_trim_start(s.drop_first());
    }
}

proof fn lemma_strip_trim_end(s: Seq<char>)
    ensures
        strip_ws(crate::text::trim_end(s)) == strip_ws(s),
    decreases s.len(),
{
    if s.len() > 0 && is_white_space(s.last()) {
        lemma_strip_trim_end(s.drop_last());
        let w = seq![s.last()];
        assert(s =~= s.drop_last() + w);
        lemma_strip_add(s.drop_last(), w);
        assert(w.drop_first() =~= Seq::<char>::empty());
        assert(strip_ws(w) == strip_ws(w.drop_first()));
        assert(strip_ws(s.drop_last()) + strip_ws(w) =~= strip_ws(s.drop_last()));
    }
}

/// Trimming removes whitespace only.
proof fn lemma_strip_trim(s: Seq<char>)
    ensures
        strip_ws(trim(s)) == strip_ws(s),
{
    lemma_strip_trim_start(s);
    lemma_strip_trim_end(crate::text::trim_start(s));
}

proof fn lemma_concat_add(a: Seq<Seq<char>>, b: Seq<Seq<char>>)
    ensures
        concat(a + b) == concat(a) + concat(b),
    decreases a.len(),
{
    if a.len() == 0 {
        assert(a + b =~= b);
        assert(concat(a) + concat(b) =~= concat(b));
    } else {
        assert((a + b).drop_first() =~= a.drop_first() + b);
        assert((a + b)[0] == a[0]);
        lemma_concat_add(a.drop_first(), b);
        assert(a[0] + (concat(a.drop_first()) + concat(b)) =~= a[0] + concat(a.drop_first())
            + concat(b));
    }
}

proof fn lemma_concat_push(a: Seq<Seq<char>>, x: Seq<char>)
    ensures
        concat(a.push(x)) == concat(a) + x,
{
    lemma_concat_add(a, seq![x]);
    assert(a + seq![x] =~= a.push(x));
    lemma_concat_single(x);
}

proof fn lemma_concat_single(x: Seq<char>)
    ensures
        concat(seq![x]) == x,
{
    let one: Seq<Seq<char>> = seq![x];
    assert(one.drop_first() =~= Seq::<Seq<char>>::empty());
    assert(concat(one.drop_first()) == Seq::<char>::empty());
    assert(one[0] == x);
    assert(concat(one) == one[0] + concat(one.drop_first()));
    assert(x + Seq::<char>::empty() =~= x);
}

proof fn lemma_strip_trimmed_nonempty(pieces: Seq<Seq<char>>)
    ensures
        strip_ws(concat(trimmed_nonempty(pieces))) == strip_ws(concat(pieces)),
    decreases pieces.len(),
{
    if pieces.len() > 0 {
        let t = trim(pieces[0]);
        let head: Seq<Seq<char>> = if t.len() > 0 {
            seq![t]
        } else {
            seq![]
        };
        let rest = pieces.drop_first();
        lemma_strip_trimmed_nonempty(rest);
        lemma_concat_add(head, trimmed_nonempty(rest));
        lemma_strip_add(concat(head), concat(trimmed_nonempty(rest)));
        lemma_strip_add(pieces[0], concat(rest));
        lemma_strip_trim(pieces[0]);
        if t.len() > 0 {
            lemma_concat_single(t);
        } else {
            assert(t =~= Seq::<char>::empty());
        }
    }
}

/// One extraction keeps every non-whitespace character, in order.
proof fn lemma_extract_keeps_text(s: Seq<char>, max: nat)
    ensures
        strip_ws(concat(extract(s, max).0) + extract(s, max).1) == strip_ws(s),
{
    law_splitting_keeps_text(s);
    let raw = split_raw(s);
    let sents = split_complete(s).0;
    let rest = split_complete(s).1;
    lemma_strip_trimmed_nonempty(raw.0);
    lemma_strip_add(concat(sents), rest);
    lemma_strip_add(concat(raw.0), raw.1);
    if rest.len() > max {
        let (f, r) = force_split_of(rest);
        lemma_last_split_before(rest, rest.len() as int);
        match last_split_before(rest, rest.len() as int) {
            Some(i) => {
                assert(rest.take(i + 1) + rest.skip(i + 1) =~= rest);
                lemma_strip_add(rest.take(i + 1), rest.skip(i + 1));
                lemma_strip_trim(rest.take(i + 1));
            },
            None => {
                lemma_strip_trim(rest);
                assert(r =~= Seq::<char>::empty());
                assert(f + r =~= f);
            },
        }
        lemma_strip_add(f, r);
        let out = extract(s, max).0;
        if f.len() > 0 {
            lemma_concat_push(sents, f);
            assert(concat(out) + r =~= concat(sents) + (f + r));
        } else {
            assert(f =~= Seq::<char>::empty());
            assert(f + r =~= r);
        }
        lemma_strip_add(concat(sents), f + r);
        lemma_strip_add(concat(out), r);
    }
}

/// What pushing some tokens hands out, followed by what stays buffered,
/// holds every non-whitespace character of the tokens, in order.
proof fn lemma_run_pushes_keeps_text(tokens: Seq<Seq<char>>, max: nat)
    ensures
        strip_ws(concat(run_pushes(tokens, max).0) + run_pushes(tokens, max).1) == strip_ws(
            concat(tokens),
        ),
    decreases tokens.len(),
{
    if tokens.len() == 0 {
        assert(concat(Seq::<Seq<char>>::empty()) + Seq::<char>::empty() =~= Seq::<char>::empty());
    } else {
        let init = tokens.drop_last();
        let last = tokens.last();
        let prev = run_pushes(init, max);
        let step = extract(prev.1 + last, max);
        lemma_run_pushes_keeps_text(init, max);
        lemma_extract_keeps_text(prev.1 + last, max);
        lemma_concat_add(prev.0, step.0);
        assert(init.push(last) =~= tokens);
        lemma_concat_push(init, last);
        lemma_strip_add(concat(prev.0), concat(step.0) + step.1);
        assert(concat(prev.0) + concat(step.0) + step.1 =~= concat(prev.0) + (concat(step.0)
            + step.1));
        lemma_strip_add(prev.1, last);
        lemma_strip_add(concat(prev.0), prev.1);
        lemma_strip_add(concat(prev.0) + prev.1, last);
        assert(concat(prev.0) + (prev.1 + last) =~= concat(prev.0) + prev.1 + last);
        lemma_strip_add(concat(prev.0), prev.1 + last);
        lemma_strip_add(concat(init), last);
    }
}

/// The splitter loses, duplicates and reorders no text but whitespace:
/// pushing `tokens` in order into a new splitter (limit `max`) and then
/// flushing it hands out, across all the sentences and the flushed rest,
/// every non-whitespace character of the tokens, in order.
pub proof fn law_pushes_then_flush_keep_text(tokens: Seq<Seq<char>>, max: nat)
    ensures
        strip_ws(concat(run_pushes(tokens, max).0) + trim(run_pushes(tokens, max).1)) == strip_ws(
            concat(tokens),
        ),
{
    let run = run_pushes(tokens, max);
    lemma_run_pushes_keeps_text(tokens, max);
    lemma_strip_add(concat(run.0), trim(run.1));
    lemma_strip_add(concat(run.0), run.1);
    lemma_strip_trim(run.1);
}

} // verus!
