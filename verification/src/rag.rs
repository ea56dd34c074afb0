//! Text rules of the retrieval store: knowledge chunking, document ids and
//! contents, conversation analysis validation, context formatting, and the
//! embedding dimension guard. Similarity search itself works on floating
//! point embeddings and is done by the caller.

use vstd::prelude::*;
use crate::text::{
    chars_of, decimal, join, opt_view, or_empty, push_chars, push_decimal, push_decimal_u64, slice_of, str_eq, string_of,
    str_or_empty, trim, trimmed_bounds, string_of_range,
};

verus! {

broadcast use vstd::string::group_string_axioms;

/// Largest accepted embedding dimension.
pub const MAX_EMBEDDING_DIMENSIONS: usize = 8192;

/// Importance given to facts the user asks to save.
pub const FACT_IMPORTANCE: u8 = 3;

/// The sentiment labels a conversation may carry.
pub open spec fn valid_sentiments() -> Seq<Seq<char>> {
    seq!["joy"@, "sadness"@, "anger"@, "surprise"@, "fear"@, "neutral"@]
}

/// Whether `s` is one of the sentiment labels.
pub fn is_valid_sentiment(s: &str) -> (r: bool)
    ensures
        r == valid_sentiments().contains(s@),
{
    let r = str_eq(s, "joy") || str_eq(s, "sadness") || str_eq(s, "anger") || str_eq(s, "surprise")
        || str_eq(s, "fear") || str_eq(s, "neutral");
    proof {
        let v = valid_sentiments();
        if r {
            assert(v[0] == "joy"@ && v[1] == "sadness"@ && v[2] == "anger"@);
            assert(v[3] == "surprise"@ && v[4] == "fear"@ && v[5] == "neutral"@);
        } else {
            assert(!v.contains(s@)) by {
                if v.contains(s@) {
                    let k = choose|k: int| 0 <= k < v.len() && v[k] == s@;
                    assert(k == 0 || k == 1 || k == 2 || k == 3 || k == 4 || k == 5);
                }
            }
        }
    }
    r
}

/// A sentiment label: `s` if valid, `neutral` otherwise.
pub fn normalize_sentiment(s: String) -> (r: String)
    ensures
        valid_sentiments().contains(s@) ==> r@ == s@,
        !valid_sentiments().contains(s@) ==> r@ == "neutral"@,
{
    if is_valid_sentiment(s.as_str()) {
        s
    } else {
        String::from_str("neutral")
    }
}

/// An importance between 1 and 5: values below are raised to 1, above lowered to 5.
pub fn clamp_importance(x: u8) -> (r: u8)
    ensures
        r == (if x < 1 {
            1
        } else if x > 5 {
            5
        } else {
            x
        }),
{
    if x < 1 {
        1
    } else if x > 5 {
        5
    } else {
        x
    }
}

/// The result of analysing a conversation.
pub struct AnalysisResult {
    pub importance: u8,
    pub sentiment: String,
}

/// The analysis with its importance clamped to 1..=5 and an unknown
/// sentiment replaced by `neutral`.
pub fn validate_analysis(a: AnalysisResult) -> (r: AnalysisResult)
    ensures
        r.importance == (if a.importance < 1 {
            1
        } else if a.importance > 5 {
            5
        } else {
            a.importance
        }),
        valid_sentiments().contains(a.sentiment@) ==> r.sentiment@ == a.sentiment@,
        !valid_sentiments().contains(a.sentiment@) ==> r.sentiment@ == "neutral"@,
{
    AnalysisResult {
        importance: clamp_importance(a.importance),
        sentiment: normalize_sentiment(a.sentiment),
    }
}

/// Opening of the conversation analysis prompt, before the user's words.
pub const ANALYSIS_PROMPT_HEAD: &'static str = "以下の会話の重要度と感情を分析してください。\n\n会話:\nユーザー: ";

/// Between the user's words and the assistant's in the analysis prompt.
pub const ANALYSIS_PROMPT_MIDDLE: &'static str = "\nアシスタント: ";

/// Closing of the analysis prompt: the importance scale, the sentiment labels
/// and the JSON answer format.
pub const ANALYSIS_PROMPT_TAIL: &'static str = "\n\n重要度の基準:\n1 = 挨拶・雑談\n2 = 一般的な質問\n3 = 実用的な情報要求\n4 = 重要な判断・決定に関わる質問\n5 = 緊急・安全に関わる質問\n\n感情カテゴリ: joy, sadness, anger, surprise, fear, neutral\n\n以下のJSON形式のみで回答してください（他のテキストは不要）:\n{\"importance\": 数値, \"sentiment\": \"カテゴリ\"}";

/// The prompt asking the model to rate a conversation's importance (1 to 5)
/// and sentiment, answering in JSON.
pub fn analysis_prompt(user_query: &str, llm_response: &str) -> (r: String)
    ensures
        r@ == ANALYSIS_PROMPT_HEAD@ + user_query@ + ANALYSIS_PROMPT_MIDDLE@ + llm_response@
            + ANALYSIS_PROMPT_TAIL@,
{
    let mut p = String::from_str(ANALYSIS_PROMPT_HEAD);
    p.append(user_query);
    p.append(ANALYSIS_PROMPT_MIDDLE);
    p.append(llm_response);
    p.append(ANALYSIS_PROMPT_TAIL);
    p
}

/// Index of the first `c` in `s`.
pub open spec fn first_index_of(s: Seq<char>, c: char) -> Option<int> {
    if exists|i: int| 0 <= i < s.len() && s[i] == c {
        Some(choose|i: int| 0 <= i < s.len() && s[i] == c && forall|j: int| 0 <= j < i ==> s[j] != c)
    } else {
        None
    }
}

/// Index of the last `c` in `s`.
pub open spec fn last_index_of(s: Seq<char>, c: char) -> Option<int> {
    if exists|i: int| 0 <= i < s.len() && s[i] == c {
        Some(
            choose|i: int|
                0 <= i < s.len() && s[i] == c && forall|j: int| i < j < s.len() ==> s[j] != c,
        )
    } else {
        None
    }
}

/// Cutting `t` from its first `{` through its last `}` is impossible: the
/// `{` comes more than one character after the `}`.
pub open spec fn brace_span_is_reversed(t: Seq<char>) -> bool {
    match (first_index_of(t, '{'), last_index_of(t, '}')) {
        (Some(a), Some(b)) => a > b && a - b > 1,
        _ => false,
    }
}

/// The text of `t` from its first `{` through its last `}`, when it has both
/// and the span is not reversed (a `{` right after the `}` gives "").
pub open spec fn brace_candidate(t: Seq<char>) -> Option<Seq<char>> {
    match (first_index_of(t, '{'), last_index_of(t, '}')) {
        (Some(a), Some(b)) => if brace_span_is_reversed(t) {
            None
        } else {
            Some(t.subrange(a, b + 1))
        },
        _ => None,
    }
}

proof fn lemma_first_index_of(s: Seq<char>, c: char)
    ensures
        match first_index_of(s, c) {
            Some(a) => 0 <= a < s.len() && s[a] == c && forall|j: int| 0 <= j < a ==> s[j] != c,
            None => forall|j: int| 0 <= j < s.len() ==> s[j] != c,
        },
{
    if exists|i: int| 0 <= i < s.len() && s[i] == c {
        let i = choose|i: int| 0 <= i < s.len() && s[i] == c;
        lemma_first_below(s, c, i);
    }
}

proof fn lemma_first_below(s: Seq<char>, c: char, k: int)
    requires
        0 <= k < s.len(),
        s[k] == c,
    ensures
        exists|i: int| 0 <= i < s.len() && s[i] == c && forall|j: int| 0 <= j < i ==> s[j] != c,
    decreases k,
{
    if exists|j: int| 0 <= j < k && s[j] == c {
        let j = choose|j: int| 0 <= j < k && s[j] == c;
        lemma_first_below(s, c, j);
    } else {
        assert(forall|j: int| 0 <= j < k ==> s[j] != c);
    }
}

proof fn lemma_last_index_of(s: Seq<char>, c: char)
    ensures
        match last_index_of(s, c) {
            Some(b) => 0 <= b < s.len() && s[b] == c && forall|j: int| b < j < s.len() ==> s[j] != c,
            None => forall|j: int| 0 <= j < s.len() ==> s[j] != c,
        },
{
    if exists|i: int| 0 <= i < s.len() && s[i] == c {
        let i = choose|i: int| 0 <= i < s.len() && s[i] == c;
        lemma_last_above(s, c, i);
    }
}

proof fn lemma_last_above(s: Seq<char>, c: char, k: int)
    requires
        0 <= k < s.len(),
        s[k] == c,
    ensures
        exists|i: int| 0 <= i < s.len() && s[i] == c && forall|j: int| i < j < s.len() ==> s[j] != c,
    decreases s.len() - k,
{
    if exists|j: int| k < j < s.len() && s[j] == c {
        let j = choose|j: int| k < j < s.len() && s[j] == c;
        lemma_last_above(s, c, j);
    } else {
        assert(forall|j: int| k < j < s.len() ==> s[j] != c);
    }
}

/// The JSON candidate of a reply runs from its first `{` through its last
/// `}`: it starts with a `{` that no `{` of the reply precedes, ends with a
/// `}` that no `}` of the reply follows, and is the reply's text in between.
/// A reply holding a `{` before a `}` always has a non-empty candidate.
pub proof fn law_brace_candidate_spans_outer_braces(t: Seq<char>)
    ensures
        match brace_candidate(t) {
            Some(c) => c.len() > 0 ==> exists|a: int|
                0 <= a && a + c.len() <= t.len() && #[trigger] t.subrange(a, a + c.len()) == c
                    && t[a] == '{' && t[a + c.len() - 1] == '}' && (forall|j: int|
                    0 <= j < a ==> t[j] != '{') && (forall|j: int|
                    a + c.len() <= j < t.len() ==> t[j] != '}'),
            None => true,
        },
        (exists|i: int, k: int| 0 <= i < k < t.len() && t[i] == '{' && t[k] == '}') ==> (
        brace_candidate(t) matches Some(c) && c.len() > 0),
{
    lemma_first_index_of(t, '{');
    lemma_last_index_of(t, '}');
    if let (Some(a), Some(b)) = (first_index_of(t, '{'), last_index_of(t, '}')) {
        if a <= b {
            let c = t.subrange(a, b + 1);
            assert(a + c.len() == b + 1);
            assert(t.subrange(a, a + c.len()) == c);
        }
    }
    if exists|i: int, k: int| 0 <= i < k < t.len() && t[i] == '{' && t[k] == '}' {
        let (i, k) = choose|i: int, k: int| 0 <= i < k < t.len() && t[i] == '{' && t[k] == '}';
        assert(t[i] == '{');
        assert(t[k] == '}');
    }
}

/// First index of `c` in `v`.
fn find_char(v: &Vec<char>, c: char) -> (r: Option<usize>)
    ensures
        match r {
            Some(i) => first_index_of(v@, c) == Some(i as int) && i < v@.len(),
            None => first_index_of(v@, c) is None,
        },
{
    let mut i: usize = 0;
    while i < v.len()
        invariant
            i <= v.len(),
            forall|j: int| 0 <= j < i ==> v@[j] != c,
        decreases v.len() - i,
    {
        if v[i] == c {
            let ghost w = choose|k: int|
                0 <= k < v@.len() && v@[k] == c && forall|j: int| 0 <= j < k ==> v@[j] != c;
            assert(0 <= i < v@.len() && v@[i as int] == c && forall|j: int|
                0 <= j < i ==> v@[j] != c);
            proof {
                if w < i {
                    assert(v@[w] != c);
                } else if w > i {
                    assert(v@[i as int] != c);
                }
            }
            return Some(i);
        }
        i = i + 1;
    }
    None
}

/// Last index of `c` in `v`.
fn rfind_char(v: &Vec<char>, c: char) -> (r: Option<usize>)
    ensures
        match r {
            Some(i) => last_index_of(v@, c) == Some(i as int) && i < v@.len(),
            None => last_index_of(v@, c) is None,
        },
{
    let mut j: usize = v.len();
    while j > 0
        invariant
            j <= v.len(),
            forall|k: int| j <= k < v.len() ==> v@[k] != c,
        decreases j,
    {
        if v[j - 1] == c {
            let i = j - 1;
            let ghost w = choose|k: int|
                0 <= k < v@.len() && v@[k] == c && forall|m: int| k < m < v@.len() ==> v@[m] != c;
            assert(0 <= i < v@.len() && v@[i as int] == c && forall|m: int|
                i < m < v@.len() ==> v@[m] != c);
            proof {
                if w < i {
                    assert(v@[i as int] != c);
                } else if w > i {
                    assert(v@[w] != c);
                }
            }
            return Some(i);
        }
        j = j - 1;
    }
    None
}

/// The part of a model reply from its first `{` through its last `}`, where
/// a JSON object is looked for when the whole reply does not parse; `None`
/// when either brace is missing or the `{` comes after the `}`.
pub fn json_brace_candidate(t: &str) -> (r: Option<String>)
    ensures
        match r {
            Some(s) => brace_candidate(t@) == Some(s@),
            None => brace_candidate(t@) is None,
        },
{
    let v = chars_of(t);
    match (find_char(&v, '{'), rfind_char(&v, '}')) {
        (Some(a), Some(b)) => if a > b && a - b > 1 {
            None
        } else {
            Some(string_of_range(&v, a, b + 1))
        },
        _ => None,
    }
}

/// `seq![t]` when `t` is not empty, nothing otherwise.
pub open spec fn nonempty(t: Seq<char>) -> Seq<Seq<char>> {
    if t.len() > 0 {
        seq![t]
    } else {
        seq![]
    }
}

/// Index of the first blank line separator `\n\n` of `s` at or after `i`.
pub open spec fn first_blank_line(s: Seq<char>, i: int) -> Option<int>
    decreases s.len() - i,
{
    if i < 0 || i + 1 >= s.len() {
        None
    } else if s[i] == '\n' && s[i + 1] == '\n' {
        Some(i)
    } else {
        first_blank_line(s, i + 1)
    }
}

pub proof fn lemma_first_blank_line(s: Seq<char>, i: int)
    requires
        0 <= i,
    ensures
        first_blank_line(s, i) matches Some(k) ==> i <= k && k + 1 < s.len() && s[k] == '\n'
            && s[k + 1] == '\n',
    decreases s.len() - i,
{
    if i + 1 < s.len() && !(s[i] == '\n' && s[i + 1] == '\n') {
        lemma_first_blank_line(s, i + 1);
    }
}

/// The chunks of a text knowledge file: the pieces between `\n\n`
/// separators, trimmed, empty ones dropped.
pub open spec fn text_chunks(s: Seq<char>) -> Seq<Seq<char>>
    decreases s.len(),
{
    match first_blank_line(s, 0) {
        Some(i) => {
            proof {
                lemma_first_blank_line(s, 0);
            }
            nonempty(trim(s.take(i))) + text_chunks(s.skip(i + 2))
        },
        None => nonempty(trim(s)),
    }
}

proof fn lemma_no_blank_line_from(s: Seq<char>, i: int)
    requires
        0 <= i,
        forall|j: int| i <= j < s.len() - 1 ==> !(#[trigger] s[j] == '\n' && s[j + 1] == '\n'),
    ensures
        first_blank_line(s, i) is None,
    decreases s.len() - i,
{
    if i + 1 < s.len() {
        lemma_no_blank_line_from(s, i + 1);
    }
}

proof fn lemma_blank_line_at(s: Seq<char>, i: int, k: int)
    requires
        0 <= i <= k,
        k + 1 < s.len(),
        s[k] == '\n',
        s[k + 1] == '\n',
        forall|j: int| i <= j < k ==> !(#[trigger] s[j] == '\n' && s[j + 1] == '\n'),
    ensures
        first_blank_line(s, i) == Some(k),
    decreases k - i,
{
    if i < k {
        lemma_blank_line_at(s, i + 1, k);
    }
}

/// Text with no blank line (`\n\n`) in it is never cut: it gives one chunk,
/// the whole text trimmed, or none when it is only whitespace. Single line
/// breaks stay inside the chunk.
pub proof fn law_text_without_blank_line_is_one_chunk(s: Seq<char>)
    requires
        forall|i: int| 0 <= i < s.len() - 1 ==> !(#[trigger] s[i] == '\n' && s[i + 1] == '\n'),
    ensures
        text_chunks(s) == (if trim(s).len() > 0 {
            seq![trim(s)]
        } else {
            Seq::<Seq<char>>::empty()
        }),
{
    lemma_no_blank_line_from(s, 0);
}

/// A blank line cuts the text: the paragraph before it (trimmed, dropped when
/// blank) comes first, then the chunks of the text after it.
pub proof fn law_blank_line_separates_chunks(a: Seq<char>, b: Seq<char>)
    requires
        forall|i: int| 0 <= i < a.len() - 1 ==> !(#[trigger] a[i] == '\n' && a[i + 1] == '\n'),
        a.len() == 0 || a.last() != '\n',
    ensures
        text_chunks(a + seq!['\n', '\n'] + b) == (if trim(a).len() > 0 {
            seq![trim(a)]
        } else {
            Seq::<Seq<char>>::empty()
        }) + text_chunks(b),
{
    let s = a + seq!['\n', '\n'] + b;
    let n = a.len() as int;
    assert forall|j: int| 0 <= j < n implies !(#[trigger] s[j] == '\n' && s[j + 1] == '\n') by {
        if j < n - 1 {
            assert(s[j] == a[j] && s[j + 1] == a[j + 1]);
        } else {
            assert(s[j] == a.last());
        }
    }
    assert(s[n] == '\n' && s[n + 1] == '\n');
    lemma_blank_line_at(s, 0, n);
    assert(s.take(n) =~= a);
    assert(s.skip(n + 2) =~= b);
}

/// Index of the first `\n\n` in `v`.
fn find_blank_line(v: &Vec<char>) -> (r: Option<usize>)
    ensures
        match r {
            Some(i) => first_blank_line(v@, 0) == Some(i as int),
            None => first_blank_line(v@, 0) is None,
        },
{
    let mut i: usize = 0;
    while v.len() > 0 && i < v.len() - 1
        invariant
            first_blank_line(v@, 0) == first_blank_line(v@, i as int),
        decreases v.len() - i,
    {
        if v[i] == '\n' && v[i + 1] == '\n' {
            return Some(i);
        }
        i = i + 1;
    }
    None
}

/// Splits a text knowledge file into chunks at blank lines.
pub fn text_knowledge_chunks(content: &str) -> (r: Vec<String>)
    ensures
        r@.map_values(|x: String| x@) == text_chunks(content@),
{
    let mut rest = chars_of(content);
    let mut chunks: Vec<String> = Vec::new();
    loop
        invariant
            text_chunks(content@) == chunks@.map_values(|x: String| x@) + text_chunks(rest@),
        decreases rest@.len(),
    {
        let ghost prev = chunks@;
        match find_blank_line(&rest) {
            Some(i) => {
                proof {
                    lemma_first_blank_line(rest@, 0);
                }
                let ghost r0 = rest@;
                let (a, b) = trimmed_bounds(&rest, 0, i);
                if a < b {
                    chunks.push(string_of_range(&rest, a, b));
                }
                let len = rest.len();
                rest = slice_of(&rest, i + 2, len);
                proof {
                    assert(r0.subrange(0, i as int) =~= r0.take(i as int));
                    assert(r0.subrange(i + 2, len as int) =~= r0.skip(i + 2));
                    let t = trim(r0.take(i as int));
                    assert(chunks@.map_values(|x: String| x@) =~= prev.map_values(|x: String| x@)
                        + nonempty(t));
                }
            },
            None => {
                let ghost r0 = rest@;
                let (a, b) = trimmed_bounds(&rest, 0, rest.len());
                assert(r0.subrange(0, r0.len() as int) =~= r0);
                if a < b {
                    chunks.push(string_of_range(&rest, a, b));
                }
                assert(chunks@.map_values(|x: String| x@) =~= prev.map_values(|x: String| x@)
                    + nonempty(trim(r0)));
                return chunks;
            },
        }
    }
}

/// The text of one `{"title", "content"}` item of a JSON knowledge file:
/// the content, headed by the title on its own line when there is one.
pub open spec fn json_item_text(title: Seq<char>, body: Seq<char>) -> Seq<char> {
    if title.len() == 0 {
        body
    } else {
        title + "\n"@ + body
    }
}

/// The chunk of one `{"title", "content"}` item of a JSON knowledge file.
/// Items whose text is blank give none.
pub fn json_knowledge_chunk(title: &str, body: &str) -> (r: Option<String>)
    ensures
        match r {
            Some(s) => s@ == json_item_text(title@, body@) && trim(s@).len() > 0,
            None => trim(json_item_text(title@, body@)).len() == 0,
        },
{
    let c = if title.is_empty() {
        String::from_str(body)
    } else {
        let mut c = String::from_str(title);
        c.append("\n");
        c.append(body);
        c
    };
    let v = chars_of(c.as_str());
    let (a, b) = trimmed_bounds(&v, 0, v.len());
    assert(v@.subrange(0, v@.len() as int) =~= v@);
    if a < b {
        Some(c)
    } else {
        None
    }
}

/// For each item of a JSON array text, the string values of its fields
/// named `first` and `second` (`None` where a field is absent or not a
/// string); `None` when the text is not a JSON array.
pub uninterp spec fn json_array_string_fields(
    content: Seq<char>,
    first: Seq<char>,
    second: Seq<char>,
) -> Option<Seq<(Option<Seq<char>>, Option<Seq<char>>)>>;

/// The chunks of a JSON knowledge file's items, given each item's `title`
/// and `content` fields, in order, blank ones dropped. A missing or
/// non-string field counts as empty.
pub open spec fn json_chunks(items: Seq<(Option<Seq<char>>, Option<Seq<char>>)>) -> Seq<Seq<char>>
    decreases items.len(),
{
    if items.len() == 0 {
        Seq::empty()
    } else {
        let rest = json_chunks(items.drop_last());
        let c = json_item_text(or_empty(items.last().0), or_empty(items.last().1));
        if trim(c).len() > 0 {
            rest.push(c)
        } else {
            rest
        }
    }
}

/// Parses `content` with `serde_json::from_str` into a list of values and
/// reads, from each, the fields `first` and `second` by `serde_json::Value`'s
/// index and `as_str`. Claimed: the result is `json_array_string_fields` of
/// the arguments, and `None` comes exactly when that is `None`; which texts
/// the parser accepts is not stated here.
#[verifier::external_body]
fn parse_string_fields(content: &str, first: &str, second: &str) -> (r: Option<
    Vec<(Option<String>, Option<String>)>,
>)
    ensures
        match r {
            Some(v) => json_array_string_fields(content@, first@, second@) == Some(
                v@.map_values(
                    |p: (Option<String>, Option<String>)| (opt_view(p.0), opt_view(p.1)),
                ),
            ),
            None => json_array_string_fields(content@, first@, second@) is None,
        },
{
    let items: Vec<serde_json::Value> = serde_json::from_str(content).ok()?;
    let mut fields = Vec::new();
    for item in items.iter() {
        fields.push((item[first].as_str().map(String::from), item[second].as_str().map(String::from)));
    }
    Some(fields)
}

/// The chunks of a JSON knowledge file: one per item whose text is not
/// blank, in order; `None` when the file is not a JSON array.
pub fn json_knowledge_chunks(content: &str) -> (r: Option<Vec<String>>)
    ensures
        match json_array_string_fields(content@, "title"@, "content"@) {
            Some(items) => r is Some && r->0@.map_values(|x: String| x@) == json_chunks(items),
            None => r is None,
        },
{
    let items = match parse_string_fields(content, "title", "content") {
        Some(v) => v,
        None => return None,
    };
    let ghost whole = items@.map_values(
        |p: (Option<String>, Option<String>)| (opt_view(p.0), opt_view(p.1)),
    );
    let mut out: Vec<String> = Vec::new();
    let mut i: usize = 0;
    while i < items.len()
        invariant
            0 <= i <= items.len(),
            whole == items@.map_values(
                |p: (Option<String>, Option<String>)| (opt_view(p.0), opt_view(p.1)),
            ),
            out@.map_values(|x: String| x@) == json_chunks(whole.take(i as int)),
        decreases items.len() - i,
    {
        let pair = &items[i];
        let chunk = json_knowledge_chunk(str_or_empty(&pair.0), str_or_empty(&pair.1));
        proof {
            assert(whole.take(i + 1).drop_last() =~= whole.take(i as int));
            assert(whole.take(i + 1).last() == (opt_view(pair.0), opt_view(pair.1)));
        }
        match chunk {
            Some(c) => {
                out.push(c);
            },
            None => {},
        }
        i += 1;
    }
    proof {
        assert(whole.take(items.len() as int) =~= whole);
    }
    Some(out)
}

/// Formats of knowledge files.
#[derive(PartialEq, Eq, Structural, Clone, Copy, Debug)]
pub enum KnowledgeFormat {
    /// A JSON array of `{"title", "content"}` items.
    Json,
    /// Plain text, chunks separated by blank lines.
    Text,
}

/// The format of a knowledge file with extension `ext`, if it is supported.
pub fn knowledge_format(ext: &str) -> (r: Option<KnowledgeFormat>)
    ensures
        ext@ == "json"@ ==> r == Some(KnowledgeFormat::Json),
        ext@ == "txt"@ ==> r == Some(KnowledgeFormat::Text),
        ext@ != "json"@ && ext@ != "txt"@ ==> r is None,
{
    proof {
        reveal_strlit("json");
        reveal_strlit("txt");
        assert("txt"@.len() == 3);
        assert("json"@.len() == 4);
        assert("txt"@ != "json"@);
    }
    if str_eq(ext, "json") {
        Some(KnowledgeFormat::Json)
    } else if str_eq(ext, "txt") {
        Some(KnowledgeFormat::Text)
    } else {
        None
    }
}

/// `s` with every `.` replaced by `_`.
pub open spec fn dots_to_underscores(s: Seq<char>) -> Seq<char> {
    s.map_values(|c: char| if c == '.' { '_' } else { c })
}

/// Id of the `index`-th chunk of knowledge file `file_name`:
/// `know_<file name with . replaced by _>_<index>`.
pub fn knowledge_doc_id(file_name: &str, index: usize) -> (r: String)
    ensures
        r@ == "know_"@ + dots_to_underscores(file_name@) + "_"@ + decimal(index as int),
{
    let v = chars_of(file_name);
    let mut w: Vec<char> = Vec::new();
    let mut i: usize = 0;
    while i < v.len()
        invariant
            i <= v.len(),
            w@ == dots_to_underscores(v@.take(i as int)),
        decreases v.len() - i,
    {
        let c = if v[i] == '.' {
            '_'
        } else {
            v[i]
        };
        w.push(c);
        assert(dots_to_underscores(v@.take(i + 1)) =~= dots_to_underscores(v@.take(i as int)).push(
            c,
        ));
        i = i + 1;
    }
    assert(v@.take(v.len() as int) =~= v@);
    let mut id = String::from_str("know_");
    push_chars(&mut id, &w);
    id.append("_");
    push_decimal_u64(&mut id, index as u64);
    id
}

/// Id of a saved document: `<kind>_<timestamp>`.
pub fn timestamped_doc_id(kind: &str, timestamp: i64) -> (r: String)
    ensures
        r@ == kind@ + "_"@ + decimal(timestamp as int),
{
    let mut id = String::from_str(kind);
    id.append("_");
    push_decimal(&mut id, timestamp);
    id
}

/// The stored content of a conversation: `Q: <query>` and `A: <response>` lines.
pub fn conversation_content(user_query: &str, llm_response: &str) -> (r: String)
    ensures
        r@ == "Q: "@ + user_query@ + "\nA: "@ + llm_response@,
{
    let mut c = String::from_str("Q: ");
    c.append(user_query);
    c.append("\nA: ");
    c.append(llm_response);
    c
}

/// One retrieved document as shown to the model: a header with its rank
/// (from 1), score, kind, and importance and sentiment when known, then its content.
pub fn context_entry(
    index: usize,
    score_text: &str,
    doc_type: &str,
    importance: Option<u8>,
    sentiment: Option<&str>,
    content: &str,
) -> (r: String)
    requires
        index < usize::MAX,
    ensures
        r@ == "["@ + decimal(index + 1) + "] (類似度: "@ + score_text@ + ", 種別: "@ + doc_type@
            + match importance {
            Some(i) => ", 重要度: "@ + decimal(i as int),
            None => Seq::<char>::empty(),
        } + match sentiment {
            Some(s) => ", 感情: "@ + s@,
            None => Seq::<char>::empty(),
        } + ")\n"@ + content@,
{
    let mut m = String::from_str("[");
    push_decimal_u64(&mut m, (index + 1) as u64);
    m.append("] (類似度: ");
    m.append(score_text);
    m.append(", 種別: ");
    m.append(doc_type);
    let ghost head = m@;
    match importance {
        Some(i) => {
            m.append(", 重要度: ");
            push_decimal_u64(&mut m, i as u64);
        },
        None => {},
    }
    let ghost with_imp = m@;
    match sentiment {
        Some(s) => {
            m.append(", 感情: ");
            m.append(s);
        },
        None => {},
    }
    let ghost with_sent = m@;
    m.append(")\n");
    m.append(content);
    proof {
        let imp = match importance {
            Some(i) => ", 重要度: "@ + decimal(i as int),
            None => Seq::<char>::empty(),
        };
        let sen = match sentiment {
            Some(s) => ", 感情: "@ + s@,
            None => Seq::<char>::empty(),
        };
        assert(with_imp =~= head + imp);
        assert(with_sent =~= head + imp + sen);
    }
    m
}

/// The entries joined with a blank line between consecutive ones.
pub fn join_with_blank_lines(entries: &Vec<String>) -> (r: String)
    ensures
        r@ == join(entries@.map_values(|x: String| x@), "\n\n"@),
{
    let mut r = String::new();
    let ghost views = entries@.map_values(|x: String| x@);
    let mut i: usize = 0;
    while i < entries.len()
        invariant
            i <= entries.len(),
            views == entries@.map_values(|x: String| x@),
            r@ == join(views.take(i as int), "\n\n"@),
        decreases entries.len() - i,
    {
        if i > 0 {
            r.append("\n\n");
        }
        r.append(entries[i].as_str());
        assert(views.take(i + 1).drop_last() =~= views.take(i as int));
        assert(views.take(i + 1).last() == entries@[i as int]@);
        if i == 0 {
            assert(join(views.take(0), "\n\n"@) =~= Seq::<char>::empty());
            assert(r@ =~= join(views.take(1), "\n\n"@));
        }
        i = i + 1;
    }
    assert(views.take(entries.len() as int) =~= views);
    r
}

/// `source` names the file `name`.
pub open spec fn is_source(source: Option<String>, name: Seq<char>) -> bool {
    source matches Some(s) && s@ == name
}

/// Whether some document came from the knowledge file `name`, given the
/// source files of the stored documents.
pub fn has_source(sources: &Vec<Option<String>>, name: &str) -> (r: bool)
    ensures
        r == exists|i: int| 0 <= i < sources@.len() && is_source(#[trigger] sources@[i], name@),
{
    let mut i: usize = 0;
    while i < sources.len()
        invariant
            i <= sources.len(),
            forall|j: int| 0 <= j < i ==> !is_source(#[trigger] sources@[j], name@),
        decreases sources.len() - i,
    {
        match &sources[i] {
            Some(s) => {
                if str_eq(s.as_str(), name) {
                    return true;
                }
            },
            None => {},
        }
        i = i + 1;
    }
    false
}

/// Errors of the embedding dimension check.
#[derive(PartialEq, Eq, Structural, Clone, Copy, Debug)]
pub enum DimensionError {
    /// More dimensions than `MAX_EMBEDDING_DIMENSIONS`.
    TooLarge { len: usize },
    /// A dimension other than the one of the first embedding.
    Mismatch { len: usize, expected: usize },
}

/// Records the dimension of the first accepted embedding and holds every
/// later one to it.
pub struct EmbeddingDimensions {
    expected: Option<usize>,
}

impl EmbeddingDimensions {
    /// The dimension of the first accepted embedding, once there was one.
    pub closed spec fn expected(&self) -> Option<usize> {
        self.expected
    }

    /// No embedding accepted yet.
    pub fn new() -> (r: Self)
        ensures
            r.expected() is None,
    {
        EmbeddingDimensions { expected: None }
    }

    /// Checks an embedding of `len` dimensions.
    pub fn check(&mut self, len: usize) -> (r: Result<(), DimensionError>)
        ensures
            len > MAX_EMBEDDING_DIMENSIONS ==> r == Err::<(), _>(DimensionError::TooLarge { len })
                && final(self).expected() == old(self).expected(),
            len <= MAX_EMBEDDING_DIMENSIONS ==> match old(self).expected() {
                None => r is Ok && final(self).expected() == Some(len),
                Some(e) => final(self).expected() == old(self).expected() && if len == e {
                    r is Ok
                } else {
                    r == Err::<(), _>(DimensionError::Mismatch { len, expected: e })
                },
            },
    {
        if len > MAX_EMBEDDING_DIMENSIONS {
            return Err(DimensionError::TooLarge { len });
        }
        match self.expected {
            None => {
                self.expected = Some(len);
                Ok(())
            },
            Some(expected) => {
                if len != expected {
                    Err(DimensionError::Mismatch { len, expected })
                } else {
                    Ok(())
                }
            },
        }
    }
}

/// Item `i` has a key at or above `threshold`.
pub open spec fn qualifies(keys: Seq<u32>, threshold: u32, i: int) -> bool {
    0 <= i < keys.len() && keys[i] >= threshold
}

/// Item `i` comes before item `j`: a higher key, or the same key and an
/// earlier position (the order of a stable sort by descending key).
pub open spec fn ranks_before(keys: Seq<u32>, i: int, j: int) -> bool {
    keys[i] > keys[j] || (keys[i] == keys[j] && i < j)
}

/// `r` lists the first items, by descending key and then position, among
/// those with a key at or above `threshold`: all of them, or `top_k` of them.
pub open spec fn is_top_k(keys: Seq<u32>, threshold: u32, top_k: nat, r: Seq<usize>) -> bool {
    &&& r.len() <= top_k
    &&& forall|a: int| 0 <= a < r.len() ==> qualifies(keys, threshold, #[trigger] r[a] as int)
    &&& forall|a: int, b: int|
        0 <= a < b < r.len() ==> ranks_before(keys, #[trigger] r[a] as int, #[trigger] r[b] as int)
    &&& forall|i: int|
        qualifies(keys, threshold, i) && !r.contains(i as usize) ==> {
            &&& r.len() == top_k
            &&& forall|a: int| 0 <= a < r.len() ==> ranks_before(keys, #[trigger] r[a] as int, i)
        }
}

/// Positions of the items ranked by descending key, ties in position order,
/// keeping those with a key at or above `threshold`, at most `top_k` of them.
/// The keys order items as their scores do.
pub fn rank_top_k(keys: &Vec<u32>, threshold: u32, top_k: usize) -> (r: Vec<usize>)
    ensures
        is_top_k(keys@, threshold, top_k as nat, r@),
{
    let n = keys.len();
    let mut chosen: Vec<bool> = Vec::new();
    let mut k: usize = 0;
    while k < n
        invariant
            k <= n,
            chosen@.len() == k,
            forall|i: int| 0 <= i < k ==> !chosen@[i],
        decreases n - k,
    {
        chosen.push(false);
        k = k + 1;
    }
    let mut r: Vec<usize> = Vec::new();
    while r.len() < top_k
        invariant
            n == keys@.len(),
            chosen@.len() == n,
            r@.len() <= top_k,
            forall|i: int| 0 <= i < n ==> (chosen@[i] <==> r@.contains(i as usize)),
            forall|a: int| 0 <= a < r@.len() ==> qualifies(keys@, threshold, #[trigger] r@[a] as int),
            forall|a: int, b: int|
                0 <= a < b < r@.len() ==> ranks_before(
                    keys@,
                    #[trigger] r@[a] as int,
                    #[trigger] r@[b] as int,
                ),
            forall|j: int|
                qualifies(keys@, threshold, j) && !chosen@[j] ==> forall|a: int|
                    0 <= a < r@.len() ==> ranks_before(keys@, #[trigger] r@[a] as int, j),
        ensures
            n == keys@.len(),
            chosen@.len() == n,
            r@.len() <= top_k,
            forall|i: int| 0 <= i < n ==> (chosen@[i] <==> r@.contains(i as usize)),
            forall|a: int| 0 <= a < r@.len() ==> qualifies(keys@, threshold, #[trigger] r@[a] as int),
            forall|a: int, b: int|
                0 <= a < b < r@.len() ==> ranks_before(
                    keys@,
                    #[trigger] r@[a] as int,
                    #[trigger] r@[b] as int,
                ),
            forall|j: int|
                qualifies(keys@, threshold, j) && !chosen@[j] ==> forall|a: int|
                    0 <= a < r@.len() ==> ranks_before(keys@, #[trigger] r@[a] as int, j),
            r@.len() < top_k ==> forall|j: int| qualifies(keys@, threshold, j) ==> chosen@[j],
        decreases top_k - r@.len(),
    {
        let mut best: Option<usize> = None;
        let mut i: usize = 0;
        while i < n
            invariant
                n == keys@.len(),
                chosen@.len() == n,
                i <= n,
                match best {
                    Some(b) => b < i && qualifies(keys@, threshold, b as int) && !chosen@[b as int]
                        && forall|j: int|
                        0 <= j < i && qualifies(keys@, threshold, j) && !chosen@[j] && j != b
                            ==> ranks_before(keys@, b as int, j),
                    None => forall|j: int|
                        0 <= j < i ==> !(qualifies(keys@, threshold, j) && !chosen@[j]),
                },
            decreases n - i,
        {
            if keys[i] >= threshold && !chosen[i] {
                match best {
                    None => {
                        best = Some(i);
                    },
                    Some(b) => {
                        if keys[i] > keys[b] {
                            best = Some(i);
                        }
                    },
                }
            }
            i = i + 1;
        }
        match best {
            None => {
                break ;
            },
            Some(b) => {
                let ghost old_r = r@;
                let ghost old_chosen = chosen@;
                r.push(b);
                chosen.set(b, true);
                proof {
                    assert forall|x: int| 0 <= x < n implies (chosen@[x] <==> r@.contains(
                        x as usize,
                    )) by {
                        if x == b as int {
                            assert(r@[old_r.len() as int] == b);
                        } else {
                            if old_r.contains(x as usize) {
                                let a = choose|a: int| 0 <= a < old_r.len() && old_r[a] == x as usize;
                                assert(r@[a] == x as usize);
                            }
                            if r@.contains(x as usize) {
                                let a = choose|a: int| 0 <= a < r@.len() && r@[a] == x as usize;
                                assert(a < old_r.len());
                                assert(old_r[a] == x as usize);
                            }
                        }
                    }
                    assert forall|a: int, c: int| 0 <= a < c < r@.len() implies ranks_before(
                        keys@,
                        #[trigger] r@[a] as int,
                        #[trigger] r@[c] as int,
                    ) by {
                        if c == old_r.len() {
                            assert(r@[a] == old_r[a]);
                        } else {
                            assert(r@[a] == old_r[a] && r@[c] == old_r[c]);
                        }
                    }
                    assert forall|j: int|
                        qualifies(keys@, threshold, j) && !chosen@[j] implies forall|a: int|
                        0 <= a < r@.len() ==> ranks_before(keys@, #[trigger] r@[a] as int, j) by {
                        assert(j != b as int);
                        assert(!old_chosen[j]);
                        assert forall|a: int| 0 <= a < r@.len() implies ranks_before(
                            keys@,
                            #[trigger] r@[a] as int,
                            j,
                        ) by {
                            if a < old_r.len() {
                                assert(r@[a] == old_r[a]);
                            }
                        }
                    }
                }
            },
        }
    }
    proof {
        assert forall|i: int|
            qualifies(keys@, threshold, i) && !r@.contains(i as usize) implies {
            &&& r@.len() == top_k
            &&& forall|a: int| 0 <= a < r@.len() ==> ranks_before(keys@, #[trigger] r@[a] as int, i)
        } by {
            assert(!chosen@[i]);
        }
    }
    r
}

} // verus!
