//! Character-level text helpers shared by the library: Unicode whitespace,
//! trimming, prefix tests and conversions between `str`/`String` and `Vec<char>`.

use vstd::prelude::*;

verus! {

broadcast use vstd::string::group_string_axioms;

/// The Unicode `White_Space` property, which `char::is_whitespace` and
/// `str::trim` are documented to use.
pub open spec fn is_white_space(c: char) -> bool {
    ||| ('\u{9}' <= c && c <= '\u{d}')
    ||| c == ' '
    ||| c == '\u{85}'
    ||| c == '\u{a0}'
    ||| c == '\u{1680}'
    ||| ('\u{2000}' <= c && c <= '\u{200a}')
    ||| c == '\u{2028}'
    ||| c == '\u{2029}'
    ||| c == '\u{202f}'
    ||| c == '\u{205f}'
    ||| c == '\u{3000}'
}

/// Decides the Unicode `White_Space` property.
pub fn is_white_space_char(c: char) -> (b: bool)
    ensures
        b == is_white_space(c),
{
    ('\u{9}' <= c && c <= '\u{d}') || c == ' ' || c == '\u{85}' || c == '\u{a0}' || c
        == '\u{1680}' || ('\u{2000}' <= c && c <= '\u{200a}') || c == '\u{2028}' || c
        == '\u{2029}' || c == '\u{202f}' || c == '\u{205f}' || c == '\u{3000}'
}

/// The characters of `s`, in order.
pub fn chars_of(s: &str) -> (v: Vec<char>)
    ensures
        v@ == s@,
{
    let mut v: Vec<char> = Vec::new();
    for c in it: s.chars()
        invariant
            v@ == it.seq().take(it.index() as int),
            it.seq() == s@,
    {
        v.push(c);
    }
    v
}


/// Appends one character to a `String` (std `String::push`).
/// Trusted: the string afterwards is the old one followed by `c`.
#[verifier::external_body]
fn string_push(s: &mut String, c: char)
    ensures
        final(s)@ == old(s)@.push(c),
{
    s.push(c);
}

/// A `String` holding the characters `v[lo..hi]`.
pub fn string_of_range(v: &Vec<char>, lo: usize, hi: usize) -> (s: String)
    requires
        lo <= hi <= v.len(),
    ensures
        s@ == v@.subrange(lo as int, hi as int),
{
    let mut s = String::new();
    let mut i = lo;
    while i < hi
        invariant
            lo <= i <= hi <= v.len(),
            s@ == v@.subrange(lo as int, i as int),
        decreases hi - i,
    {
        string_push(&mut s, v[i]);
        assert(v@.subrange(lo as int, i + 1) =~= v@.subrange(lo as int, i as int).push(v@[i as int]));
        i = i + 1;
    }
    s
}

/// A `String` holding the characters of `v`.
pub fn string_of(v: &Vec<char>) -> (s: String)
    ensures
        s@ == v@,
{
    let s = string_of_range(v, 0, v.len());
    assert(v@.subrange(0, v@.len() as int) =~= v@);
    s
}

/// `s` with leading whitespace removed.
pub open spec fn trim_start(s: Seq<char>) -> Seq<char>
    decreases s.len(),
{
    if s.len() > 0 && is_white_space(s[0]) {
        trim_start(s.drop_first())
    } else {
        s
    }
}

/// `s` with trailing whitespace removed.
pub open spec fn trim_end(s: Seq<char>) -> Seq<char>
    decreases s.len(),
{
    if s.len() > 0 && is_white_space(s.last()) {
        trim_end(s.drop_last())
    } else {
        s
    }
}

/// The text held, or the empty text when there is none.
pub open spec fn or_empty(o: Option<Seq<char>>) -> Seq<char> {
    match o {
        Some(s) => s,
        None => Seq::empty(),
    }
}

/// The view of an optional string.
pub open spec fn opt_view(o: Option<String>) -> Option<Seq<char>> {
    match o {
        Some(s) => Some(s@),
        None => None,
    }
}

/// The text of an optional string, or `""` when there is none.
pub fn str_or_empty(o: &Option<String>) -> (r: &str)
    ensures
        r@ == or_empty(opt_view(*o)),
{
    match o {
        Some(s) => s.as_str(),
        None => {
            proof {
                reveal_strlit("");
            }
            ""
        },
    }
}

/// `s` with leading and trailing whitespace removed, as `str::trim` does.
pub open spec fn trim(s: Seq<char>) -> Seq<char> {
    trim_end(trim_start(s))
}

/// Every character of `s` is whitespace.
pub open spec fn all_white_space(s: Seq<char>) -> bool {
    forall|k: int| 0 <= k < s.len() ==> is_white_space(#[trigger] s[k])
}

/// If `s[..i]` is all whitespace, trimming the start of `s` is trimming the start of `s[i..]`.
pub proof fn lemma_trim_start_skip(s: Seq<char>, i: int)
    requires
        0 <= i <= s.len(),
        all_white_space(s.take(i)),
    ensures
        trim_start(s) == trim_start(s.skip(i)),
    decreases i,
{
    if i > 0 {
        assert(is_white_space(s.take(i)[0]));
        assert(s.drop_first().take(i - 1) =~= s.take(i).drop_first());
        assert(all_white_space(s.drop_first().take(i - 1))) by {
            assert forall|k: int| 0 <= k < i - 1 implies is_white_space(
                #[trigger] s.drop_first().take(i - 1)[k],
            ) by {
                assert(s.drop_first().take(i - 1)[k] == s.take(i)[k + 1]);
            }
        }
        lemma_trim_start_skip(s.drop_first(), i - 1);
        assert(s.drop_first().skip(i - 1) =~= s.skip(i));
    } else {
        assert(s.skip(0) =~= s);
    }
}

/// If `s[j..]` is all whitespace, trimming the end of `s` is trimming the end of `s[..j]`.
pub proof fn lemma_trim_end_take(s: Seq<char>, j: int)
    requires
        0 <= j <= s.len(),
        all_white_space(s.skip(j)),
    ensures
        trim_end(s) == trim_end(s.take(j)),
    decreases s.len() - j,
{
    if j < s.len() {
        assert(is_white_space(s.skip(j)[s.len() - 1 - j]));
        assert(s.drop_last().skip(j) =~= s.skip(j).drop_last());
        assert(all_white_space(s.drop_last().skip(j))) by {
            assert forall|k: int| 0 <= k < s.len() - 1 - j implies is_white_space(
                #[trigger] s.drop_last().skip(j)[k],
            ) by {
                assert(s.drop_last().skip(j)[k] == s.skip(j)[k]);
            }
        }
        lemma_trim_end_take(s.drop_last(), j);
        assert(s.drop_last().take(j) =~= s.take(j));
    } else {
        assert(s.take(j) =~= s);
    }
}

/// Index of the first non-whitespace character of `v[lo..hi]` (or `hi`).
fn skip_white_space_forward(v: &Vec<char>, lo: usize, hi: usize) -> (i: usize)
    requires
        lo <= hi <= v.len(),
    ensures
        lo <= i <= hi,
        all_white_space(v@.subrange(lo as int, i as int)),
        i < hi ==> !is_white_space(v@[i as int]),
{
    let mut i = lo;
    while i < hi && is_white_space_char(v[i])
        invariant
            lo <= i <= hi <= v.len(),
            all_white_space(v@.subrange(lo as int, i as int)),
        decreases hi - i,
    {
        assert forall|k: int| 0 <= k < i + 1 - lo implies is_white_space(
            #[trigger] v@.subrange(lo as int, i + 1)[k],
        ) by {
            if k < i - lo {
                assert(v@.subrange(lo as int, i + 1)[k] == v@.subrange(lo as int, i as int)[k]);
            }
        }
        i = i + 1;
    }
    i
}

/// One past the last non-whitespace character of `v[lo..hi]` (or `lo`).
fn skip_white_space_backward(v: &Vec<char>, lo: usize, hi: usize) -> (j: usize)
    requires
        lo <= hi <= v.len(),
    ensures
        lo <= j <= hi,
        all_white_space(v@.subrange(j as int, hi as int)),
        j > lo ==> !is_white_space(v@[j - 1]),
{
    let mut j = hi;
    while j > lo && is_white_space_char(v[j - 1])
        invariant
            lo <= j <= hi <= v.len(),
            all_white_space(v@.subrange(j as int, hi as int)),
        decreases j - lo,
    {
        assert forall|k: int| 0 <= k < hi - (j - 1) implies is_white_space(
            #[trigger] v@.subrange(j - 1, hi as int)[k],
        ) by {
            if k > 0 {
                assert(v@.subrange(j - 1, hi as int)[k] == v@.subrange(j as int, hi as int)[k - 1]);
            }
        }
        j = j - 1;
    }
    j
}

/// The characters `v[lo..hi]` with surrounding whitespace removed, as a `String`.
pub fn trimmed_string(v: &Vec<char>, lo: usize, hi: usize) -> (s: String)
    requires
        lo <= hi <= v.len(),
    ensures
        s@ == trim(v@.subrange(lo as int, hi as int)),
{
    let (a, b) = trimmed_bounds(v, lo, hi);
    string_of_range(v, a, b)
}

/// Bounds `(a, b)` with `v[a..b] == trim(v[lo..hi])`.
pub fn trimmed_bounds(v: &Vec<char>, lo: usize, hi: usize) -> (r: (usize, usize))
    requires
        lo <= hi <= v.len(),
    ensures
        lo <= r.0 <= r.1 <= hi,
        v@.subrange(r.0 as int, r.1 as int) == trim(v@.subrange(lo as int, hi as int)),
{
    let ghost s = v@.subrange(lo as int, hi as int);
    let a = skip_white_space_forward(v, lo, hi);
    proof {
        assert(s.take(a - lo) =~= v@.subrange(lo as int, a as int));
        lemma_trim_start_skip(s, a - lo);
        assert(s.skip(a - lo) =~= v@.subrange(a as int, hi as int));
    }
    let ghost t = v@.subrange(a as int, hi as int);
    if a == hi {
        assert(t.len() == 0);
        assert(trim_end(t) == t);
        return (a, a);
    }
    assert(!is_white_space(t[0]));
    assert(trim_start(t) == t);
    let b = skip_white_space_backward(v, a, hi);
    proof {
        assert(t.skip(b - a) =~= v@.subrange(b as int, hi as int));
        lemma_trim_end_take(t, b - a);
        assert(t.take(b - a) =~= v@.subrange(a as int, b as int));
        let u = v@.subrange(a as int, b as int);
        assert(u.len() > 0 ==> u.last() == v@[b - 1]);
    }
    (a, b)
}

/// A copy of `v[lo..hi]`.
pub fn slice_of(v: &Vec<char>, lo: usize, hi: usize) -> (r: Vec<char>)
    requires
        lo <= hi <= v.len(),
    ensures
        r@ == v@.subrange(lo as int, hi as int),
{
    let mut r: Vec<char> = Vec::new();
    let mut i = lo;
    while i < hi
        invariant
            lo <= i <= hi <= v.len(),
            r@ == v@.subrange(lo as int, i as int),
        decreases hi - i,
    {
        r.push(v[i]);
        assert(v@.subrange(lo as int, i + 1) =~= v@.subrange(lo as int, i as int).push(v@[i as int]));
        i = i + 1;
    }
    r
}

/// The character of decimal digit `d`.
pub open spec fn digit_char(d: nat) -> char {
    (48 + d) as char
}

/// Decimal digits of `n`, most significant first, without leading zeros.
pub open spec fn decimal_digits(n: nat) -> Seq<char>
    decreases n,
{
    if n < 10 {
        seq![digit_char(n)]
    } else {
        decimal_digits(n / 10).push(digit_char(n % 10))
    }
}

/// Decimal text of `n`, as `Display` writes integers: a `-` before negatives.
pub open spec fn decimal(n: int) -> Seq<char> {
    if n < 0 {
        seq!['-'] + decimal_digits((-n) as nat)
    } else {
        decimal_digits(n as nat)
    }
}

/// Decimal digits of `m`.
fn digits_of(m: u64) -> (v: Vec<char>)
    ensures
        v@ == decimal_digits(m as nat),
{
    let mut acc: Vec<char> = Vec::new();
    let mut q = m;
    while q >= 10
        invariant
            decimal_digits(m as nat) == decimal_digits(q as nat) + acc@,
        decreases q,
    {
        let d = (q % 10) as u8;
        let c = (48u8 + d) as char;
        assert(c == digit_char((q % 10) as nat));
        let ghost old_acc = acc@;
        acc.insert(0, c);
        assert(decimal_digits(q as nat) == decimal_digits((q / 10) as nat).push(c));
        assert(decimal_digits((q / 10) as nat).push(c) + old_acc =~= decimal_digits(
            (q / 10) as nat,
        ) + acc@);
        q = q / 10;
    }
    let c = (48u8 + q as u8) as char;
    assert(c == digit_char(q as nat));
    acc.insert(0, c);
    assert(decimal_digits(q as nat) =~= seq![c]);
    assert(seq![c] + (decimal_digits(m as nat).skip(1)) =~= acc@);
    acc
}

/// Appends the characters of `v` to `s`.
pub fn push_chars(s: &mut String, v: &Vec<char>)
    ensures
        final(s)@ == old(s)@ + v@,
{
    let mut i: usize = 0;
    while i < v.len()
        invariant
            i <= v.len(),
            s@ == old(s)@ + v@.take(i as int),
        decreases v.len() - i,
    {
        string_push(s, v[i]);
        assert(v@.take(i + 1) =~= v@.take(i as int).push(v@[i as int]));
        i = i + 1;
    }
    assert(v@.take(v.len() as int) =~= v@);
}

/// Appends the decimal text of `n` to `s`.
pub fn push_decimal(s: &mut String, n: i64)
    ensures
        final(s)@ == old(s)@ + decimal(n as int),
{
    if n < 0 {
        string_push(s, '-');
        let m: u64 = (-(n + 1)) as u64 + 1;
        let d = digits_of(m);
        push_chars(s, &d);
        assert(old(s)@.push('-') + d@ =~= old(s)@ + (seq!['-'] + d@));
    } else {
        let d = digits_of(n as u64);
        push_chars(s, &d);
    }
}

/// Appends the decimal text of `n` to `s`.
pub fn push_decimal_u64(s: &mut String, n: u64)
    ensures
        final(s)@ == old(s)@ + decimal(n as int),
{
    let d = digits_of(n);
    push_chars(s, &d);
}

/// `s` with surrounding whitespace removed, as `str::trim` does.
pub fn trim_str(s: &str) -> (r: String)
    ensures
        r@ == trim(s@),
{
    let v = chars_of(s);
    let r = trimmed_string(&v, 0, v.len());
    assert(v@.subrange(0, v@.len() as int) =~= v@);
    r
}

/// Whether `a` and `b` hold the same characters.
pub fn same_chars(a: &Vec<char>, b: &Vec<char>) -> (r: bool)
    ensures
        r == (a@ == b@),
{
    if a.len() != b.len() {
        return false;
    }
    let mut i: usize = 0;
    while i < a.len()
        invariant
            a.len() == b.len(),
            i <= a.len(),
            forall|k: int| 0 <= k < i ==> a@[k] == b@[k],
        decreases a.len() - i,
    {
        if a[i] != b[i] {
            return false;
        }
        i = i + 1;
    }
    assert(a@ =~= b@);
    true
}

/// Whether `a` and `b` are the same text.
pub fn str_eq(a: &str, b: &str) -> (r: bool)
    ensures
        r == (a@ == b@),
{
    let va = chars_of(a);
    let vb = chars_of(b);
    same_chars(&va, &vb)
}

/// Whether `v[lo..]` starts with `p`.
pub fn starts_with_at(v: &Vec<char>, lo: usize, p: &Vec<char>) -> (b: bool)
    requires
        lo <= v.len(),
    ensures
        b == p@.is_prefix_of(v@.subrange(lo as int, v.len() as int)),
{
    if v.len() - lo < p.len() {
        return false;
    }
    let mut i: usize = 0;
    while i < p.len()
        invariant
            lo + p.len() <= v.len(),
            i <= p.len(),
            forall|k: int| 0 <= k < i ==> p@[k] == v@[lo + k],
        decreases p.len() - i,
    {
        if p[i] != v[lo + i] {
            assert(v@.subrange(lo as int, v.len() as int)[i as int] == v@[lo + i]);
            return false;
        }
        i = i + 1;
    }
    assert forall|k: int| 0 <= k < p@.len() implies p@[k] == v@.subrange(lo as int, v.len() as int)[k] by {
        assert(v@.subrange(lo as int, v.len() as int)[k] == v@[lo + k]);
    }
    true
}

/// `parts` joined with `sep` between consecutive parts.
pub open spec fn join(parts: Seq<Seq<char>>, sep: Seq<char>) -> Seq<char>
    decreases parts.len(),
{
    if parts.len() == 0 {
        seq![]
    } else if parts.len() == 1 {
        parts[0]
    } else {
        join(parts.drop_last(), sep) + sep + parts.last()
    }
}

/// Appends one character to a `String`.
pub fn push_char(s: &mut String, c: char)
    ensures
        final(s)@ == old(s)@.push(c),
{
    string_push(s, c);
}

/// Trimming leaves text that is empty or starts and ends with non-whitespace.
pub proof fn lemma_trim_edges(s: Seq<char>)
    ensures
        trim(s).len() > 0 ==> !is_white_space(trim(s)[0]) && !is_white_space(trim(s).last()),
        trim(s).len() <= s.len(),
{
    lemma_trim_start_edge(s);
    lemma_trim_end_edge(trim_start(s));
}

proof fn lemma_trim_start_edge(s: Seq<char>)
    ensures
        trim_start(s).len() > 0 ==> !is_white_space(trim_start(s)[0]),
        trim_start(s).len() <= s.len(),
    decreases s.len(),
{
    if s.len() > 0 && is_white_space(s[0]) {
        lemma_trim_start_edge(s.drop_first());
    }
}

proof fn lemma_trim_end_edge(s: Seq<char>)
    ensures
        trim_end(s).len() > 0 ==> !is_white_space(trim_end(s).last()) && trim_end(s)[0] == s[0],
        trim_end(s).len() <= s.len(),
    decreases s.len(),
{
    if s.len() > 0 && is_white_space(s.last()) {
        lemma_trim_end_edge(s.drop_last());
    }
}

/// Trimming twice is trimming once.
pub proof fn lemma_trim_idempotent(s: Seq<char>)
    ensures
        trim(trim(s)) == trim(s),
{
    lemma_trim_edges(s);
    let u = trim(s);
    if u.len() > 0 {
        assert(trim_start(u) == u);
        assert(trim_end(u) == u);
    } else {
        assert(trim_start(u) == u);
        assert(trim_end(u) == u);
    }
}

} // verus!
