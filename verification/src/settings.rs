//! Rewriting the speech model path in the settings file text, line by line,
//! so that other settings and comments stay as they are.

use vstd::prelude::*;
use crate::text::{
    all_white_space, chars_of, is_white_space, join, lemma_trim_start_skip, push_chars,
    slice_of, starts_with_at, trim_start,
};

verus! {

/// Index of the first newline of `s` at or after `i`.
pub open spec fn first_newline(s: Seq<char>, i: int) -> Option<int>
    decreases s.len() - i,
{
    if i < 0 || i >= s.len() {
        None
    } else if s[i] == '\n' {
        Some(i)
    } else {
        first_newline(s, i + 1)
    }
}

pub proof fn lemma_first_newline(s: Seq<char>, i: int)
    requires
        0 <= i,
    ensures
        first_newline(s, i) matches Some(k) ==> i <= k < s.len() && s[k] == '\n',
    decreases s.len() - i,
{
    if i < s.len() && s[i] != '\n' {
        lemma_first_newline(s, i + 1);
    }
}

/// `line` without one trailing carriage return.
pub open spec fn strip_cr(line: Seq<char>) -> Seq<char> {
    if line.len() > 0 && line.last() == '\r' {
        line.drop_last()
    } else {
        line
    }
}

/// The lines of `s` as `str::lines` gives them: split at each `\n`, a `\r`
/// before it dropped, no empty line after a final `\n`.
pub open spec fn lines_of(s: Seq<char>) -> Seq<Seq<char>>
    decreases s.len(),
{
    if s.len() == 0 {
        seq![]
    } else {
        match first_newline(s, 0) {
            Some(i) => {
                proof {
                    lemma_first_newline(s, 0);
                }
                seq![strip_cr(s.take(i))] + lines_of(s.skip(i + 1))
            },
            None => seq![s],
        }
    }
}

/// `[stt]`
pub open spec fn stt_header() -> Seq<char> {
    seq!['[', 's', 't', 't', ']']
}

/// `model_path`
pub open spec fn model_path_key() -> Seq<char> {
    seq!['m', 'o', 'd', 'e', 'l', '_', 'p', 'a', 't', 'h']
}

/// One line after the rewrite, and whether the `[stt]` section continues
/// after it. A line whose text (leading whitespace skipped) starts with `[`
/// opens a section; inside `[stt]`, a line starting with `model_path` and
/// holding `=` is replaced by `model_path = "<path>"` with the same indentation.
pub open spec fn rewrite_line(line: Seq<char>, in_stt: bool, path: Seq<char>) -> (Seq<char>, bool) {
    let t = trim_start(line);
    let section = if t.len() > 0 && t[0] == '[' {
        stt_header().is_prefix_of(t)
    } else {
        in_stt
    };
    if section && model_path_key().is_prefix_of(t) && t.contains('=') {
        (
            line.take(line.len() - t.len()) + model_path_key() + seq![' ', '=', ' ', '"'] + path
                + seq!['"'],
            section,
        )
    } else {
        (line, section)
    }
}

/// The lines after the rewrite, starting inside `[stt]` or not.
pub open spec fn rewrite_lines(lines: Seq<Seq<char>>, in_stt: bool, path: Seq<char>) -> Seq<
    Seq<char>,
>
    decreases lines.len(),
{
    if lines.len() == 0 {
        seq![]
    } else {
        let (l, s) = rewrite_line(lines[0], in_stt, path);
        seq![l] + rewrite_lines(lines.drop_first(), s, path)
    }
}

/// The settings text with the `[stt]` model path set to `path`: the
/// rewritten lines joined by `\n`, with a final `\n` when the text had one.
pub open spec fn with_model_path(content: Seq<char>, path: Seq<char>) -> Seq<char> {
    join(rewrite_lines(lines_of(content), false, path), seq!['\n']) + if content.len() > 0
        && content.last() == '\n' {
        seq!['\n']
    } else {
        seq![]
    }
}

/// `trim_start(s)` is `s[a..]` when `s[..a]` is whitespace and `s[a]` is not.
proof fn lemma_trim_start_is_suffix(s: Seq<char>, a: int)
    requires
        0 <= a <= s.len(),
        all_white_space(s.take(a)),
        a < s.len() ==> !is_white_space(s[a]),
    ensures
        trim_start(s) == s.skip(a),
{
    lemma_trim_start_skip(s, a);
}

/// Index of the first non-whitespace character of `v`.
fn leading_white_space(v: &Vec<char>) -> (a: usize)
    ensures
        a <= v.len(),
        trim_start(v@) == v@.skip(a as int),
{
    let mut a: usize = 0;
    while a < v.len() && crate::text::is_white_space_char(v[a])
        invariant
            a <= v.len(),
            all_white_space(v@.take(a as int)),
        decreases v.len() - a,
    {
        assert forall|k: int| 0 <= k < a + 1 implies is_white_space(#[trigger] v@.take(a + 1)[k]) by {
            if k < a {
                assert(v@.take(a + 1)[k] == v@.take(a as int)[k]);
            }
        }
        a = a + 1;
    }
    proof {
        lemma_trim_start_is_suffix(v@, a as int);
    }
    a
}

/// Whether `v[lo..]` holds `c`.
fn contains_from(v: &Vec<char>, lo: usize, c: char) -> (r: bool)
    requires
        lo <= v.len(),
    ensures
        r == v@.skip(lo as int).contains(c),
{
    let mut i = lo;
    while i < v.len()
        invariant
            lo <= i <= v.len(),
            forall|k: int| lo <= k < i ==> v@[k] != c,
        decreases v.len() - i,
    {
        if v[i] == c {
            assert(v@.skip(lo as int)[i - lo] == c);
            return true;
        }
        i = i + 1;
    }
    assert forall|k: int| 0 <= k < v@.skip(lo as int).len() implies v@.skip(lo as int)[k] != c by {
        assert(v@.skip(lo as int)[k] == v@[k + lo]);
    }
    false
}

/// One line after the rewrite, and whether the `[stt]` section continues.
fn rewrite_one_line(line: &Vec<char>, in_stt: bool, path: &Vec<char>) -> (r: (Vec<char>, bool))
    ensures
        (r.0@, r.1) == rewrite_line(line@, in_stt, path@),
{
    let a = leading_white_space(line);
    let ghost t = line@.skip(a as int);
    let header = vec!['[', 's', 't', 't', ']'];
    let key = vec!['m', 'o', 'd', 'e', 'l', '_', 'p', 'a', 't', 'h'];
    assert(header@ =~= stt_header());
    assert(key@ =~= model_path_key());
    assert(line@.subrange(a as int, line@.len() as int) =~= t);
    let section = if a < line.len() && line[a] == '[' {
        starts_with_at(line, a, &header)
    } else {
        in_stt
    };
    if section && starts_with_at(line, a, &key) && contains_from(line, a, '=') {
        let mut out = slice_of(line, 0, a);
        let tail = vec!['m', 'o', 'd', 'e', 'l', '_', 'p', 'a', 't', 'h', ' ', '=', ' ', '"'];
        let ghost indent = out@;
        let mut i: usize = 0;
        while i < tail.len()
            invariant
                i <= tail.len(),
                out@ == indent + tail@.take(i as int),
            decreases tail.len() - i,
        {
            out.push(tail[i]);
            assert(tail@.take(i + 1) =~= tail@.take(i as int).push(tail@[i as int]));
            i = i + 1;
        }
        let mut j: usize = 0;
        while j < path.len()
            invariant
                j <= path.len(),
                out@ == indent + tail@ + path@.take(j as int),
            decreases path.len() - j,
        {
            out.push(path[j]);
            assert(path@.take(j + 1) =~= path@.take(j as int).push(path@[j as int]));
            j = j + 1;
        }
        out.push('"');
        proof {
            assert(tail@.take(tail@.len() as int) =~= tail@);
            assert(path@.take(path@.len() as int) =~= path@);
            assert(line@.len() - t.len() == a);
            assert(indent =~= line@.take(a as int));
            assert(out@ =~= line@.take(line@.len() - t.len()) + model_path_key() + seq![
                ' ',
                '=',
                ' ',
                '"',
            ] + path@ + seq!['"']);
        }
        (out, section)
    } else {
        (slice_of(line, 0, line.len()), section)
    }
}

/// The settings text `content` with the `[stt]` model path set to `new_model_path`.
pub fn rewrite_model_path(content: &str, new_model_path: &str) -> (r: String)
    ensures
        r@ == with_model_path(content@, new_model_path@),
{
    let v = chars_of(content);
    let path = chars_of(new_model_path);
    let ghost all = lines_of(v@);
    // The rewritten lines are joined as they come.
    let mut out = String::new();
    let mut in_stt = false;
    let mut rest = slice_of(&v, 0, v.len());
    let mut first = true;
    let ghost mut done: Seq<Seq<char>> = seq![];
    assert(v@.subrange(0, v@.len() as int) =~= v@);
    loop
        invariant
            rewrite_lines(all, false, path@) == done + rewrite_lines(lines_of(rest@), in_stt, path@),
            all == lines_of(v@),
            out@ == join(done, seq!['\n']),
            first <==> done.len() == 0,
        ensures
            rest@.len() == 0,
            rewrite_lines(all, false, path@) == done + rewrite_lines(lines_of(rest@), in_stt, path@),
            out@ == join(done, seq!['\n']),
        decreases rest@.len(),
    {
        if rest.len() == 0 {
            break ;
        }
        let ghost r0 = rest@;
        let mut i: usize = 0;
        while i < rest.len() && rest[i] != '\n'
            invariant
                i <= rest.len(),
                rest@ == r0,
                first_newline(r0, 0) == first_newline(r0, i as int),
            decreases rest.len() - i,
        {
            i = i + 1;
        }
        proof {
            lemma_first_newline(r0, 0);
        }
        let mut end = i;
        if end > 0 && rest[end - 1] == '\r' && i < rest.len() {
            end = end - 1;
        }
        let line = slice_of(&rest, 0, end);
        proof {
            if i < rest.len() {
                if end < i {
                    assert(r0.take(i as int).drop_last() =~= r0.subrange(0, end as int));
                }
                assert(line@ =~= strip_cr(r0.take(i as int)));
            } else {
                assert(line@ =~= r0);
            }
        }
        let (new_line, next_state) = rewrite_one_line(&line, in_stt, &path);
        if !first {
            crate::text::push_char(&mut out, '\n');
        }
        push_chars(&mut out, &new_line);
        proof {
            let d2 = done.push(new_line@);
            assert(d2.drop_last() =~= done);
            if first {
                assert(out@ =~= join(d2, seq!['\n']));
            } else {
                assert(out@ =~= join(d2, seq!['\n']));
            }
            done = d2;
        }
        first = false;
        in_stt = next_state;
        let len = rest.len();
        let ghost old_rest = rest@;
        if i < len {
            rest = slice_of(&rest, i + 1, len);
            assert(rest@ =~= old_rest.skip(i + 1));
        } else {
            rest = Vec::new();
            assert(lines_of(rest@) =~= Seq::<Seq<char>>::empty());
        }
        proof {
            let ls = lines_of(old_rest);
            assert(ls.drop_first() =~= lines_of(rest@));
            assert(ls[0] == line@);
        }
    }
    assert(lines_of(rest@) =~= Seq::<Seq<char>>::empty());
    assert(done + Seq::<Seq<char>>::empty() =~= done);
    if v.len() > 0 && v[v.len() - 1] == '\n' {
        crate::text::push_char(&mut out, '\n');
    }
    out
}

/// The rewrite keeps every line in place: there are as many lines after it as
/// before, and each line is either unchanged or has become the `model_path`
/// line with the new path (keeping its indentation).
pub proof fn law_rewrite_keeps_other_lines(lines: Seq<Seq<char>>, in_stt: bool, path: Seq<char>)
    ensures
        rewrite_lines(lines, in_stt, path).len() == lines.len(),
        forall|i: int|
            0 <= i < lines.len() ==> {
                let out = #[trigger] rewrite_lines(lines, in_stt, path)[i];
                ||| out == lines[i]
                ||| exists|k: int|
                    0 <= k <= lines[i].len() && out == lines[i].take(k) + model_path_key() + seq![
                        ' ',
                        '=',
                        ' ',
                        '"',
                    ] + path + seq!['"']
            },
    decreases lines.len(),
{
    if lines.len() > 0 {
        let (l, st) = rewrite_line(lines[0], in_stt, path);
        law_rewrite_keeps_other_lines(lines.drop_first(), st, path);
        let out = rewrite_lines(lines, in_stt, path);
        assert forall|i: int| 0 <= i < lines.len() implies {
            let o = #[trigger] rewrite_lines(lines, in_stt, path)[i];
            ||| o == lines[i]
            ||| exists|k: int|
                0 <= k <= lines[i].len() && o == lines[i].take(k) + model_path_key() + seq![
                    ' ',
                    '=',
                    ' ',
                    '"',
                ] + path + seq!['"']
        } by {
            if i == 0 {
                let t = trim_start(lines[0]);
                crate::text::lemma_trim_edges(lines[0]);
                lemma_trim_start_len(lines[0]);
                if l != lines[0] {
                    let k = lines[0].len() - t.len();
                    assert(l == lines[0].take(k) + model_path_key() + seq![' ', '=', ' ', '"'] + path
                        + seq!['"']);
                }
            } else {
                assert(out[i] == rewrite_lines(lines.drop_first(), st, path)[i - 1]);
                assert(lines[i] == lines.drop_first()[i - 1]);
            }
        }
    }
}

proof fn lemma_trim_start_len(s: Seq<char>)
    ensures
        trim_start(s).len() <= s.len(),
    decreases s.len(),
{
    if s.len() > 0 && is_white_space(s[0]) {
        lemma_trim_start_len(s.drop_first());
    }
}

} // verus!
