//! The Whisper speech recognition models that can be downloaded, and the
//! choice among them.

use vstd::prelude::*;
use crate::text::{chars_of, str_eq, trim, trim_str};

verus! {

broadcast use vstd::string::group_string_axioms;

/// A downloadable Whisper model.
pub struct ModelInfo {
    pub file_name: &'static str,
    /// Approximate download size in MB.
    pub size_mb: u32,
    pub description: &'static str,
}

/// Number of known models.
pub const MODEL_COUNT: usize = 6;

/// Index of the model chosen when the configured one is not known.
pub const DEFAULT_MODEL_INDEX: usize = 4;

/// File names of the known models, in menu order.
pub open spec fn model_names() -> Seq<Seq<char>> {
    seq![
        "ggml-tiny.bin"@,
        "ggml-base.bin"@,
        "ggml-small.bin"@,
        "ggml-medium.bin"@,
        "ggml-large-v3-turbo.bin"@,
        "ggml-large-v3.bin"@,
    ]
}

/// Sizes of the known models in MB, in menu order.
pub open spec fn model_sizes() -> Seq<u32> {
    seq![75, 142, 466, 1500, 1600, 3100]
}

/// Descriptions of the known models, in menu order.
pub open spec fn model_descriptions() -> Seq<Seq<char>> {
    seq![
        "最小・最速（テスト用）"@,
        "軽量（低スペックPC向け）"@,
        "バランス型"@,
        "高精度"@,
        "★推奨（高精度・高速）"@,
        "最高精度（大容量）"@,
    ]
}

/// The `i`-th known model.
pub fn model_info(i: usize) -> (r: ModelInfo)
    requires
        i < MODEL_COUNT,
    ensures
        r.file_name@ == model_names()[i as int],
        r.size_mb == model_sizes()[i as int],
        r.description@ == model_descriptions()[i as int],
{
    if i == 0 {
        ModelInfo { file_name: "ggml-tiny.bin", size_mb: 75, description: "最小・最速（テスト用）" }
    } else if i == 1 {
        ModelInfo { file_name: "ggml-base.bin", size_mb: 142, description: "軽量（低スペックPC向け）" }
    } else if i == 2 {
        ModelInfo { file_name: "ggml-small.bin", size_mb: 466, description: "バランス型" }
    } else if i == 3 {
        ModelInfo { file_name: "ggml-medium.bin", size_mb: 1500, description: "高精度" }
    } else if i == 4 {
        ModelInfo {
            file_name: "ggml-large-v3-turbo.bin",
            size_mb: 1600,
            description: "★推奨（高精度・高速）",
        }
    } else {
        ModelInfo { file_name: "ggml-large-v3.bin", size_mb: 3100, description: "最高精度（大容量）" }
    }
}

/// Menu position of the model named `name`, looking from position `k` on.
pub open spec fn model_position_from(name: Seq<char>, k: nat) -> Option<nat>
    decreases MODEL_COUNT - k,
{
    if k >= MODEL_COUNT {
        None
    } else if model_names()[k as int] == name {
        Some(k)
    } else {
        model_position_from(name, k + 1)
    }
}

/// Whether `file_name` names a known model.
pub fn is_known_model(file_name: &str) -> (r: bool)
    ensures
        r == model_names().contains(file_name@),
{
    let r = model_position(file_name).is_some();
    proof {
        lemma_position_from(file_name@, 0);
    }
    r
}

/// Menu position of the model named `file_name`, if it is known.
pub fn model_position(file_name: &str) -> (r: Option<usize>)
    ensures
        match r {
            Some(i) => model_position_from(file_name@, 0) == Some(i as nat),
            None => model_position_from(file_name@, 0) is None,
        },
{
    let mut k: usize = 0;
    while k < MODEL_COUNT
        invariant
            k <= MODEL_COUNT,
            model_position_from(file_name@, 0) == model_position_from(file_name@, k as nat),
        decreases MODEL_COUNT - k,
    {
        let m = model_info(k);
        if str_eq(m.file_name, file_name) {
            return Some(k);
        }
        k = k + 1;
    }
    None
}

proof fn lemma_position_from(name: Seq<char>, k: nat)
    requires
        k <= MODEL_COUNT,
    ensures
        model_position_from(name, k) is Some <==> exists|i: int|
            k <= i < MODEL_COUNT && model_names()[i] == name,
        model_names().len() == MODEL_COUNT,
    decreases MODEL_COUNT - k,
{
    if k < MODEL_COUNT {
        lemma_position_from(name, k + 1);
    }
}

proof fn lemma_position_names(name: Seq<char>, k: nat)
    ensures
        model_position_from(name, k) matches Some(i) ==> k <= i < MODEL_COUNT && model_names()[i as int]
            == name,
    decreases MODEL_COUNT - k,
{
    if k < MODEL_COUNT {
        lemma_position_names(name, k + 1);
    }
}

/// The known models have different file names.
proof fn lemma_model_names_distinct()
    ensures
        forall|i: int, j: int|
            0 <= i < j < MODEL_COUNT ==> #[trigger] model_names()[i] != #[trigger] model_names()[j],
{
    reveal_strlit("ggml-tiny.bin");
    reveal_strlit("ggml-base.bin");
    reveal_strlit("ggml-small.bin");
    reveal_strlit("ggml-medium.bin");
    reveal_strlit("ggml-large-v3-turbo.bin");
    reveal_strlit("ggml-large-v3.bin");
    let n = model_names();
    assert(n[0].len() == 13 && n[1].len() == 13 && n[2].len() == 14);
    assert(n[3].len() == 15 && n[4].len() == 23 && n[5].len() == 17);
    assert(n[0][5] != n[1][5]);
    assert forall|i: int, j: int| 0 <= i < j < MODEL_COUNT implies #[trigger] n[i] != #[trigger] n[j] by {
        if i == 0 && j == 1 {
            assert(n[i][5] != n[j][5]);
        } else {
            assert(n[i].len() != n[j].len());
        }
    }
}

/// A menu position found for a name is the position of the model with
/// exactly that name, and each known model is found at its own position, so
/// the default offered for a configured known model is that model.
pub proof fn law_position_names_the_model(name: Seq<char>)
    ensures
        model_position_from(name, 0) matches Some(i) ==> i < MODEL_COUNT && model_names()[i as int]
            == name,
        model_position_from(name, 0) is None <==> !model_names().contains(name),
        forall|i: int|
            0 <= i < MODEL_COUNT ==> #[trigger] model_position_from(model_names()[i], 0) == Some(
                i as nat,
            ),
{
    lemma_position_names(name, 0);
    lemma_position_from(name, 0);
    lemma_model_names_distinct();
    assert forall|i: int| 0 <= i < MODEL_COUNT implies #[trigger] model_position_from(
        model_names()[i],
        0,
    ) == Some(i as nat) by {
        let m = model_names()[i];
        lemma_position_names(m, 0);
        lemma_position_from(m, 0);
        assert(model_names()[i] == m);
    }
    if model_names().contains(name) {
        let w = choose|w: int| 0 <= w < model_names().len() && model_names()[w] == name;
        assert(model_names()[w] == name);
    }
}

/// The menu position offered by default: the configured model's, or the
/// recommended large-v3-turbo when the configured one is not known.
pub fn default_model_index(configured_name: &str) -> (r: usize)
    ensures
        r == match model_position_from(configured_name@, 0) {
            Some(i) => i,
            None => DEFAULT_MODEL_INDEX as nat,
        },
{
    match model_position(configured_name) {
        Some(i) => i,
        None => DEFAULT_MODEL_INDEX,
    }
}

/// Whether `c` is an ASCII decimal digit.
pub open spec fn is_digit(c: char) -> bool {
    '0' <= c <= '9'
}

/// Value of the decimal digits `d`.
pub open spec fn digits_value(d: Seq<char>) -> nat
    decreases d.len(),
{
    if d.len() == 0 {
        0
    } else {
        digits_value(d.drop_last()) * 10 + (d.last() as nat - 48) as nat
    }
}

/// `t` without a leading `+`.
pub open spec fn unsigned_digits(t: Seq<char>) -> Seq<char> {
    if t.len() > 0 && t[0] == '+' {
        t.skip(1)
    } else {
        t
    }
}

/// The number written by `t` as an unsigned integer parser reads it: an
/// optional `+` and at least one decimal digit, nothing else.
pub open spec fn unsigned_value(t: Seq<char>) -> Option<nat> {
    let body = unsigned_digits(t);
    if body.len() > 0 && forall|i: int| 0 <= i < body.len() ==> is_digit(#[trigger] body[i]) {
        Some(digits_value(body))
    } else {
        None
    }
}

/// The menu position chosen by the answer `input`: the default for an empty
/// answer, position `n - 1` for a number `n` from 1 to the number of models,
/// nothing (ask again) for anything else.
pub fn parse_model_choice(input: &str, default_index: usize) -> (r: Option<usize>)
    ensures
        trim(input@).len() == 0 ==> r == Some(default_index),
        trim(input@).len() > 0 ==> r == match unsigned_value(trim(input@)) {
            Some(n) => if 1 <= n <= MODEL_COUNT {
                Some((n - 1) as usize)
            } else {
                None
            },
            None => None,
        },
{
    let t = trim_str(input);
    let v = chars_of(t.as_str());
    if v.len() == 0 {
        return Some(default_index);
    }
    let start: usize = if v[0] == '+' {
        1
    } else {
        0
    };
    let ghost body = unsigned_digits(v@);
    assert(body =~= v@.skip(start as int));
    if start >= v.len() {
        return None;
    }
    let mut value: u64 = 0;
    let mut big = false;
    let mut i = start;
    while i < v.len()
        invariant
            start <= i <= v.len(),
            v@ == trim(input@),
            v@.len() > 0,
            start == 1 <==> v@[0] == '+',
            start == 0 || start == 1,
            body === unsigned_digits(v@),
            body.len() == v@.len() - start,
            forall|k: int| 0 <= k < body.len() ==> body[k] == v@[k + start],
            forall|k: int| start <= k < i ==> is_digit(#[trigger] v@[k]),
            !big ==> value == digits_value(v@.subrange(start as int, i as int)),
            big ==> digits_value(v@.subrange(start as int, i as int)) > MODEL_COUNT,
            value <= MODEL_COUNT,
        decreases v.len() - i,
    {
        let c = v[i];
        if !('0' <= c && c <= '9') {
            assert(body[i - start] == c);
            assert(!is_digit(body[i - start]));
            return None;
        }
        let d = (c as u32 - 48) as u64;
        let ghost prev = v@.subrange(start as int, i as int);
        assert(v@.subrange(start as int, i + 1).drop_last() =~= prev);
        assert(digits_value(v@.subrange(start as int, i + 1)) == digits_value(prev) * 10 + d);
        if !big {
            let next = value * 10 + d;
            if next > MODEL_COUNT as u64 {
                big = true;
                value = 0;
            } else {
                value = next;
            }
        }
        i = i + 1;
    }
    assert(v@.subrange(start as int, v.len() as int) =~= body);
    if big || value < 1 {
        None
    } else {
        Some((value - 1) as usize)
    }
}

/// Largest accepted download of a model of `size_mb` MB: 120% of its size in bytes.
pub fn download_limit_bytes(size_mb: u32) -> (r: u64)
    ensures
        r == size_mb as nat * 1048576 * 12 / 10,
{
    (size_mb as u64) * 1048576 * 12 / 10
}

} // verus!
