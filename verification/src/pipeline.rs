//! Decisions of the command pipeline around the outside services: the
//! prompt sent to the model, the fixed replies, and when a recording or a
//! transcript is usable.

use vstd::prelude::*;
use crate::text::{trim, trim_str};

verus! {

/// The prompt for `question`, with retrieved `context` placed before it when
/// there is any.
pub fn prompt_with_context(question: &str, context: &str) -> (r: String)
    ensures
        context@.len() == 0 ==> r@ == question@,
        context@.len() > 0 ==> r@ == "以下の参考情報を踏まえて回答してください:\n\n"@ + context@
            + "\n\n質問: "@ + question@,
{
    if context.is_empty() {
        String::from_str(question)
    } else {
        let mut p = String::from_str("以下の参考情報を踏まえて回答してください:\n\n");
        p.append(context);
        p.append("\n\n質問: ");
        p.append(question);
        p
    }
}

/// The reply to a request to save a fact: spoken replies have no final 。,
/// written ones do.
pub fn fact_reply(memory_enabled: bool, spoken: bool) -> (r: &'static str)
    ensures
        memory_enabled && spoken ==> r@ == "覚えました"@,
        !memory_enabled && spoken ==> r@ == "記憶機能が無効です"@,
        memory_enabled && !spoken ==> r@ == "覚えました。"@,
        !memory_enabled && !spoken ==> r@ == "記憶機能は無効です。"@,
{
    if spoken {
        if memory_enabled {
            "覚えました"
        } else {
            "記憶機能が無効です"
        }
    } else {
        if memory_enabled {
            "覚えました。"
        } else {
            "記憶機能は無効です。"
        }
    }
}

/// The text of a transcript or request, trimmed, unless that is empty.
pub fn command_text(raw: &str) -> (r: Option<String>)
    ensures
        match r {
            Some(s) => s@ == trim(raw@) && s@.len() > 0,
            None => trim(raw@).len() == 0,
        },
{
    let t = trim_str(raw);
    if t.as_str().is_empty() {
        None
    } else {
        Some(t)
    }
}

/// Whether a recording of `len` samples at `sample_rate` is long enough to
/// transcribe: at least half a second.
pub fn has_enough_audio(len: usize, sample_rate: u32) -> (r: bool)
    ensures
        r == (len >= sample_rate / 2),
{
    len >= (sample_rate / 2) as usize
}

} // verus!
