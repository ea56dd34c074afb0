use smart_speaker::llm::{LlmError, ResponseAccumulator, MAX_RESPONSE_LENGTH};
use smart_speaker::pipeline::{command_text, fact_reply, has_enough_audio, prompt_with_context};
use smart_speaker::playback::PlaybackError;

#[test]
fn prompt_includes_context_only_when_present() {
    assert_eq!(prompt_with_context("質問です", ""), "質問です");
    assert_eq!(
        prompt_with_context("パンの焼き方は？", "[1] 情報"),
        "以下の参考情報を踏まえて回答してください:\n\n[1] 情報\n\n質問: パンの焼き方は？"
    );
}

#[test]
fn fact_replies() {
    assert_eq!(fact_reply(true, true), "覚えました");
    assert_eq!(fact_reply(false, true), "記憶機能が無効です");
    assert_eq!(fact_reply(true, false), "覚えました。");
    assert_eq!(fact_reply(false, false), "記憶機能は無効です。");
}

#[test]
fn command_text_is_trimmed() {
    assert_eq!(command_text("  こんにちは \n"), Some("こんにちは".to_string()));
    assert_eq!(command_text(" \u{3000} "), None);
    assert_eq!(command_text(""), None);
}

#[test]
fn half_a_second_of_audio_is_needed() {
    assert!(!has_enough_audio(7999, 16000));
    assert!(has_enough_audio(8000, 16000));
    assert!(has_enough_audio(0, 1));
}

#[test]
fn accumulator_splits_streamed_chunks() {
    let mut acc = ResponseAccumulator::new();
    let s1 = acc.on_chunk("こんにちは。今日", false);
    assert_eq!(s1.sentences, vec!["こんにちは。"]);
    assert!(!s1.stop);
    let s2 = acc.on_chunk("は晴れ", true);
    assert!(s2.sentences.is_empty());
    assert!(s2.stop);
    assert_eq!(acc.finish(), Some("今日は晴れ".to_string()));
    assert_eq!(acc.finish(), None);
    assert_eq!(acc.response_text(), "こんにちは。今日は晴れ");
}

#[test]
fn accumulator_stops_at_the_size_limit() {
    let mut acc = ResponseAccumulator::new();
    let big = "a".repeat(MAX_RESPONSE_LENGTH);
    let s1 = acc.on_chunk(&big, false);
    assert!(!s1.stop);
    let s2 = acc.on_chunk("b。", false);
    assert!(s2.stop);
    assert!(s2.sentences.is_empty());
    assert_eq!(acc.response_text(), big);
}

#[test]
fn accumulator_limit_counts_characters() {
    let mut acc = ResponseAccumulator::new();
    let wide = "あ".repeat(MAX_RESPONSE_LENGTH);
    let s1 = acc.on_chunk(&wide, true);
    assert!(s1.stop);
    assert_eq!(acc.response_text().chars().count(), MAX_RESPONSE_LENGTH);
}

#[test]
fn accumulator_drops_an_oversized_first_chunk() {
    let mut acc = ResponseAccumulator::new();
    let big = "a".repeat(MAX_RESPONSE_LENGTH + 1);
    let s1 = acc.on_chunk(&big, false);
    assert!(s1.stop);
    assert!(s1.sentences.is_empty());
    assert_eq!(acc.response_text(), "");
    assert_eq!(acc.finish(), None);
}

#[test]
fn error_messages() {
    assert_eq!(LlmError::ConnectionError("e".to_string()).message(), "Ollama APIへの接続に失敗: e");
    assert_eq!(PlaybackError::DeviceError("d".to_string()).message(), "出力デバイスの初期化に失敗: d");
    assert_eq!(PlaybackError::PlayError("p".to_string()).message(), "再生中にエラーが発生: p");
}
