use smart_speaker::sentence_splitter::SentenceSplitter;

#[test]
fn test_simple_sentence() {
    let mut splitter = SentenceSplitter::new();
    let result = splitter.push("こんにちは。");
    assert_eq!(result, vec!["こんにちは。"]);
}

#[test]
fn test_multiple_sentences() {
    let mut splitter = SentenceSplitter::new();
    let result = splitter.push("今日は良い天気です。明日も晴れるでしょう。");
    assert_eq!(result, vec!["今日は良い天気です。", "明日も晴れるでしょう。"]);
}

#[test]
fn test_incremental_tokens() {
    let mut splitter = SentenceSplitter::new();
    assert!(splitter.push("こんに").is_empty());
    assert!(splitter.push("ちは").is_empty());
    let result = splitter.push("。");
    assert_eq!(result, vec!["こんにちは。"]);
}

#[test]
fn test_closing_brackets_included() {
    let mut splitter = SentenceSplitter::new();
    let result = splitter.push("「こんにちは。」次の文。");
    assert_eq!(result, vec!["「こんにちは。」", "次の文。"]);
}

#[test]
fn test_exclamation_and_question() {
    let mut splitter = SentenceSplitter::new();
    let result = splitter.push("本当ですか？はい！");
    assert_eq!(result, vec!["本当ですか？", "はい！"]);
}

#[test]
fn test_newline_split() {
    let mut splitter = SentenceSplitter::new();
    let result = splitter.push("一行目\n二行目。");
    assert_eq!(result, vec!["一行目", "二行目。"]);
}

#[test]
fn test_flush_remaining() {
    let mut splitter = SentenceSplitter::new();
    splitter.push("残りのテキスト");
    let flushed = splitter.flush();
    assert_eq!(flushed, Some("残りのテキスト".to_string()));
}

#[test]
fn test_flush_empty() {
    let mut splitter = SentenceSplitter::new();
    let flushed = splitter.flush();
    assert_eq!(flushed, None);
}

#[test]
fn test_force_split_on_comma() {
    let mut splitter = SentenceSplitter::new();
    // 200文字超えの長いテキスト（句点なし、読点あり）
    let long_text = "あ".repeat(100) + "、" + &"い".repeat(110);
    let result = splitter.push(&long_text);
    assert_eq!(result.len(), 1);
    assert!(result[0].ends_with('、'));
}

#[test]
fn test_nested_brackets() {
    let mut splitter = SentenceSplitter::new();
    let result = splitter.push("『すごい！』と言った。");
    assert_eq!(result, vec!["『すごい！』", "と言った。"]);
}

#[test]
fn test_half_width_punctuation() {
    let mut splitter = SentenceSplitter::new();
    let result = splitter.push("Really? Yes!");
    assert_eq!(result, vec!["Really?", "Yes!"]);
}

#[test]
fn splitting_keeps_all_text_but_edge_whitespace() {
    let mut splitter = SentenceSplitter::new();
    let mut out = splitter.push(" 一つ目。 二つ目！\n三つ目」");
    out.extend(splitter.push("四つ目？） 残り"));
    assert_eq!(out, vec!["一つ目。", "二つ目！", "三つ目」四つ目？）"]);
    for s in &out {
        assert!(!s.is_empty());
        assert_eq!(s.trim(), s);
    }
    assert_eq!(splitter.flush(), Some("残り".to_string()));
    assert_eq!(splitter.flush(), None);
}

#[test]
fn overlong_buffer_without_split_char_is_emitted_whole() {
    let mut splitter = SentenceSplitter::new();
    let text = "あ".repeat(201);
    let result = splitter.push(&text);
    assert_eq!(result, vec![text.clone()]);
    assert_eq!(splitter.flush(), None);
}

#[test]
fn remainder_after_forced_split_may_stay_long() {
    let mut splitter = SentenceSplitter::new();
    let text = "、".to_string() + &"い".repeat(210);
    let result = splitter.push(&text);
    assert_eq!(result, vec!["、"]);
    assert_eq!(splitter.flush(), Some("い".repeat(210)));
}

#[test]
fn pushes_and_flush_keep_all_text_but_whitespace() {
    let tokens = [
        "  今日は", "いい天気ですね。", "散歩に", "行きましょう！ ", "「はい」", "と言った。\n",
        "長い", "文、", "続く",
    ];
    let mut s = SentenceSplitter::new();
    let mut out = String::new();
    for t in tokens.iter() {
        for sentence in s.push(t) {
            out.push_str(&sentence);
        }
    }
    out.push_str(&s.flush().unwrap_or_default());
    let strip = |x: &str| x.chars().filter(|c| !c.is_whitespace()).collect::<String>();
    assert_eq!(strip(&out), strip(&tokens.concat()));
}
