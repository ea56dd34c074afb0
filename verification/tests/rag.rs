use smart_speaker::rag::{
    clamp_importance, context_entry, conversation_content, has_source,
    is_valid_sentiment, join_with_blank_lines, json_brace_candidate, json_knowledge_chunk, json_knowledge_chunks,
    knowledge_doc_id, knowledge_format, normalize_sentiment, rank_top_k, text_knowledge_chunks,
    timestamped_doc_id, validate_analysis, AnalysisResult, DimensionError, EmbeddingDimensions,
    KnowledgeFormat,
};

#[test]
fn test_importance_clamp() {
    // 0以下は1にクランプ、6以上は5にクランプ
    assert_eq!(clamp_importance(0), 1);
    assert_eq!(clamp_importance(6), 5);
    assert_eq!(clamp_importance(3), 3);
}

#[test]
fn test_valid_sentiments() {
    assert!(is_valid_sentiment("joy"));
    assert!(is_valid_sentiment("neutral"));
    assert!(!is_valid_sentiment("happy"));
    assert!(!is_valid_sentiment("unknown"));
}

#[test]
fn test_sentiment_fallback() {
    let invalid = "happy";
    let result = normalize_sentiment(invalid.to_string());
    assert_eq!(result, "neutral");
}

#[test]
fn valid_sentiment_is_kept() {
    assert_eq!(normalize_sentiment("surprise".to_string()), "surprise");
    for s in ["joy", "sadness", "anger", "surprise", "fear", "neutral"] {
        assert!(is_valid_sentiment(s));
    }
    assert!(!is_valid_sentiment("Joy"));
    assert!(!is_valid_sentiment(""));
}

#[test]
fn analysis_is_validated() {
    let a = validate_analysis(AnalysisResult { importance: 9, sentiment: "glad".to_string() });
    assert_eq!(a.importance, 5);
    assert_eq!(a.sentiment, "neutral");
    let b = validate_analysis(AnalysisResult { importance: 2, sentiment: "fear".to_string() });
    assert_eq!(b.importance, 2);
    assert_eq!(b.sentiment, "fear");
}

#[test]
fn text_chunks_split_at_blank_lines() {
    let chunks = text_knowledge_chunks("一つ目\n\n  二つ目  \n\n\n\n三つ目\n");
    assert_eq!(chunks, vec!["一つ目", "二つ目", "三つ目"]);
    assert!(text_knowledge_chunks("").is_empty());
    assert!(text_knowledge_chunks(" \n\n \n").is_empty());
    assert_eq!(text_knowledge_chunks("a\n\n\nb"), vec!["a", "b"]);
}

#[test]
fn json_chunk_with_and_without_title() {
    assert_eq!(json_knowledge_chunk("題", "本文"), Some("題\n本文".to_string()));
    assert_eq!(json_knowledge_chunk("", "本文"), Some("本文".to_string()));
    assert_eq!(json_knowledge_chunk("", "  "), None);
    assert_eq!(json_knowledge_chunk("", ""), None);
}

#[test]
fn knowledge_formats() {
    assert_eq!(knowledge_format("json"), Some(KnowledgeFormat::Json));
    assert_eq!(knowledge_format("txt"), Some(KnowledgeFormat::Text));
    assert_eq!(knowledge_format("md"), None);
}

#[test]
fn document_ids() {
    assert_eq!(knowledge_doc_id("bread.notes.txt", 4), "know_bread_notes_txt_4");
    assert_eq!(timestamped_doc_id("fact", 1704067200), "fact_1704067200");
    assert_eq!(timestamped_doc_id("conv", -5), "conv_-5");
    assert_eq!(conversation_content("hi", "hello"), "Q: hi\nA: hello");
}

#[test]
fn context_entries_and_join() {
    let e1 = context_entry(0, "0.95", "fact", Some(3), None, "ドンクのパン");
    assert_eq!(e1, "[1] (類似度: 0.95, 種別: fact, 重要度: 3)\nドンクのパン");
    let e2 = context_entry(1, "0.50", "conversation", Some(2), Some("joy"), "Q: a\nA: b");
    assert_eq!(e2, "[2] (類似度: 0.50, 種別: conversation, 重要度: 2, 感情: joy)\nQ: a\nA: b");
    let e3 = context_entry(2, "0.31", "knowledge", None, None, "x");
    assert_eq!(e3, "[3] (類似度: 0.31, 種別: knowledge)\nx");
    let joined = join_with_blank_lines(&vec![e1.clone(), e3.clone()]);
    assert_eq!(joined, format!("{}\n\n{}", e1, e3));
    assert_eq!(join_with_blank_lines(&vec![]), "");
}

#[test]
fn source_lookup() {
    let sources = vec![None, Some("a.txt".to_string()), Some("b.json".to_string())];
    assert!(has_source(&sources, "b.json"));
    assert!(!has_source(&sources, "c.txt"));
    assert!(!has_source(&vec![], "a.txt"));
}

#[test]
fn json_candidate_from_reply() {
    let t = "分析結果は以下です:\n{\"importance\": 4, \"sentiment\": \"surprise\"}\n以上です。";
    assert_eq!(
        json_brace_candidate(t),
        Some("{\"importance\": 4, \"sentiment\": \"surprise\"}".to_string())
    );
    assert_eq!(json_brace_candidate("これはJSONではありません"), None);
    assert_eq!(json_brace_candidate("} x {"), None);
    assert_eq!(json_brace_candidate("}{"), Some(String::new()));
    assert_eq!(json_brace_candidate("{ only"), None);
}

#[test]
fn embedding_dimensions_are_held_to_the_first() {
    let mut d = EmbeddingDimensions::new();
    assert_eq!(d.check(9000), Err(DimensionError::TooLarge { len: 9000 }));
    assert_eq!(d.check(768), Ok(()));
    assert_eq!(d.check(768), Ok(()));
    assert_eq!(d.check(512), Err(DimensionError::Mismatch { len: 512, expected: 768 }));
    assert_eq!(d.check(8192), Err(DimensionError::Mismatch { len: 8192, expected: 768 }));
}

#[test]
fn analysis_prompt_text() {
    let p = smart_speaker::rag::analysis_prompt("こんにちは", "どうも");
    assert!(p.starts_with("以下の会話の重要度と感情を分析してください。\n\n会話:\nユーザー: こんにちは\nアシスタント: どうも\n\n重要度の基準:\n1 = 挨拶・雑談\n"));
    assert!(p.ends_with("感情カテゴリ: joy, sadness, anger, surprise, fear, neutral\n\n以下のJSON形式のみで回答してください（他のテキストは不要）:\n{\"importance\": 数値, \"sentiment\": \"カテゴリ\"}"));
}

#[test]
fn ranking_is_a_stable_descending_top_k() {
    let keys = vec![5, 9, 5, 1, 9, 7];
    assert_eq!(rank_top_k(&keys, 5, 10), vec![1, 4, 5, 0, 2]);
    assert_eq!(rank_top_k(&keys, 5, 3), vec![1, 4, 5]);
    assert_eq!(rank_top_k(&keys, 0, 6), vec![1, 4, 5, 0, 2, 3]);
    assert_eq!(rank_top_k(&keys, 10, 3), Vec::<usize>::new());
    assert_eq!(rank_top_k(&keys, 0, 0), Vec::<usize>::new());
    assert_eq!(rank_top_k(&vec![], 0, 3), Vec::<usize>::new());
}

#[test]
fn json_knowledge_file_gives_one_chunk_per_item() {
    let content = r#"[
        {"title": "営業時間", "content": "9時から17時まで"},
        {"content": "定休日は日曜"},
        {"title": "", "content": "   "},
        {"title": 3, "content": "題なし"},
        "文字列"
    ]"#;
    assert_eq!(
        json_knowledge_chunks(content),
        Some(vec![
            "営業時間\n9時から17時まで".to_string(),
            "定休日は日曜".to_string(),
            "題なし".to_string(),
        ])
    );
}

#[test]
fn json_knowledge_file_must_be_an_array() {
    assert_eq!(json_knowledge_chunks("[]"), Some(vec![]));
    assert_eq!(json_knowledge_chunks(r#"{"title": "a", "content": "b"}"#), None);
    assert_eq!(json_knowledge_chunks("not json"), None);
}
