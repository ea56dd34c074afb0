use smart_speaker::tts::{audio_query_url, check_audio_size, synthesis_url, TtsError, MAX_AUDIO_SIZE};

#[test]
fn audio_query_url_encodes_text() {
    let url = audio_query_url("http://localhost:50021", "こんにちは 1-2_a.b~!", 3);
    assert_eq!(
        url,
        "http://localhost:50021/audio_query?text=%E3%81%93%E3%82%93%E3%81%AB%E3%81%A1%E3%81%AF%201-2_a.b~%21&speaker=3"
    );
    assert_eq!(
        audio_query_url("http://h", "ok", -12),
        "http://h/audio_query?text=ok&speaker=-12"
    );
}

#[test]
fn synthesis_url_has_speaker() {
    assert_eq!(synthesis_url("http://localhost:50021", 0), "http://localhost:50021/synthesis?speaker=0");
    assert_eq!(synthesis_url("e", i32::MIN), "e/synthesis?speaker=-2147483648");
}

#[test]
fn audio_size_limit() {
    assert!(check_audio_size(MAX_AUDIO_SIZE).is_ok());
    match check_audio_size(MAX_AUDIO_SIZE + 1) {
        Err(TtsError::SynthesisError(m)) => assert_eq!(
            m,
            "音声データが上限サイズを超過: 52428801 bytes (上限: 52428800 bytes)"
        ),
        _ => panic!("expected a synthesis error"),
    }
}

#[test]
fn tts_error_messages() {
    assert_eq!(TtsError::ConnectionError("x".to_string()).message(), "VOICEVOX APIへの接続に失敗: x");
    assert_eq!(TtsError::AudioQueryError("y".to_string()).message(), "音声クエリの作成に失敗: y");
    assert_eq!(TtsError::SynthesisError("z".to_string()).message(), "音声合成に失敗: z");
}
