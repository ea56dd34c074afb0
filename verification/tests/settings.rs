use smart_speaker::settings::rewrite_model_path;

#[test]
fn model_path_is_rewritten_in_stt_section_only() {
    let content = "[llm]\nmodel_path = \"x\"\n\n[stt]\n  model_path = \"models/ggml-tiny.bin\" # old\nlanguage = \"ja\"\n[tts]\nmodel_path=1\n";
    let out = rewrite_model_path(content, "models/ggml-base.bin");
    assert_eq!(
        out,
        "[llm]\nmodel_path = \"x\"\n\n[stt]\n  model_path = \"models/ggml-base.bin\"\nlanguage = \"ja\"\n[tts]\nmodel_path=1\n"
    );
}

#[test]
fn final_newline_and_crlf() {
    assert_eq!(rewrite_model_path("[stt]\r\nmodel_path = 1", "p"), "[stt]\nmodel_path = \"p\"");
    assert_eq!(rewrite_model_path("", "p"), "");
    assert_eq!(rewrite_model_path("\n", "p"), "\n");
    assert_eq!(rewrite_model_path("[stt]\nmodel_path\n", "p"), "[stt]\nmodel_path\n");
}
