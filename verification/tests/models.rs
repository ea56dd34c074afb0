use smart_speaker::download::{declared_size_ok, DownloadMeter, DownloadStep, PROGRESS_INTERVAL_BYTES};
use smart_speaker::models::{
    default_model_index, download_limit_bytes, is_known_model, model_info, parse_model_choice,
    MODEL_COUNT,
};

#[test]
fn known_models() {
    assert!(is_known_model("ggml-large-v3-turbo.bin"));
    assert!(is_known_model("ggml-tiny.bin"));
    assert!(!is_known_model("ggml-huge.bin"));
    assert!(!is_known_model("models/ggml-tiny.bin"));
    assert_eq!(model_info(4).file_name, "ggml-large-v3-turbo.bin");
    assert_eq!(model_info(5).size_mb, 3100);
    assert_eq!(MODEL_COUNT, 6);
}

#[test]
fn default_menu_position() {
    assert_eq!(default_model_index("ggml-small.bin"), 2);
    assert_eq!(default_model_index("other.bin"), 4);
}

#[test]
fn menu_answers() {
    assert_eq!(parse_model_choice("", 2), Some(2));
    assert_eq!(parse_model_choice("  \n", 4), Some(4));
    assert_eq!(parse_model_choice("1", 4), Some(0));
    assert_eq!(parse_model_choice(" 6 ", 4), Some(5));
    assert_eq!(parse_model_choice("+3", 4), Some(2));
    assert_eq!(parse_model_choice("003", 4), Some(2));
    assert_eq!(parse_model_choice("0", 4), None);
    assert_eq!(parse_model_choice("7", 4), None);
    assert_eq!(parse_model_choice("-1", 4), None);
    assert_eq!(parse_model_choice("+", 4), None);
    assert_eq!(parse_model_choice("2a", 4), None);
    assert_eq!(parse_model_choice("99999999999999999999999", 4), None);
}

#[test]
fn download_limits() {
    assert_eq!(download_limit_bytes(75), 75 * 1_048_576 * 12 / 10);
    assert_eq!(download_limit_bytes(3100), 3_900_702_720);
}

#[test]
fn download_size_bookkeeping() {
    assert!(declared_size_ok(None, 10));
    assert!(declared_size_ok(Some(10), 10));
    assert!(!declared_size_ok(Some(11), 10));
    let mut m = DownloadMeter::new(3 * PROGRESS_INTERVAL_BYTES);
    assert_eq!(m.on_chunk(PROGRESS_INTERVAL_BYTES - 1), DownloadStep::Continue);
    assert_eq!(m.on_chunk(1), DownloadStep::ReportProgress);
    assert_eq!(m.last_progress, PROGRESS_INTERVAL_BYTES);
    assert_eq!(m.on_chunk(5), DownloadStep::Continue);
    assert_eq!(m.on_chunk(2 * PROGRESS_INTERVAL_BYTES), DownloadStep::TooLarge);
}
