use smart_speaker::vad::{FrameOutcome, VadTracker};

#[test]
fn calibration_then_speech_then_silence() {
    let mut t = VadTracker::new();
    assert!(t.should_stop());
    // lookback 100, max 10000, 300 silent samples end it, 200 samples of calibration, debounce 2
    t.start(100, 10000, 300, 200, 2);
    assert!(!t.should_stop());
    assert_eq!(t.observe_frame(100, true), FrameOutcome::Calibrating);
    assert!(!t.speech_detected);
    assert_eq!(t.observe_frame(100, true), FrameOutcome::CalibrationDone);
    assert!(t.calibration_complete);
    assert_eq!(t.observe_frame(100, true), FrameOutcome::Classified);
    assert!(t.speech_detected);
    assert_eq!(t.observe_frame(100, false), FrameOutcome::Classified);
    assert_eq!(t.consecutive_silence, 0);
    t.observe_frame(100, false);
    assert_eq!(t.consecutive_silence, 100);
    t.observe_frame(100, false);
    assert_eq!(t.consecutive_silence, 200);
    assert!(!t.should_stop());
    t.observe_frame(100, false);
    assert!(t.should_stop());
}

#[test]
fn loud_frame_resets_silence() {
    let mut t = VadTracker::new();
    t.start(0, 10000, 1000, 0, 1);
    assert_eq!(t.observe_frame(10, false), FrameOutcome::CalibrationDone);
    t.observe_frame(10, true);
    t.observe_frame(10, false);
    assert_eq!(t.consecutive_silence, 10);
    t.observe_frame(10, true);
    assert_eq!(t.consecutive_silence, 0);
    assert_eq!(t.silent_frame_count, 0);
}

#[test]
fn silence_before_speech_is_not_counted() {
    let mut t = VadTracker::new();
    t.start(0, 10000, 10, 0, 1);
    t.observe_frame(10, false);
    t.observe_frame(10, false);
    t.observe_frame(10, false);
    assert!(!t.speech_detected);
    assert_eq!(t.consecutive_silence, 0);
    assert!(!t.should_stop());
}

#[test]
fn stops_when_full_and_ignores_when_stopped() {
    let mut t = VadTracker::new();
    t.start(0, 50, 1000, 1000, 3);
    t.observe_frame(30, false);
    assert!(!t.should_stop());
    t.observe_frame(30, false);
    assert!(t.should_stop());
    t.stop();
    assert_eq!(t.observe_frame(30, true), FrameOutcome::Ignored);
    assert_eq!(t.sample_count, 0);
    assert!(t.should_stop());
    let mut u = VadTracker::new();
    u.start(0, 50, 1000, 1000, 3);
    assert_eq!(u.observe_frame(0, true), FrameOutcome::Ignored);
}
