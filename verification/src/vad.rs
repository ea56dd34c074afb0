//! Voice activity bookkeeping of a recording: counting samples, the noise
//! calibration period, speech detection, debounced silence and the decision
//! to stop. The signal levels themselves (RMS, smoothing, the noise floor)
//! are computed by the caller, which tells the tracker whether each frame
//! was at or above the speech threshold.

use vstd::prelude::*;

verus! {

/// What a frame did to the recording, so the caller can update its levels.
#[derive(PartialEq, Eq, Structural, Clone, Copy, Debug)]
pub enum FrameOutcome {
    /// Not recording, or the frame was empty: nothing to measure.
    Ignored,
    /// The frame belongs to the noise calibration period.
    Calibrating,
    /// The frame completed the noise calibration period.
    CalibrationDone,
    /// The frame was classified as speech or silence.
    Classified,
}

/// Counters and flags of a recording, apart from its samples and levels.
pub struct VadTracker {
    pub is_recording: bool,
    pub speech_detected: bool,
    /// Samples counted as silence after speech (after debouncing).
    pub consecutive_silence: usize,
    pub silence_samples_threshold: usize,
    pub max_samples: usize,
    pub calibration_complete: bool,
    /// Length of the calibration period in samples recorded after the lookback.
    pub calibration_duration: usize,
    /// Frames measured during calibration.
    pub calibration_frames: usize,
    /// Consecutive quiet frames since the last loud one.
    pub silent_frame_count: usize,
    pub debounce_frames: usize,
    /// Samples taken over from before the recording started.
    pub lookback_len: usize,
    /// Samples recorded, lookback included.
    pub sample_count: usize,
}

impl VadTracker {
    /// The relations between the counters that every operation keeps.
    pub open spec fn wf(&self) -> bool {
        &&& !self.calibration_complete ==> !self.speech_detected && self.consecutive_silence == 0
            && self.silent_frame_count == 0
        &&& self.consecutive_silence > 0 ==> self.speech_detected
        &&& self.is_recording ==> self.consecutive_silence <= self.sample_count
            && self.calibration_frames <= self.sample_count && self.silent_frame_count
            <= self.sample_count
    }

    /// Whether a recording in this state is over.
    pub open spec fn stop_spec(&self) -> bool {
        ||| !self.is_recording
        ||| self.sample_count >= self.max_samples
        ||| (self.speech_detected && self.consecutive_silence >= self.silence_samples_threshold)
    }

    /// Samples recorded after the lookback, zero if fewer.
    pub open spec fn recorded_after_lookback(&self) -> nat {
        if self.sample_count >= self.lookback_len {
            (self.sample_count - self.lookback_len) as nat
        } else {
            0
        }
    }

    /// The state after a frame of `frame_len` samples, `loud` telling whether
    /// its level reached the speech threshold.
    pub open spec fn after_frame(self, frame_len: nat, loud: bool) -> (Self, FrameOutcome) {
        if !self.is_recording || frame_len == 0 {
            (self, FrameOutcome::Ignored)
        } else {
            let s = VadTracker { sample_count: (self.sample_count + frame_len) as usize, ..self };
            if !s.calibration_complete {
                let s2 = VadTracker { calibration_frames: (s.calibration_frames + 1) as usize, ..s };
                if s2.recorded_after_lookback() >= s2.calibration_duration {
                    (VadTracker { calibration_complete: true, ..s2 }, FrameOutcome::CalibrationDone)
                } else {
                    (s2, FrameOutcome::Calibrating)
                }
            } else if loud {
                (
                    VadTracker {
                        speech_detected: true,
                        consecutive_silence: 0,
                        silent_frame_count: 0,
                        ..s
                    },
                    FrameOutcome::Classified,
                )
            } else if s.speech_detected {
                let quiet = (s.silent_frame_count + 1) as usize;
                (
                    VadTracker {
                        silent_frame_count: quiet,
                        consecutive_silence: if quiet >= s.debounce_frames {
                            (s.consecutive_silence + frame_len) as usize
                        } else {
                            s.consecutive_silence
                        },
                        ..s
                    },
                    FrameOutcome::Classified,
                )
            } else {
                (s, FrameOutcome::Classified)
            }
        }
    }

    /// A tracker that is not recording.
    pub fn new() -> (r: Self)
        ensures
            r.wf(),
            r == (VadTracker {
                is_recording: false,
                speech_detected: false,
                consecutive_silence: 0,
                silence_samples_threshold: 0,
                max_samples: 0,
                calibration_complete: false,
                calibration_duration: 0,
                calibration_frames: 0,
                silent_frame_count: 0,
                debounce_frames: 3,
                lookback_len: 0,
                sample_count: 0,
            }),
    {
        VadTracker {
            is_recording: false,
            speech_detected: false,
            consecutive_silence: 0,
            silence_samples_threshold: 0,
            max_samples: 0,
            calibration_complete: false,
            calibration_duration: 0,
            calibration_frames: 0,
            silent_frame_count: 0,
            debounce_frames: 3,
            lookback_len: 0,
            sample_count: 0,
        }
    }

    /// Starts a recording that already holds `lookback_len` samples.
    pub fn start(
        &mut self,
        lookback_len: usize,
        max_samples: usize,
        silence_samples_threshold: usize,
        calibration_duration: usize,
        debounce_frames: usize,
    )
        ensures
            final(self).wf(),
            *final(self) == (VadTracker {
                is_recording: true,
                speech_detected: false,
                consecutive_silence: 0,
                silence_samples_threshold,
                max_samples,
                calibration_complete: false,
                calibration_duration,
                calibration_frames: 0,
                silent_frame_count: 0,
                debounce_frames,
                lookback_len,
                sample_count: lookback_len,
            }),
    {
        self.lookback_len = lookback_len;
        self.sample_count = lookback_len;
        self.is_recording = true;
        self.speech_detected = false;
        self.consecutive_silence = 0;
        self.silence_samples_threshold = silence_samples_threshold;
        self.max_samples = max_samples;
        self.calibration_complete = false;
        self.calibration_duration = calibration_duration;
        self.calibration_frames = 0;
        self.silent_frame_count = 0;
        self.debounce_frames = debounce_frames;
    }

    /// Ends the recording; its samples are handed out, so none are left.
    pub fn stop(&mut self)
        requires
            old(self).wf(),
        ensures
            final(self).wf(),
            *final(self) == (VadTracker { is_recording: false, sample_count: 0, ..*old(self) }),
    {
        self.is_recording = false;
        self.sample_count = 0;
    }

    /// Records a frame of `frame_len` samples; `loud` tells whether its level
    /// reached the speech threshold (it matters only after calibration).
    pub fn observe_frame(&mut self, frame_len: usize, loud: bool) -> (r: FrameOutcome)
        requires
            old(self).wf(),
            old(self).sample_count + frame_len <= usize::MAX,
        ensures
            final(self).wf(),
            (*final(self), r) == old(self).after_frame(frame_len as nat, loud),
    {
        if !self.is_recording || frame_len == 0 {
            return FrameOutcome::Ignored;
        }
        self.sample_count = self.sample_count + frame_len;
        if !self.calibration_complete {
            self.calibration_frames = self.calibration_frames + 1;
            let recorded_after_lookback = if self.sample_count >= self.lookback_len {
                self.sample_count - self.lookback_len
            } else {
                0
            };
            if recorded_after_lookback >= self.calibration_duration {
                self.calibration_complete = true;
                return FrameOutcome::CalibrationDone;
            }
            return FrameOutcome::Calibrating;
        }
        if loud {
            self.speech_detected = true;
            self.consecutive_silence = 0;
            self.silent_frame_count = 0;
        } else if self.speech_detected {
            self.silent_frame_count = self.silent_frame_count + 1;
            if self.silent_frame_count >= self.debounce_frames {
                self.consecutive_silence = self.consecutive_silence + frame_len;
            }
        }
        FrameOutcome::Classified
    }

    /// Whether the recording is over: stopped, full, or silent long enough after speech.
    pub fn should_stop(&self) -> (r: bool)
        ensures
            r == self.stop_spec(),
    {
        if !self.is_recording {
            return true;
        }
        if self.sample_count >= self.max_samples {
            return true;
        }
        if self.speech_detected && self.consecutive_silence >= self.silence_samples_threshold {
            return true;
        }
        false
    }
}

/// No frame classifies speech or silence before the calibration period is over.
pub proof fn law_no_decision_during_calibration(t: VadTracker, frame_len: nat, loud: bool)
    requires
        t.wf(),
        !t.calibration_complete,
    ensures
        !t.after_frame(frame_len, loud).0.speech_detected,
        t.after_frame(frame_len, loud).0.consecutive_silence == 0,
        t.after_frame(frame_len, loud).1 != FrameOutcome::Classified,
{
}

/// The calibration period counts frames, not samples: each non-empty frame
/// it takes adds exactly one to `calibration_frames`, whatever its length,
/// while the sample count grows by the frame's length. Frames after
/// calibration, and ignored frames, leave the count alone.
pub proof fn law_calibration_counts_frames(t: VadTracker, frame_len: nat, loud: bool)
    requires
        t.wf(),
    ensures
        t.is_recording && !t.calibration_complete && frame_len > 0 && t.sample_count + frame_len
            <= usize::MAX ==> {
            &&& t.after_frame(frame_len, loud).0.calibration_frames == t.calibration_frames + 1
            &&& t.after_frame(frame_len, loud).0.sample_count == t.sample_count + frame_len
        },
        t.calibration_complete || !t.is_recording || frame_len == 0 ==> t.after_frame(
            frame_len,
            loud,
        ).0.calibration_frames == t.calibration_frames,
{
}

/// Once speech has been detected it stays detected for the rest of the recording.
pub proof fn law_speech_stays_detected(t: VadTracker, frame_len: nat, loud: bool)
    requires
        t.wf(),
        t.speech_detected,
    ensures
        t.after_frame(frame_len, loud).0.speech_detected,
{
}

/// A loud frame after calibration clears all counted silence.
pub proof fn law_loud_frame_resets_silence(t: VadTracker, frame_len: nat)
    requires
        t.wf(),
        t.is_recording,
        t.calibration_complete,
        frame_len > 0,
    ensures
        t.after_frame(frame_len, true).0.consecutive_silence == 0,
        t.after_frame(frame_len, true).0.silent_frame_count == 0,
        t.after_frame(frame_len, true).0.speech_detected,
{
}

/// Quiet frames count as silence only from the `debounce_frames`-th one in a row.
pub proof fn law_silence_is_debounced(t: VadTracker, frame_len: nat)
    requires
        t.wf(),
        t.is_recording,
        t.calibration_complete,
        frame_len > 0,
        t.silent_frame_count + 1 < t.debounce_frames,
    ensures
        t.after_frame(frame_len, false).0.consecutive_silence == t.consecutive_silence,
{
}

/// A recording that is not running is always over.
pub proof fn law_stopped_recording_should_stop(t: VadTracker)
    requires
        !t.is_recording,
    ensures
        t.stop_spec(),
{
}

} // verus!
