//! Errors of audio playback.

use vstd::prelude::*;

verus! {

/// Errors of audio playback.
pub enum PlaybackError {
    /// The output device could not be opened.
    DeviceError(String),
    /// Playing failed.
    PlayError(String),
}

impl PlaybackError {
    /// The message shown for the error.
    pub fn message(&self) -> (r: String)
        ensures
            r@ == match self {
                PlaybackError::DeviceError(s) => "出力デバイスの初期化に失敗: "@ + s@,
                PlaybackError::PlayError(s) => "再生中にエラーが発生: "@ + s@,
            },
    {
        match self {
            PlaybackError::DeviceError(s) => String::from_str("出力デバイスの初期化に失敗: ").concat(
                s.as_str(),
            ),
            PlaybackError::PlayError(s) => String::from_str("再生中にエラーが発生: ").concat(
                s.as_str(),
            ),
        }
    }
}

} // verus!
