//! Speech synthesis requests to a VOICEVOX server: the request URLs, the
//! limit on the returned audio and the errors.

use vstd::prelude::*;
use crate::text::{decimal, push_decimal, push_decimal_u64};
use vstd::utf8::encode_utf8;

verus! {

/// Largest accepted synthesized audio, in bytes (50 MiB).
pub const MAX_AUDIO_SIZE: usize = 52428800;

/// Errors of speech synthesis.
pub enum TtsError {
    /// The server could not be reached.
    ConnectionError(String),
    /// The audio query request failed.
    AudioQueryError(String),
    /// The synthesis request failed.
    SynthesisError(String),
}

impl TtsError {
    /// The message shown for the error.
    pub fn message(&self) -> (r: String)
        ensures
            r@ == match self {
                TtsError::ConnectionError(s) => "VOICEVOX APIへの接続に失敗: "@ + s@,
                TtsError::AudioQueryError(s) => "音声クエリの作成に失敗: "@ + s@,
                TtsError::SynthesisError(s) => "音声合成に失敗: "@ + s@,
            },
    {
        match self {
            TtsError::ConnectionError(s) => String::from_str("VOICEVOX APIへの接続に失敗: ").concat(
                s.as_str(),
            ),
            TtsError::AudioQueryError(s) => String::from_str("音声クエリの作成に失敗: ").concat(
                s.as_str(),
            ),
            TtsError::SynthesisError(s) => String::from_str("音声合成に失敗: ").concat(s.as_str()),
        }
    }
}

/// Bytes left as they are by URL encoding: ASCII letters, digits and `- . _ ~`.
pub open spec fn is_url_safe_byte(b: u8) -> bool {
    (48 <= b <= 57) || (65 <= b <= 90) || (97 <= b <= 122) || b == 45 || b == 46 || b == 95
        || b == 126
}

/// Upper-case hexadecimal digit of `d < 16`.
pub open spec fn hex_digit_char(d: nat) -> char {
    if d < 10 {
        (48 + d) as char
    } else {
        (55 + d) as char
    }
}

/// Percent-encoding of `bytes`: safe bytes as characters, every other byte as
/// `%` and two upper-case hexadecimal digits.
pub open spec fn percent_encode(bytes: Seq<u8>) -> Seq<char>
    decreases bytes.len(),
{
    if bytes.len() == 0 {
        seq![]
    } else {
        let b = bytes[0];
        (if is_url_safe_byte(b) {
            seq![b as char]
        } else {
            seq!['%', hex_digit_char((b / 16) as nat), hex_digit_char((b % 16) as nat)]
        }) + percent_encode(bytes.drop_first())
    }
}

/// `urlencoding::encode`: percent-encodes every byte of the UTF-8 encoding of
/// `text` except ASCII letters, digits and `- . _ ~`, with upper-case hex digits.
#[verifier::external_body]
fn url_encode(text: &str) -> (r: String)
    ensures
        r@ == percent_encode(encode_utf8(text@)),
{
    urlencoding::encode(text).into_owned()
}

/// URL of the audio query for `text` spoken by `speaker_id`.
pub fn audio_query_url(endpoint: &str, text: &str, speaker_id: i32) -> (r: String)
    ensures
        r@ == endpoint@ + "/audio_query?text="@ + percent_encode(encode_utf8(text@))
            + "&speaker="@ + decimal(speaker_id as int),
{
    let mut url = String::from_str(endpoint);
    url.append("/audio_query?text=");
    let encoded = url_encode(text);
    url.append(encoded.as_str());
    url.append("&speaker=");
    push_decimal(&mut url, speaker_id as i64);
    url
}

/// URL of the synthesis request for `speaker_id`.
pub fn synthesis_url(endpoint: &str, speaker_id: i32) -> (r: String)
    ensures
        r@ == endpoint@ + "/synthesis?speaker="@ + decimal(speaker_id as int),
{
    let mut url = String::from_str(endpoint);
    url.append("/synthesis?speaker=");
    push_decimal(&mut url, speaker_id as i64);
    url
}

/// Accepts synthesized audio of `len` bytes, or refuses it when it is larger
/// than `MAX_AUDIO_SIZE`.
pub fn check_audio_size(len: usize) -> (r: Result<(), TtsError>)
    ensures
        r is Ok <==> len <= MAX_AUDIO_SIZE,
        r matches Err(e) ==> e matches TtsError::SynthesisError(m) && m@
            == "音声データが上限サイズを超過: "@ + decimal(len as int) + " bytes (上限: "@
            + decimal(MAX_AUDIO_SIZE as int) + " bytes)"@,
{
    if len > MAX_AUDIO_SIZE {
        let mut m = String::from_str("音声データが上限サイズを超過: ");
        push_decimal_u64(&mut m, len as u64);
        m.append(" bytes (上限: ");
        push_decimal_u64(&mut m, MAX_AUDIO_SIZE as u64);
        m.append(" bytes)");
        Err(TtsError::SynthesisError(m))
    } else {
        Ok(())
    }
}

} // verus!
