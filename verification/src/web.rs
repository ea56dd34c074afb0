//! The local web API: request routing, the request size limit, the chat
//! reply, the built-in web page and the check for local endpoints.

use vstd::prelude::*;
use base64::Engine;
use crate::text::{opt_view, or_empty, str_eq, str_or_empty};

verus! {

broadcast use vstd::string::group_string_axioms;

/// Largest accepted request body, in bytes.
pub const MAX_REQUEST_BYTES: usize = 32768;

/// HTTP methods the server tells apart.
#[derive(PartialEq, Eq, Structural, Clone, Copy, Debug)]
pub enum HttpMethod {
    Get,
    Post,
    Other,
}

/// What a request is for.
#[derive(PartialEq, Eq, Structural, Clone, Copy, Debug)]
pub enum Route {
    /// `GET /`: the web page.
    Index,
    /// `GET /api/health`: the health report.
    Health,
    /// `POST /api/chat`: a chat request.
    Chat,
    /// Anything else.
    NotFound,
}

/// The route of a request with `method` and `url`.
pub fn route(method: HttpMethod, url: &str) -> (r: Route)
    ensures
        r == (if method == HttpMethod::Get && url@ == "/"@ {
            Route::Index
        } else if method == HttpMethod::Get && url@ == "/api/health"@ {
            Route::Health
        } else if method == HttpMethod::Post && url@ == "/api/chat"@ {
            Route::Chat
        } else {
            Route::NotFound
        }),
{
    proof {
        reveal_strlit("/");
        reveal_strlit("/api/health");
        reveal_strlit("/api/chat");
    }
    match method {
        HttpMethod::Get => {
            if str_eq(url, "/") {
                Route::Index
            } else if str_eq(url, "/api/health") {
                Route::Health
            } else {
                Route::NotFound
            }
        },
        HttpMethod::Post => {
            if str_eq(url, "/api/chat") {
                Route::Chat
            } else {
                Route::NotFound
            }
        },
        HttpMethod::Other => Route::NotFound,
    }
}

/// Whether a body of `len` bytes is within the limit.
pub fn body_within_limit(len: usize) -> (r: bool)
    ensures
        r == (len <= MAX_REQUEST_BYTES),
{
    len <= MAX_REQUEST_BYTES
}

/// The hosts taken for the local machine.
pub open spec fn local_host(host: Seq<char>) -> bool {
    host == "localhost"@ || host == "127.0.0.1"@ || host == "::1"@ || host == "[::1]"@ || host
        == "0.0.0.0"@
}

/// Whether `host` is the local machine: `localhost`, `127.0.0.1`, `::1`,
/// `[::1]` or `0.0.0.0`. Other hosts get a plain-text traffic warning.
pub fn is_local_host(host: &str) -> (r: bool)
    ensures
        r == local_host(host@),
{
    str_eq(host, "localhost") || str_eq(host, "127.0.0.1") || str_eq(host, "::1") || str_eq(
        host,
        "[::1]",
    ) || str_eq(host, "0.0.0.0")
}

/// The warning owed for a service endpoint.
#[derive(PartialEq, Eq, Structural, Clone, Copy, Debug)]
pub enum EndpointWarning {
    /// The endpoint is local, or not a URL at all.
    NoWarning,
    /// The host is not local; traffic can be read on the way.
    NotLocal,
    /// The host is not local and the scheme is not `https` either.
    NotLocalNotHttps,
}

/// The warning for an endpoint with this host and scheme.
pub open spec fn warning_spec(host: Seq<char>, scheme: Seq<char>) -> EndpointWarning {
    if local_host(host) {
        EndpointWarning::NoWarning
    } else if scheme == "https"@ {
        EndpointWarning::NotLocal
    } else {
        EndpointWarning::NotLocalNotHttps
    }
}

/// Host (`None` when it has none) and scheme of a URL; `None` when the
/// text does not parse as a URL.
pub uninterp spec fn url_host_scheme(endpoint: Seq<char>) -> Option<(Option<Seq<char>>, Seq<char>)>;

/// Parses `endpoint` with `reqwest::Url::parse` (the `url` crate's `Url`)
/// and reads `host_str` and `scheme`. Claimed: the pair is
/// `url_host_scheme` of the text, and `None` comes exactly when that is
/// `None`; which texts the parser accepts is not stated here.
#[verifier::external_body]
fn parse_host_scheme(endpoint: &str) -> (r: Option<(Option<String>, String)>)
    ensures
        match r {
            Some(p) => url_host_scheme(endpoint@) == Some((opt_view(p.0), p.1@)),
            None => url_host_scheme(endpoint@) is None,
        },
{
    let url = reqwest::Url::parse(endpoint).ok()?;
    Some((url.host_str().map(String::from), url.scheme().to_string()))
}

/// The warning for an endpoint with this host and scheme.
pub fn warning_for(host: &str, scheme: &str) -> (r: EndpointWarning)
    ensures
        r == warning_spec(host@, scheme@),
{
    if is_local_host(host) {
        EndpointWarning::NoWarning
    } else if str_eq(scheme, "https") {
        EndpointWarning::NotLocal
    } else {
        EndpointWarning::NotLocalNotHttps
    }
}

/// The warning owed for a service endpoint: none when it does not parse as
/// a URL or its host is local; otherwise that the host is not local (a URL
/// without a host counts as host `""`), and also that the scheme is not
/// `https` when it is not.
pub fn endpoint_warning(endpoint: &str) -> (r: EndpointWarning)
    ensures
        match url_host_scheme(endpoint@) {
            Some(p) => r == warning_spec(or_empty(p.0), p.1),
            None => r == EndpointWarning::NoWarning,
        },
{
    match parse_host_scheme(endpoint) {
        Some(p) => warning_for(str_or_empty(&p.0), p.1.as_str()),
        None => EndpointWarning::NoWarning,
    }
}

/// The character of 6-bit value `v` in the standard base64 alphabet.
pub open spec fn base64_char(v: nat) -> char {
    if v < 26 {
        (65 + v) as char
    } else if v < 52 {
        (97 + v - 26) as char
    } else if v < 62 {
        (48 + v - 52) as char
    } else if v == 62 {
        '+'
    } else {
        '/'
    }
}

/// Standard base64 (RFC 4648, with `=` padding) of `b`.
pub open spec fn base64_standard(b: Seq<u8>) -> Seq<char>
    decreases b.len(),
{
    if b.len() == 0 {
        seq![]
    } else if b.len() == 1 {
        seq![base64_char((b[0] / 4) as nat), base64_char(((b[0] % 4) * 16) as nat), '=', '=']
    } else if b.len() == 2 {
        seq![
            base64_char((b[0] / 4) as nat),
            base64_char(((b[0] % 4) * 16 + b[1] / 16) as nat),
            base64_char(((b[1] % 16) * 4) as nat),
            '=',
        ]
    } else {
        seq![
            base64_char((b[0] / 4) as nat),
            base64_char(((b[0] % 4) * 16 + b[1] / 16) as nat),
            base64_char(((b[1] % 16) * 4 + b[2] / 64) as nat),
            base64_char((b[2] % 64) as nat),
        ] + base64_standard(b.skip(3))
    }
}

/// Length of the padded base64 text of `n` bytes.
pub open spec fn base64_len(n: nat) -> int {
    n / 3 * 4 + if n % 3 > 0 {
        4int
    } else {
        0int
    }
}

/// `base64::engine::general_purpose::STANDARD.encode`: standard padded
/// base64 of `bytes`. The call panics when the output length overflows `usize`.
#[verifier::external_body]
fn base64_encode(bytes: &[u8]) -> (r: String)
    requires
        base64_len(bytes@.len()) <= usize::MAX,
    ensures
        r@ == base64_standard(bytes@),
{
    base64::engine::general_purpose::STANDARD.encode(bytes)
}

/// The reply to a chat request.
pub struct ChatReply {
    pub response: String,
    /// The synthesized speech as base64, when it was asked for and produced.
    pub audio_base64: Option<String>,
}

/// The reply carrying `response` and, when there is audio, the audio in base64.
pub fn chat_reply(response: String, audio: Option<Vec<u8>>) -> (r: ChatReply)
    requires
        audio matches Some(a) ==> base64_len(a@.len()) <= usize::MAX,
    ensures
        r.response == response,
        match audio {
            Some(a) => r.audio_base64 matches Some(s) && s@ == base64_standard(a@),
            None => r.audio_base64 is None,
        },
{
    let audio_base64 = match audio {
        Some(a) => Some(base64_encode(a.as_slice())),
        None => None,
    };
    ChatReply { response, audio_base64 }
}

/// The built-in web page.
pub const INDEX_HTML: &'static str = r#"<!doctype html>
<html lang=\"ja\">
<head>
  <meta charset=\"UTF-8\" />
  <meta name=\"viewport\" content=\"width=device-width,initial-scale=1\" />
  <title>Smart Speaker Host</title>
  <style>
    body { font-family: sans-serif; margin: 2rem; max-width: 800px; }
    textarea { width: 100%; min-height: 120px; }
    button { margin-top: 1rem; padding: 0.6rem 1rem; }
    .result { margin-top: 1.2rem; white-space: pre-wrap; background:#f4f4f4; padding:1rem; border-radius:8px; }
    .row { display:flex; gap:1rem; align-items:center; margin-top:0.6rem; }
  </style>
</head>
<body>
  <h1>Smart Speaker Host</h1>
  <p>ローカルネットワーク上のブラウザ/アプリから API を呼び出せます。</p>
  <textarea id=\"prompt\" placeholder=\"質問や指示を入力してください\"></textarea>
  <div class=\"row\">
    <label><input id=\"speak\" type=\"checkbox\" /> 音声データも返す</label>
    <button id=\"send\">送信</button>
  </div>
  <div id=\"result\" class=\"result\">ここに応答が表示されます。</div>
  <audio id=\"audio\" controls style=\"margin-top:1rem; width:100%; display:none;\"></audio>
  <script>
    const result = document.getElementById('result');
    const audio = document.getElementById('audio');
    document.getElementById('send').addEventListener('click', async () => {
      const text = document.getElementById('prompt').value.trim();
      const speak = document.getElementById('speak').checked;
      if (!text) {
        result.textContent = '入力してください。';
        return;
      }
      result.textContent = '処理中...';
      audio.style.display = 'none';
      audio.removeAttribute('src');

      try {
        const res = await fetch('/api/chat', {
          method: 'POST',
          headers: { 'Content-Type': 'application/json' },
          body: JSON.stringify({ text, speak }),
        });
        const json = await res.json();
        if (!res.ok) {
          result.textContent = `エラー: ${json.error ?? 'unknown'}`;
          return;
        }
        result.textContent = json.response;

        if (json.audio_base64) {
          audio.src = `data:audio/wav;base64,${json.audio_base64}`;
          audio.style.display = 'block';
        }
      } catch (e) {
        result.textContent = `通信エラー: ${e}`;
      }
    });
  </script>
</body>
</html>"#;

/// The built-in web page.
pub fn index_html() -> (r: &'static str)
    ensures
        r@ == INDEX_HTML@,
{
    INDEX_HTML
}

} // verus!
