use smart_speaker::web::{
    body_within_limit, chat_reply, endpoint_warning, index_html, is_local_host, route,
    warning_for, EndpointWarning, HttpMethod, Route,
    MAX_REQUEST_BYTES,
};

#[test]
fn routes() {
    assert_eq!(route(HttpMethod::Get, "/"), Route::Index);
    assert_eq!(route(HttpMethod::Get, "/api/health"), Route::Health);
    assert_eq!(route(HttpMethod::Post, "/api/chat"), Route::Chat);
    assert_eq!(route(HttpMethod::Get, "/api/chat"), Route::NotFound);
    assert_eq!(route(HttpMethod::Post, "/"), Route::NotFound);
    assert_eq!(route(HttpMethod::Other, "/"), Route::NotFound);
    assert_eq!(route(HttpMethod::Get, "/favicon.ico"), Route::NotFound);
}

#[test]
fn body_limit() {
    assert!(body_within_limit(MAX_REQUEST_BYTES));
    assert!(!body_within_limit(MAX_REQUEST_BYTES + 1));
    assert_eq!(MAX_REQUEST_BYTES, 32 * 1024);
}

#[test]
fn local_hosts() {
    for h in ["localhost", "127.0.0.1", "::1", "[::1]", "0.0.0.0"] {
        assert!(is_local_host(h));
    }
    assert!(!is_local_host("192.168.1.10"));
    assert!(!is_local_host("example.com"));
}

#[test]
fn chat_reply_encodes_audio() {
    let r = chat_reply("ok".to_string(), Some(vec![b'h', b'i']));
    assert_eq!(r.response, "ok");
    assert_eq!(r.audio_base64, Some("aGk=".to_string()));
    let r2 = chat_reply("x".to_string(), Some(vec![0xff, 0xee, 0xdd, 0x01]));
    assert_eq!(r2.audio_base64, Some("/+7dAQ==".to_string()));
    let r3 = chat_reply("y".to_string(), None);
    assert_eq!(r3.audio_base64, None);
}

#[test]
fn index_page() {
    let html = index_html();
    assert!(html.starts_with("<!doctype html>"));
    assert!(html.contains("/api/chat"));
}

#[test]
fn endpoint_warnings() {
    assert_eq!(endpoint_warning("http://localhost:11434"), EndpointWarning::NoWarning);
    assert_eq!(endpoint_warning("http://127.0.0.1:50021"), EndpointWarning::NoWarning);
    assert_eq!(endpoint_warning("http://[::1]:11434"), EndpointWarning::NoWarning);
    assert_eq!(endpoint_warning("http://192.168.0.2:11434"), EndpointWarning::NotLocalNotHttps);
    assert_eq!(endpoint_warning("https://example.com"), EndpointWarning::NotLocal);
    assert_eq!(endpoint_warning("not a url"), EndpointWarning::NoWarning);
    assert_eq!(endpoint_warning("mailto:someone@example.com"), EndpointWarning::NotLocalNotHttps);
}

#[test]
fn warning_from_host_and_scheme() {
    assert_eq!(warning_for("localhost", "http"), EndpointWarning::NoWarning);
    assert_eq!(warning_for("example.com", "https"), EndpointWarning::NotLocal);
    assert_eq!(warning_for("example.com", "http"), EndpointWarning::NotLocalNotHttps);
    assert_eq!(warning_for("", "file"), EndpointWarning::NotLocalNotHttps);
}
