use inferrust_proxy::cache::CacheEntry;
use inferrust_proxy::handlers::{
    body_read_failure, cached_reply, fixed_header_value, header_name, health_report, is_success,
    reply_cache_entry, response_headers, upstream_failure, upstream_reply_headers, BodyKind,
    ChatMessage, ResponseHeader, StreamCapture,
};

#[test]
fn stream_headers() {
    assert_eq!(
        response_headers(true, Some(12)),
        vec![
            ResponseHeader::PromptTokens(12),
            ResponseHeader::ContentType(BodyKind::EventStream),
            ResponseHeader::NoCache,
            ResponseHeader::KeepAlive
        ]
    );
    assert_eq!(
        upstream_reply_headers(true, 12),
        vec![ResponseHeader::ContentType(BodyKind::EventStream), ResponseHeader::NoCache, ResponseHeader::KeepAlive]
    );
    assert_eq!(
        upstream_reply_headers(false, 12),
        vec![ResponseHeader::PromptTokens(12), ResponseHeader::ContentType(BodyKind::Json)]
    );
}

#[test]
fn header_texts() {
    let h = ResponseHeader::ContentType(BodyKind::EventStream);
    assert_eq!((header_name(&h), fixed_header_value(&h)), ("content-type", Some("text/event-stream")));
    let h = ResponseHeader::ContentType(BodyKind::Json);
    assert_eq!(fixed_header_value(&h), Some("application/json"));
    assert_eq!((header_name(&ResponseHeader::NoCache), fixed_header_value(&ResponseHeader::NoCache)), ("cache-control", Some("no-cache")));
    assert_eq!((header_name(&ResponseHeader::KeepAlive), fixed_header_value(&ResponseHeader::KeepAlive)), ("connection", Some("keep-alive")));
    assert_eq!((header_name(&ResponseHeader::PromptTokens(3)), fixed_header_value(&ResponseHeader::PromptTokens(3))), ("x-prompt-tokens", None));
}

#[test]
fn success_range() {
    assert!(is_success(200));
    assert!(is_success(299));
    assert!(!is_success(199));
    assert!(!is_success(300));
    assert!(!is_success(502));
}

// Library-level form of the original end-to-end test: a cached 2xx JSON reply
// is served again with the same body.
#[test]
fn test_cache_returns_cached_response_on_second_request() {
    let body = r#"{"id":"cmpl-123","choices":[{"message":{"content":"Mock response"}}]}"#;
    let entry = reply_cache_entry(200, 9, body).unwrap();
    let reply = cached_reply(entry, false);
    assert_eq!(reply.body, body);
    assert_eq!(reply.headers, vec![ResponseHeader::PromptTokens(9), ResponseHeader::ContentType(BodyKind::Json)]);
}

#[test]
fn error_replies_are_not_cached() {
    assert!(reply_cache_entry(500, 9, "oops").is_none());
    assert!(reply_cache_entry(404, 9, "missing").is_none());
}

// Library-level form of the original end-to-end test: a completed stream is
// cached and served again with the event-stream headers.
#[test]
fn test_cache_returns_cached_sse_for_streaming_requests() {
    let mut capture = StreamCapture::new();
    capture.append(b"data: {\"choices\": [{\"delta\": {\"content\": \"Stream \"}}]}\n\n");
    capture.append(b"data: [DONE]\n\n");
    let entry = capture.into_cache_entry(200, 4, true).unwrap();
    let reply = cached_reply(entry, true);
    assert!(reply.body.contains("Stream "));
    assert!(reply.body.contains("[DONE]"));
    assert_eq!(reply.headers[1], ResponseHeader::ContentType(BodyKind::EventStream));
    assert_eq!(reply.headers[2], ResponseHeader::NoCache);
}

#[test]
fn stream_capture_rules() {
    assert!(StreamCapture::new().into_cache_entry(200, 1, true).is_none());
    let mut c = StreamCapture::new();
    c.append(&[0xff, 0xfe]);
    assert_eq!(c.bytes(), &[0xff, 0xfe]);
    assert!(c.into_cache_entry(200, 1, true).is_none());
    let mut c = StreamCapture::new();
    c.append("héllo".as_bytes());
    let mut s = StreamCapture::new();
    s.append(b"ok");
    assert!(s.into_cache_entry(500, 1, true).is_none());
    let e: CacheEntry = c.into_cache_entry(201, 2, true).unwrap();
    assert_eq!((e.prompt_tokens, e.response_json.as_str()), (2, "héllo"));
}

#[test]
fn interrupted_stream_is_not_cached() {
    let mut c = StreamCapture::new();
    c.append(b"data: {\"choices\": [{\"delta\": {\"content\": \"Str");
    assert!(c.into_cache_entry(200, 4, false).is_none());
}

// Library-level form of the original end-to-end test: the failure answered
// when no replica can be reached.
#[test]
fn test_error_502_returns_structured_json() {
    let f = upstream_failure("connection refused");
    assert_eq!((f.status, f.message.as_str(), f.json_body), (502, "Failed to communicate: connection refused", true));
    let f = body_read_failure();
    assert_eq!((f.status, f.message.as_str(), f.json_body), (500, "Failed to extract text", false));
}

#[test]
fn health() {
    let h = health_report();
    assert_eq!((h.status.as_str(), h.message.as_str()), ("ok", "inferrust-proxy"));
    let m = ChatMessage { role: "user".to_string(), content: "Hi".to_string() };
    assert_eq!(m.role, "user");
}
