use card_proxy::proxy::{
    capture_file_name, capture_link, capture_reply, completion_body, error_reply, models_reply,
    plan_capture, preflight_reply, route, sse_capture, stored_capture_reply, Body, ChatRequest,
    ContentType, Failure, Route,
};
use card_proxy::tags::ChatMessage;
use serde_json::Value;

fn text(b: &Body) -> String {
    match b {
        Body::Text(t) => t.clone(),
        Body::Bytes(_) => panic!("expected text"),
    }
}

fn obj(pairs: Vec<(&str, Value)>) -> Value {
    let mut m = serde_json::Map::new();
    for (k, v) in pairs {
        m.insert(k.to_string(), v);
    }
    Value::Object(m)
}

fn s(x: &str) -> Value {
    Value::String(x.to_string())
}

#[test]
fn sse_body_shape() {
    let b = sse_capture("abc123", "http://x/r/abc123", 1700000000);
    assert!(b.contains("chat.completion.chunk"));
    assert!(b.contains("Definition captured: http://x/r/abc123"));
    assert!(b.trim_end().ends_with("data: [DONE]"));
}

fn chunk(id: &str, created: u64, delta: Value, finish: Value) -> Value {
    obj(vec![
        ("id", s(&format!("mock-{}", id))),
        ("object", s("chat.completion.chunk")),
        ("created", Value::from(created)),
        ("model", s("mock-model-1")),
        (
            "choices",
            Value::Array(vec![obj(vec![("index", Value::from(0)), ("delta", delta), ("finish_reason", finish)])]),
        ),
    ])
}

#[test]
fn sse_events_match_serde_json_serialisation() {
    let link = "http://h\"o\\st/r/AbCdEfGhIjKl\n";
    let b = sse_capture("AbCdEfGhIjKl", link, 42);
    let head = chunk(
        "AbCdEfGhIjKl",
        42,
        obj(vec![("role", s("assistant")), ("content", s(&format!("Definition captured: {}", link)))]),
        Value::Null,
    );
    let tail = chunk("AbCdEfGhIjKl", 42, obj(vec![]), s("stop"));
    let expected = format!("data: {}\n\ndata: {}\n\ndata: [DONE]\n\n", head, tail);
    assert_eq!(b, expected);
}

#[test]
fn completion_matches_serde_json_serialisation() {
    let link = "https://soul.example/r/ZZZZZZZZZZZZ";
    let got = completion_body("ZZZZZZZZZZZZ", link, 1725029869);
    let expected = obj(vec![
        ("id", s("mock-ZZZZZZZZZZZZ")),
        ("object", s("chat.completion")),
        ("created", Value::from(1725029869u64)),
        ("model", s("mock-model-1")),
        (
            "choices",
            Value::Array(vec![obj(vec![
                ("index", Value::from(0)),
                (
                    "message",
                    obj(vec![("role", s("assistant")), ("content", s(&format!("Definition captured: {}", link)))]),
                ),
                ("finish_reason", s("stop")),
            ])]),
        ),
        (
            "usage",
            obj(vec![
                ("prompt_tokens", Value::from(0)),
                ("completion_tokens", Value::from(0)),
                ("total_tokens", Value::from(0)),
            ]),
        ),
    ]);
    assert_eq!(got, expected.to_string());
}

#[test]
fn capture_reply_streams_only_when_asked() {
    let r = capture_reply(true, "abc12345", "http://l/r/abc12345", 7);
    assert_eq!(r.status, 200);
    assert!(matches!(r.content_type, Some(ContentType::EventStream)));
    assert!(text(&r.body).starts_with("data: {"));
    let r = capture_reply(false, "abc12345", "http://l/r/abc12345", 7);
    assert_eq!(r.status, 200);
    assert!(matches!(r.content_type, Some(ContentType::Json)));
    assert_eq!(text(&r.body), completion_body("abc12345", "http://l/r/abc12345", 7));
}

#[test]
fn models_list_matches_serde_json_serialisation() {
    let r = models_reply();
    let expected = obj(vec![
        ("object", s("list")),
        (
            "data",
            Value::Array(vec![obj(vec![
                ("id", s("mock-model-1")),
                ("object", s("model")),
                ("created", Value::from(0)),
                ("owned_by", s("card-to-soul")),
            ])]),
        ),
    ]);
    assert_eq!(r.status, 200);
    assert_eq!(text(&r.body), expected.to_string());
}

#[test]
fn every_failure_has_its_status_and_message() {
    let cases = vec![
        (Failure::BadId, 404, "bad id"),
        (Failure::UnknownCapture, 404, "expired or unknown id"),
        (Failure::UnreadableBody, 400, "unreadable body"),
        (Failure::BadJson, 400, "bad JSON"),
        (Failure::MissingMessages, 400, "messages[] required"),
        (Failure::CannotStore, 500, "cannot store"),
        (Failure::NotFound, 404, "not found"),
    ];
    for (f, status, message) in cases {
        let r = error_reply(f);
        assert_eq!(r.status, status);
        assert!(matches!(r.content_type, Some(ContentType::Json)));
        assert!(!r.preflight);
        assert_eq!(text(&r.body), obj(vec![("error", s(message))]).to_string());
    }
}

#[test]
fn preflight_and_stored_replies() {
    let r = preflight_reply();
    assert_eq!(r.status, 204);
    assert!(r.preflight);
    assert!(r.content_type.is_none());
    let r = stored_capture_reply(b"{\"id\":1}".to_vec());
    assert_eq!(r.status, 200);
    match r.body {
        Body::Bytes(b) => assert_eq!(b, b"{\"id\":1}".to_vec()),
        Body::Text(_) => panic!("expected bytes"),
    }
}

#[test]
fn routes_of_requests() {
    assert!(matches!(route("OPTIONS", "/anything"), Route::Preflight));
    assert!(matches!(route("GET", "/v1/models"), Route::Models));
    assert!(matches!(route("POST", "/v1/chat/completions"), Route::Chat));
    assert!(matches!(route("GET", "/v1/chat/completions"), Route::Reject(Failure::NotFound)));
    assert!(matches!(route("POST", "/v1/models"), Route::Reject(Failure::NotFound)));
    match route("GET", "/r/AbCdEfGhIjKl") {
        Route::Capture(id) => assert_eq!(id, "AbCdEfGhIjKl"),
        _ => panic!("expected a capture"),
    }
    match route("GET", "/r/AbCdEfGhIjKl?x=1") {
        Route::Capture(id) => assert_eq!(id, "AbCdEfGhIjKl"),
        _ => panic!("expected a capture"),
    }
    match route("GET", "/r/AbCdEfGhIjKl/more") {
        Route::Capture(id) => assert_eq!(id, "AbCdEfGhIjKl"),
        _ => panic!("expected a capture"),
    }
    assert!(matches!(route("GET", "/r/../evil"), Route::Reject(Failure::BadId)));
    assert!(matches!(route("GET", "/r/short"), Route::Reject(Failure::BadId)));
    assert!(matches!(route("GET", "/r/"), Route::Reject(Failure::BadId)));
}

#[test]
fn capture_links() {
    assert_eq!(capture_link("https://soul.example/proxy", Some("h:1"), 3000, "abc12345"), "https://soul.example/proxy/r/abc12345");
    assert_eq!(capture_link("", Some("example.org:8080"), 3000, "abc12345"), "http://example.org:8080/r/abc12345");
    assert_eq!(capture_link("", None, 3000, "abc12345"), "http://localhost:3000/r/abc12345");
    // the path of a link routes back to the capture
    let link = capture_link("", None, 3000, "AbCdEfGhIjKl");
    let path = &link["http://localhost:3000".len()..];
    match route("GET", path) {
        Route::Capture(id) => assert_eq!(id, "AbCdEfGhIjKl"),
        _ => panic!("expected a capture"),
    }
}

#[test]
fn capture_files_are_named_after_the_id() {
    assert_eq!(capture_file_name("AbCdEfGhIjKl"), "AbCdEfGhIjKl.json");
}

#[test]
fn chat_requests_need_a_message_list() {
    let missing = ChatRequest { messages: None, stream: true };
    assert!(matches!(plan_capture(&missing), Err(Failure::MissingMessages)));
    let long = "q".repeat(300);
    let ok = ChatRequest {
        messages: Some(vec![ChatMessage {
            role: Some("system".to_string()),
            content: Some(format!("<Vivi>{long}</Vivi>")),
        }]),
        stream: false,
    };
    match plan_capture(&ok) {
        Ok(names) => assert_eq!(names, vec!["Vivi".to_string()]),
        Err(_) => panic!("expected names"),
    }
}
