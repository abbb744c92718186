use card_proxy::capture::{capture_document, read_chat_request, Capture};
use card_proxy::proxy::Failure;
use serde_json::Value;

fn read_ok(raw: &[u8]) -> Capture {
    match read_chat_request(raw) {
        Ok(c) => c,
        Err(_) => panic!("expected a capture"),
    }
}

fn document_by_serde(id: &str, at: &str, names: &[String], raw: &[u8]) -> String {
    let body: Value = serde_json::from_slice(raw).unwrap();
    let mut doc = serde_json::Map::new();
    doc.insert("id".to_string(), Value::String(id.to_string()));
    doc.insert("at".to_string(), Value::String(at.to_string()));
    doc.insert(
        "characters".to_string(),
        Value::Array(names.iter().map(|n| Value::String(n.clone())).collect()),
    );
    doc.insert("body".to_string(), body);
    serde_json::to_string_pretty(&Value::Object(doc)).unwrap()
}

fn chat_body(stream: &str) -> Vec<u8> {
    let content = format!("<Vivi>{}</Vivi>", "x".repeat(300));
    let content = Value::String(content).to_string();
    format!(
        "{{\"model\":\"m\",\"stream\":{stream},\"messages\":[{{\"role\":\"system\",\"content\":{content}}},{{\"role\":\"user\",\"content\":\"hi\\nthere\"}}],\"extra\":{{\"a\":[],\"b\":{{}},\"c\":[1,[2,{{\"d\":null}}]]}}}}"
    )
    .into_bytes()
}

#[test]
fn bodies_that_are_not_json_are_refused() {
    assert!(matches!(read_chat_request(b"not json"), Err(Failure::BadJson)));
    assert!(matches!(read_chat_request(b""), Err(Failure::BadJson)));
    assert!(matches!(read_chat_request(b"{\"messages\":[}"), Err(Failure::BadJson)));
}

#[test]
fn bodies_without_a_message_list_are_refused() {
    assert!(matches!(read_chat_request(b"{\"stream\":true}"), Err(Failure::MissingMessages)));
    assert!(matches!(read_chat_request(b"{\"messages\":\"hi\"}"), Err(Failure::MissingMessages)));
    assert!(matches!(read_chat_request(b"[1,2]"), Err(Failure::MissingMessages)));
}

#[test]
fn chat_bodies_give_names_stream_and_printed_body() {
    let raw = chat_body("true");
    let c = read_ok(&raw);
    assert_eq!(c.names, vec!["Vivi".to_string()]);
    assert!(c.stream);
    let body: Value = serde_json::from_slice(&raw).unwrap();
    assert_eq!(c.body_pretty, serde_json::to_string_pretty(&body).unwrap());
    assert!(!read_ok(&chat_body("false")).stream);
    assert!(!read_ok(&chat_body("\"yes\"")).stream);
    let odd = b"{\"messages\":[{\"role\":7,\"content\":\"<A>x</A>\"},3]}";
    assert!(read_ok(odd).names.is_empty());
}

#[test]
fn stored_document_matches_serde_json_pretty_printing() {
    let raw = chat_body("true");
    let c = read_ok(&raw);
    let doc = capture_document("AbCdEfGhIjKl", "1700000000s-since-epoch", &c.names, &c.body_pretty);
    assert_eq!(doc, document_by_serde("AbCdEfGhIjKl", "1700000000s-since-epoch", &c.names, &raw));
    let two = vec!["A\"b".to_string(), "C".to_string()];
    let doc = capture_document("id\n", "t", &two, &c.body_pretty);
    assert_eq!(doc, document_by_serde("id\n", "t", &two, &raw));
    let none: Vec<String> = Vec::new();
    let small = b"{\"messages\":[]}";
    let c = read_ok(small);
    let doc = capture_document("x", "t", &none, &c.body_pretty);
    assert_eq!(doc, document_by_serde("x", "t", &none, small));
}

#[test]
fn stored_document_parses_back_to_the_capture() {
    let raw = chat_body("false");
    let c = read_ok(&raw);
    let doc = capture_document("AbCdEfGhIjKl", "5s-since-epoch", &c.names, &c.body_pretty);
    let back: Value = serde_json::from_str(&doc).unwrap();
    assert_eq!(back["characters"], Value::Array(vec![Value::String("Vivi".to_string())]));
    assert_eq!(back["body"]["messages"][1]["content"], Value::String("hi\nthere".to_string()));
    assert_eq!(back["body"], serde_json::from_slice::<Value>(&raw).unwrap());
}
