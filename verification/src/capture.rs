//! A chat request's body: what the proxy reads of it, and the document it
//! stores for the capture.

use vstd::prelude::*;
use crate::json::{json_quoted, json_string};
use crate::proxy::{plan_capture, ChatRequest, Failure};
use crate::tags::{names_in, views, ChatMessage};
use crate::text::{chars_of, push_char};

verus! {

broadcast use vstd::string::group_string_axioms;

/// One message as the body gives it: its `role` and `content` when they are strings.
pub type MessageFields = (Option<Seq<char>>, Option<Seq<char>>);

/// What serde_json reads from a request body: `None` when the bytes are no
/// JSON; otherwise the `messages` (when that is a list) as role and content
/// fields, and `stream` (when that is a boolean).
pub uninterp spec fn chat_fields(raw: Seq<u8>) -> Option<(Option<Seq<MessageFields>>, Option<bool>)>;

/// The body as serde_json pretty-prints it (two-space indent), when it is JSON.
pub uninterp spec fn pretty_json_text(raw: Seq<u8>) -> Option<Seq<char>>;

/// The fields of a message.
pub open spec fn message_fields(m: ChatMessage) -> MessageFields {
    (
        match m.role {
            Some(r) => Some(r@),
            None => None,
        },
        match m.content {
            Some(c) => Some(c@),
            None => None,
        },
    )
}

/// The fields of a list of messages.
pub open spec fn messages_fields(ms: Seq<ChatMessage>) -> Seq<MessageFields> {
    ms.map_values(|m: ChatMessage| message_fields(m))
}

/// serde_json's `from_slice` into a `Value`, then the fields the proxy reads:
/// `messages` as a list of objects' `role` and `content` strings, and `stream`
/// as a boolean. Its result is named `chat_fields`.
#[verifier::external_body]
fn parse_chat_json(raw: &[u8]) -> (r: Option<(Option<Vec<ChatMessage>>, Option<bool>)>)
    ensures
        r is None ==> chat_fields(raw@) is None,
        r matches Some((ms, stream)) ==> chat_fields(raw@) == Some(
            (
                match ms {
                    Some(v) => Some(messages_fields(v@)),
                    None => None,
                },
                stream,
            ),
        ),
{
    let v: serde_json::Value = serde_json::from_slice(raw).ok()?;
    let text = |m: &serde_json::Value, k: &str| m.get(k).and_then(|x| x.as_str()).map(String::from);
    let messages = v.get("messages").and_then(|m| m.as_array()).map(
        |a| a.iter().map(|m| ChatMessage { role: text(m, "role"), content: text(m, "content") }).collect(),
    );
    Some((messages, v.get("stream").and_then(|s| s.as_bool())))
}

/// serde_json's `from_slice` into a `Value`, then `to_string_pretty`; its result
/// is named `pretty_json_text`. Printing a `Value` cannot fail, so it gives text
/// exactly when the bytes are JSON.
#[verifier::external_body]
fn pretty_json(raw: &[u8]) -> (r: Option<String>)
    ensures
        r is Some <==> chat_fields(raw@) is Some,
        r matches Some(t) ==> pretty_json_text(raw@) == Some(t@),
        r is None ==> pretty_json_text(raw@) is None,
{
    let v: serde_json::Value = serde_json::from_slice(raw).ok()?;
    serde_json::to_string_pretty(&v).ok()
}

/// What the proxy keeps of a chat request it will capture.
pub struct Capture {
    /// The character names of its system messages.
    pub names: Vec<String>,
    /// Whether the reply is streamed.
    pub stream: bool,
    /// The body, pretty-printed.
    pub body_pretty: String,
}

/// Reads a chat request body: bytes that are no JSON are refused as bad JSON;
/// a body without a `messages` list is refused; otherwise the character names,
/// the stream flag (`false` unless `stream` is `true`) and the printed body.
pub fn read_chat_request(raw: &[u8]) -> (r: Result<Capture, Failure>)
    ensures
        chat_fields(raw@) is None ==> r == Err::<Capture, Failure>(Failure::BadJson),
        chat_fields(raw@) matches Some((None, _)) ==> r == Err::<Capture, Failure>(
            Failure::MissingMessages,
        ),
        chat_fields(raw@) matches Some((Some(fields), stream)) ==> (r matches Ok(c) && (exists|
            ms: Seq<ChatMessage>,
        |
            messages_fields(ms) == fields && views(c.names@) == names_in(ms))
            && c.stream == (stream == Some(true)) && pretty_json_text(raw@) == Some(
            c.body_pretty@,
        )),
{
    let (messages, stream) = match parse_chat_json(raw) {
        None => {
            return Err(Failure::BadJson);
        },
        Some(p) => p,
    };
    let ghost msgs = messages;
    let request = ChatRequest {
        messages,
        stream: match stream {
            Some(true) => true,
            _ => false,
        },
    };
    let names = match plan_capture(&request) {
        Err(f) => {
            return Err(f);
        },
        Ok(n) => n,
    };
    match pretty_json(raw) {
        None => Err(Failure::BadJson),
        Some(body_pretty) => {
            proof {
                if let Some(v) = msgs {
                    assert(messages_fields(v@) == messages_fields(v@));
                }
            }
            Ok(Capture { names, stream: request.stream, body_pretty })
        },
    }
}

/// Pretty JSON text moved one level in: two spaces after every line break.
pub open spec fn indented(s: Seq<char>) -> Seq<char>
    decreases s.len(),
{
    if s.len() == 0 {
        seq![]
    } else if s.last() == '\n' {
        indented(s.drop_last()) + "\n  "@
    } else {
        indented(s.drop_last()).push(s.last())
    }
}

/// The names as JSON strings, separated for a pretty list one level in.
pub open spec fn joined_names(names: Seq<Seq<char>>) -> Seq<char>
    decreases names.len(),
{
    if names.len() == 0 {
        seq![]
    } else if names.len() == 1 {
        json_quoted(names[0])
    } else {
        joined_names(names.drop_last()) + ",\n    "@ + json_quoted(names.last())
    }
}

/// The names as a pretty JSON list one level in.
pub open spec fn names_list(names: Seq<Seq<char>>) -> Seq<char> {
    if names.len() == 0 {
        "[]"@
    } else {
        "[\n    "@ + joined_names(names) + "\n  ]"@
    }
}

/// The stored document: a pretty JSON object with keys in sorted order, the
/// time label `at`, the request `body`, the `characters` and the `id`.
pub open spec fn capture_doc(id: Seq<char>, at: Seq<char>, names: Seq<Seq<char>>, body_pretty: Seq<char>) -> Seq<char> {
    "{\n  \"at\": "@ + json_quoted(at) + ",\n  \"body\": "@ + indented(body_pretty)
        + ",\n  \"characters\": "@ + names_list(names) + ",\n  \"id\": "@ + json_quoted(id)
        + "\n}"@
}

/// `text` moved one level in.
fn indent_text(text: &str) -> (r: String)
    ensures
        r@ == indented(text@),
{
    let cs = chars_of(text);
    let mut r = String::new();
    let n = cs.len();
    for i in 0..n
        invariant
            n == cs@.len(),
            cs@ == text@,
            r@ == indented(cs@.take(i as int)),
    {
        let ghost before = r@;
        assert(cs@.take(i + 1).drop_last() =~= cs@.take(i as int));
        if cs[i] == '\n' {
            r.append("\n  ");
        } else {
            push_char(&mut r, cs[i]);
        }
    }
    assert(cs@.take(n as int) =~= cs@);
    r
}

/// The names as a pretty JSON list one level in.
fn names_list_text(names: &Vec<String>) -> (r: String)
    ensures
        r@ == names_list(views(names@)),
{
    let n = names.len();
    if n == 0 {
        return String::from_str("[]");
    }
    let mut joined = json_string(names[0].as_str());
    assert(views(names@).take(1).drop_last() =~= Seq::<Seq<char>>::empty());
    for i in 1..n
        invariant
            n == names@.len(),
            n > 0,
            joined@ == joined_names(views(names@).take(i as int)),
    {
        assert(views(names@).take(i + 1).drop_last() =~= views(names@).take(i as int));
        joined.append(",\n    ");
        joined.append(json_string(names[i].as_str()).as_str());
    }
    assert(views(names@).take(n as int) =~= views(names@));
    let mut r = String::from_str("[\n    ");
    r.append(joined.as_str());
    r.append("\n  ]");
    r
}

/// The document stored for a capture.
pub fn capture_document(id: &str, at: &str, names: &Vec<String>, body_pretty: &str) -> (d: String)
    ensures
        d@ == capture_doc(id@, at@, views(names@), body_pretty@),
{
    let mut d = String::from_str("{\n  \"at\": ");
    d.append(json_string(at).as_str());
    d.append(",\n  \"body\": ");
    d.append(indent_text(body_pretty).as_str());
    d.append(",\n  \"characters\": ");
    d.append(names_list_text(names).as_str());
    d.append(",\n  \"id\": ");
    d.append(json_string(id).as_str());
    d.append("\n}");
    d
}

/// The names read from messages depend only on their role and content fields,
/// so the fields the body gives fix the names.
pub proof fn lemma_names_depend_on_fields(a: Seq<ChatMessage>, b: Seq<ChatMessage>)
    requires
        messages_fields(a) == messages_fields(b),
    ensures
        names_in(a) == names_in(b),
    decreases a.len(),
{
    assert(a.len() == messages_fields(a).len());
    assert(b.len() == messages_fields(b).len());
    if a.len() > 0 {
        assert(messages_fields(a.drop_last()) =~= messages_fields(a).drop_last());
        assert(messages_fields(b.drop_last()) =~= messages_fields(b).drop_last());
        lemma_names_depend_on_fields(a.drop_last(), b.drop_last());
        let n = a.len() - 1;
        assert(message_fields(a[n]) == messages_fields(a)[n]);
        assert(message_fields(b[n]) == messages_fields(b)[n]);
    }
}

} // verus!
