//! The proxy's decisions: which endpoint a request names, what the capture
//! link is, and the exact replies it sends.

use vstd::prelude::*;
use crate::ids::{is_valid_id, valid_id};
use crate::json::{decimal, decimal_text, json_quoted, json_string};
use crate::tags::{characters_of, names_in, views, ChatMessage};
use crate::text::{chars_of, matches_at, occurs_at, string_of};

verus! {

broadcast use vstd::string::group_string_axioms;

/// Why a request is refused.
pub enum Failure {
    /// `/r/<id>` with a malformed id.
    BadId,
    /// `/r/<id>` for an id with nothing stored (expired or never captured).
    UnknownCapture,
    /// The request body could not be read.
    UnreadableBody,
    /// The request body is not JSON.
    BadJson,
    /// The chat request has no `messages` list.
    MissingMessages,
    /// The capture could not be written to the store.
    CannotStore,
    /// No endpoint for this method and path.
    NotFound,
}

/// What a request asks for.
pub enum Route {
    /// A CORS preflight (`OPTIONS`, any path).
    Preflight,
    /// `GET /v1/models`.
    Models,
    /// `GET /r/<id>`: the stored capture `id`.
    Capture(String),
    /// `POST /v1/chat/completions`.
    Chat,
    /// Refused at once.
    Reject(Failure),
}

/// The leading part of `s` up to its first `?` or `/`.
pub open spec fn id_segment(s: Seq<char>) -> Seq<char>
    decreases s.len(),
{
    if s.len() == 0 || s[0] == '?' || s[0] == '/' {
        seq![]
    } else {
        seq![s[0]] + id_segment(s.drop_first())
    }
}

/// An id taken from a capture path is served when it is valid and holds no `.` or `/`.
pub open spec fn servable_id(id: Seq<char>) -> bool {
    is_valid_id(id) && !id.contains('.') && !id.contains('/')
}

/// `r` is the route for a request with this method and URL.
pub open spec fn routes_to(method: Seq<char>, url: Seq<char>, r: Route) -> bool {
    if method == "OPTIONS"@ {
        r is Preflight
    } else if method == "GET"@ && url == "/v1/models"@ {
        r is Models
    } else if method == "GET"@ && matches_at(url, "/r/"@, 0) {
        let id = id_segment(url.skip("/r/"@.len() as int));
        if servable_id(id) {
            r matches Route::Capture(s) && s@ == id
        } else {
            r == Route::Reject(Failure::BadId)
        }
    } else if method == "POST"@ && url == "/v1/chat/completions"@ {
        r is Chat
    } else {
        r == Route::Reject(Failure::NotFound)
    }
}

/// The part of `url` from `from` up to the next `?` or `/`.
fn segment_from(url: &Vec<char>, from: usize) -> (seg: Vec<char>)
    requires
        from <= url@.len(),
    ensures
        seg@ == id_segment(url@.skip(from as int)),
{
    let mut end = from;
    while end < url.len() && url[end] != '?' && url[end] != '/'
        invariant
            from <= end <= url@.len(),
            id_segment(url@.skip(from as int)) == url@.subrange(from as int, end as int) + id_segment(
                url@.skip(end as int),
            ),
        decreases url@.len() - end,
    {
        assert(url@.skip(end as int).drop_first() =~= url@.skip(end + 1));
        assert(url@.subrange(from as int, end + 1) =~= url@.subrange(from as int, end as int)
            + seq![url@[end as int]]);
        end = end + 1;
    }
    assert(id_segment(url@.skip(end as int)) =~= Seq::<char>::empty());
    assert(url@.subrange(from as int, end as int) + Seq::<char>::empty() =~= url@.subrange(
        from as int,
        end as int,
    ));
    crate::text::sub_chars(url, from, end)
}

/// Whether `s` holds the character `c`.
fn holds_char(s: &Vec<char>, c: char) -> (b: bool)
    ensures
        b == s@.contains(c),
{
    let n = s.len();
    for i in 0..n
        invariant
            n == s@.len(),
            forall|q: int| 0 <= q < i ==> s@[q] != c,
    {
        if s[i] == c {
            assert(s@[i as int] == c);
            return true;
        }
    }
    false
}

/// The route for a request.
pub fn route(method: &str, url: &str) -> (r: Route)
    ensures
        routes_to(method@, url@, r),
{
    let m = method.to_owned();
    let u = url.to_owned();
    if m == String::from_str("OPTIONS") {
        return Route::Preflight;
    }
    let is_get = m == String::from_str("GET");
    if is_get && u == String::from_str("/v1/models") {
        return Route::Models;
    }
    let url_chars = chars_of(url);
    let prefix = chars_of("/r/");
    if is_get && occurs_at(&url_chars, &prefix, 0) {
        let seg = segment_from(&url_chars, prefix.len());
        let id = string_of(seg.as_slice());
        if valid_id(id.as_str()) && !holds_char(&seg, '.') && !holds_char(&seg, '/') {
            return Route::Capture(id);
        }
        return Route::Reject(Failure::BadId);
    }
    if m == String::from_str("POST") && u == String::from_str("/v1/chat/completions") {
        return Route::Chat;
    }
    Route::Reject(Failure::NotFound)
}

proof fn lemma_id_segment_stops(id: Seq<char>, rest: Seq<char>)
    requires
        !id.contains('?'),
        !id.contains('/'),
        rest.len() == 0 || rest[0] == '?' || rest[0] == '/',
    ensures
        id_segment(id + rest) == id,
    decreases id.len(),
{
    if id.len() == 0 {
        assert(id + rest =~= rest);
    } else {
        assert((id + rest).drop_first() =~= id.drop_first() + rest);
        assert(id[0] != '?' && id[0] != '/') by {
            assert(id.contains(id[0]));
        }
        assert(!id.drop_first().contains('?')) by {
            if id.drop_first().contains('?') {
                let q = choose|q: int| 0 <= q < id.drop_first().len() && id.drop_first()[q] == '?';
                assert(id[q + 1] == '?');
            }
        }
        assert(!id.drop_first().contains('/')) by {
            if id.drop_first().contains('/') {
                let q = choose|q: int| 0 <= q < id.drop_first().len() && id.drop_first()[q] == '/';
                assert(id[q + 1] == '/');
            }
        }
        lemma_id_segment_stops(id.drop_first(), rest);
        assert(seq![id[0]] + id.drop_first() =~= id);
    }
}

/// A capture link leads back to its capture: `GET /r/<id>`, with or without a
/// query after it, is routed to the capture `id` for every valid `id`.
pub proof fn lemma_capture_path_routes_back(id: Seq<char>, query: Seq<char>, r: Route)
    requires
        is_valid_id(id),
        query.len() == 0 || query[0] == '?',
        routes_to("GET"@, "/r/"@ + id + query, r),
    ensures
        r matches Route::Capture(s) && s@ == id,
{
    reveal_strlit("GET");
    reveal_strlit("OPTIONS");
    reveal_strlit("/r/");
    reveal_strlit("/v1/models");
    crate::ids::lemma_valid_id_is_path_safe(id);
    let url = "/r/"@ + id + query;
    assert(url[1] == 'r');
    assert("/v1/models"@[1] == 'v');
    assert(url != "/v1/models"@);
    assert(url.subrange(0, 3) =~= "/r/"@);
    assert(url.skip(3) =~= id + query);
    assert(!id.contains('?')) by {
        if id.contains('?') {
            let q = choose|q: int| 0 <= q < id.len() && id[q] == '?';
            assert(crate::ids::is_id_char(id[q]));
        }
    }
    lemma_id_segment_stops(id, query);
    assert("GET"@ != "OPTIONS"@) by {
        assert("GET"@.len() != "OPTIONS"@.len());
    }
    assert(matches_at(url, "/r/"@, 0));
    assert(id_segment(url.skip("/r/"@.len() as int)) == id);
    assert(servable_id(id));
}

/// The media type of a reply body.
pub enum ContentType {
    /// `application/json`
    Json,
    /// `text/event-stream`
    EventStream,
}

/// A reply body: text the proxy wrote, or bytes read back from the store.
pub enum Body {
    Text(String),
    Bytes(Vec<u8>),
}

/// A reply. Every reply allows any origin (CORS); a preflight reply also
/// names the allowed request headers and methods.
pub struct Reply {
    pub status: u16,
    pub content_type: Option<ContentType>,
    pub preflight: bool,
    pub body: Body,
}

/// The status code for a refusal.
pub open spec fn failure_status(f: Failure) -> u16 {
    match f {
        Failure::BadId => 404,
        Failure::UnknownCapture => 404,
        Failure::UnreadableBody => 400,
        Failure::BadJson => 400,
        Failure::MissingMessages => 400,
        Failure::CannotStore => 500,
        Failure::NotFound => 404,
    }
}

/// The message of a refusal.
pub open spec fn failure_message(f: Failure) -> Seq<char> {
    match f {
        Failure::BadId => "bad id"@,
        Failure::UnknownCapture => "expired or unknown id"@,
        Failure::UnreadableBody => "unreadable body"@,
        Failure::BadJson => "bad JSON"@,
        Failure::MissingMessages => "messages[] required"@,
        Failure::CannotStore => "cannot store"@,
        Failure::NotFound => "not found"@,
    }
}

/// A JSON reply with this status and text.
pub open spec fn is_json_reply(r: Reply, status: u16, text: Seq<char>) -> bool {
    &&& r.status == status
    &&& r.content_type == Some(ContentType::Json)
    &&& !r.preflight
    &&& r.body matches Body::Text(t) && t@ == text
}

/// The reply to a refused request: the status, and `{"error": message}`.
pub fn error_reply(f: Failure) -> (r: Reply)
    ensures
        is_json_reply(r, failure_status(f), "{\"error\":"@ + json_quoted(failure_message(f)) + "}"@),
{
    let (status, message): (u16, &str) = match f {
        Failure::BadId => (404, "bad id"),
        Failure::UnknownCapture => (404, "expired or unknown id"),
        Failure::UnreadableBody => (400, "unreadable body"),
        Failure::BadJson => (400, "bad JSON"),
        Failure::MissingMessages => (400, "messages[] required"),
        Failure::CannotStore => (500, "cannot store"),
        Failure::NotFound => (404, "not found"),
    };
    let mut text = String::from_str("{\"error\":");
    text.append(json_string(message).as_str());
    text.append("}");
    Reply { status, content_type: Some(ContentType::Json), preflight: false, body: Body::Text(text) }
}

/// The reply to a CORS preflight: 204, no body.
pub fn preflight_reply() -> (r: Reply)
    ensures
        r.status == 204,
        r.content_type is None,
        r.preflight,
        r.body matches Body::Bytes(b) && b@.len() == 0,
{
    Reply { status: 204, content_type: None, preflight: true, body: Body::Bytes(Vec::new()) }
}

/// The model list: one model, `mock-model-1`.
pub open spec fn models_text() -> Seq<char> {
    "{\"data\":[{\"created\":0,\"id\":\"mock-model-1\",\"object\":\"model\",\"owned_by\":\"card-to-soul\"}],\"object\":\"list\"}"@
}

/// The reply to `GET /v1/models`.
pub fn models_reply() -> (r: Reply)
    ensures
        is_json_reply(r, 200, models_text()),
{
    let text = String::from_str(
        "{\"data\":[{\"created\":0,\"id\":\"mock-model-1\",\"object\":\"model\",\"owned_by\":\"card-to-soul\"}],\"object\":\"list\"}",
    );
    Reply { status: 200, content_type: Some(ContentType::Json), preflight: false, body: Body::Text(text) }
}

/// The reply carrying a stored capture, byte for byte.
pub fn stored_capture_reply(bytes: Vec<u8>) -> (r: Reply)
    ensures
        r.status == 200,
        r.content_type == Some(ContentType::Json),
        !r.preflight,
        r.body == Body::Bytes(bytes),
{
    Reply { status: 200, content_type: Some(ContentType::Json), preflight: false, body: Body::Bytes(bytes) }
}

/// The name of the file that holds capture `id` in the store.
pub open spec fn capture_file(id: Seq<char>) -> Seq<char> {
    id + ".json"@
}

/// The file name for capture `id`.
pub fn capture_file_name(id: &str) -> (name: String)
    ensures
        name@ == capture_file(id@),
{
    let mut name = id.to_owned();
    name.append(".json");
    name
}

/// The file of a servable id is a plain name inside the store: no `/`, and it
/// does not start with `.`.
pub proof fn lemma_capture_file_stays_in_store(id: Seq<char>)
    requires
        servable_id(id),
    ensures
        !capture_file(id).contains('/'),
        capture_file(id)[0] != '.',
{
    reveal_strlit(".json");
    crate::ids::lemma_valid_id_is_path_safe(id);
    let f = capture_file(id);
    assert(id.len() > 0) by {
        assert(vstd::utf8::encode_utf8(id).len() >= 8);
        if id.len() == 0 {
            assert(id =~= Seq::<char>::empty());
        }
    }
    assert(f[0] == id[0]);
    assert(id.contains(id[0]));
    assert(!f.contains('/')) by {
        if f.contains('/') {
            let q = choose|q: int| 0 <= q < f.len() && f[q] == '/';
            if q < id.len() {
                assert(id[q] == '/');
                assert(id.contains('/'));
            } else {
                assert(".json"@[q - id.len()] == '/');
            }
        }
    }
}

/// The base of capture links: the public URL when one is set, else
/// `http://` and the request's `Host` header, or `localhost:<port>` without one.
pub open spec fn link_base(public_url: Seq<char>, host: Option<Seq<char>>, port: u16) -> Seq<char> {
    if public_url.len() > 0 {
        public_url
    } else {
        "http://"@ + match host {
            Some(h) => h,
            None => "localhost:"@ + decimal_text(port as nat),
        }
    }
}

/// The link at which capture `id` can be fetched.
pub open spec fn link_for(public_url: Seq<char>, host: Option<Seq<char>>, port: u16, id: Seq<char>) -> Seq<char> {
    link_base(public_url, host, port) + "/r/"@ + id
}

/// What a capture link is: the public URL when set; otherwise `http://`, then
/// the `Host` header exactly as given (any port it names, and no other), or
/// `localhost:<port>` when there is none; then `/r/` and the id.
pub proof fn lemma_link_shape(public_url: Seq<char>, host: Option<Seq<char>>, port: u16, id: Seq<char>)
    ensures
        public_url.len() > 0 ==> link_for(public_url, host, port, id) == public_url + "/r/"@ + id,
        public_url.len() == 0 ==> (host matches Some(h) ==> link_for(public_url, host, port, id)
            == "http://"@ + h + "/r/"@ + id),
        public_url.len() == 0 ==> (host is None ==> link_for(public_url, host, port, id)
            == "http://localhost:"@ + decimal_text(port as nat) + "/r/"@ + id),
{
    reveal_strlit("http://");
    reveal_strlit("localhost:");
    reveal_strlit("http://localhost:");
    assert("http://"@ + "localhost:"@ =~= "http://localhost:"@);
    if public_url.len() == 0 {
        match host {
            Some(h) => {
                assert(link_base(public_url, host, port) == "http://"@ + h);
            },
            None => {
                assert(link_base(public_url, host, port) =~= "http://localhost:"@ + decimal_text(
                    port as nat,
                ));
            },
        }
    }
}

/// The link at which capture `id` can be fetched.
pub fn capture_link(public_url: &str, host: Option<&str>, port: u16, id: &str) -> (link: String)
    ensures
        link@ == link_for(
            public_url@,
            match host {
                Some(h) => Some(h@),
                None => None,
            },
            port,
            id@,
        ),
        public_url@.len() > 0 ==> link@ == public_url@ + "/r/"@ + id@,
        public_url@.len() == 0 ==> (host matches Some(h) ==> link@ == "http://"@ + h@ + "/r/"@ + id@),
        public_url@.len() == 0 ==> (host is None ==> link@ == "http://localhost:"@ + decimal_text(
            port as nat,
        ) + "/r/"@ + id@),
{
    proof {
        lemma_link_shape(
            public_url@,
            match host {
                Some(h) => Some(h@),
                None => None,
            },
            port,
            id@,
        );
    }
    let mut link = if !public_url.is_empty() {
        public_url.to_owned()
    } else {
        let mut base = String::from_str("http://");
        match host {
            Some(h) => base.append(h),
            None => {
                base.append("localhost:");
                base.append(decimal(port as u64).as_str());
            },
        }
        base
    };
    link.append("/r/");
    link.append(id);
    link
}

/// The chat message that announces a capture.
pub open spec fn announcement(link: Seq<char>) -> Seq<char> {
    "Definition captured: "@ + link
}

/// The first event of the streamed reply: the announcement as the assistant's delta.
pub open spec fn first_chunk(id: Seq<char>, link: Seq<char>, created: u64) -> Seq<char> {
    "{\"choices\":[{\"delta\":{\"content\":"@ + json_quoted(announcement(link))
        + ",\"role\":\"assistant\"},\"finish_reason\":null,\"index\":0}],\"created\":"@
        + decimal_text(created as nat) + ",\"id\":"@ + json_quoted("mock-"@ + id)
        + ",\"model\":\"mock-model-1\",\"object\":\"chat.completion.chunk\"}"@
}

/// The last event of the streamed reply: an empty delta that stops.
pub open spec fn last_chunk(id: Seq<char>, created: u64) -> Seq<char> {
    "{\"choices\":[{\"delta\":{},\"finish_reason\":\"stop\",\"index\":0}],\"created\":"@
        + decimal_text(created as nat) + ",\"id\":"@ + json_quoted("mock-"@ + id)
        + ",\"model\":\"mock-model-1\",\"object\":\"chat.completion.chunk\"}"@
}

/// The streamed (server-sent events) reply to a captured chat request.
pub open spec fn sse_text(id: Seq<char>, link: Seq<char>, created: u64) -> Seq<char> {
    "data: "@ + first_chunk(id, link, created) + "\n\ndata: "@ + last_chunk(id, created)
        + "\n\ndata: [DONE]\n\n"@
}

/// The streamed reply to a captured chat request, created at second `created`.
pub fn sse_capture(id: &str, link: &str, created: u64) -> (body: String)
    ensures
        body@ == sse_text(id@, link@, created),
{
    let mut announce = String::from_str("Definition captured: ");
    announce.append(link);
    let mut mock_id = String::from_str("mock-");
    mock_id.append(id);
    let created_text = decimal(created);
    let quoted_id = json_string(mock_id.as_str());
    let mut body = String::from_str("data: ");
    body.append("{\"choices\":[{\"delta\":{\"content\":");
    body.append(json_string(announce.as_str()).as_str());
    body.append(",\"role\":\"assistant\"},\"finish_reason\":null,\"index\":0}],\"created\":");
    body.append(created_text.as_str());
    body.append(",\"id\":");
    body.append(quoted_id.as_str());
    body.append(",\"model\":\"mock-model-1\",\"object\":\"chat.completion.chunk\"}");
    body.append("\n\ndata: ");
    body.append("{\"choices\":[{\"delta\":{},\"finish_reason\":\"stop\",\"index\":0}],\"created\":");
    body.append(created_text.as_str());
    body.append(",\"id\":");
    body.append(quoted_id.as_str());
    body.append(",\"model\":\"mock-model-1\",\"object\":\"chat.completion.chunk\"}");
    body.append("\n\ndata: [DONE]\n\n");
    body
}

/// The plain (non-streamed) reply to a captured chat request.
pub open spec fn completion_text(id: Seq<char>, link: Seq<char>, created: u64) -> Seq<char> {
    "{\"choices\":[{\"finish_reason\":\"stop\",\"index\":0,\"message\":{\"content\":"@
        + json_quoted(announcement(link)) + ",\"role\":\"assistant\"}}],\"created\":"@
        + decimal_text(created as nat) + ",\"id\":"@ + json_quoted("mock-"@ + id)
        + ",\"model\":\"mock-model-1\",\"object\":\"chat.completion\",\"usage\":{\"completion_tokens\":0,\"prompt_tokens\":0,\"total_tokens\":0}}"@
}

/// The plain reply to a captured chat request, created at second `created`.
pub fn completion_body(id: &str, link: &str, created: u64) -> (body: String)
    ensures
        body@ == completion_text(id@, link@, created),
{
    let mut announce = String::from_str("Definition captured: ");
    announce.append(link);
    let mut mock_id = String::from_str("mock-");
    mock_id.append(id);
    let mut body = String::from_str(
        "{\"choices\":[{\"finish_reason\":\"stop\",\"index\":0,\"message\":{\"content\":",
    );
    body.append(json_string(announce.as_str()).as_str());
    body.append(",\"role\":\"assistant\"}}],\"created\":");
    body.append(decimal(created).as_str());
    body.append(",\"id\":");
    body.append(json_string(mock_id.as_str()).as_str());
    body.append(
        ",\"model\":\"mock-model-1\",\"object\":\"chat.completion\",\"usage\":{\"completion_tokens\":0,\"prompt_tokens\":0,\"total_tokens\":0}}",
    );
    body
}

/// The reply to a captured chat request: server-sent events when the request
/// asked to stream (clients that stream reject anything else), plain JSON otherwise.
pub fn capture_reply(stream: bool, id: &str, link: &str, created: u64) -> (r: Reply)
    ensures
        r.status == 200,
        !r.preflight,
        stream ==> r.content_type == Some(ContentType::EventStream) && (r.body matches Body::Text(
            t,
        ) && t@ == sse_text(id@, link@, created)),
        !stream ==> is_json_reply(r, 200, completion_text(id@, link@, created)),
{
    if stream {
        Reply {
            status: 200,
            content_type: Some(ContentType::EventStream),
            preflight: false,
            body: Body::Text(sse_capture(id, link, created)),
        }
    } else {
        Reply {
            status: 200,
            content_type: Some(ContentType::Json),
            preflight: false,
            body: Body::Text(completion_body(id, link, created)),
        }
    }
}

/// A chat request as far as the proxy reads it: its `messages`, when that is a
/// list, and whether it asks for a streamed reply (`stream` is `true`).
pub struct ChatRequest {
    pub messages: Option<Vec<ChatMessage>>,
    pub stream: bool,
}

/// What a chat request leads to before anything is stored: without a message
/// list it is refused; otherwise its character names are recorded with it.
pub fn plan_capture(req: &ChatRequest) -> (r: Result<Vec<String>, Failure>)
    ensures
        req.messages is None ==> r == Err::<Vec<String>, Failure>(Failure::MissingMessages),
        req.messages matches Some(msgs) ==> (r matches Ok(names) && views(names@) == names_in(
            msgs@,
        )),
{
    match &req.messages {
        None => Err(Failure::MissingMessages),
        Some(msgs) => Ok(characters_of(Some(msgs))),
    }
}

/// The capture stored under a generated id is the one its link fetches: the
/// path `/r/<id>` (with or without a query) routes to that id, and so to the
/// file the capture was written to.
pub proof fn lemma_generated_capture_is_fetched(bytes: Seq<u8>, query: Seq<char>, r: Route)
    requires
        query.len() == 0 || query[0] == '?',
        routes_to("GET"@, "/r/"@ + crate::ids::id_for(bytes) + query, r),
    ensures
        r matches Route::Capture(s) && capture_file(s@) == capture_file(crate::ids::id_for(bytes)),
{
    crate::ids::lemma_generated_id_is_valid(bytes);
    lemma_capture_path_routes_back(crate::ids::id_for(bytes), query, r);
}

} // verus!
