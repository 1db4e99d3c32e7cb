//! Replies to downstream clients.
use vstd::prelude::*;
use vstd::string::*;
use vstd::utf8::*;

use crate::json;
use crate::json::{Json, JsonView};
use crate::sse;
use crate::text;

verus! {

/// The header that names a session.
pub const MCP_SESSION_ID: &'static str = "mcp-session-id";

/// A reply to a downstream client.
#[derive(Debug, PartialEq)]
pub struct HttpReply {
    pub status: u16,
    pub content_type: Option<String>,
    pub www_authenticate: Option<String>,
    pub session_id: Option<String>,
    pub body: String,
}

/// What a reply says.
pub struct HttpReplyView {
    pub status: u16,
    pub content_type: Option<Seq<char>>,
    pub www_authenticate: Option<Seq<char>>,
    pub session_id: Option<Seq<char>>,
    pub body: Seq<char>,
}

impl View for HttpReply {
    type V = HttpReplyView;

    open spec fn view(&self) -> HttpReplyView {
        HttpReplyView {
            status: self.status,
            content_type: text::optional(self.content_type),
            www_authenticate: text::optional(self.www_authenticate),
            session_id: text::optional(self.session_id),
            body: self.body@,
        }
    }
}

/// A reply that is nothing but a status.
pub open spec fn bare_reply(status: u16) -> HttpReplyView {
    HttpReplyView {
        status,
        content_type: None,
        www_authenticate: None,
        session_id: None,
        body: Seq::empty(),
    }
}

/// A reply in words.
pub open spec fn text_reply(status: u16, kind: Seq<char>, body: Seq<char>) -> HttpReplyView {
    HttpReplyView { content_type: Some(kind), body, ..bare_reply(status) }
}

/// The content type of a reply in words.
pub open spec fn plain_text() -> Seq<char> {
    "text/plain; charset=utf-8"@
}

/// A reply that is nothing but a status.
pub fn status_reply(status: u16) -> (reply: HttpReply)
    ensures
        reply@ == bare_reply(status),
{
    HttpReply {
        status,
        content_type: None,
        www_authenticate: None,
        session_id: None,
        body: String::new(),
    }
}

/// A reply in words.
pub fn worded_reply(status: u16, kind: &str, body: String) -> (reply: HttpReply)
    ensures
        reply@ == text_reply(status, kind@, body@),
{
    HttpReply {
        status,
        content_type: Some(kind.to_owned()),
        www_authenticate: None,
        session_id: None,
        body,
    }
}

/// The reply to a client that has not proved who it is.
pub open spec fn unauthorized() -> HttpReplyView {
    HttpReplyView { www_authenticate: Some("Bearer"@), ..bare_reply(401) }
}

/// The reply to a client that has not proved who it is.
pub fn unauthorized_response() -> (reply: HttpReply)
    ensures
        reply@ == unauthorized(),
{
    HttpReply {
        status: 401,
        content_type: None,
        www_authenticate: Some("Bearer".to_owned()),
        session_id: None,
        body: String::new(),
    }
}

/// Does a client want a stream of events? It does if it accepts those and does not accept JSON.
pub open spec fn prefers_stream(accept: Option<Seq<char>>) -> bool {
    match accept {
        Some(kinds) => text::contains(kinds, "text/event-stream"@) && !text::contains(
            kinds,
            "application/json"@,
        ),
        None => false,
    }
}

/// Does a client want a stream of events?
pub fn wants_sse(accept: Option<&str>) -> (yes: bool)
    ensures
        yes == prefers_stream(json::text_option(accept)),
{
    match accept {
        Some(kinds) => text::contains_text(kinds, "text/event-stream") && !text::contains_text(
            kinds,
            "application/json",
        ),
        None => false,
    }
}

/// A text as the one event of a stream.
pub open spec fn stream_of(data: Seq<char>) -> Seq<char> {
    "data: "@ + data + "\n\n"@
}

/// A reply that carries a JSON text, to a client that accepts `accept`.
pub open spec fn json_text_reply(
    accept: Option<Seq<char>>,
    status: u16,
    json: Seq<char>,
    session_id: Option<Seq<char>>,
) -> HttpReplyView {
    let reply = if prefers_stream(accept) {
        text_reply(status, "text/event-stream"@, stream_of(json))
    } else {
        text_reply(status, "application/json"@, json)
    };
    HttpReplyView { session_id, ..reply }
}

/// A reply that carries a JSON value, or nothing, to a client that accepts `accept`.
pub open spec fn json_reply(
    accept: Option<Seq<char>>,
    status: u16,
    body: Option<JsonView>,
    session_id: Option<Seq<char>>,
) -> HttpReplyView {
    match body {
        None => HttpReplyView { session_id, ..bare_reply(status) },
        Some(value) => json_text_reply(accept, status, json::json_text(value), session_id),
    }
}

/// Does the reader of upstream answers read a value from a reply?
pub open spec fn carries(reply: HttpReplyView, value: JsonView) -> bool {
    sse::body_answer(false, reply.content_type, encode_utf8(reply.body)) == Ok::<
        JsonView,
        sse::BodyFault,
    >(value)
}

/// A text without white space at its ends is its own trimmed text.
proof fn lemma_trimmed(text: Seq<char>)
    requires
        text.len() > 0,
        !text::is_white(text[0]),
        !text::is_white(text.last()),
    ensures
        text::trim_start(text) == text,
        text::trim(text) == text,
{
}

/// The reader of upstream answers reads from a reply the value whose text it carries, as a stream
/// or not.
proof fn lemma_reply_reads_back(
    accept: Option<Seq<char>>,
    status: u16,
    json: Seq<char>,
    session_id: Option<Seq<char>>,
    value: JsonView,
)
    requires
        json::is_json_text(json),
        json::reads_as(json, value),
    ensures
        carries(json_text_reply(accept, status, json, session_id), value),
{
    let reply = json_text_reply(accept, status, json, session_id);
    encode_utf8_valid_utf8(reply.body);
    encode_utf8_decode_utf8(reply.body);
    lemma_trimmed(json);
    reveal_strlit("text/event-stream");
    reveal_strlit("application/json");
    if prefers_stream(accept) {
        let kind = "text/event-stream"@;
        assert(kind.subrange(0, kind.len() as int) =~= kind);
        assert(text::occurs_at(kind, kind, 0));
        sse::law_stream_reads_back(json);
    } else {
        let kind = "application/json"@;
        assert(!text::contains(kind, "text/event-stream"@)) by {
            assert forall|at: int| !text::occurs_at(kind, "text/event-stream"@, at) by {}
        }
        reveal_strlit("event:");
        reveal_strlit("data:");
        assert("event:"@[0] == 'e' && "data:"@[0] == 'd');
        if "event:"@.is_prefix_of(json) {
            assert(json.take(6)[0] == json[0]);
        }
        if "data:"@.is_prefix_of(json) {
            assert(json.take(5)[0] == json[0]);
        }
    }
}

/// A reply that carries a JSON text.
pub fn downstream_text_response(
    accept: Option<&str>,
    status: u16,
    json: String,
    session_id: Option<String>,
) -> (reply: HttpReply)
    ensures
        reply@ == json_text_reply(
            json::text_option(accept),
            status,
            json@,
            text::optional(session_id),
        ),
{
    if wants_sse(accept) {
        let mut body = "data: ".to_owned();
        body.append(json.as_str());
        body.append("\n\n");
        HttpReply {
            status,
            content_type: Some("text/event-stream".to_owned()),
            www_authenticate: None,
            session_id,
            body,
        }
    } else {
        HttpReply {
            status,
            content_type: Some("application/json".to_owned()),
            www_authenticate: None,
            session_id,
            body: json,
        }
    }
}

/// A reply that carries a JSON value, or nothing. The reader of upstream answers reads the value
/// back from the reply, whether that is a stream or not, wherever the parser reads the value back
/// from its text.
pub fn downstream_response(
    accept: Option<&str>,
    status: u16,
    body: Option<&Json>,
    session_id: Option<String>,
) -> (reply: HttpReply)
    ensures
        reply@ == json_reply(
            json::text_option(accept),
            status,
            json::option_view(body),
            text::optional(session_id),
        ),
        body matches Some(value) ==> json::reads_back(value@, 127) ==> carries(reply@, value@),
{
    match body {
        Some(value) => {
            let written = value.to_text();
            proof {
                if json::reads_back(value@, 127) {
                    lemma_reply_reads_back(
                        json::text_option(accept),
                        status,
                        written@,
                        text::optional(session_id),
                        value@,
                    );
                }
            }
            downstream_text_response(accept, status, written, session_id)
        },
        None => HttpReply {
            status,
            content_type: None,
            www_authenticate: None,
            session_id,
            body: String::new(),
        },
    }
}

/// A client that takes streams and no JSON gets a stream, every other client gets JSON: the text as
/// it is, or as the data of one event. The status and the session are those that are given.
pub proof fn law_json_or_stream_as_the_client_accepts(
    accept: Option<Seq<char>>,
    status: u16,
    value: JsonView,
    session_id: Option<Seq<char>>,
)
    ensures
        ({
            let reply = json_reply(accept, status, Some(value), session_id);
            let streams = accept matches Some(kinds) && text::contains(kinds, "text/event-stream"@)
                && !text::contains(kinds, "application/json"@);
            &&& reply.status == status
            &&& reply.session_id == session_id
            &&& reply.www_authenticate is None
            &&& streams ==> reply.content_type == Some("text/event-stream"@) && reply.body
                == "data: "@ + json::json_text(value) + "\n\n"@
            &&& !streams ==> reply.content_type == Some("application/json"@) && reply.body
                == json::json_text(value)
        }),
{
}

/// Replies without a value are empty; replies in words are of the kind and in the words that are
/// given; who has not proved who they are is asked for a bearer token.
pub proof fn law_other_replies(
    accept: Option<Seq<char>>,
    status: u16,
    session_id: Option<Seq<char>>,
    kind: Seq<char>,
    words: Seq<char>,
)
    ensures
        ({
            let empty = json_reply(accept, status, None, session_id);
            &&& empty.status == status && empty.session_id == session_id
            &&& empty.body.len() == 0 && empty.content_type is None && empty.www_authenticate
                is None
        }),
        ({
            let bare = bare_reply(status);
            &&& bare.status == status && bare.session_id is None
            &&& bare.body.len() == 0 && bare.content_type is None && bare.www_authenticate is None
        }),
        ({
            let worded = text_reply(status, kind, words);
            &&& worded.status == status && worded.content_type == Some(kind) && worded.body == words
            &&& worded.session_id is None && worded.www_authenticate is None
        }),
        unauthorized().status == 401,
        unauthorized().www_authenticate == Some("Bearer"@),
        unauthorized().body.len() == 0,
        unauthorized().session_id is None,
        plain_text() == "text/plain; charset=utf-8"@,
{
}

/// A reply is seen as it is.
pub proof fn law_replies_are_seen_as_they_are(reply: HttpReply)
    ensures
        reply@.status == reply.status,
        reply@.body == reply.body@,
        reply.content_type matches Some(kind) ==> reply@.content_type == Some(kind@),
        reply.content_type is None ==> reply@.content_type is None,
        reply.www_authenticate matches Some(scheme) ==> reply@.www_authenticate == Some(scheme@),
        reply.www_authenticate is None ==> reply@.www_authenticate is None,
        reply.session_id matches Some(id) ==> reply@.session_id == Some(id@),
        reply.session_id is None ==> reply@.session_id is None,
{
}

} // verus!
