//! How a downstream client's request is answered.
use vstd::prelude::*;
use vstd::string::*;

use crate::auth;
use crate::auth::AuthDecision;
use crate::http;
use crate::http::{HttpReply, HttpReplyView};
use crate::json;
use crate::json::{Json, JsonView};
use crate::rpc;
use crate::state::{AppState, AppStateView};
use crate::text;
use crate::upstream;

verus! {

/// Does a message, or one of several, call this method?
pub open spec fn has_method(value: JsonView, method: Seq<char>) -> bool
    decreases value,
{
    match value {
        JsonView::Array(items) => some_has_method(items, method),
        _ => value.text_field("method"@) == Some(method),
    }
}

/// Does one of several messages call this method?
pub open spec fn some_has_method(items: Seq<JsonView>, method: Seq<char>) -> bool
    decreases items,
{
    items.len() > 0 && (some_has_method(items.drop_last(), method) || has_method(
        items.last(),
        method,
    ))
}

/// Does a message, or one of several, call this method?
pub fn value_has_method(value: &Json, method: &str) -> (yes: bool)
    ensures
        yes == has_method(value@, method@),
    decreases value,
{
    match value {
        Json::Array(items) => {
            proof {
                json::lemma_array_view(*items);
            }
            any_has_method(items, method)
        },
        _ => match value.get_str("method") {
            Some(called) => text::same_text(called, method),
            None => false,
        },
    }
}

fn any_has_method(items: &Vec<Json>, method: &str) -> (yes: bool)
    ensures
        yes == some_has_method(json::views(items@), method@),
    decreases items,
{
    let ghost all = json::views(items@);
    let mut found = false;
    let mut i: usize = 0;
    while i < items.len()
        invariant
            i <= items@.len(),
            all == json::views(items@),
            found == some_has_method(all.take(i as int), method@),
        decreases items@.len() - i,
    {
        assert(decreases_to!(items => items@[i as int]));
        let here = value_has_method(&items[i], method);
        found = found || here;
        assert(all.take(i + 1).drop_last() =~= all.take(i as int));
        i += 1;
    }
    assert(all.take(i as int) =~= all);
    found
}

/// Has the gateway welcomed a client in this answer, or in one of several?
pub open spec fn welcomed(value: JsonView) -> bool
    decreases value,
{
    match value {
        JsonView::Array(items) => some_welcomed(items),
        _ => value.field("error"@) is None && (value.field("result"@) matches Some(result)
            && result.field("serverInfo"@) matches Some(info) && info.text_field("name"@) == Some(
            "mcpstead"@,
        )),
    }
}

/// Has the gateway welcomed a client in one of several answers?
pub open spec fn some_welcomed(items: Seq<JsonView>) -> bool
    decreases items,
{
    items.len() > 0 && (some_welcomed(items.drop_last()) || welcomed(items.last()))
}

/// Has the gateway welcomed a client in this answer, or in one of several?
pub fn initialize_response_succeeded(value: &Json) -> (yes: bool)
    ensures
        yes == welcomed(value@),
    decreases value,
{
    match value {
        Json::Array(items) => {
            proof {
                json::lemma_array_view(*items);
            }
            any_response_succeeded(items)
        },
        _ => {
            if value.get("error").is_some() {
                return false;
            }
            let result = match value.get("result") {
                Some(result) => result,
                None => return false,
            };
            let info = match result.get("serverInfo") {
                Some(info) => info,
                None => return false,
            };
            match info.get_str("name") {
                Some(name) => text::same_text(name, "mcpstead"),
                None => false,
            }
        },
    }
}

fn any_response_succeeded(items: &Vec<Json>) -> (yes: bool)
    ensures
        yes == some_welcomed(json::views(items@)),
    decreases items,
{
    let ghost all = json::views(items@);
    let mut found = false;
    let mut i: usize = 0;
    while i < items.len()
        invariant
            i <= items@.len(),
            all == json::views(items@),
            found == some_welcomed(all.take(i as int)),
        decreases items@.len() - i,
    {
        assert(decreases_to!(items => items@[i as int]));
        let here = initialize_response_succeeded(&items[i]);
        found = found || here;
        assert(all.take(i + 1).drop_last() =~= all.take(i as int));
        i += 1;
    }
    assert(all.take(i as int) =~= all);
    found
}

/// Does a tool's result tell of a failure?
pub open spec fn tells_of_failure(result: JsonView) -> bool {
    result.field("isError"@) == Some(JsonView::Bool(true))
}

/// Does a tool's result tell of a failure?
pub fn upstream_tool_returned_error(result: &Json) -> (yes: bool)
    ensures
        yes == tells_of_failure(result@),
{
    match result.get("isError") {
        Some(Json::Bool(failed)) => *failed,
        _ => false,
    }
}

/// Why a tool call failed, by the words of the error. Capital and small letters are alike.
pub open spec fn error_category(error: Seq<char>) -> Seq<char> {
    let words = text::lower(error);
    if text::contains(words, "timeout"@) || text::contains(words, "timed out"@) {
        "upstream_timeout"@
    } else if text::contains(words, "http 401"@) || text::contains(words, "http 403"@)
        || text::contains(words, "unauthorized"@) {
        "upstream_auth_failed"@
    } else if text::contains(words, "json-rpc error"@) || text::contains(words, "not valid json"@)
        || text::contains(words, "sse"@) || text::contains(words, "request failed"@)
        || text::contains(words, "connection"@) || text::contains(words, "http"@) {
        "upstream_protocol_error"@
    } else {
        "internal"@
    }
}

/// Why a tool call failed.
pub fn categorize_tool_error(error: &str) -> (category: &'static str)
    ensures
        category@ == error_category(error@),
{
    let small = text::lowered(error);
    let words = small.as_str();
    if text::contains_text(words, "timeout") || text::contains_text(words, "timed out") {
        "upstream_timeout"
    } else if text::contains_text(words, "http 401") || text::contains_text(words, "http 403")
        || text::contains_text(words, "unauthorized") {
        "upstream_auth_failed"
    } else if text::contains_text(words, "json-rpc error") || text::contains_text(
        words,
        "not valid json",
    ) || text::contains_text(words, "sse") || text::contains_text(words, "request failed")
        || text::contains_text(words, "connection") || text::contains_text(words, "http") {
        "upstream_protocol_error"
    } else {
        "internal"
    }
}

/// The counting of one more MCP request.
pub open spec fn with_request(
    state: AppStateView,
    method: Seq<char>,
    result: Seq<char>,
    nanos: u64,
) -> AppStateView {
    AppStateView { metrics: state.metrics.with_request(method, result, nanos), ..state }
}

/// What a client sends with `POST`.
#[derive(Debug)]
pub struct PostRequest {
    pub authorization: Option<String>,
    pub session_id: Option<String>,
    pub accept: Option<String>,
    pub body: Vec<u8>,
}

/// What a client sends with `POST`, as mathematics.
pub struct PostRequestView {
    pub authorization: Option<Seq<char>>,
    pub session_id: Option<Seq<char>>,
    pub accept: Option<Seq<char>>,
    pub body: Seq<u8>,
}

impl View for PostRequest {
    type V = PostRequestView;

    open spec fn view(&self) -> PostRequestView {
        PostRequestView {
            authorization: text::optional(self.authorization),
            session_id: text::optional(self.session_id),
            accept: text::optional(self.accept),
            body: self.body@,
        }
    }
}

/// What is kept after a client was let in: the session that it names was used just now.
pub open spec fn let_in(
    state: AppStateView,
    header: Option<Seq<char>>,
    session_id: Option<Seq<char>>,
    now: u64,
) -> AppStateView {
    let decided = auth::after_decision(state, header);
    match session_id {
        Some(id) => decided.with_session_touched(id, now),
        None => decided,
    }
}

/// The session that a request names, white space at its ends aside.
pub open spec fn trimmed_session(session_id: Option<Seq<char>>) -> Option<Seq<char>> {
    match session_id {
        Some(id) => Some(text::trim(id)),
        None => None,
    }
}

/// What a request carries, where `parsed` is what the JSON parser makes of its body, and what is
/// kept. A client may not introduce itself to a gateway that is shutting down.
pub open spec fn carried(
    state: AppStateView,
    accept: Option<Seq<char>>,
    parsed: Result<JsonView, Seq<char>>,
    nanos: u64,
) -> (Result<JsonView, HttpReplyView>, AppStateView) {
    match parsed {
        Err(error) => {
            let answer = rpc::error_of(JsonView::Null, rpc::JSONRPC_PARSE_ERROR as int, error);
            (
                Err(http::json_reply(accept, 200, Some(answer), None)),
                with_request(state, "invalid"@, "error"@, nanos),
            )
        },
        Ok(value) => if has_method(value, "initialize"@) && !state.accepting {
            (
                Err(http::text_reply(503, http::plain_text(), "gateway shutting down"@)),
                with_request(state, "initialize"@, "error"@, nanos),
            )
        } else {
            (Ok(value), state)
        },
    }
}

/// What becomes of a request at the door: the value that it carries, or the reply that turns it
/// away; and what is kept.
pub open spec fn opened(
    state: AppStateView,
    request: PostRequestView,
    started: u64,
    now: u64,
) -> (Result<JsonView, HttpReplyView>, AppStateView) {
    let nanos = upstream::span(started, now);
    if auth::state_decision(state, request.authorization) is Deny {
        let decided = auth::after_decision(state, request.authorization);
        (Err(http::unauthorized()), with_request(decided, "unknown"@, "error"@, nanos))
    } else {
        let session_id = trimmed_session(request.session_id);
        carried(
            let_in(state, request.authorization, session_id, now),
            request.accept,
            json::json_of_bytes(request.body),
            nanos,
        )
    }
}

/// What the door gives.
pub open spec fn opened_view(result: Result<Json, HttpReply>) -> Result<JsonView, HttpReplyView> {
    match result {
        Ok(value) => Ok(value@),
        Err(reply) => Err(reply@),
    }
}

/// A borrowed text in place of an owned one.
pub(crate) fn borrowed(text: &Option<String>) -> (part: Option<&str>)
    ensures
        json::text_option(part) == text::optional(*text),
{
    match text {
        Some(text) => Some(text.as_str()),
        None => None,
    }
}

/// What a request carries, where `parsed` is what the JSON parser makes of its body.
pub fn read_post(
    state: &mut AppState,
    accept: Option<&str>,
    parsed: Result<Json, String>,
    nanos: u64,
) -> (result: Result<Json, HttpReply>)
    requires
        old(state).wf(),
    ensures
        final(state).wf(),
        (opened_view(result), final(state)@) == carried(
            old(state)@,
            json::text_option(accept),
            json::parsed_view(parsed),
            nanos,
        ),
{
    let value = match parsed {
        Ok(value) => value,
        Err(error) => {
            state.metrics.record_mcp_request("invalid", "error", nanos);
            let answer = rpc::json_rpc_error(Json::Null, rpc::JSONRPC_PARSE_ERROR, error.as_str());
            return Err(http::downstream_response(accept, 200, Some(&answer), None));
        },
    };
    if value_has_method(&value, "initialize") && !state.accepting_new_sessions() {
        state.metrics.record_mcp_request("initialize", "error", nanos);
        return Err(
            http::worded_reply(
                503,
                "text/plain; charset=utf-8",
                "gateway shutting down".to_owned(),
            ),
        );
    }
    Ok(value)
}

/// Lets a request in, or turns it away.
pub fn open_post(state: &mut AppState, request: &PostRequest, started: u64, now: u64) -> (result:
    Result<Json, HttpReply>)
    requires
        old(state).wf(),
    ensures
        final(state).wf(),
        (opened_view(result), final(state)@) == opened(old(state)@, request@, started, now),
{
    let nanos: u64 = upstream::elapsed(started, now);
    if let AuthDecision::Deny(_) = auth::authorize(state, borrowed(&request.authorization)) {
        state.metrics.record_mcp_request("unknown", "error", nanos);
        return Err(http::unauthorized_response());
    }
    if let Some(session_id) = &request.session_id {
        let id = text::trimmed(session_id.as_str());
        state.touch_session(id.as_str(), now);
    }
    read_post(state, borrowed(&request.accept), Json::parse(request.body.as_slice()), nanos)
}

/// What a client that asks for the gateway's own messages is told, and what is kept.
pub open spec fn listened(
    state: AppStateView,
    header: Option<Seq<char>>,
    session_id: Option<Seq<char>>,
    nanos: u64,
    now: u64,
) -> (HttpReplyView, AppStateView) {
    if auth::state_decision(state, header) is Deny {
        (
            http::unauthorized(),
            with_request(auth::after_decision(state, header), "listen"@, "error"@, nanos),
        )
    } else {
        (
            http::text_reply(
                405,
                http::plain_text(),
                "server notifications are not implemented"@,
            ),
            with_request(let_in(state, header, session_id, now), "listen"@, "error"@, nanos),
        )
    }
}

/// What a client that asks for the gateway's own messages is told: there are none.
pub fn get_mcp(
    state: &mut AppState,
    authorization: Option<&str>,
    session_id: Option<&str>,
    started: u64,
    now: u64,
) -> (reply: HttpReply)
    requires
        old(state).wf(),
    ensures
        final(state).wf(),
        (reply@, final(state)@) == listened(
            old(state)@,
            json::text_option(authorization),
            json::text_option(session_id),
            upstream::span(started, now),
            now,
        ),
{
    let nanos: u64 = upstream::elapsed(started, now);
    if let AuthDecision::Deny(_) = auth::authorize(state, authorization) {
        state.metrics.record_mcp_request("listen", "error", nanos);
        return http::unauthorized_response();
    }
    if let Some(id) = session_id {
        state.touch_session(id, now);
    }
    state.metrics.record_mcp_request("listen", "error", nanos);
    http::worded_reply(
        405,
        "text/plain; charset=utf-8",
        "server notifications are not implemented".to_owned(),
    )
}

/// What a client that ends its session is told, and what is kept.
pub open spec fn parted(
    state: AppStateView,
    header: Option<Seq<char>>,
    session_id: Option<Seq<char>>,
    nanos: u64,
) -> (HttpReplyView, AppStateView) {
    let decided = auth::after_decision(state, header);
    if auth::state_decision(state, header) is Deny {
        (http::unauthorized(), with_request(decided, "terminate"@, "error"@, nanos))
    } else {
        let ended = match session_id {
            Some(id) => decided.with_session_ended(id, "client_delete"@),
            None => decided,
        };
        (http::bare_reply(202), with_request(ended, "terminate"@, "success"@, nanos))
    }
}

/// Ends the session of a client.
pub fn delete_mcp(
    state: &mut AppState,
    authorization: Option<&str>,
    session_id: Option<&str>,
    started: u64,
    now: u64,
) -> (reply: HttpReply)
    requires
        old(state).wf(),
    ensures
        final(state).wf(),
        (reply@, final(state)@) == parted(
            old(state)@,
            json::text_option(authorization),
            json::text_option(session_id),
            upstream::span(started, now),
        ),
{
    let nanos: u64 = upstream::elapsed(started, now);
    if let AuthDecision::Deny(_) = auth::authorize(state, authorization) {
        state.metrics.record_mcp_request("terminate", "error", nanos);
        return http::unauthorized_response();
    }
    if let Some(id) = session_id {
        state.terminate_session(id, "client_delete");
    }
    state.metrics.record_mcp_request("terminate", "success", nanos);
    http::status_reply(202)
}

/// A gateway that is shutting down lets no client introduce itself: the request is refused, and no
/// session is opened.
pub proof fn law_shutdown_refuses_introductions(
    state: AppStateView,
    accept: Option<Seq<char>>,
    value: JsonView,
    nanos: u64,
)
    requires
        !state.accepting,
        has_method(value, "initialize"@),
    ensures
        ({
            let (refused, kept) = carried(state, accept, Ok(value), nanos);
            &&& refused matches Err(reply) && reply.status == 503 && reply.body
                == "gateway shutting down"@
            &&& kept.sessions == state.sessions
        }),
{
}

/// A client that has not proved who it is is told so, whatever it asks for, and changes nothing but
/// the counters.
pub proof fn law_unauthorized_changes_nothing(
    state: AppStateView,
    request: PostRequestView,
    started: u64,
    now: u64,
)
    requires
        auth::state_decision(state, request.authorization) is Deny,
    ensures
        ({
            let (posted, after_post) = opened(state, request, started, now);
            let (heard, after_get) = listened(
                state,
                request.authorization,
                request.session_id,
                upstream::span(started, now),
                now,
            );
            let (ended, after_delete) = parted(
                state,
                request.authorization,
                request.session_id,
                upstream::span(started, now),
            );
            &&& posted == Err::<JsonView, HttpReplyView>(http::unauthorized())
            &&& heard == http::unauthorized()
            &&& ended == http::unauthorized()
            &&& after_post == (AppStateView { metrics: after_post.metrics, ..state })
            &&& after_get == (AppStateView { metrics: after_get.metrics, ..state })
            &&& after_delete == (AppStateView { metrics: after_delete.metrics, ..state })
        }),
{
}

proof fn lemma_some_has_method(items: Seq<JsonView>, method: Seq<char>)
    ensures
        some_has_method(items, method) <==> exists|i: int|
            0 <= i < items.len() && #[trigger] has_method(items[i], method),
    decreases items.len(),
{
    if items.len() > 0 {
        let shorter = items.drop_last();
        lemma_some_has_method(shorter, method);
        if some_has_method(shorter, method) {
            let i = choose|i: int| 0 <= i < shorter.len() && #[trigger] has_method(
                shorter[i],
                method,
            );
            assert(has_method(items[i], method));
        }
        if has_method(items.last(), method) {
            assert(has_method(items[items.len() - 1], method));
        }
        if exists|i: int| 0 <= i < items.len() && #[trigger] has_method(items[i], method) {
            let i = choose|i: int| 0 <= i < items.len() && #[trigger] has_method(items[i], method);
            if i < shorter.len() {
                assert(has_method(shorter[i], method));
            }
        }
    }
}

proof fn lemma_some_welcomed(items: Seq<JsonView>)
    ensures
        some_welcomed(items) <==> exists|i: int|
            0 <= i < items.len() && #[trigger] welcomed(items[i]),
    decreases items.len(),
{
    if items.len() > 0 {
        let shorter = items.drop_last();
        lemma_some_welcomed(shorter);
        if some_welcomed(shorter) {
            let i = choose|i: int| 0 <= i < shorter.len() && #[trigger] welcomed(shorter[i]);
            assert(welcomed(items[i]));
        }
        if welcomed(items.last()) {
            assert(welcomed(items[items.len() - 1]));
        }
        if exists|i: int| 0 <= i < items.len() && #[trigger] welcomed(items[i]) {
            let i = choose|i: int| 0 <= i < items.len() && #[trigger] welcomed(items[i]);
            if i < shorter.len() {
                assert(welcomed(shorter[i]));
            }
        }
    }
}

/// A message calls the method that it names, and several messages call a method if one of them
/// does.
pub proof fn law_methods_of_messages(value: JsonView, method: Seq<char>)
    ensures
        value matches JsonView::Array(items) ==> (has_method(value, method) <==> exists|i: int|
            0 <= i < items.len() && #[trigger] has_method(items[i], method)),
        !(value is Array) ==> (has_method(value, method) <==> value.text_field("method"@) == Some(
            method,
        )),
{
    if let JsonView::Array(items) = value {
        lemma_some_has_method(items, method);
    }
}

/// A client is welcomed by an answer without an error whose result names the gateway, and by
/// several answers if one of them welcomes it.
pub proof fn law_what_welcomes_a_client(value: JsonView)
    ensures
        value matches JsonView::Array(items) ==> (welcomed(value) <==> exists|i: int|
            0 <= i < items.len() && #[trigger] welcomed(items[i])),
        !(value is Array) ==> (welcomed(value) <==> value.field("error"@) is None && (value.field(
            "result"@,
        ) matches Some(result) && result.field("serverInfo"@) matches Some(info)
            && info.text_field("name"@) == Some("mcpstead"@))),
{
    if let JsonView::Array(items) = value {
        lemma_some_welcomed(items);
    }
}

/// A result tells of a failure exactly if it says so.
pub proof fn law_what_tells_of_a_failure(result: JsonView)
    ensures
        tells_of_failure(result) <==> result.field("isError"@) == Some(JsonView::Bool(true)),
        result.field("isError"@) is None ==> !tells_of_failure(result),
{
}

/// A word that stands in a text stands in it.
proof fn lemma_stands_between(before: Seq<char>, word: Seq<char>, after: Seq<char>)
    ensures
        text::contains(text::lower(before + word + after), text::lower(word)),
{
    let whole = text::lower(before + word + after);
    let n = before.len() as int;
    assert(whole.subrange(n, n + word.len()) =~= text::lower(word));
    assert(text::occurs_at(whole, text::lower(word), n));
}

/// Errors are told apart by the words in them, in capital or in small letters: those of time that
/// ran out first, then those of refused access, then those of the protocol. Errors that say none of
/// this are the gateway's own.
pub proof fn law_errors_are_told_apart_by_words(
    before: Seq<char>,
    word: Seq<char>,
    after: Seq<char>,
)
    ensures
        ({
            let error = before + word + after;
            let words = text::lower(error);
            let late = text::contains(words, "timeout"@) || text::contains(words, "timed out"@);
            let refused = text::contains(words, "http 401"@) || text::contains(words, "http 403"@)
                || text::contains(words, "unauthorized"@);
            let small = text::lower(word);
            &&& small == "timeout"@ || small == "timed out"@ ==> error_category(error)
                == "upstream_timeout"@
            &&& !late && (small == "http 401"@ || small == "http 403"@ || small == "unauthorized"@)
                ==> error_category(error) == "upstream_auth_failed"@
            &&& !late && !refused && (small == "json-rpc error"@ || small == "not valid json"@
                || small == "sse"@ || small == "request failed"@ || small == "connection"@ || small
                == "http"@) ==> error_category(error) == "upstream_protocol_error"@
            &&& !late && !refused && !text::contains(words, "json-rpc error"@) && !text::contains(
                words,
                "not valid json"@,
            ) && !text::contains(words, "sse"@) && !text::contains(words, "request failed"@)
                && !text::contains(words, "connection"@) && !text::contains(words, "http"@)
                ==> error_category(error) == "internal"@
        }),
{
    lemma_stands_between(before, word, after);
}

/// Errors that differ only in capital and small letters are of one kind.
pub proof fn law_errors_are_alike_in_capitals(a: Seq<char>, b: Seq<char>)
    requires
        text::lower(a) == text::lower(b),
    ensures
        error_category(a) == error_category(b),
{
}

/// A client that is let in hands over what its body holds, unless it introduces itself to a gateway
/// that is shutting down. A body that is no JSON is answered with the parser's complaint.
pub proof fn law_who_is_let_in_hands_over_the_body(
    state: AppStateView,
    request: PostRequestView,
    started: u64,
    now: u64,
)
    requires
        auth::state_decision(state, request.authorization) == AuthDecision::Allow,
    ensures
        ({
            let (value, kept) = opened(state, request, started, now);
            match json::json_of_bytes(request.body) {
                Ok(held) => if has_method(held, "initialize"@) && !state.accepting {
                    value matches Err(reply) && reply.status == 503 && reply.body
                        == "gateway shutting down"@ && reply.session_id is None
                } else {
                    value == Ok::<JsonView, HttpReplyView>(held)
                },
                Err(why) => exists|answer: JsonView| #[trigger]
                    parse_failure(answer, why) && value == Err::<JsonView, HttpReplyView>(
                        http::json_reply(request.accept, 200, Some(answer), None),
                    ),
            }
        }),
{
    if let Err(why) = json::json_of_bytes(request.body) {
        let answer = rpc::error_of(JsonView::Null, -32700, why);
        rpc::lemma_error_fields(JsonView::Null, -32700, why);
        assert(parse_failure(answer, why));
    }
}

/// Is this the answer to a body that is no JSON, with the parser's complaint?
pub open spec fn parse_failure(answer: JsonView, why: Seq<char>) -> bool {
    &&& answer.field("id"@) == Some(JsonView::Null)
    &&& answer.field("result"@) is None
    &&& answer.field("error"@) matches Some(error) && error.field("code"@) == Some(
        JsonView::Number(json::int_number(-32700)),
    ) && error.text_field("message"@) == Some(why)
}

/// Whoever is let in uses the session that is named, white space at its ends aside; other sessions
/// are not touched, none is opened and none is ended.
pub proof fn law_who_is_let_in_uses_the_session(
    state: AppStateView,
    request: PostRequestView,
    started: u64,
    now: u64,
    other: Seq<char>,
)
    requires
        auth::state_decision(state, request.authorization) == AuthDecision::Allow,
    ensures
        ({
            let kept = opened(state, request, started, now).1;
            &&& kept.sessions.dom() == state.sessions.dom()
            &&& request.session_id matches Some(id) ==> {
                &&& state.sessions.contains_key(text::trim(id)) ==> kept.sessions[text::trim(
                    id,
                )].last_activity == now && kept.sessions[text::trim(id)].created_at
                    == state.sessions[text::trim(id)].created_at
                &&& other != text::trim(id) ==> kept.sessions[other] == state.sessions[other]
            }
            &&& request.session_id is None ==> kept.sessions == state.sessions
            &&& kept.servers == state.servers
        }),
{
    let kept = opened(state, request, started, now).1;
    assert(kept.sessions.dom() =~= state.sessions.dom());
}

/// A client that is let in and asks for the gateway's own messages is told that there are none, and
/// uses its session. One that ends its session is told so; that session is then gone, and no other.
pub proof fn law_listening_and_leaving(
    state: AppStateView,
    header: Option<Seq<char>>,
    id: Seq<char>,
    other: Seq<char>,
    nanos: u64,
    now: u64,
)
    requires
        auth::state_decision(state, header) == AuthDecision::Allow,
        other != id,
    ensures
        ({
            let (reply, kept) = listened(state, header, Some(id), nanos, now);
            &&& reply.status == 405 && reply.body == "server notifications are not implemented"@
            &&& kept.sessions.dom() == state.sessions.dom()
            &&& state.sessions.contains_key(id) ==> kept.sessions[id].last_activity == now
            &&& kept.sessions[other] == state.sessions[other]
            &&& listened(state, header, None, nanos, now).1.sessions == state.sessions
        }),
        ({
            let (reply, kept) = parted(state, header, Some(id), nanos);
            &&& reply.status == 202 && reply.body.len() == 0
            &&& !kept.sessions.contains_key(id)
            &&& kept.sessions.contains_key(other) <==> state.sessions.contains_key(other)
            &&& kept.sessions[other] == state.sessions[other]
            &&& parted(state, header, None, nanos).1.sessions == state.sessions
            &&& kept.servers == state.servers
        }),
{
    let kept = listened(state, header, Some(id), nanos, now).1;
    assert(kept.sessions.dom() =~= state.sessions.dom());
}

/// The requests to listen and to leave are counted, by what came of them.
pub proof fn law_listening_and_leaving_are_counted(
    state: AppStateView,
    header: Option<Seq<char>>,
    session_id: Option<Seq<char>>,
    nanos: u64,
    now: u64,
)
    ensures
        ({
            let allowed = auth::state_decision(state, header) == AuthDecision::Allow;
            let decided = auth::after_decision(state, header);
            let heard = crate::metrics::key(
                crate::metrics::Family::McpRequests,
                "listen"@,
                "error"@,
            );
            let left = crate::metrics::key(
                crate::metrics::Family::McpRequests,
                "terminate"@,
                if allowed {
                    "success"@
                } else {
                    "error"@
                },
            );
            &&& listened(state, header, session_id, nanos, now).1.metrics.counters[heard]
                == crate::metrics::counted(decided.metrics.counters[heard], 1)
            &&& parted(state, header, session_id, nanos).1.metrics.counters[left]
                == crate::metrics::counted(decided.metrics.counters[left], 1)
        }),
{
}

/// A request that is turned away at the door is counted as an error: without a method where the
/// client has not proved who it is, as invalid where its body is no JSON, and as an introduction
/// where the gateway is shutting down. One that is let in is not counted there.
pub proof fn law_requests_turned_away_are_counted(
    state: AppStateView,
    request: PostRequestView,
    started: u64,
    now: u64,
)
    ensures
        ({
            let decided = auth::after_decision(state, request.authorization);
            let (value, kept) = opened(state, request, started, now);
            let method = if auth::state_decision(state, request.authorization) is Deny {
                "unknown"@
            } else if json::json_of_bytes(request.body) is Err {
                "invalid"@
            } else {
                "initialize"@
            };
            let count = crate::metrics::key(
                crate::metrics::Family::McpRequests,
                method,
                "error"@,
            );
            let time = crate::metrics::key(
                crate::metrics::Family::McpRequestNanos,
                method,
                "error"@,
            );
            &&& value is Ok ==> kept.metrics == decided.metrics
            &&& value is Err ==> kept.metrics.tool_calls == decided.metrics.tool_calls
                && kept.metrics.counters == decided.metrics.counters.insert(
                count,
                crate::metrics::counted(decided.metrics.counters[count], 1),
            ).insert(
                time,
                crate::metrics::counted(
                    decided.metrics.counters[time],
                    upstream::span(started, now),
                ),
            )
        }),
{
}

/// A session that a client ends is counted as ended by the client.
pub proof fn law_ended_sessions_are_counted(
    state: AppStateView,
    header: Option<Seq<char>>,
    id: Seq<char>,
    nanos: u64,
)
    requires
        auth::state_decision(state, header) == AuthDecision::Allow,
        state.sessions.contains_key(id),
    ensures
        ({
            let decided = auth::after_decision(state, header);
            let ended = crate::metrics::key(
                crate::metrics::Family::SessionTerminations,
                "client_delete"@,
                Seq::empty(),
            );
            parted(state, header, Some(id), nanos).1.metrics.counters[ended]
                == crate::metrics::counted(decided.metrics.counters[ended], 1)
        }),
{
}

} // verus!
