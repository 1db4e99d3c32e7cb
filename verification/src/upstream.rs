//! What is sent to an upstream server, and what its answer means.
use std::time::Duration;

use vstd::arithmetic::power2::*;
use vstd::prelude::*;
use vstd::string::*;
use vstd::utf8::*;

use crate::config;
use crate::config::{ReconnectConfig, ServerConfig, ServerConfigView};
use crate::json;
use crate::json::{Json, JsonView};
use crate::message;
use crate::metrics;
use crate::metrics::Family;
use crate::sse;
use crate::state::{AppState, AppStateView};
use crate::table;
use crate::table::Table;
use crate::text;

verus! {

/// How many milliseconds to wait after a number of failures in a row: twice as many after each, up
/// to a limit, and at least one.
pub open spec fn backoff_millis(reconnect: ReconnectConfig, failures: u32) -> int {
    let doublings = vstd::math::min(vstd::math::max(failures - 1, 0), 20);
    vstd::math::max(
        1,
        vstd::math::min(
            reconnect.backoff_base_ms * pow2(doublings as nat),
            reconnect.backoff_max_ms as int,
        ),
    )
}

/// How many milliseconds to wait after a number of failures in a row.
pub fn backoff_wait(reconnect: &ReconnectConfig, failures: u32) -> (millis: u64)
    ensures
        millis == backoff_millis(*reconnect, failures),
{
    let less: u32 = failures.saturating_sub(1);
    let exponent: u32 = if less < 20 {
        less
    } else {
        20
    };
    proof {
        lemma2_to64();
        lemma_pow2_pos(exponent as nat);
        if exponent < 20 {
            lemma_pow2_strictly_increases(exponent as nat, 20);
        }
        vstd::bits::lemma_u64_shl_is_mul(1, exponent as u64);
    }
    let multiplier: u64 = 1u64 << exponent;
    let millis: u64 = match reconnect.backoff_base_ms.checked_mul(multiplier) {
        Some(millis) => millis,
        None => u64::MAX,
    };
    let millis: u64 = if millis < reconnect.backoff_max_ms {
        millis
    } else {
        reconnect.backoff_max_ms
    };
    if millis < 1 {
        1
    } else {
        millis
    }
}

/// A span of so many milliseconds, as `std::time::Duration::from_millis` makes it.
pub uninterp spec fn span_of_millis(millis: u64) -> Duration;

/// `std::time::Duration::from_millis`: the span is the one that the number of milliseconds stands
/// for, and no other number stands for it.
pub assume_specification[ std::time::Duration::from_millis ](millis: u64) -> (span: Duration)
    ensures
        span == span_of_millis(millis),
        forall|other: u64| #[trigger] span_of_millis(other) == span ==> other == millis,
;

/// How long to wait after a number of failures in a row.
pub fn backoff_delay(config: &ReconnectConfig, failures: u32) -> (delay: Duration)
    ensures
        delay == span_of_millis(backoff_millis(*config, failures) as u64),
{
    Duration::from_millis(backoff_wait(config, failures))
}

/// How long something has taken. A clock that seems to have gone back shows no time.
pub open spec fn span(started: u64, now: u64) -> u64 {
    if now < started {
        0
    } else {
        (now - started) as u64
    }
}

/// How long something has taken.
pub fn elapsed(started: u64, now: u64) -> (nanos: u64)
    ensures
        nanos == span(started, now),
{
    now.saturating_sub(started)
}

/// A request to an upstream server. Its headers are, in this order, the content type, what the
/// gateway accepts, the session, the bearer token and the server's own ones.
#[derive(Debug)]
pub struct UpstreamRequest {
    pub url: String,
    pub skip_verify: bool,
    pub content_type: String,
    pub accept: String,
    pub session_id: Option<String>,
    pub bearer_token: Option<String>,
    pub headers: Vec<(String, String)>,
    pub body: String,
}

/// A request to an upstream server, as mathematics.
pub struct UpstreamRequestView {
    pub url: Seq<char>,
    pub skip_verify: bool,
    pub content_type: Seq<char>,
    pub accept: Seq<char>,
    pub session_id: Option<Seq<char>>,
    pub bearer_token: Option<Seq<char>>,
    pub headers: Seq<(Seq<char>, Seq<char>)>,
    pub body: Seq<char>,
}

/// What pairs of texts hold.
pub open spec fn text_pairs(pairs: Seq<(String, String)>) -> Seq<(Seq<char>, Seq<char>)> {
    pairs.map_values(|pair: (String, String)| (pair.0@, pair.1@))
}

impl View for UpstreamRequest {
    type V = UpstreamRequestView;

    open spec fn view(&self) -> UpstreamRequestView {
        UpstreamRequestView {
            url: self.url@,
            skip_verify: self.skip_verify,
            content_type: self.content_type@,
            accept: self.accept@,
            session_id: text::optional(self.session_id),
            bearer_token: text::optional(self.bearer_token),
            headers: text_pairs(self.headers@),
            body: self.body@,
        }
    }
}

/// The entries of a map in the order of their names.
pub open spec fn in_name_order(map: Map<Seq<char>, Seq<char>>) -> Seq<(Seq<char>, Seq<char>)> {
    table::in_order(map.dom()).map_values(|name: Seq<char>| (name, map[name]))
}

/// The entries of a table in the order of their names.
fn listed(entries: &Table<String>) -> (list: Vec<(String, String)>)
    requires
        entries.wf(),
    ensures
        text_pairs(list@) == in_name_order(config::text_map(*entries)),
{
    let ghost names = entries.names();
    let ghost map = config::text_map(*entries);
    proof {
        entries.lemma_names();
        assert(map.dom() =~= entries.map().dom());
    }
    let mut list: Vec<(String, String)> = Vec::new();
    let mut i: usize = 0;
    while i < entries.len()
        invariant
            entries.wf(),
            i <= names.len(),
            names == entries.names(),
            map == config::text_map(*entries),
            forall|name: Seq<char>|
                names.contains(name) <==> #[trigger] entries.map().contains_key(name),
            list@.len() == i,
            forall|k: int|
                0 <= k < i ==> (#[trigger] list@[k]).0@ == names[k] && list@[k].1@ == map[names[k]],
        decreases names.len() - i,
    {
        let name = entries.name_at(i);
        let value = entries.value_at(i);
        proof {
            assert(names.contains(name@));
            assert(map[name@] == value@);
        }
        list.push((name.clone(), value.clone()));
        i += 1;
    }
    assert(text_pairs(list@) =~= in_name_order(map));
    list
}

/// What the server accepts.
pub open spec fn accepted(server: ServerConfigView) -> Seq<char> {
    match server.inject_accept_header {
        Some(own) => own,
        None => config::DEFAULT_ACCEPT@,
    }
}

/// The request that carries a JSON text to a server, where `variables` is what environment
/// variables hold.
pub open spec fn text_request_to(
    server: ServerConfigView,
    session_id: Option<Seq<char>>,
    written: Seq<char>,
    variables: Map<Seq<char>, Seq<char>>,
) -> Result<UpstreamRequestView, Seq<char>> {
    match config::bearer_token_of(server, variables) {
        Err(fault) => Err(config::fault_text(fault)),
        Ok(bearer_token) => Ok(
            UpstreamRequestView {
                url: server.url,
                skip_verify: server.tls_skip_verify,
                content_type: "application/json"@,
                accept: accepted(server),
                session_id,
                bearer_token,
                headers: in_name_order(server.headers),
                body: written,
            },
        ),
    }
}

/// The request that carries `body` to a server.
pub open spec fn request_to(
    server: ServerConfigView,
    session_id: Option<Seq<char>>,
    body: JsonView,
    variables: Map<Seq<char>, Seq<char>>,
) -> Result<UpstreamRequestView, Seq<char>> {
    text_request_to(server, session_id, json::json_text(body), variables)
}

/// What is kept after so many bytes went to, or came from, a server.
pub open spec fn with_bytes(
    state: AppStateView,
    server: Seq<char>,
    direction: Seq<char>,
    bytes: nat,
) -> AppStateView {
    AppStateView {
        metrics: state.metrics.plus(
            metrics::key(Family::UpstreamBytes, server, direction),
            bytes as u64,
        ),
        ..state
    }
}

/// What is kept after a JSON text was made ready for a server.
pub open spec fn after_text_send(
    state: AppStateView,
    server: ServerConfigView,
    written: Seq<char>,
) -> AppStateView {
    with_bytes(state, server.name, "sent"@, encode_utf8(written).len())
}

/// What is kept after `body` was made ready for a server.
pub open spec fn after_send(
    state: AppStateView,
    server: ServerConfigView,
    body: JsonView,
) -> AppStateView {
    after_text_send(state, server, json::json_text(body))
}

/// What a request is, or why there is none.
pub open spec fn request_view(request: Result<UpstreamRequest, String>) -> Result<
    UpstreamRequestView,
    Seq<char>,
> {
    match request {
        Ok(made) => Ok(made@),
        Err(error) => Err(error@),
    }
}

/// The request that carries a JSON text to a server, with the token that its environment variable
/// held when the configuration took effect. The bytes are counted even where the token is missing
/// and nothing can be sent.
pub fn send_upstream_text(
    state: &mut AppState,
    server: &ServerConfig,
    session_id: Option<&str>,
    written: String,
) -> (request: Result<UpstreamRequest, String>)
    requires
        old(state).wf(),
        server.wf(),
    ensures
        final(state).wf(),
        final(state)@ == after_text_send(old(state)@, server@, written@),
        request_view(request) == text_request_to(
            server@,
            json::text_option(session_id),
            written@,
            old(state)@.variables,
        ),
        request matches Ok(made) ==> {
            &&& made.url@ == server.url@
            &&& made.body@ == written@
            &&& made.skip_verify == server.tls_skip_verify
            &&& server.quirks.inject_accept_header matches Some(own) ==> made.accept@ == own@
        },
{
    let bytes: usize = written.as_str().as_bytes().len();
    state.metrics.record_upstream_bytes(server.name.as_str(), "sent", bytes as u64);
    let bearer_token = match server.bearer_token(&state.variables) {
        Ok(token) => token,
        Err(error) => return Err(error.message()),
    };
    let session_id = match session_id {
        Some(id) => Some(id.to_owned()),
        None => None,
    };
    Ok(
        UpstreamRequest {
            url: server.url.clone(),
            skip_verify: server.tls_skip_verify,
            content_type: "application/json".to_owned(),
            accept: server.accept_header().to_owned(),
            session_id,
            bearer_token,
            headers: listed(&server.headers),
            body: written,
        },
    )
}

/// The request that carries `body` to a server.
pub fn send_upstream_body(
    state: &mut AppState,
    server: &ServerConfig,
    session_id: Option<&str>,
    body: &Json,
) -> (request: Result<UpstreamRequest, String>)
    requires
        old(state).wf(),
        server.wf(),
    ensures
        final(state).wf(),
        final(state)@ == after_send(old(state)@, server@, body@),
        request_view(request) == request_to(
            server@,
            json::text_option(session_id),
            body@,
            old(state)@.variables,
        ),
{
    send_upstream_text(state, server, session_id, body.to_text())
}

/// What a server answered.
#[derive(Debug)]
pub struct UpstreamResponse {
    pub status: u16,
    pub session_id: Option<String>,
    pub content_type: Option<String>,
    pub body: Vec<u8>,
}

/// What a server answered, as mathematics.
pub struct UpstreamResponseView {
    pub status: u16,
    pub session_id: Option<Seq<char>>,
    pub content_type: Option<Seq<char>>,
    pub body: Seq<u8>,
}

impl View for UpstreamResponse {
    type V = UpstreamResponseView;

    open spec fn view(&self) -> UpstreamResponseView {
        UpstreamResponseView {
            status: self.status,
            session_id: text::optional(self.session_id),
            content_type: text::optional(self.content_type),
            body: self.body@,
        }
    }
}

/// What came of a request.
#[derive(Debug)]
pub enum Outcome {
    /// No request could be made, for this reason.
    Unprepared(String),
    /// The request did not get through.
    NotSent,
    /// The answer could not be read to its end, for this reason.
    Cut(String),
    /// The server answered.
    Response(UpstreamResponse),
}

/// What came of a request, as mathematics.
pub enum OutcomeView {
    Unprepared(Seq<char>),
    NotSent,
    Cut(Seq<char>),
    Response(UpstreamResponseView),
}

impl View for Outcome {
    type V = OutcomeView;

    open spec fn view(&self) -> OutcomeView {
        match self {
            Outcome::Unprepared(error) => OutcomeView::Unprepared(error@),
            Outcome::NotSent => OutcomeView::NotSent,
            Outcome::Cut(error) => OutcomeView::Cut(error@),
            Outcome::Response(response) => OutcomeView::Response(response@),
        }
    }
}

/// What an answer carries.
#[derive(Debug)]
pub struct Reply {
    pub session_id: Option<String>,
    pub body: Option<Json>,
}

/// What an answer carries, as mathematics.
pub struct ReplyView {
    pub session_id: Option<Seq<char>>,
    pub body: Option<JsonView>,
}

impl View for Reply {
    type V = ReplyView;

    open spec fn view(&self) -> ReplyView {
        ReplyView {
            session_id: text::optional(self.session_id),
            body: match self.body {
                Some(body) => Some(body@),
                None => None,
            },
        }
    }
}

/// What an answer carries, or what is wrong with it.
pub open spec fn reply_view(reply: Result<Reply, String>) -> Result<ReplyView, Seq<char>> {
    match reply {
        Ok(reply) => Ok(reply@),
        Err(error) => Err(error@),
    }
}

/// The text that bytes spell, each part that is not UTF-8 replaced, as
/// `std::string::String::from_utf8_lossy` does it.
pub uninterp spec fn lossy_text(bytes: Seq<u8>) -> Seq<char>;

/// `std::string::String::from_utf8_lossy`: bytes that are UTF-8 give their own text. What stands
/// for those that are not is left to its name.
#[verifier::external_body]
fn text_from_utf8_lossy(bytes: &[u8]) -> (text: String)
    ensures
        text@ == lossy_text(bytes@),
        valid_utf8(bytes@) ==> text@ == decode_utf8(bytes@),
{
    String::from_utf8_lossy(bytes).into_owned()
}

/// The first characters of a text.
pub open spec fn first_chars(text: Seq<char>, most: int) -> Seq<char> {
    text.take(vstd::math::min(text.len() as int, most))
}

/// What is said of a status that tells of a failure, where the body says `said`.
pub open spec fn status_text(status: u16, said: Seq<char>) -> Seq<char> {
    " HTTP "@ + text::decimal(status as nat) + ": "@ + first_chars(said, 512)
}

/// What an answer carries, where its body says `said` and holds `held`. Without a body it carries
/// nothing; where the status tells of a failure, the start of the body says why.
pub open spec fn reply_from(
    server: Seq<char>,
    response: UpstreamResponseView,
    said: Seq<char>,
    held: Result<JsonView, sse::BodyFault>,
) -> Result<ReplyView, Seq<char>> {
    if !(200 <= response.status < 300) {
        Err(message::quoted("upstream "@, server, status_text(response.status, said)))
    } else if response.body.len() == 0 {
        Ok(ReplyView { session_id: response.session_id, body: None })
    } else {
        match held {
            Ok(value) => Ok(ReplyView { session_id: response.session_id, body: Some(value) }),
            Err(fault) => Err(sse::body_fault_text(fault)),
        }
    }
}

/// What an answer carries.
pub open spec fn reply_of(
    server: ServerConfigView,
    response: UpstreamResponseView,
) -> Result<ReplyView, Seq<char>> {
    reply_from(
        server.name,
        response,
        lossy_text(response.body),
        sse::body_answer(server.normalize_sse_events, response.content_type, response.body),
    )
}

/// What is said of a server that answered with a status that tells of a failure, where the body
/// says `said`.
pub fn failed_status(server: &str, status: u16, said: &str) -> (error: String)
    ensures
        error@ == message::quoted("upstream "@, server@, status_text(status, said@)),
{
    let chars = text::chars_of(said);
    let most: usize = if chars.len() < 512 {
        chars.len()
    } else {
        512
    };
    let start = text::text_between(&chars, 0, most);
    assert(start@ =~= first_chars(said@, 512));
    let mut words = " HTTP ".to_owned();
    words.append(text::decimal_text(status as u64).as_str());
    words.append(": ");
    words.append(start.as_str());
    message::quoted_text("upstream ", server, words.as_str())
}

/// What an answer carries that has a body, where the body holds `held`.
pub fn reply_with(session_id: Option<String>, held: Result<Json, sse::BodyError>) -> (reply: Result<
    Reply,
    String,
>)
    ensures
        reply_view(reply) == match sse::body_view(held) {
            Ok(value) => Ok(
                ReplyView { session_id: text::optional(session_id), body: Some(value) },
            ),
            Err(fault) => Err(sse::body_fault_text(fault)),
        },
{
    match held {
        Ok(value) => Ok(Reply { session_id, body: Some(value) }),
        Err(error) => Err(error.message()),
    }
}

/// What an answer carries. The bytes of its body are counted.
pub fn parse_upstream_response(
    state: &mut AppState,
    server: &ServerConfig,
    response: &UpstreamResponse,
) -> (reply: Result<Reply, String>)
    requires
        old(state).wf(),
    ensures
        final(state).wf(),
        final(state)@ == with_bytes(
            old(state)@,
            server@.name,
            "received"@,
            response@.body.len(),
        ),
        reply_view(reply) == reply_of(server@, response@),
{
    let bytes: usize = response.body.len();
    state.metrics.record_upstream_bytes(server.name.as_str(), "received", bytes as u64);
    if response.status < 200 || response.status >= 300 {
        let said = text_from_utf8_lossy(response.body.as_slice());
        return Err(failed_status(server.name.as_str(), response.status, said.as_str()));
    }
    let session_id = text::copy_optional(&response.session_id);
    if bytes == 0 {
        return Ok(Reply { session_id, body: None });
    }
    let content_type = match &response.content_type {
        Some(kind) => Some(kind.as_str()),
        None => None,
    };
    let held = sse::parse_body(
        server.quirks.normalize_sse_events,
        content_type,
        response.body.as_slice(),
    );
    reply_with(session_id, held)
}

/// What a request brought.
pub open spec fn reply_to(server: ServerConfigView, outcome: OutcomeView) -> Result<
    ReplyView,
    Seq<char>,
> {
    match outcome {
        OutcomeView::Unprepared(error) => Err(error),
        OutcomeView::NotSent => Err(
            message::quoted("upstream "@, server.name, " request failed"@),
        ),
        OutcomeView::Cut(error) => Err(error),
        OutcomeView::Response(response) => reply_of(server, response),
    }
}

/// What is kept after a request came to its end.
pub open spec fn after_reply(
    state: AppStateView,
    server: ServerConfigView,
    outcome: OutcomeView,
) -> AppStateView {
    match outcome {
        OutcomeView::Response(response) => with_bytes(
            state,
            server.name,
            "received"@,
            response.body.len(),
        ),
        _ => state,
    }
}

/// What a request brought.
pub fn upstream_reply(state: &mut AppState, server: &ServerConfig, outcome: &Outcome) -> (reply:
    Result<Reply, String>)
    requires
        old(state).wf(),
    ensures
        final(state).wf(),
        final(state)@ == after_reply(old(state)@, server@, outcome@),
        reply_view(reply) == reply_to(server@, outcome@),
{
    match outcome {
        Outcome::Unprepared(error) => Err(error.clone()),
        Outcome::NotSent => Err(
            message::quoted_text("upstream ", server.name.as_str(), " request failed"),
        ),
        Outcome::Cut(error) => Err(error.clone()),
        Outcome::Response(response) => parse_upstream_response(state, server, response),
    }
}

/// The result that an answer to a request gives, with the session that it names.
pub open spec fn result_in(
    server: Seq<char>,
    reply: Result<ReplyView, Seq<char>>,
) -> Result<(Option<Seq<char>>, JsonView), Seq<char>> {
    match reply {
        Err(error) => Err(error),
        Ok(reply) => match reply.body {
            None => Err(message::quoted("upstream "@, server, " returned no body"@)),
            Some(body) => match body.field("error"@) {
                Some(error) => Err(reported(server, json::json_text(error))),
                None => Ok(
                    (
                        reply.session_id,
                        match body.field("result"@) {
                            Some(result) => result,
                            None => JsonView::Null,
                        },
                    ),
                ),
            },
        },
    }
}

/// What a result is, or why there is none.
pub open spec fn result_view(result: Result<(Option<String>, Json), String>) -> Result<
    (Option<Seq<char>>, JsonView),
    Seq<char>,
> {
    match result {
        Ok((session_id, value)) => Ok((text::optional(session_id), value@)),
        Err(error) => Err(error@),
    }
}

/// The result that a request brought.
pub open spec fn result_to(server: ServerConfigView, outcome: OutcomeView) -> Result<
    (Option<Seq<char>>, JsonView),
    Seq<char>,
> {
    result_in(server.name, reply_to(server, outcome))
}

/// What is said of an error that a server reports, where `written` is its JSON text.
pub open spec fn reported(server: Seq<char>, written: Seq<char>) -> Seq<char> {
    message::quoted("upstream "@, server, " JSON-RPC error: "@ + written)
}

/// What is said of an error that a server reports, where `written` is its JSON text.
pub fn reported_error(server: &str, written: &str) -> (error: String)
    ensures
        error@ == reported(server@, written@),
{
    let mut words = " JSON-RPC error: ".to_owned();
    words.append(written);
    message::quoted_text("upstream ", server, words.as_str())
}

/// The result that an answer to a request gives, with the session that it names.
pub fn reply_result(server: &str, reply: Result<Reply, String>) -> (result: Result<
    (Option<String>, Json),
    String,
>)
    ensures
        result_view(result) == result_in(server@, reply_view(reply)),
{
    let reply = match reply {
        Ok(reply) => reply,
        Err(error) => return Err(error),
    };
    let body = match reply.body {
        Some(body) => body,
        None => return Err(message::quoted_text("upstream ", server, " returned no body")),
    };
    if let Some(error) = body.get("error") {
        return Err(reported_error(server, error.to_text().as_str()));
    }
    let result = match body.get("result") {
        Some(result) => result.copy(),
        None => Json::Null,
    };
    Ok((reply.session_id, result))
}

/// The result that a request brought, with the session that the answer names.
pub fn upstream_result(state: &mut AppState, server: &ServerConfig, outcome: &Outcome) -> (result:
    Result<(Option<String>, Json), String>)
    requires
        old(state).wf(),
    ensures
        final(state).wf(),
        final(state)@ == after_reply(old(state)@, server@, outcome@),
        result_view(result) == result_to(server@, outcome@),
{
    let reply = upstream_reply(state, server, outcome);
    reply_result(server.name.as_str(), reply)
}

/// The wait is at least a millisecond, and no longer than the limit where that is at least one.
pub proof fn law_backoff_is_bounded(reconnect: ReconnectConfig, failures: u32)
    ensures
        1 <= backoff_millis(reconnect, failures) <= u64::MAX,
        reconnect.backoff_max_ms >= 1 ==> backoff_millis(reconnect, failures)
            <= reconnect.backoff_max_ms,
{
}

/// The wait does not become shorter with one more failure.
pub proof fn law_backoff_does_not_shrink(reconnect: ReconnectConfig, fewer: u32, more: u32)
    requires
        fewer <= more,
    ensures
        backoff_millis(reconnect, fewer) <= backoff_millis(reconnect, more),
{
    let a = vstd::math::min(vstd::math::max(fewer - 1, 0), 20) as nat;
    let b = vstd::math::min(vstd::math::max(more - 1, 0), 20) as nat;
    if a < b {
        lemma_pow2_strictly_increases(a, b);
    }
    let base = reconnect.backoff_base_ms as int;
    let small = pow2(a) as int;
    let large = pow2(b) as int;
    assert(base * small <= base * large) by (nonlinear_arith)
        requires
            0 <= base,
            small <= large,
    ;
}

/// The first wait is the base, and each next one is twice as long, as long as the limit and the
/// number of doublings allow.
pub proof fn law_backoff_doubles(reconnect: ReconnectConfig, failures: u32)
    requires
        reconnect.backoff_base_ms >= 1,
        1 <= failures < 21,
        backoff_millis(reconnect, failures) * 2 <= reconnect.backoff_max_ms,
    ensures
        backoff_millis(reconnect, 1) == reconnect.backoff_base_ms,
        backoff_millis(reconnect, (failures + 1) as u32) == backoff_millis(reconnect, failures) * 2,
{
    let a = (failures - 1) as nat;
    lemma2_to64();
    lemma_pow2_unfold(a + 1);
    lemma_pow2_pos(a);
    let base = reconnect.backoff_base_ms as int;
    let power = pow2(a) as int;
    let one = pow2(0) as int;
    assert(base * (2 * power) == 2 * (base * power) && base * power >= base && base * one == base)
        by (nonlinear_arith)
        requires
            base >= 1,
            power >= 1,
            one == 1,
    ;
}

/// Every request for a server goes to its address, with certificates checked unless its
/// configuration says otherwise, in the session that is given and with the body that is given. It
/// says that the body is JSON, and accepts what the configuration says, character for character, or
/// JSON and streams where that says nothing.
pub proof fn law_request_is_as_configured(
    server: ServerConfigView,
    session_id: Option<Seq<char>>,
    written: Seq<char>,
    variables: Map<Seq<char>, Seq<char>>,
)
    ensures
        text_request_to(server, session_id, written, variables) matches Ok(request) ==> {
            &&& request.url == server.url
            &&& request.skip_verify == server.tls_skip_verify
            &&& request.content_type == "application/json"@
            &&& server.inject_accept_header matches Some(own) ==> request.accept == own
            &&& server.inject_accept_header is None ==> request.accept
                == "application/json, text/event-stream"@
            &&& request.session_id == session_id
            &&& request.body == written
        },
{
}

/// A request carries exactly the headers that the configuration names, with the values that it
/// gives, each of them once.
pub proof fn law_request_has_the_configured_headers(
    server: ServerConfigView,
    session_id: Option<Seq<char>>,
    written: Seq<char>,
    variables: Map<Seq<char>, Seq<char>>,
)
    requires
        server.headers.dom().finite(),
    ensures
        text_request_to(server, session_id, written, variables) matches Ok(request) ==> {
            &&& request.headers.len() == server.headers.dom().len()
            &&& forall|name: Seq<char>, value: Seq<char>| #[trigger]
                request.headers.contains((name, value)) <==> server.headers.contains_key(name)
                    && server.headers[name] == value
            &&& forall|i: int, j: int|
                0 <= i < j < request.headers.len() ==> text::text_lt(
                    (#[trigger] request.headers[i]).0,
                    (#[trigger] request.headers[j]).0,
                )
        },
{
    let map = server.headers;
    let names = table::in_order(map.dom());
    let listed = in_name_order(map);
    table::lemma_in_order(map.dom());
    assert forall|name: Seq<char>, value: Seq<char>| #[trigger] listed.contains((name, value)) <==>
        map.contains_key(name) && map[name] == value by {
        if listed.contains((name, value)) {
            let i = choose|i: int| 0 <= i < listed.len() && listed[i] == (name, value);
            assert(names[i] == name);
            assert(names.contains(name));
            assert(map.dom().contains(name));
        }
        if map.contains_key(name) && map[name] == value {
            assert(map.dom().contains(name));
            assert(names.contains(name));
            let i = choose|i: int| 0 <= i < names.len() && names[i] == name;
            assert(listed[i] == (name, value));
        }
    }
    assert forall|i: int, j: int| 0 <= i < j < listed.len() implies text::text_lt(
        (#[trigger] listed[i]).0,
        (#[trigger] listed[j]).0,
    ) by {
        assert(text::text_lt(names[i], names[j]));
    }
}

/// A request carries the token of the configuration, or that of the environment variable that the
/// configuration names; it carries none where the configuration asks for none. Where a token is
/// asked for and there is none, or the configuration asks for something else, no request is made,
/// and it is said why.
pub proof fn law_request_carries_the_token(
    server: ServerConfigView,
    session_id: Option<Seq<char>>,
    written: Seq<char>,
    variables: Map<Seq<char>, Seq<char>>,
)
    ensures
        ({
            let made = text_request_to(server, session_id, written, variables);
            match server.auth {
                None => made matches Ok(request) && request.bearer_token is None,
                Some(config::AuthView::Mode(mode)) => {
                    &&& mode == "none"@ ==> (made matches Ok(request)
                        && request.bearer_token is None)
                    &&& mode != "none"@ ==> (made matches Err(why) && why
                        == "unsupported auth mode '"@ + mode + "'"@)
                },
                Some(config::AuthView::Object { kind, token, token_env }) => {
                    &&& kind == "none"@ ==> (made matches Ok(request)
                        && request.bearer_token is None)
                    &&& kind != "none"@ && kind != "bearer"@ ==> (made matches Err(why) && why
                        == "unsupported auth type '"@ + kind + "'"@)
                    &&& kind == "bearer"@ ==> match (token, token_env) {
                        (Some(own), _) => made matches Ok(request) && request.bearer_token == Some(
                            own,
                        ),
                        (None, Some(name)) => {
                            &&& variables.contains_key(name) ==> (made matches Ok(request)
                                && request.bearer_token == Some(variables[name]))
                            &&& !variables.contains_key(name) ==> (made matches Err(why) && why
                                == "missing env var '"@ + name + "' for server '"@ + server.name
                                + "'"@)
                        },
                        (None, None) => made matches Err(why) && why == "bearer auth for server '"@
                            + server.name + "' needs token or token_env"@,
                    }
                },
            }
        }),
{
    reveal_strlit("none");
    reveal_strlit("bearer");
    assert("none"@.len() == 4 && "bearer"@.len() == 6);
}

/// The request that carries a value carries its JSON text.
pub proof fn law_request_carries_its_value(
    server: ServerConfigView,
    session_id: Option<Seq<char>>,
    body: JsonView,
    variables: Map<Seq<char>, Seq<char>>,
)
    ensures
        request_to(server, session_id, body, variables) matches Ok(request) ==> request.body
            == json::json_text(body) && request.session_id == session_id,
{
}

/// An answer whose status tells of a success carries what its body holds, and nothing where it has
/// none, with the session that it names. A body that holds nothing makes it a failure.
pub proof fn law_success_carries_its_body(server: ServerConfigView, response: UpstreamResponseView)
    requires
        200 <= response.status <= 299,
    ensures
        response.body.len() == 0 ==> (reply_of(server, response) matches Ok(reply) && reply.body
            is None && reply.session_id == response.session_id),
        response.body.len() > 0 ==> match sse::body_answer(
            server.normalize_sse_events,
            response.content_type,
            response.body,
        ) {
            Ok(value) => reply_of(server, response) matches Ok(reply) && reply.body == Some(value)
                && reply.session_id == response.session_id,
            Err(fault) => reply_of(server, response) matches Err(why) && why
                == sse::body_fault_text(fault),
        },
{
}

/// An answer with any other status is a failure, of which the server's name, the status and the
/// start of the body are told.
pub proof fn law_other_status_is_a_failure(server: ServerConfigView, response: UpstreamResponseView)
    requires
        response.status < 200 || response.status > 299,
    ensures
        reply_of(server, response) matches Err(why) && {
            let said = lossy_text(response.body);
            let start = if said.len() <= 512 {
                said
            } else {
                said.take(512)
            };
            why == "upstream "@ + "'"@ + server.name + "'"@ + (" HTTP "@ + text::decimal(
                response.status as nat,
            ) + ": "@ + start)
        },
{
    let said = lossy_text(response.body);
    assert(said.take(said.len() as int) =~= said);
}

/// A request that was not made, did not get through or was cut off has failed, for that reason.
pub proof fn law_no_answer_is_a_failure(server: ServerConfigView, why: Seq<char>)
    ensures
        result_to(server, OutcomeView::Unprepared(why)) == Err::<
            (Option<Seq<char>>, JsonView),
            Seq<char>,
        >(why),
        result_to(server, OutcomeView::Cut(why)) == Err::<
            (Option<Seq<char>>, JsonView),
            Seq<char>,
        >(why),
        result_to(server, OutcomeView::NotSent) == Err::<
            (Option<Seq<char>>, JsonView),
            Seq<char>,
        >("upstream "@ + "'"@ + server.name + "'"@ + " request failed"@),
{
}

/// A request brings the `result` of the answer's body, or null where there is none, with the
/// session that the answer names. An answer with an `error` has failed with its JSON text; one
/// without a body has failed too.
pub proof fn law_request_brings_the_result(
    server: ServerConfigView,
    response: UpstreamResponseView,
    reply: ReplyView,
)
    requires
        reply_of(server, response) == Ok::<ReplyView, Seq<char>>(reply),
    ensures
        ({
            let brought = result_to(server, OutcomeView::Response(response));
            match reply.body {
                None => brought matches Err(why) && why == "upstream "@ + "'"@ + server.name + "'"@
                    + " returned no body"@,
                Some(body) => match body.field("error"@) {
                    Some(error) => brought matches Err(why) && why == "upstream "@ + "'"@
                        + server.name + "'"@ + (" JSON-RPC error: "@ + json::json_text(error)),
                    None => brought matches Ok((session_id, result)) && session_id
                        == reply.session_id && match body.field("result"@) {
                        Some(held) => result == held,
                        None => result == JsonView::Null,
                    },
                },
            }
        }),
{
}

/// A request whose answer cannot be read has failed, for the reason why it cannot.
pub proof fn law_unread_answer_is_a_failure(
    server: ServerConfigView,
    response: UpstreamResponseView,
    why: Seq<char>,
)
    requires
        reply_of(server, response) == Err::<ReplyView, Seq<char>>(why),
    ensures
        result_to(server, OutcomeView::Response(response)) == Err::<
            (Option<Seq<char>>, JsonView),
            Seq<char>,
        >(why),
{
}

/// A plain JSON answer of a success brings the `result` that stands in it, whatever that is.
pub proof fn law_json_answer_brings_its_result(
    server: ServerConfigView,
    response: UpstreamResponseView,
    body: JsonView,
    result: JsonView,
)
    requires
        200 <= response.status <= 299,
        response.body.len() > 0,
        valid_utf8(response.body),
        response.content_type matches Some(kind) ==> !text::contains(kind, "text/event-stream"@),
        !"event:"@.is_prefix_of(text::trim_start(decode_utf8(response.body))),
        !"data:"@.is_prefix_of(text::trim_start(decode_utf8(response.body))),
        json::json_of_bytes(response.body) == Ok::<JsonView, Seq<char>>(body),
        body.field("error"@) is None,
        body.field("result"@) == Some(result),
    ensures
        result_to(server, OutcomeView::Response(response)) == Ok::<
            (Option<Seq<char>>, JsonView),
            Seq<char>,
        >((response.session_id, result)),
{
    sse::law_plain_body_is_one_json_text(
        server.normalize_sse_events,
        response.content_type,
        response.body,
    );
}

/// The bytes that go to a server, and those that come from it, are counted for it, each direction
/// by itself; nothing else is touched.
pub proof fn law_bytes_are_counted(
    state: AppStateView,
    server: ServerConfigView,
    written: Seq<char>,
    response: UpstreamResponseView,
)
    requires
        encode_utf8(written).len() <= u64::MAX,
        response.body.len() <= u64::MAX,
    ensures
        ({
            let sent = metrics::key(Family::UpstreamBytes, server.name, "sent"@);
            let received = metrics::key(Family::UpstreamBytes, server.name, "received"@);
            let out = after_text_send(state, server, written);
            let back = after_reply(state, server, OutcomeView::Response(response));
            &&& out == (AppStateView { metrics: out.metrics, ..state })
            &&& back == (AppStateView { metrics: back.metrics, ..state })
            &&& out.metrics.tool_calls == state.metrics.tool_calls
            &&& back.metrics.tool_calls == state.metrics.tool_calls
            &&& out.metrics.counters == state.metrics.counters.insert(
                sent,
                metrics::counted(state.metrics.counters[sent], encode_utf8(written).len() as u64),
            )
            &&& back.metrics.counters == state.metrics.counters.insert(
                received,
                metrics::counted(state.metrics.counters[received], response.body.len() as u64),
            )
            &&& after_reply(state, server, OutcomeView::NotSent) == state
        }),
{
}

/// The time that something took is the time between its start and its end.
pub proof fn law_span_is_the_time_between(started: u64, now: u64)
    ensures
        started <= now ==> started + span(started, now) == now,
        now < started ==> span(started, now) == 0,
{
}

/// The wait reaches the limit and stays there: it is the limit where twice the last wait would be
/// longer, it is the same from some number of failures on, and without a failure it is the first
/// one.
pub proof fn law_backoff_stays_at_its_limit(reconnect: ReconnectConfig, failures: u32)
    ensures
        backoff_millis(reconnect, 0) == backoff_millis(reconnect, 1),
        failures >= 21 ==> backoff_millis(reconnect, failures) == backoff_millis(reconnect, 21),
        reconnect.backoff_max_ms >= 1 && reconnect.backoff_base_ms >= 1 && 1 <= failures < 21
            && backoff_millis(reconnect, failures) * 2 > reconnect.backoff_max_ms
            ==> backoff_millis(reconnect, (failures + 1) as u32) == reconnect.backoff_max_ms,
        reconnect.backoff_max_ms >= 1 && reconnect.backoff_base_ms >= reconnect.backoff_max_ms
            ==> backoff_millis(reconnect, failures) == reconnect.backoff_max_ms,
        reconnect.backoff_max_ms == 0 || reconnect.backoff_base_ms == 0 ==> backoff_millis(
            reconnect,
            failures,
        ) == 1,
{
    lemma2_to64();
    let base = reconnect.backoff_base_ms as int;
    let doublings = vstd::math::min(vstd::math::max(failures - 1, 0), 20) as nat;
    lemma_pow2_pos(doublings);
    let power = pow2(doublings) as int;
    assert(base * power >= base && (base == 0 ==> base * power == 0)) by (nonlinear_arith)
        requires
            base >= 0,
            power >= 1,
    ;
    if 1 <= failures < 21 {
        let a = (failures - 1) as nat;
        lemma_pow2_unfold(a + 1);
        let small = pow2(a) as int;
        assert(base * (2 * small) == 2 * (base * small)) by (nonlinear_arith);
    }
}

/// Requests to servers and their answers are seen as they are.
pub proof fn law_exchanges_are_seen_as_they_are(
    request: UpstreamRequest,
    response: UpstreamResponse,
    reply: Reply,
    why: String,
)
    ensures
        request@.url == request.url@,
        request@.skip_verify == request.skip_verify,
        request@.content_type == request.content_type@,
        request@.accept == request.accept@,
        request@.body == request.body@,
        request.session_id matches Some(id) ==> request@.session_id == Some(id@),
        request.session_id is None ==> request@.session_id is None,
        request.bearer_token matches Some(token) ==> request@.bearer_token == Some(token@),
        request.bearer_token is None ==> request@.bearer_token is None,
        request@.headers.len() == request.headers@.len(),
        forall|i: int|
            0 <= i < request.headers@.len() ==> #[trigger] request@.headers[i] == (
            request.headers@[i].0@,
            request.headers@[i].1@,
            ),
        response@.status == response.status,
        response@.body == response.body@,
        response.session_id matches Some(id) ==> response@.session_id == Some(id@),
        response.session_id is None ==> response@.session_id is None,
        response.content_type matches Some(kind) ==> response@.content_type == Some(kind@),
        response.content_type is None ==> response@.content_type is None,
        reply.session_id matches Some(id) ==> reply@.session_id == Some(id@),
        reply.session_id is None ==> reply@.session_id is None,
        reply.body matches Some(body) ==> reply@.body == Some(body@),
        reply.body is None ==> reply@.body is None,
        Outcome::Response(response)@ == OutcomeView::Response(response@),
        Outcome::Cut(why)@ == OutcomeView::Cut(why@),
        Outcome::Unprepared(why)@ == OutcomeView::Unprepared(why@),
        Outcome::NotSent@ == OutcomeView::NotSent,
{
}

} // verus!
