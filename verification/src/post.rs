//! The messages of one request, handled one after another.
use uuid::Uuid;
use vstd::prelude::*;
use vstd::string::*;

use crate::auth;
use crate::downstream;
use crate::downstream::PostRequest;
use crate::http;
use crate::http::{HttpReply, HttpReplyView};
use crate::json;
use crate::json::{Json, JsonView};
use crate::message;
use crate::message::{Handled, HandledView, ToolCall, ToolCallView};
use crate::rpc;
use crate::state::{AppState, AppStateView, ManagedServerView};
use crate::text;
use crate::upstream;
use crate::upstream::{Outcome, OutcomeView, UpstreamRequest};

verus! {

/// How far the message at hand has come.
#[derive(Debug)]
pub enum Turn {
    /// None is at hand.
    Idle,
    /// It is settled, with this answer or with none.
    Settled { method: String, started: u64, answer: Option<Json> },
    /// A tool is being called for it since `asked`.
    Calling { method: String, started: u64, call: ToolCall, asked: u64 },
}

/// How far the message at hand has come, as mathematics.
pub enum TurnView {
    Idle,
    Settled { method: Seq<char>, started: u64, answer: Option<JsonView> },
    Calling { method: Seq<char>, started: u64, call: ToolCallView, asked: u64 },
}

impl View for Turn {
    type V = TurnView;

    open spec fn view(&self) -> TurnView {
        match self {
            Turn::Idle => TurnView::Idle,
            Turn::Settled { method, started, answer } => TurnView::Settled {
                method: method@,
                started: *started,
                answer: match answer {
                    Some(answer) => Some(answer@),
                    None => None,
                },
            },
            Turn::Calling { method, started, call, asked } => TurnView::Calling {
                method: method@,
                started: *started,
                call: call@,
                asked: *asked,
            },
        }
    }
}

/// A request under way: its messages, how many of them are done, and their answers.
#[derive(Debug)]
pub struct Post {
    pub accept: Option<String>,
    pub session_id: Option<String>,
    pub batch: bool,
    pub messages: Vec<Json>,
    pub done: usize,
    pub turn: Turn,
    pub responses: Vec<Json>,
}

/// A request under way, as mathematics.
pub struct PostView {
    pub accept: Option<Seq<char>>,
    pub session_id: Option<Seq<char>>,
    pub batch: bool,
    pub messages: Seq<JsonView>,
    pub done: nat,
    pub turn: TurnView,
    pub responses: Seq<JsonView>,
}

impl View for Post {
    type V = PostView;

    open spec fn view(&self) -> PostView {
        PostView {
            accept: text::optional(self.accept),
            session_id: text::optional(self.session_id),
            batch: self.batch,
            messages: json::views(self.messages@),
            done: self.done as nat,
            turn: self.turn@,
            responses: json::views(self.responses@),
        }
    }
}

/// The `id` under which a message is owed an answer. One that is no object is answered under
/// none; one without an `id`, or that confirms a welcome, is owed no answer.
pub open spec fn owed(message: JsonView) -> Option<JsonView> {
    match message {
        JsonView::Object(_) => match message.field("id"@) {
            Some(id) => if message.text_field("jsonrpc"@) == Some("2.0"@) && message.text_field(
                "method"@,
            ) == Some("notifications/initialized"@) {
                None
            } else {
                Some(id)
            },
            None => None,
        },
        _ => Some(JsonView::Null),
    }
}

/// The `id`s under which messages are owed answers, in the order of the messages.
pub open spec fn owed_ids(messages: Seq<JsonView>) -> Seq<JsonView>
    decreases messages.len(),
{
    if messages.len() == 0 {
        Seq::empty()
    } else {
        let before = owed_ids(messages.drop_last());
        match owed(messages.last()) {
            Some(id) => before.push(id),
            None => before,
        }
    }
}

/// Is a value an answer under this `id`? It holds a result or an error, and not both.
pub open spec fn is_answer(answer: JsonView, id: JsonView) -> bool {
    &&& answer.text_field("jsonrpc"@) == Some("2.0"@)
    &&& answer.field("id"@) == Some(id)
    &&& answer.field("result"@) is Some <==> answer.field("error"@) is None
}

/// Every message that is owed an answer has one, in order, and no others have.
pub open spec fn answered(messages: Seq<JsonView>, responses: Seq<JsonView>) -> bool {
    let ids = owed_ids(messages);
    &&& responses.len() == ids.len()
    &&& forall|i: int| 0 <= i < ids.len() ==> is_answer(#[trigger] responses[i], ids[i])
}

/// Does a client properly introduce itself with this message?
pub open spec fn introduces(message: JsonView) -> bool {
    &&& message is Object
    &&& message.field("id"@) is Some
    &&& message.text_field("jsonrpc"@) == Some("2.0"@)
    &&& message.text_field("method"@) == Some("initialize"@)
}

/// A client that properly introduced itself has been welcomed.
pub open spec fn welcomed_all(messages: Seq<JsonView>, responses: Seq<JsonView>) -> bool {
    (exists|i: int| 0 <= i < messages.len() && #[trigger] introduces(messages[i]))
        ==> downstream::some_welcomed(responses)
}

/// The message at hand has come as far as its turn says.
pub open spec fn turn_ok(message: JsonView, turn: TurnView) -> bool {
    match turn {
        TurnView::Idle => true,
        TurnView::Settled { method, started, answer } => {
            &&& method == message::method_name(message)
            &&& match (owed(message), answer) {
                (Some(id), Some(answer)) => is_answer(answer, id),
                (None, None) => true,
                _ => false,
            }
            &&& introduces(message) ==> (answer matches Some(answer) && downstream::welcomed(
                answer,
            ))
        },
        TurnView::Calling { method, started, call, asked } => {
            &&& method == message::method_name(message)
            &&& owed(message) == Some(call.id)
            &&& !introduces(message)
        },
    }
}

/// The messages that are done have their answers, and the one at hand is where its turn says.
pub open spec fn post_ok(post: PostView) -> bool {
    &&& post.done <= post.messages.len()
    &&& !post.batch ==> post.messages.len() == 1
    &&& answered(post.messages.take(post.done as int), post.responses)
    &&& welcomed_all(post.messages.take(post.done as int), post.responses)
    &&& !(post.turn is Idle) ==> post.done < post.messages.len()
    &&& turn_ok(post.messages[post.done as int], post.turn)
}

impl Post {
    /// The request is well formed, and so is the server that is called.
    pub open spec fn wf(&self) -> bool {
        &&& post_ok(self@)
        &&& self.turn matches Turn::Calling { call, .. } ==> call.config.wf()
    }
}

/// The messages of a request: the items of an array, or the value itself.
pub open spec fn messages_in(value: JsonView) -> Seq<JsonView> {
    match value {
        JsonView::Array(items) => items,
        _ => seq![value],
    }
}

/// A request that begins.
pub open spec fn first_turn(
    accept: Option<Seq<char>>,
    session_id: Option<Seq<char>>,
    value: JsonView,
) -> PostView {
    PostView {
        accept,
        session_id,
        batch: value is Array,
        messages: messages_in(value),
        done: 0,
        turn: TurnView::Idle,
        responses: Seq::empty(),
    }
}

/// What is kept when a request begins: a client that introduces itself gets a session.
pub open spec fn begun(
    state: AppStateView,
    session_id: Option<Seq<char>>,
    now: u64,
) -> AppStateView {
    match session_id {
        Some(id) => state.with_session_opened(id, now),
        None => state,
    }
}

/// Begins with the messages of a request.
pub fn begin_post(
    state: &mut AppState,
    accept: Option<String>,
    session_id: Option<String>,
    value: Json,
    now: u64,
) -> (post: Post)
    requires
        old(state).wf(),
    ensures
        final(state).wf(),
        post.wf(),
        post@ == first_turn(text::optional(accept), text::optional(session_id), value@),
        final(state)@ == begun(old(state)@, text::optional(session_id), now),
{
    if let Some(id) = &session_id {
        state.open_session(id.as_str(), now);
    }
    let ghost whole = value@;
    let (batch, messages) = match value {
        Json::Array(items) => {
            proof {
                json::lemma_array_view(items);
            }
            (true, items)
        },
        value => {
            let mut messages: Vec<Json> = Vec::new();
            messages.push(value);
            (false, messages)
        },
    };
    assert(json::views(messages@) =~= messages_in(whole));
    let post = Post {
        accept,
        session_id,
        batch,
        messages,
        done: 0,
        turn: Turn::Idle,
        responses: Vec::new(),
    };
    assert(post@.responses =~= Seq::empty());
    assert(post@.messages.take(0) =~= Seq::empty());
    post
}

/// The result under which a settled message is counted.
pub open spec fn settled_label(answer: Option<JsonView>) -> Seq<char> {
    match answer {
        Some(answer) => if rpc::is_error(answer) {
            "error"@
        } else {
            "success"@
        },
        None => "success"@,
    }
}

/// A settled message is counted, and its answer is put to the others.
pub open spec fn closed(state: AppStateView, post: PostView, now: u64) -> (AppStateView, PostView) {
    match post.turn {
        TurnView::Settled { method, started, answer } => (
            downstream::with_request(
                state,
                method,
                settled_label(answer),
                upstream::span(started, now),
            ),
            PostView {
                done: post.done + 1,
                turn: TurnView::Idle,
                responses: match answer {
                    Some(answer) => post.responses.push(answer),
                    None => post.responses,
                },
                ..post
            },
        ),
        _ => (state, post),
    }
}

/// The answer to a request for a tool of a server that is not connected.
pub open spec fn disconnected_answer(id: JsonView, server: Seq<char>) -> JsonView {
    rpc::error_of(
        id,
        rpc::JSONRPC_UPSTREAM_ERROR as int,
        message::quoted("upstream "@, server, " is disconnected"@),
    )
}

/// The turn that becomes of a message.
pub open spec fn turn_of(method: Seq<char>, handled: HandledView, now: u64) -> TurnView {
    match handled {
        HandledView::Silent => TurnView::Settled { method, started: now, answer: None },
        HandledView::Answer(answer) => TurnView::Settled {
            method,
            started: now,
            answer: Some(answer),
        },
        HandledView::Disconnected { id, server, tool } => TurnView::Settled {
            method,
            started: now,
            answer: Some(disconnected_answer(id, server)),
        },
        HandledView::Call(call) => TurnView::Calling { method, started: now, call, asked: now },
    }
}

/// What is kept when a message is taken up: a call of a server that is not connected has failed.
pub open spec fn state_taken(state: AppStateView, handled: HandledView) -> AppStateView {
    match handled {
        HandledView::Disconnected { id, server, tool } => AppStateView {
            metrics: state.metrics.with_call(server, tool, 0, Some("upstream_disconnected"@)),
            ..state
        },
        _ => state,
    }
}

/// The next message is taken up.
pub open spec fn taken(state: AppStateView, post: PostView, now: u64) -> (AppStateView, PostView) {
    let message = post.messages[post.done as int];
    let handled = message::handled(state.servers, message);
    (
        state_taken(state, handled),
        PostView { turn: turn_of(message::method_name(message), handled, now), ..post },
    )
}

/// The gateway's answer to an introduction is a welcome.
pub proof fn lemma_welcome(id: JsonView, message: JsonView)
    ensures
        downstream::welcomed(rpc::result_of(id, message::welcome(message))),
{
    rpc::lemma_result_fields(id, message::welcome(message));
    reveal_strlit("name");
    reveal_strlit("version");
    assert("name"@.len() == 4 && "version"@.len() == 7);
}

/// Results and errors are answers.
proof fn lemma_answers()
    ensures
        forall|id: JsonView, result: JsonView|
            is_answer(#[trigger] rpc::result_of(id, result), id),
        forall|id: JsonView, code: int, words: Seq<char>|
            is_answer(#[trigger] rpc::error_of(id, code, words), id),
{
    assert forall|id: JsonView, result: JsonView|
        is_answer(#[trigger] rpc::result_of(id, result), id) by {
        rpc::lemma_result_fields(id, result);
    }
    assert forall|id: JsonView, code: int, words: Seq<char>|
        is_answer(#[trigger] rpc::error_of(id, code, words), id) by {
        rpc::lemma_error_fields(id, code, words);
    }
}

/// What becomes of a message fits what it is owed.
pub proof fn lemma_handled_as_owed(
    servers: Map<Seq<char>, ManagedServerView>,
    message: JsonView,
    now: u64,
)
    ensures
        turn_ok(
            message,
            turn_of(message::method_name(message), message::handled(servers, message), now),
        ),
{
    reveal_strlit("initialize");
    reveal_strlit("notifications/initialized");
    reveal_strlit("tools/call");
    assert("initialize"@[0] == 'i' && "notifications/initialized"@[0] == 'n' && "tools/call"@[0]
        == 't');
    lemma_answers();
    if introduces(message) {
        lemma_welcome(message.field("id"@)->Some_0, message);
    }
}

/// With its answer put to the others, a settled message is done.
pub proof fn lemma_closed(state: AppStateView, post: PostView, now: u64)
    requires
        post_ok(post),
    ensures
        post_ok(closed(state, post, now).1),
{
    if let TurnView::Settled { method, started, answer } = post.turn {
        let done = post.messages.take(post.done as int);
        let more = post.messages.take(post.done as int + 1);
        let message = post.messages[post.done as int];
        let responses = closed(state, post, now).1.responses;
        assert(more.drop_last() =~= done);
        assert(more.last() == message);
        if answer is Some {
            assert(responses.drop_last() =~= post.responses);
        }
        if exists|i: int| 0 <= i < more.len() && #[trigger] introduces(more[i]) {
            let i = choose|i: int| 0 <= i < more.len() && #[trigger] introduces(more[i]);
            if i < post.done {
                assert(done[i] == more[i]);
                assert(downstream::some_welcomed(post.responses));
            }
        }
    }
}

/// A message that is taken up is where its turn says.
pub proof fn lemma_taken(state: AppStateView, post: PostView, now: u64)
    requires
        post_ok(post),
        post.turn is Idle,
        post.done < post.messages.len(),
    ensures
        post_ok(taken(state, post, now).1),
{
    lemma_handled_as_owed(state.servers, post.messages[post.done as int], now);
}

impl Post {
    /// Counts a settled message, and puts its answer to the others.
    fn close_turn(&mut self, state: &mut AppState, now: u64)
        requires
            old(state).wf(),
            old(self).wf(),
            !(old(self).turn is Calling),
        ensures
            final(state).wf(),
            final(self).wf(),
            final(self).turn is Idle,
            (final(state)@, final(self)@) == closed(old(state)@, old(self)@, now),
    {
        proof {
            lemma_closed(state@, self@, now);
        }
        let count: usize = self.messages.len();
        let mut turn = Turn::Idle;
        std::mem::swap(&mut self.turn, &mut turn);
        if let Turn::Settled { method, started, answer } = turn {
            let failed = match &answer {
                Some(answer) => rpc::is_json_rpc_error(answer),
                None => false,
            };
            let label = if failed {
                "error"
            } else {
                "success"
            };
            let nanos: u64 = upstream::elapsed(started, now);
            state.metrics.record_mcp_request(method.as_str(), label, nanos);
            if let Some(answer) = answer {
                let ghost before = json::views(self.responses@);
                self.responses.push(answer);
                assert(json::views(self.responses@) =~= before.push(answer@));
            }
            assert(self.done < count);
            self.done += 1;
        }
    }

    /// Takes up the next message.
    fn take_up(&mut self, state: &mut AppState, now: u64)
        requires
            old(state).wf(),
            old(self).wf(),
            old(self).turn is Idle,
            old(self)@.done < old(self)@.messages.len(),
        ensures
            final(state).wf(),
            final(self).wf(),
            (final(state)@, final(self)@) == taken(old(state)@, old(self)@, now),
    {
        proof {
            lemma_taken(state@, self@, now);
        }
        let message = &self.messages[self.done];
        let method = message::method_label(message).to_owned();
        let outcome = message::handle_message(&state.registry, message);
        self.turn = match outcome {
            Handled::Silent => Turn::Settled { method, started: now, answer: None },
            Handled::Answer(answer) => Turn::Settled { method, started: now, answer: Some(answer) },
            Handled::Disconnected { id, server, tool } => {
                state.metrics.record_tool_call(
                    server.as_str(),
                    tool.as_str(),
                    0,
                    Some("upstream_disconnected"),
                );
                let words = message::quoted_text(
                    "upstream ",
                    server.as_str(),
                    " is disconnected",
                );
                let answer = rpc::json_rpc_error(id, rpc::JSONRPC_UPSTREAM_ERROR, words.as_str());
                Turn::Settled { method, started: now, answer: Some(answer) }
            },
            Handled::Call(call) => Turn::Calling { method, started: now, call, asked: now },
        };
    }
}

/// What a request is answered with when all of its messages are done, and what is kept. A session
/// that was opened for a client stays only if the client has been welcomed.
pub open spec fn finished(state: AppStateView, post: PostView) -> (HttpReplyView, AppStateView) {
    let ended = match post.session_id {
        Some(id) => state.with_session_ended(id, "init_failed"@),
        None => state,
    };
    if post.responses.len() == 0 {
        (http::json_reply(post.accept, 202, None, None), ended)
    } else {
        let response = if post.batch {
            JsonView::Array(post.responses)
        } else {
            post.responses[0]
        };
        if downstream::welcomed(response) {
            (http::json_reply(post.accept, 200, Some(response), post.session_id), state)
        } else {
            (http::json_reply(post.accept, 200, Some(response), None), ended)
        }
    }
}

/// What to do next with a request.
#[derive(Debug, PartialEq)]
pub enum Step {
    /// Go on with it.
    Again,
    /// Call a tool for it.
    Upstream,
    /// Send this reply.
    Reply(HttpReply),
}

/// What to do next with a request, as mathematics.
pub enum StepView {
    Again,
    Upstream,
    Reply(HttpReplyView),
}

impl View for Step {
    type V = StepView;

    open spec fn view(&self) -> StepView {
        match self {
            Step::Again => StepView::Again,
            Step::Upstream => StepView::Upstream,
            Step::Reply(reply) => StepView::Reply(reply@),
        }
    }
}

/// A request taken one step further: what to do next, what is kept, and where the request stands.
pub open spec fn advanced(state: AppStateView, post: PostView, now: u64) -> (
    StepView,
    AppStateView,
    PostView,
) {
    let (counted, idle) = closed(state, post, now);
    if idle.done < idle.messages.len() {
        let (kept, begun) = taken(counted, idle, now);
        (
            if begun.turn is Calling {
                StepView::Upstream
            } else {
                StepView::Again
            },
            kept,
            begun,
        )
    } else {
        let (reply, kept) = finished(counted, idle);
        (StepView::Reply(reply), kept, idle)
    }
}

impl Post {
    /// The reply, when all messages are done.
    fn finish(&self, state: &mut AppState) -> (reply: HttpReply)
        requires
            old(state).wf(),
        ensures
            final(state).wf(),
            (reply@, final(state)@) == finished(old(state)@, self@),
            response_of(self@) matches Some(response) ==> json::reads_back(response, 127)
                ==> http::carries(reply@, response),
    {
        let accept = downstream::borrowed(&self.accept);
        if self.responses.len() == 0 {
            if let Some(id) = &self.session_id {
                state.terminate_session(id.as_str(), "init_failed");
            }
            return http::downstream_response(accept, 202, None, None);
        }
        let response = if self.batch {
            Json::array(json::copy_items(&self.responses))
        } else {
            self.responses[0].copy()
        };
        let mut session_id = text::copy_optional(&self.session_id);
        if !downstream::initialize_response_succeeded(&response) {
            if let Some(id) = &session_id {
                state.terminate_session(id.as_str(), "init_failed");
            }
            session_id = None;
        }
        http::downstream_response(accept, 200, Some(&response), session_id)
    }

    /// Takes a request one step further. No tool is being called for it. From a reply, the answers
    /// to the messages are read back wherever the parser reads them back from their text.
    pub fn advance(&mut self, state: &mut AppState, now: u64) -> (step: Step)
        requires
            old(state).wf(),
            old(self).wf(),
            !(old(self).turn is Calling),
        ensures
            final(state).wf(),
            final(self).wf(),
            (step@, final(state)@, final(self)@) == advanced(old(state)@, old(self)@, now),
            step matches Step::Reply(reply) ==> (response_of(final(self)@) matches Some(response)
                ==> json::reads_back(response, 127) ==> http::carries(reply@, response)),
    {
        self.close_turn(state, now);
        if self.done < self.messages.len() {
            self.take_up(state, now);
            match self.turn {
                Turn::Calling { .. } => Step::Upstream,
                _ => Step::Again,
            }
        } else {
            Step::Reply(self.finish(state))
        }
    }
}

/// The body of a tool call.
pub open spec fn call_body(call: ToolCallView) -> JsonView {
    rpc::request_of(
        call.id,
        "tools/call"@,
        JsonView::Object(
            json::no_fields().insert("name"@, JsonView::String(call.tool)).insert(
                "arguments"@,
                call.arguments,
            ),
        ),
    )
}

/// The request of a call, where `variables` is what environment variables hold.
pub open spec fn request_for_call(
    call: ToolCallView,
    variables: Map<Seq<char>, Seq<char>>,
) -> Result<upstream::UpstreamRequestView, Seq<char>> {
    upstream::request_to(call.config, call.session_id, call_body(call), variables)
}

impl ToolCall {
    /// The body of the call.
    pub fn body(&self) -> (body: Json)
        ensures
            body@ == call_body(self@),
    {
        let params = json::with_member(
            json::no_members(),
            "name",
            Json::string(self.tool.as_str()),
        );
        let params = json::with_member(params, "arguments", self.arguments.copy());
        rpc::json_rpc_request(self.id.copy(), "tools/call", Json::object(params))
    }
}

/// The answer to a tool call, where `result` is what it brought.
pub open spec fn call_answer(
    id: JsonView,
    result: Result<(Option<Seq<char>>, JsonView), Seq<char>>,
) -> JsonView {
    match result {
        Ok((_, value)) => rpc::result_of(id, value),
        Err(error) => rpc::error_of(id, rpc::JSONRPC_UPSTREAM_ERROR as int, error),
    }
}

/// Why a tool call has failed, if it has, where `result` is what it brought.
pub open spec fn call_failure(
    result: Result<(Option<Seq<char>>, JsonView), Seq<char>>,
) -> Option<Seq<char>> {
    match result {
        Ok((_, value)) => if downstream::tells_of_failure(value) {
            Some("upstream_returned_error"@)
        } else {
            None
        },
        Err(error) => Some(downstream::error_category(error)),
    }
}

/// The servers after one of them has answered.
pub open spec fn with_server_seen(
    servers: Map<Seq<char>, ManagedServerView>,
    name: Seq<char>,
    now: u64,
) -> Map<Seq<char>, ManagedServerView> {
    if servers.contains_key(name) {
        servers.insert(name, ManagedServerView { last_seen: Some(now), ..servers[name] })
    } else {
        servers
    }
}

/// What is kept after a tool call, where `result` is what it brought.
pub open spec fn after_call(
    state: AppStateView,
    call: ToolCallView,
    result: Result<(Option<Seq<char>>, JsonView), Seq<char>>,
    asked: u64,
    now: u64,
) -> AppStateView {
    AppStateView {
        metrics: state.metrics.with_call(
            call.server,
            call.tool,
            upstream::span(asked, now),
            call_failure(result),
        ),
        servers: if result is Ok {
            with_server_seen(state.servers, call.server, now)
        } else {
            state.servers
        },
        ..state
    }
}

/// The answer to a tool call, where `result` is what it brought.
pub fn finish_call(
    state: &mut AppState,
    call: &ToolCall,
    result: Result<(Option<String>, Json), String>,
    asked: u64,
    now: u64,
) -> (answer: Json)
    requires
        old(state).wf(),
    ensures
        final(state).wf(),
        answer@ == call_answer(call@.id, upstream::result_view(result)),
        answer@.field("id"@) == Some(call@.id),
        result matches Ok((_, value)) ==> answer@.field("result"@) == Some(value@),
        result is Err ==> answer@.field("error"@) is Some,
        final(state)@ == after_call(
            old(state)@,
            call@,
            upstream::result_view(result),
            asked,
            now,
        ),
{
    let nanos: u64 = upstream::elapsed(asked, now);
    let server = call.server.as_str();
    let tool = call.tool.as_str();
    match result {
        Ok((_, value)) => {
            let reason = if downstream::upstream_tool_returned_error(&value) {
                Some("upstream_returned_error")
            } else {
                None
            };
            state.metrics.record_tool_call(server, tool, nanos, reason);
            state.registry.mark_server_seen(server, now);
            proof {
                rpc::lemma_result_fields(call@.id, value@);
            }
            rpc::json_rpc_result(call.id.copy(), value)
        },
        Err(error) => {
            let reason = downstream::categorize_tool_error(error.as_str());
            state.metrics.record_tool_call(server, tool, nanos, Some(reason));
            proof {
                rpc::lemma_error_fields(call@.id, rpc::JSONRPC_UPSTREAM_ERROR as int, error@);
            }
            rpc::json_rpc_error(call.id.copy(), rpc::JSONRPC_UPSTREAM_ERROR, error.as_str())
        },
    }
}

/// A request whose tool call has come to its end.
pub open spec fn returned(state: AppStateView, post: PostView, outcome: OutcomeView, now: u64) -> (
    AppStateView,
    PostView,
) {
    match post.turn {
        TurnView::Calling { method, started, call, asked } => {
            let result = upstream::result_to(call.config, outcome);
            (
                after_call(
                    upstream::after_reply(state, call.config, outcome),
                    call,
                    result,
                    asked,
                    now,
                ),
                PostView {
                    turn: TurnView::Settled {
                        method,
                        started,
                        answer: Some(call_answer(call.id, result)),
                    },
                    ..post
                },
            )
        },
        _ => (state, post),
    }
}

/// A request whose tool call begins.
pub open spec fn asked_at(post: PostView, now: u64) -> PostView {
    match post.turn {
        TurnView::Calling { method, started, call, asked } => PostView {
            turn: TurnView::Calling { method, started, call, asked: now },
            ..post
        },
        _ => post,
    }
}

impl Post {
    /// The request for the tool that is to be called.
    pub fn call_request(&mut self, state: &mut AppState, now: u64) -> (request: Result<
        UpstreamRequest,
        String,
    >)
        requires
            old(state).wf(),
            old(self).wf(),
            old(self).turn is Calling,
        ensures
            final(state).wf(),
            final(self).wf(),
            final(self).turn is Calling,
            final(self)@ == asked_at(old(self)@, now),
            old(self)@.turn matches TurnView::Calling { call, .. } && {
                &&& final(state)@ == upstream::after_send(old(state)@, call.config, call_body(call))
                &&& upstream::request_view(request) == upstream::request_to(
                    call.config,
                    call.session_id,
                    call_body(call),
                    old(state)@.variables,
                )
                &&& upstream::request_view(request) == request_for_call(
                    call,
                    old(state)@.variables,
                )
            },
    {
        let mut turn = Turn::Idle;
        std::mem::swap(&mut self.turn, &mut turn);
        match turn {
            Turn::Calling { method, started, call, asked: _ } => {
                let request = upstream::send_upstream_body(
                    state,
                    &call.config,
                    downstream::borrowed(&call.session_id),
                    &call.body(),
                );
                self.turn = Turn::Calling { method, started, call, asked: now };
                request
            },
            _ => Err(String::new()),
        }
    }

    /// The tool call has come to its end.
    pub fn call_returned(&mut self, state: &mut AppState, outcome: &Outcome, now: u64)
        requires
            old(state).wf(),
            old(self).wf(),
            old(self).turn is Calling,
        ensures
            final(state).wf(),
            final(self).wf(),
            !(final(self).turn is Calling),
            (final(state)@, final(self)@) == returned(old(state)@, old(self)@, outcome@, now),
    {
        proof {
            lemma_answers();
        }
        let mut turn = Turn::Idle;
        std::mem::swap(&mut self.turn, &mut turn);
        if let Turn::Calling { method, started, call, asked } = turn {
            let result = upstream::upstream_result(state, &call.config, outcome);
            let answer = finish_call(state, &call, result, asked, now);
            self.turn = Turn::Settled { method, started, answer: Some(answer) };
        }
    }
}

/// A small hexadecimal digit.
pub open spec fn is_hex_digit(c: char) -> bool {
    '0' <= c <= '9' || 'a' <= c <= 'f'
}

/// The text of a random identifier: groups of 8, 4, 4, 4 and 12 small hexadecimal digits with
/// hyphens between them, of the version 4 and the common variant.
pub open spec fn is_session_id(id: Seq<char>) -> bool {
    &&& id.len() == 36
    &&& forall|i: int|
        0 <= i < 36 ==> if i == 8 || i == 13 || i == 18 || i == 23 {
            #[trigger] id[i] == '-'
        } else {
            is_hex_digit(id[i])
        }
    &&& id[14] == '4'
    &&& id[19] == '8' || id[19] == '9' || id[19] == 'a' || id[19] == 'b'
}

/// `uuid::Uuid::new_v4` and its hyphenated text: a random identifier of the form above. Which one
/// it is, and that it differs from those before, is left to chance.
#[verifier::external_body]
fn new_session_id() -> (id: String)
    ensures
        is_session_id(id@),
{
    Uuid::new_v4().to_string()
}

/// Lets a request in and begins with its messages, or turns it away. A client that introduces
/// itself gets a session under a new name.
pub fn start_post(state: &mut AppState, request: &PostRequest, started: u64, now: u64) -> (result:
    Result<Post, HttpReply>)
    requires
        old(state).wf(),
    ensures
        final(state).wf(),
        ({
            let (value, kept) = downstream::opened(old(state)@, request@, started, now);
            match result {
                Err(reply) => value == Err::<JsonView, HttpReplyView>(reply@) && final(state)@
                    == kept,
                Ok(post) => {
                    &&& value is Ok
                    &&& post.wf()
                    &&& post@ == first_turn(request@.accept, post@.session_id, value->Ok_0)
                    &&& final(state)@ == begun(kept, post@.session_id, now)
                    &&& post@.session_id is Some <==> downstream::has_method(
                        value->Ok_0,
                        "initialize"@,
                    )
                    &&& post@.session_id matches Some(id) ==> is_session_id(id)
                },
            }
        }),
{
    match downstream::open_post(state, request, started, now) {
        Ok(value) => {
            let session_id = if downstream::value_has_method(&value, "initialize") {
                Some(new_session_id())
            } else {
                None
            };
            Ok(begin_post(state, text::copy_optional(&request.accept), session_id, value, now))
        },
        Err(reply) => Err(reply),
    }
}

/// When all messages are done, every request has been answered under its own `id`, in order, and
/// nothing else has; a client that sent no request gets no body.
pub proof fn law_every_request_is_answered(state: AppStateView, post: PostView)
    requires
        post_ok(post),
        post.done == post.messages.len(),
    ensures
        answered(post.messages, post.responses),
        ({
            let (reply, kept) = finished(state, post);
            &&& owed_ids(post.messages).len() == 0 ==> reply == http::bare_reply(202)
            &&& owed_ids(post.messages).len() > 0 ==> reply.status == 200 && reply
                == http::json_reply(
                post.accept,
                200,
                Some(
                    if post.batch {
                        JsonView::Array(post.responses)
                    } else {
                        post.responses[0]
                    },
                ),
                reply.session_id,
            )
        }),
{
    assert(post.messages.take(post.done as int) =~= post.messages);
}

/// A client that introduced itself is told of its session exactly if it keeps it; and it keeps it
/// if one of its introductions was proper.
pub proof fn law_session_is_kept_if_told(state: AppStateView, post: PostView, id: Seq<char>)
    requires
        post_ok(post),
        post.done == post.messages.len(),
        post.session_id == Some(id),
        state.sessions.contains_key(id),
    ensures
        ({
            let (reply, kept) = finished(state, post);
            &&& reply.session_id == Some(id) <==> kept.sessions.contains_key(id)
            &&& (exists|i: int|
                0 <= i < post.messages.len() && #[trigger] introduces(post.messages[i]))
                ==> kept.sessions.contains_key(id)
            &&& forall|other: Seq<char>|
                other != id ==> (#[trigger] kept.sessions.contains_key(other)
                    <==> state.sessions.contains_key(other))
        }),
{
    assert(post.messages.take(post.done as int) =~= post.messages);
    if exists|i: int| 0 <= i < post.messages.len() && #[trigger] introduces(post.messages[i]) {
        assert(downstream::some_welcomed(post.responses));
        if !post.batch {
            assert(owed_ids(post.messages).len() <= 1) by {
                reveal_with_fuel(owed_ids, 2);
            }
            assert(post.responses.drop_last() =~= Seq::empty());
            assert(!downstream::some_welcomed(post.responses.drop_last()));
        }
    }
}

/// A client that does not introduce itself is told of no session, and all sessions stay.
pub proof fn law_no_introduction_no_session(state: AppStateView, post: PostView)
    requires
        post.session_id is None,
    ensures
        finished(state, post).0.session_id is None,
        finished(state, post).1 == state,
{
}

/// How much is left to do for a request.
pub open spec fn left_to_do(post: PostView) -> int {
    2 * (post.messages.len() - post.done) - if post.turn is Idle {
        0int
    } else {
        1int
    }
}

/// A request comes to its end: each step leaves less to do or replies, and a tool call that has
/// come to its end settles its message.
pub proof fn law_requests_come_to_an_end(
    state: AppStateView,
    post: PostView,
    outcome: OutcomeView,
    now: u64,
)
    requires
        post_ok(post),
    ensures
        0 <= left_to_do(post),
        !(post.turn is Calling) ==> ({
            let (step, kept, next) = advanced(state, post, now);
            step is Reply || left_to_do(next) < left_to_do(post)
        }),
        post.turn is Calling ==> ({
            let (kept, next) = returned(state, post, outcome, now);
            next.turn is Settled && left_to_do(next) == left_to_do(post)
        }),
{
}

/// A client that properly introduces itself is welcomed, told of the session that was opened for
/// it, and keeps it.
pub proof fn law_introduction_is_welcomed(
    state: AppStateView,
    accept: Option<Seq<char>>,
    session_id: Seq<char>,
    message: JsonView,
    now: u64,
    later: u64,
)
    requires
        introduces(message),
    ensures
        ({
            let start = begun(state, Some(session_id), now);
            let (first, kept, post) = advanced(
                start,
                first_turn(accept, Some(session_id), message),
                now,
            );
            let (second, end, done) = advanced(kept, post, later);
            &&& first is Again
            &&& second == StepView::Reply(
                http::json_reply(
                    accept,
                    200,
                    Some(
                        rpc::result_of(message.field("id"@)->Some_0, message::welcome(message)),
                    ),
                    Some(session_id),
                ),
            )
            &&& end.sessions == start.sessions
            &&& end.sessions.contains_key(session_id)
        }),
{
    let id = message.field("id"@)->Some_0;
    let answer = rpc::result_of(id, message::welcome(message));
    lemma_welcome(id, message);
    assert(message::handled(state.servers, message) == HandledView::Answer(answer));
    let messages = messages_in(message);
    assert(messages.len() == 1 && messages[0] == message);
    let none = Seq::<JsonView>::empty();
    assert(none.push(answer)[0] == answer);
}

/// What the world adds to one step of a request: the time of the step and, where a tool is called
/// for it, when the call was made, what came of it and when.
pub struct Tick {
    pub now: u64,
    pub asked: u64,
    pub outcome: OutcomeView,
    pub returned: u64,
}

/// One step of a request, with the tool call that it may ask for: the reply if there is one, what
/// is kept, and where the request stands.
pub open spec fn ticked(state: AppStateView, post: PostView, tick: Tick) -> (
    Option<HttpReplyView>,
    AppStateView,
    PostView,
) {
    let (step, kept, next) = advanced(state, post, tick.now);
    match (step, next.turn) {
        (StepView::Reply(reply), _) => (Some(reply), kept, next),
        (StepView::Upstream, TurnView::Calling { call, .. }) => {
            let sent = upstream::after_send(kept, call.config, call_body(call));
            let (read, settled) = returned(
                sent,
                asked_at(next, tick.asked),
                tick.outcome,
                tick.returned,
            );
            (None, read, settled)
        },
        _ => (None, kept, next),
    }
}

/// A request from where it stands to its reply, where nothing else happens meanwhile: the reply,
/// what is kept, and where the request stood last. Nothing where the ticks do not suffice.
pub open spec fn run(state: AppStateView, post: PostView, ticks: Seq<Tick>) -> Option<
    (HttpReplyView, AppStateView, PostView),
>
    decreases ticks.len(),
{
    if ticks.len() == 0 {
        None
    } else {
        let (reply, kept, next) = ticked(state, post, ticks[0]);
        match reply {
            Some(reply) => Some((reply, kept, next)),
            None => run(kept, next, ticks.skip(1)),
        }
    }
}

/// With its answer, a message whose tool was called is settled.
pub proof fn lemma_returned(state: AppStateView, post: PostView, outcome: OutcomeView, now: u64)
    requires
        post_ok(post),
    ensures
        post_ok(returned(state, post, outcome, now).1),
{
    lemma_answers();
}

/// The steps of a request before its reply leave the sessions and the request's own session alone;
/// the last one replies when all messages are done.
pub proof fn law_steps_leave_sessions_alone(state: AppStateView, post: PostView, tick: Tick)
    requires
        post_ok(post),
        !(post.turn is Calling),
    ensures
        ({
            let (reply, kept, next) = ticked(state, post, tick);
            &&& post_ok(next)
            &&& !(next.turn is Calling)
            &&& next.session_id == post.session_id
            &&& next.accept == post.accept
            &&& next.batch == post.batch
            &&& next.messages == post.messages
            &&& reply is None ==> kept.sessions == state.sessions && left_to_do(next) < left_to_do(
                post,
            )
            &&& reply matches Some(reply) ==> next.done == next.messages.len() && (reply, kept)
                == finished(closed(state, post, tick.now).0, next) && closed(
                state,
                post,
                tick.now,
            ).0.sessions == state.sessions
        }),
{
    lemma_closed(state, post, tick.now);
    let (counted, idle) = closed(state, post, tick.now);
    if idle.done < idle.messages.len() {
        lemma_taken(counted, idle, tick.now);
        let (kept, begun) = taken(counted, idle, tick.now);
        if let TurnView::Calling { call, .. } = begun.turn {
            lemma_returned(
                upstream::after_send(kept, call.config, call_body(call)),
                asked_at(begun, tick.asked),
                tick.outcome,
                tick.returned,
            );
        }
    }
}

/// A request that is given enough steps gets its reply.
pub proof fn law_request_reaches_its_reply(state: AppStateView, post: PostView, ticks: Seq<Tick>)
    requires
        post_ok(post),
        !(post.turn is Calling),
        ticks.len() > left_to_do(post),
    ensures
        run(state, post, ticks) is Some,
    decreases ticks.len(),
{
    law_steps_leave_sessions_alone(state, post, ticks[0]);
    let (reply, kept, next) = ticked(state, post, ticks[0]);
    if reply is None {
        law_request_reaches_its_reply(kept, next, ticks.skip(1));
    }
}

/// What the messages of a request come to, when all of them are done.
pub open spec fn response_of(post: PostView) -> Option<JsonView> {
    if post.responses.len() == 0 {
        None
    } else if post.batch {
        Some(JsonView::Array(post.responses))
    } else {
        Some(post.responses[0])
    }
}

/// A request that is run to its reply ends the session that was opened for it, unless the client
/// has been welcomed, and leaves all other sessions.
proof fn lemma_run_sessions(state: AppStateView, post: PostView, ticks: Seq<Tick>)
    requires
        post_ok(post),
        !(post.turn is Calling),
        run(state, post, ticks) is Some,
    ensures
        ({
            let (reply, end, last) = run(state, post, ticks)->Some_0;
            let welcome = response_of(last) matches Some(response) && downstream::welcomed(
                response,
            );
            &&& post_ok(last)
            &&& last.done == last.messages.len()
            &&& last.messages == post.messages
            &&& last.session_id == post.session_id
            &&& reply.session_id == if welcome {
                post.session_id
            } else {
                None
            }
            &&& match post.session_id {
                Some(id) => end.sessions.dom() == if welcome {
                    state.sessions.dom()
                } else {
                    state.sessions.dom().remove(id)
                },
                None => end.sessions == state.sessions,
            }
        }),
    decreases ticks.len(),
{
    law_steps_leave_sessions_alone(state, post, ticks[0]);
    let (reply, kept, next) = ticked(state, post, ticks[0]);
    if reply is None {
        lemma_run_sessions(kept, next, ticks.skip(1));
    } else {
        let (_, end, last) = run(state, post, ticks)->Some_0;
        if let Some(id) = post.session_id {
            if !(response_of(last) matches Some(response) && downstream::welcomed(response)) {
                assert(end.sessions.dom() =~= state.sessions.dom().remove(id));
            }
        }
    }
}

/// Sessions over a whole request, while nothing else happens: the sessions after it are those
/// before it and the one that the reply tells of, if it tells of one. It tells of one exactly if
/// the request was let in, a client introduces itself in it, and the answers hold a welcome; a
/// request that is turned away, or an introduction that fails, leaves no session. The name that a
/// session is given is one that no session has yet.
pub proof fn law_sessions_over_a_request(
    state: AppStateView,
    request: downstream::PostRequestView,
    started: u64,
    now: u64,
    session_id: Option<Seq<char>>,
    ticks: Seq<Tick>,
)
    requires
        session_id matches Some(id) ==> !state.sessions.contains_key(id),
        downstream::opened(state, request, started, now).0 matches Ok(value) ==> (session_id is Some
            <==> downstream::has_method(value, "initialize"@)) && run(
            begun(downstream::opened(state, request, started, now).1, session_id, now),
            first_turn(request.accept, session_id, value),
            ticks,
        ) is Some,
    ensures
        ({
            let (value, entered) = downstream::opened(state, request, started, now);
            match value {
                Err(reply) => {
                    &&& reply.session_id is None
                    &&& entered.sessions.dom() == state.sessions.dom()
                },
                Ok(value) => {
                    let (reply, end, last) = run(
                        begun(entered, session_id, now),
                        first_turn(request.accept, session_id, value),
                        ticks,
                    )->Some_0;
                    &&& auth::state_decision(state, request.authorization) is Allow
                    &&& answered(messages_in(value), last.responses)
                    &&& reply.session_id is Some <==> downstream::has_method(value, "initialize"@)
                        && state.accepting && (response_of(last) matches Some(response)
                        && downstream::welcomed(response))
                    &&& match reply.session_id {
                        Some(id) => end.sessions.dom() == state.sessions.dom().insert(id),
                        None => end.sessions.dom() == state.sessions.dom(),
                    }
                },
            }
        }),
{
    let (value, entered) = downstream::opened(state, request, started, now);
    assert(entered.sessions.dom() =~= state.sessions.dom());
    if let Ok(value) = value {
        let start = begun(entered, session_id, now);
        let first = first_turn(request.accept, session_id, value);
        assert(first.messages.take(0) =~= Seq::empty());
        lemma_run_sessions(start, first, ticks);
        let (reply, end, last) = run(start, first, ticks)->Some_0;
        assert(last.messages.take(last.done as int) =~= last.messages);
        if let Some(id) = session_id {
            assert(start.sessions.dom() =~= state.sessions.dom().insert(id));
            assert(state.sessions.dom().insert(id).remove(id) =~= state.sessions.dom());
        }
    }
}

/// Is this the answer under `id` that holds `result`?
pub open spec fn answers_with(answer: JsonView, id: JsonView, result: JsonView) -> bool {
    &&& answer.text_field("jsonrpc"@) == Some("2.0"@)
    &&& answer.field("id"@) == Some(id)
    &&& answer.field("result"@) == Some(result)
    &&& answer.field("error"@) is None
}

/// Is this the answer under `id` that tells of an upstream's failure in these words?
pub open spec fn tells_of_upstream_failure(
    answer: JsonView,
    id: JsonView,
    words: Seq<char>,
) -> bool {
    &&& answer.text_field("jsonrpc"@) == Some("2.0"@)
    &&& answer.field("id"@) == Some(id)
    &&& answer.field("result"@) is None
    &&& answer.field("error"@) matches Some(error) && {
        &&& error.field("code"@) == Some(JsonView::Number(json::int_number(-32000)))
        &&& error.text_field("message"@) == Some(words)
    }
}

/// The result of a tool call is passed on to the client as it is: where the server's answer holds
/// no error, the client's answer under the request's `id` holds, for every value, the result that
/// stands in the server's answer, or null where none stands there.
pub proof fn law_tool_result_is_passed_on(
    state: AppStateView,
    post: PostView,
    response: upstream::UpstreamResponseView,
    reply: upstream::ReplyView,
    body: JsonView,
    now: u64,
)
    requires
        post.turn matches TurnView::Calling { call, .. } && upstream::reply_of(
            call.config,
            response,
        ) == Ok::<upstream::ReplyView, Seq<char>>(reply),
        reply.body == Some(body),
        body.field("error"@) is None,
    ensures
        post.turn matches TurnView::Calling { call, method, started, .. } && (returned(
            state,
            post,
            OutcomeView::Response(response),
            now,
        ).1.turn matches TurnView::Settled {
            method: settled_method,
            started: settled_started,
            answer: Some(answer),
        } && settled_method == method && settled_started == started && answers_with(
            answer,
            call.id,
            match body.field("result"@) {
                Some(result) => result,
                None => JsonView::Null,
            },
        )),
{
    if let TurnView::Calling { call, .. } = post.turn {
        upstream::law_request_brings_the_result(call.config, response, reply);
        let result = match body.field("result"@) {
            Some(result) => result,
            None => JsonView::Null,
        };
        rpc::lemma_result_fields(call.id, result);
    }
}

/// A tool call that brings no result is answered with the reason why it brings none.
pub proof fn law_failed_call_tells_the_client(
    state: AppStateView,
    post: PostView,
    outcome: OutcomeView,
    why: Seq<char>,
    now: u64,
)
    requires
        post.turn matches TurnView::Calling { call, .. } && upstream::result_to(
            call.config,
            outcome,
        ) == Err::<(Option<Seq<char>>, JsonView), Seq<char>>(why),
    ensures
        post.turn matches TurnView::Calling { call, .. } && (returned(
            state,
            post,
            outcome,
            now,
        ).1.turn matches TurnView::Settled { answer: Some(answer), .. }
            && tells_of_upstream_failure(answer, call.id, why)),
{
    if let TurnView::Calling { call, .. } = post.turn {
        rpc::lemma_error_fields(call.id, -32000, why);
    }
}

/// A call asks its server for the tool, with the arguments, under the client's own `id`.
pub proof fn law_call_asks_for_the_tool(call: ToolCallView)
    ensures
        ({
            let body = call_body(call);
            &&& body.text_field("jsonrpc"@) == Some("2.0"@)
            &&& body.field("id"@) == Some(call.id)
            &&& body.text_field("method"@) == Some("tools/call"@)
            &&& body.field("params"@) matches Some(params) && {
                &&& params.text_field("name"@) == Some(call.tool)
                &&& params.field("arguments"@) == Some(call.arguments)
                &&& forall|member: Seq<char>| #[trigger]
                    params.field(member) is Some ==> member == "name"@ || member == "arguments"@
            }
        }),
{
    reveal_strlit("name");
    reveal_strlit("arguments");
    assert("name"@.len() == 4 && "arguments"@.len() == 9);
    rpc::law_request_says_what_it_asks(
        call.id,
        "tools/call"@,
        JsonView::Object(
            json::no_fields().insert("name"@, JsonView::String(call.tool)).insert(
                "arguments"@,
                call.arguments,
            ),
        ),
        "id"@,
    );
}

/// A client's request for a tool of a connected server, from the request to the reply: the server
/// that the name says is asked for the tool that it says, and what its answer holds as the result
/// is what the client gets as the result, under its own `id`.
pub proof fn law_client_gets_the_tools_result(
    state: AppStateView,
    accept: Option<Seq<char>>,
    message: JsonView,
    id: JsonView,
    params: JsonView,
    name: Seq<char>,
    at: int,
    asked: u64,
    meanwhile: AppStateView,
    response: upstream::UpstreamResponseView,
    reply: upstream::ReplyView,
    body: JsonView,
    result: JsonView,
    afterwards: AppStateView,
    first: u64,
    second: u64,
    third: u64,
)
    requires
        message::requests(message, id, "tools/call"@),
        message.field("params"@) == Some(params),
        params.text_field("name"@) == Some(name),
        message::first_separator(name, at),
        state.servers.contains_key(name.take(at)),
        state.servers[name.take(at)].connected,
        upstream::reply_of(state.servers[name.take(at)].config, response) == Ok::<
            upstream::ReplyView,
            Seq<char>,
        >(reply),
        reply.body == Some(body),
        body.field("error"@) is None,
        body.field("result"@) == Some(result),
    ensures
        ({
            let server = state.servers[name.take(at)];
            let (step, kept, calling) = advanced(state, first_turn(accept, None, message), first);
            let (read, settled) = returned(
                meanwhile,
                asked_at(calling, asked),
                OutcomeView::Response(response),
                second,
            );
            let (last, end, done) = advanced(afterwards, settled, third);
            &&& step is Upstream
            &&& calling.turn matches TurnView::Calling { call, .. } && call.tool == name.skip(
                at + 2,
            ) && call.config == server.config && call.session_id == server.session_id
            &&& exists|answer: JsonView| #[trigger]
                answers_with(answer, id, result) && last == StepView::Reply(
                    http::json_reply(accept, 200, Some(answer), None),
                )
        }),
{
    message::law_call_goes_where_its_name_says(state.servers, message, id, params, name, at);
    let start = first_turn(accept, None, message);
    assert(start.messages.len() == 1 && start.messages[0] == message);
    let (step, kept, calling) = advanced(state, start, first);
    let calling = asked_at(calling, asked);
    law_tool_result_is_passed_on(meanwhile, calling, response, reply, body, second);
    let settled = returned(meanwhile, calling, OutcomeView::Response(response), second).1;
    let answer = settled.turn->Settled_answer->Some_0;
    assert(answers_with(answer, id, result));
    let none = Seq::<JsonView>::empty();
    assert(none.push(answer)[0] == answer);
    lemma_not_a_batch(answer, id);
}

/// An answer that has an `id` is no list of answers.
proof fn lemma_not_a_batch(answer: JsonView, id: JsonView)
    requires
        answer.field("id"@) == Some(id),
    ensures
        answer is Object,
{
}

/// A client that asks for a tool of a server that is not connected is told so, and the call is
/// counted as failed; other servers' tools are not affected.
pub proof fn law_disconnected_server_is_told(
    state: AppStateView,
    post: PostView,
    id: JsonView,
    server: Seq<char>,
    tool: Seq<char>,
    now: u64,
)
    requires
        post.done < post.messages.len(),
        message::handled(state.servers, post.messages[post.done as int]) == (
        HandledView::Disconnected { id, server, tool }),
    ensures
        ({
            let (kept, next) = taken(state, post, now);
            let why = metrics_key_of_reason("upstream_disconnected"@);
            &&& next.turn matches TurnView::Settled { answer: Some(answer), .. }
                && tells_of_upstream_failure(
                answer,
                id,
                "upstream "@ + "'"@ + server + "'"@ + " is disconnected"@,
            )
            &&& kept.servers == state.servers && kept.sessions == state.sessions
            &&& kept.metrics.counters[why] == crate::metrics::counted(
                state.metrics.counters[why],
                1,
            )
            &&& kept.metrics.call_metric(server, tool).errors == crate::metrics::counted(
                state.metrics.call_metric(server, tool).errors,
                1,
            )
        }),
{
    let words = "upstream "@ + "'"@ + server + "'"@ + " is disconnected"@;
    rpc::lemma_error_fields(id, -32000, words);
}

/// The counter of failed tool calls of a reason.
pub open spec fn metrics_key_of_reason(reason: Seq<char>) -> crate::metrics::CounterKey {
    crate::metrics::key(crate::metrics::Family::ToolCallErrorReasons, reason, Seq::empty())
}

/// What the gateway answers by itself is what the client is answered; a message that gets no answer
/// gets none.
pub proof fn law_own_answers_are_given(
    state: AppStateView,
    post: PostView,
    answer: JsonView,
    now: u64,
)
    requires
        post.done < post.messages.len(),
    ensures
        ({
            let message = post.messages[post.done as int];
            let (kept, next) = taken(state, post, now);
            &&& message::handled(state.servers, message) == HandledView::Answer(answer) ==> (
            next.turn matches TurnView::Settled { answer: given, .. } && given == Some(answer)
                && kept == state)
            &&& message::handled(state.servers, message) is Silent ==> (
            next.turn matches TurnView::Settled { answer: given, .. } && given is None && kept
                == state)
        }),
{
}

/// Answers are collected in the order of their messages: when a message is settled, its answer
/// comes behind those before it, the next message has its turn, and the settled one is counted
/// once, under its method, as a success or as an error, with the time that it took.
pub proof fn law_settled_message_is_answered_and_counted(
    state: AppStateView,
    post: PostView,
    method: Seq<char>,
    started: u64,
    answer: Option<JsonView>,
    now: u64,
)
    requires
        post.turn == (TurnView::Settled { method, started, answer }),
    ensures
        ({
            let (kept, next) = closed(state, post, now);
            let label = match answer {
                Some(answer) => if answer.field("error"@) is Some {
                    "error"@
                } else {
                    "success"@
                },
                None => "success"@,
            };
            let count = crate::metrics::key(crate::metrics::Family::McpRequests, method, label);
            let time = crate::metrics::key(crate::metrics::Family::McpRequestNanos, method, label);
            &&& next.done == post.done + 1
            &&& next.turn is Idle
            &&& next.messages == post.messages && next.batch == post.batch && next.accept
                == post.accept && next.session_id == post.session_id
            &&& answer matches Some(given) ==> next.responses == post.responses.push(given)
            &&& answer is None ==> next.responses == post.responses
            &&& kept == (AppStateView { metrics: kept.metrics, ..state })
            &&& kept.metrics.tool_calls == state.metrics.tool_calls
            &&& kept.metrics.counters == state.metrics.counters.insert(
                count,
                crate::metrics::counted(state.metrics.counters[count], 1),
            ).insert(
                time,
                crate::metrics::counted(
                    state.metrics.counters[time],
                    upstream::span(started, now),
                ),
            )
        }),
{
}

/// A tool call counts for its tool, with the time that it took, as failed exactly if it brought no
/// result or one that tells of a failure. A server whose call brought a result was seen just then;
/// nothing else about the servers changes.
pub proof fn law_call_is_counted(
    state: AppStateView,
    call: ToolCallView,
    result: Result<(Option<Seq<char>>, JsonView), Seq<char>>,
    asked: u64,
    now: u64,
)
    ensures
        ({
            let after = after_call(state, call, result, asked, now);
            let before = state.metrics.call_metric(call.server, call.tool);
            let metric = after.metrics.call_metric(call.server, call.tool);
            let failed = match result {
                Ok((_, value)) => value.field("isError"@) == Some(JsonView::Bool(true)),
                Err(_) => true,
            };
            &&& metric.count == crate::metrics::counted(before.count, 1)
            &&& metric.errors == if failed {
                crate::metrics::counted(before.errors, 1)
            } else {
                before.errors
            }
            &&& metric.duration_sum_nanos == crate::metrics::counted(
                before.duration_sum_nanos,
                upstream::span(asked, now),
            )
            &&& !failed ==> after.metrics.counters == state.metrics.counters
            &&& result is Ok && failed ==> after.metrics.counters[metrics_key_of_reason(
                "upstream_returned_error"@,
            )] == crate::metrics::counted(
                state.metrics.counters[metrics_key_of_reason("upstream_returned_error"@)],
                1,
            )
            &&& result matches Err(why) ==> after.metrics.counters[metrics_key_of_reason(
                downstream::error_category(why),
            )] == crate::metrics::counted(
                state.metrics.counters[metrics_key_of_reason(downstream::error_category(why))],
                1,
            )
            &&& after.sessions == state.sessions
            &&& result is Err || !state.servers.contains_key(call.server) ==> after.servers
                == state.servers
            &&& result is Ok && state.servers.contains_key(call.server) ==> {
                &&& after.servers.remove(call.server) == state.servers.remove(call.server)
                &&& after.servers.contains_key(call.server)
                &&& after.servers[call.server] == (ManagedServerView {
                    last_seen: Some(now),
                    ..state.servers[call.server]
                })
            }
        }),
{
    let after = after_call(state, call, result, asked, now);
    if result is Ok && state.servers.contains_key(call.server) {
        assert(after.servers.remove(call.server) =~= state.servers.remove(call.server));
    }
}

/// The messages of a request are the items of a list, each in turn, or the one message that it is;
/// answers come as a list exactly if the messages do.
pub proof fn law_batches_are_taken_apart(
    accept: Option<Seq<char>>,
    session_id: Option<Seq<char>>,
    value: JsonView,
)
    ensures
        ({
            let post = first_turn(accept, session_id, value);
            &&& post.accept == accept && post.session_id == session_id
            &&& post.done == 0 && post.responses.len() == 0 && post.turn is Idle
            &&& value matches JsonView::Array(items) ==> post.batch && post.messages == items
            &&& !(value is Array) ==> !post.batch && post.messages == seq![value]
        }),
{
}

/// When all messages are done, the reply is of the status 200 and carries the answers, as a list
/// exactly if the messages came as one; without answers it is of the status 202 and empty.
pub proof fn law_reply_carries_the_answers(state: AppStateView, post: PostView)
    ensures
        ({
            let (reply, kept) = finished(state, post);
            &&& post.responses.len() == 0 ==> reply.status == 202 && reply.body.len() == 0
                && reply.content_type is None && reply.session_id is None
            &&& post.responses.len() > 0 ==> reply.status == 200 && reply.body
                == http::json_text_reply(
                post.accept,
                200,
                json::json_text(
                    if post.batch {
                        JsonView::Array(post.responses)
                    } else {
                        post.responses[0]
                    },
                ),
                None,
            ).body
            &&& kept.servers == state.servers && kept.accepting == state.accepting
        }),
{
}

/// A call goes to the address of its server, in the session that the gateway has there, and carries
/// the call.
pub proof fn law_call_goes_to_its_server(
    call: ToolCallView,
    variables: Map<Seq<char>, Seq<char>>,
)
    ensures
        request_for_call(call, variables) matches Ok(request) ==> {
            &&& request.url == call.config.url
            &&& request.session_id == call.session_id
            &&& request.body == json::json_text(call_body(call))
        },
        call.config.auth is None ==> request_for_call(call, variables) is Ok,
{
}

/// A call begins when its request is made; nothing else about the request of the client changes.
pub proof fn law_call_begins_when_it_is_asked(post: PostView, now: u64)
    ensures
        asked_at(post, now) == (PostView { turn: asked_at(post, now).turn, ..post }),
        post.turn matches TurnView::Calling { method, started, call, .. } ==> asked_at(
            post,
            now,
        ).turn == (TurnView::Calling { method, started, call, asked: now }),
        !(post.turn is Calling) ==> asked_at(post, now) == post,
{
}

/// A call that has come to its end is counted for its tool with the time since it was asked, and
/// the bytes of the answer for its server. Where it brought a result, the server was seen just
/// then.
pub proof fn law_returned_call_is_counted(
    state: AppStateView,
    post: PostView,
    response: upstream::UpstreamResponseView,
    now: u64,
)
    requires
        post.turn is Calling,
        response.body.len() <= u64::MAX,
    ensures
        post.turn matches TurnView::Calling { call, asked, .. } && {
            let outcome = OutcomeView::Response(response);
            let after = returned(state, post, outcome, now).0;
            let was = state.metrics.call_metric(call.server, call.tool);
            let is = after.metrics.call_metric(call.server, call.tool);
            let received = crate::metrics::key(
                crate::metrics::Family::UpstreamBytes,
                call.config.name,
                "received"@,
            );
            &&& is.count == crate::metrics::counted(was.count, 1)
            &&& is.duration_sum_nanos == crate::metrics::counted(
                was.duration_sum_nanos,
                upstream::span(asked, now),
            )
            &&& after.metrics.counters[received] == crate::metrics::counted(
                state.metrics.counters[received],
                response.body.len() as u64,
            )
            &&& after.sessions == state.sessions
            &&& upstream::result_to(call.config, outcome) is Ok && state.servers.contains_key(
                call.server,
            ) ==> after.servers[call.server].last_seen == Some(now)
        },
{
}

/// Requests under way, and what becomes of them, are seen as they are.
pub proof fn law_requests_are_seen_as_they_are(post: Post, reply: HttpReply)
    ensures
        post@.batch == post.batch,
        post@.done == post.done,
        post@.turn == post.turn@,
        post@.messages.len() == post.messages@.len(),
        forall|i: int|
            0 <= i < post.messages@.len() ==> #[trigger] post@.messages[i] == post.messages@[i]@,
        post@.responses.len() == post.responses@.len(),
        forall|i: int|
            0 <= i < post.responses@.len() ==> #[trigger] post@.responses[i] == post.responses@[i]@,
        post.accept matches Some(accept) ==> post@.accept == Some(accept@),
        post.accept is None ==> post@.accept is None,
        post.session_id matches Some(id) ==> post@.session_id == Some(id@),
        post.session_id is None ==> post@.session_id is None,
        post.turn matches Turn::Settled { method, started, answer: Some(answer) } ==> post@.turn
            == (TurnView::Settled { method: method@, started, answer: Some(answer@) }),
        post.turn matches Turn::Calling { method, started, call, asked } ==> post@.turn == (
        TurnView::Calling { method: method@, started, call: call@, asked }),
        Step::Reply(reply)@ == StepView::Reply(reply@),
        Step::Again@ == StepView::Again,
        Step::Upstream@ == StepView::Upstream,
{
}

/// A session that was opened for a client that is then not welcomed is counted as one whose
/// introduction failed; one that stays is not counted as ended.
pub proof fn law_failed_introductions_are_counted(
    state: AppStateView,
    post: PostView,
    id: Seq<char>,
)
    requires
        post.session_id == Some(id),
        state.sessions.contains_key(id),
    ensures
        ({
            let kept = finished(state, post).1;
            let ended = crate::metrics::key(
                crate::metrics::Family::SessionTerminations,
                "init_failed"@,
                Seq::empty(),
            );
            &&& kept.sessions.contains_key(id) ==> kept == state
            &&& !kept.sessions.contains_key(id) ==> kept.metrics.counters
                == state.metrics.counters.insert(
                ended,
                crate::metrics::counted(state.metrics.counters[ended], 1),
            )
        }),
{
}

/// A client that introduces itself gets a session at once, begun just then; one that does not gets
/// none.
pub proof fn law_introduction_opens_a_session(
    state: AppStateView,
    id: Seq<char>,
    other: Seq<char>,
    now: u64,
)
    requires
        other != id,
    ensures
        begun(state, None, now) == state,
        begun(state, Some(id), now).sessions.contains_key(id),
        begun(state, Some(id), now).sessions[id].created_at == now,
        begun(state, Some(id), now).sessions[id].last_activity == now,
        begun(state, Some(id), now).sessions.contains_key(other) <==> state.sessions.contains_key(
            other,
        ),
        begun(state, Some(id), now).sessions[other] == state.sessions[other],
{
}

} // verus!
