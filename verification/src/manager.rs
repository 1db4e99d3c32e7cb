//! How an upstream server is kept connected.
use vstd::prelude::*;
use vstd::string::*;

use crate::config::{ServerConfig, ServerConfigView};
use crate::json;
use crate::json::{Json, JsonView};
use crate::message;
use crate::metrics;
use crate::metrics::Family;
use crate::rpc;
use crate::state::{AppState, AppStateView, ManagedServerView};
use crate::text;
use crate::upstream;
use crate::upstream::{Outcome, OutcomeView, UpstreamRequest};

verus! {

/// Where the exchange with a server stands.
#[derive(Debug, Clone, Copy, PartialEq, Eq, Structural)]
pub enum Phase {
    /// The gateway introduces itself.
    Initialize,
    /// It confirms that it has been welcomed.
    Notify,
    /// It asks for the tools.
    List,
}

/// One attempt to learn a server's tools.
#[derive(Debug)]
pub struct Round {
    pub config: ServerConfig,
    pub phase: Phase,
    pub session_id: Option<String>,
    pub started: u64,
}

/// One attempt to learn a server's tools, as mathematics.
pub struct RoundView {
    pub config: ServerConfigView,
    pub phase: Phase,
    pub session_id: Option<Seq<char>>,
    pub started: u64,
}

impl View for Round {
    type V = RoundView;

    open spec fn view(&self) -> RoundView {
        RoundView {
            config: self.config@,
            phase: self.phase,
            session_id: text::optional(self.session_id),
            started: self.started,
        }
    }
}

/// How the gateway introduces itself.
pub open spec fn introduction() -> JsonView {
    JsonView::Object(
        json::no_fields().insert("protocolVersion"@, JsonView::String("2024-11-05"@)).insert(
            "capabilities"@,
            JsonView::Object(json::no_fields()),
        ).insert("clientInfo"@, message::about_gateway()),
    )
}

/// How the gateway introduces itself.
pub fn initialize_params() -> (params: Json)
    ensures
        params@ == introduction(),
{
    let entries = json::with_member(
        json::no_members(),
        "protocolVersion",
        Json::string("2024-11-05"),
    );
    let entries = json::with_member(entries, "capabilities", Json::object(json::no_members()));
    Json::object(json::with_member(entries, "clientInfo", message::gateway_info()))
}

/// What is sent in each phase.
pub open spec fn phase_body(phase: Phase) -> JsonView {
    match phase {
        Phase::Initialize => rpc::request_of(
            JsonView::Number(json::int_number(1)),
            "initialize"@,
            introduction(),
        ),
        Phase::Notify => rpc::notification_of("notifications/initialized"@, JsonView::Null),
        Phase::List => rpc::request_of(
            JsonView::Number(json::int_number(2)),
            "tools/list"@,
            JsonView::Object(json::no_fields()),
        ),
    }
}

/// A round that begins: the gateway introduces itself where it has no session.
pub open spec fn first_phase(
    config: ServerConfigView,
    session_id: Option<Seq<char>>,
    now: u64,
) -> RoundView {
    RoundView {
        config,
        phase: if session_id is Some {
            Phase::List
        } else {
            Phase::Initialize
        },
        session_id,
        started: now,
    }
}

/// What a phase leads to.
#[derive(Debug)]
pub enum Progress {
    /// The next phase.
    Next(Round),
    /// The server has given its tools; its session goes on under this name.
    Loaded { session_id: Option<String>, tools: Vec<Json> },
    /// The attempt has failed, for this reason.
    Failed(String),
}

/// What a phase leads to, as mathematics.
pub enum ProgressView {
    Next(RoundView),
    Loaded { session_id: Option<Seq<char>>, tools: Seq<JsonView> },
    Failed(Seq<char>),
}

impl View for Progress {
    type V = ProgressView;

    open spec fn view(&self) -> ProgressView {
        match self {
            Progress::Next(round) => ProgressView::Next(round@),
            Progress::Loaded { session_id, tools } => ProgressView::Loaded {
                session_id: text::optional(*session_id),
                tools: json::views(tools@),
            },
            Progress::Failed(error) => ProgressView::Failed(error@),
        }
    }
}

/// Where the gateway has introduced itself it confirms this, in the session that the server named;
/// a failure ends the round.
pub open spec fn initialize_progress(
    round: RoundView,
    result: Result<(Option<Seq<char>>, JsonView), Seq<char>>,
    now: u64,
) -> ProgressView {
    match result {
        Ok((session_id, _)) => ProgressView::Next(
            RoundView { phase: Phase::Notify, session_id, started: now, ..round },
        ),
        Err(error) => ProgressView::Failed(error),
    }
}

/// The list of tools ends the round. The session keeps its name where the server gives no other.
pub open spec fn list_progress(
    round: RoundView,
    result: Result<(Option<Seq<char>>, JsonView), Seq<char>>,
) -> ProgressView {
    match result {
        Ok((session_id, value)) => match value.field("tools"@) {
            Some(JsonView::Array(tools)) => ProgressView::Loaded {
                session_id: if session_id is Some {
                    session_id
                } else {
                    round.session_id
                },
                tools,
            },
            _ => ProgressView::Failed(
                message::quoted(
                    "upstream "@,
                    round.config.name,
                    " tools/list returned no tools array"@,
                ),
            ),
        },
        Err(error) => ProgressView::Failed(error),
    }
}

/// What a phase leads to. Whether the confirmation got through does not matter.
pub open spec fn progress(round: RoundView, outcome: OutcomeView, now: u64) -> ProgressView {
    match round.phase {
        Phase::Initialize => initialize_progress(
            round,
            upstream::result_to(round.config, outcome),
            now,
        ),
        Phase::Notify => ProgressView::Next(
            RoundView { phase: Phase::List, started: now, ..round },
        ),
        Phase::List => list_progress(round, upstream::result_to(round.config, outcome)),
    }
}

/// The label of a result.
pub open spec fn result_label(ok: bool) -> Seq<char> {
    if ok {
        "success"@
    } else {
        "error"@
    }
}

/// The counting of a phase that leads to `next`.
pub open spec fn phase_counted(
    state: AppStateView,
    round: RoundView,
    next: ProgressView,
    now: u64,
) -> AppStateView {
    let nanos = upstream::span(round.started, now);
    let label = result_label(!(next is Failed));
    match round.phase {
        Phase::Initialize => AppStateView {
            metrics: state.metrics.with_initialize(round.config.name, label, nanos),
            ..state
        },
        Phase::Notify => state,
        Phase::List => AppStateView {
            metrics: state.metrics.with_tools_refresh(round.config.name, label, nanos),
            ..state
        },
    }
}

/// What is kept after a phase.
pub open spec fn after_phase(
    state: AppStateView,
    round: RoundView,
    outcome: OutcomeView,
    now: u64,
) -> AppStateView {
    phase_counted(
        upstream::after_reply(state, round.config, outcome),
        round,
        progress(round, outcome, now),
        now,
    )
}

/// The request of a phase, where `variables` is what environment variables hold.
pub open spec fn phase_request(round: RoundView, variables: Map<Seq<char>, Seq<char>>) -> Result<
    upstream::UpstreamRequestView,
    Seq<char>,
> {
    upstream::request_to(round.config, round.session_id, phase_body(round.phase), variables)
}

impl Round {
    /// The body that is sent.
    pub fn body(&self) -> (body: Json)
        ensures
            body@ == phase_body(self@.phase),
    {
        match self.phase {
            Phase::Initialize => rpc::json_rpc_request(
                Json::integer(1),
                "initialize",
                initialize_params(),
            ),
            Phase::Notify => rpc::json_rpc_notification("notifications/initialized", Json::Null),
            Phase::List => rpc::json_rpc_request(
                Json::integer(2),
                "tools/list",
                Json::object(json::no_members()),
            ),
        }
    }

    /// The request that is sent.
    pub fn request(&self, state: &mut AppState) -> (request: Result<
        UpstreamRequest,
        String,
    >)
        requires
            old(state).wf(),
            self.config.wf(),
        ensures
            final(state).wf(),
            final(state)@ == upstream::after_send(
                old(state)@,
                self@.config,
                phase_body(self@.phase),
            ),
            upstream::request_view(request) == upstream::request_to(
                self@.config,
                self@.session_id,
                phase_body(self@.phase),
                old(state)@.variables,
            ),
            upstream::request_view(request) == phase_request(self@, old(state)@.variables),
    {
        let session_id = match &self.session_id {
            Some(id) => Some(id.as_str()),
            None => None,
        };
        upstream::send_upstream_body(state, &self.config, session_id, &self.body())
    }

    /// Ends a phase with what came of its request.
    pub fn end_phase(self, state: &mut AppState, outcome: &Outcome, now: u64) -> (next: Progress)
        requires
            old(state).wf(),
            self.config.wf(),
        ensures
            final(state).wf(),
            final(state)@ == after_phase(old(state)@, self@, outcome@, now),
            next@ == progress(self@, outcome@, now),
            next matches Progress::Next(round) ==> round.config.wf(),
    {
        match self.phase {
            Phase::Initialize => {
                let result = upstream::upstream_result(state, &self.config, outcome);
                self.end_initialize(state, result, now)
            },
            Phase::Notify => {
                let _ = upstream::upstream_reply(state, &self.config, outcome);
                Progress::Next(
                    Round {
                        config: self.config,
                        phase: Phase::List,
                        session_id: self.session_id,
                        started: now,
                    },
                )
            },
            Phase::List => {
                let result = upstream::upstream_result(state, &self.config, outcome);
                self.load_tools(state, result, now)
            },
        }
    }

    /// Ends the introduction, where `result` is what it brought.
    pub fn end_initialize(
        self,
        state: &mut AppState,
        result: Result<(Option<String>, Json), String>,
        now: u64,
    ) -> (next: Progress)
        requires
            old(state).wf(),
            self.config.wf(),
            self.phase == Phase::Initialize,
        ensures
            final(state).wf(),
            final(state)@ == phase_counted(old(state)@, self@, next@, now),
            next@ == initialize_progress(self@, upstream::result_view(result), now),
            next matches Progress::Next(round) ==> round.config.wf(),
    {
        let nanos: u64 = upstream::elapsed(self.started, now);
        let name = self.config.name.clone();
        match result {
            Ok((session_id, _)) => {
                state.metrics.record_upstream_initialize(name.as_str(), "success", nanos);
                Progress::Next(
                    Round { config: self.config, phase: Phase::Notify, session_id, started: now },
                )
            },
            Err(error) => {
                state.metrics.record_upstream_initialize(name.as_str(), "error", nanos);
                Progress::Failed(error)
            },
        }
    }

    /// Ends the round, where `result` is what the question for the tools brought.
    pub fn load_tools(
        self,
        state: &mut AppState,
        result: Result<(Option<String>, Json), String>,
        now: u64,
    ) -> (next: Progress)
        requires
            old(state).wf(),
            self.phase == Phase::List,
        ensures
            final(state).wf(),
            final(state)@ == phase_counted(old(state)@, self@, next@, now),
            next@ == list_progress(self@, upstream::result_view(result)),
            next matches Progress::Loaded { tools, .. } ==> (result matches Ok((_, value))
                && value@.field("tools"@) == Some(JsonView::Array(json::views(tools@)))),
    {
        let nanos: u64 = upstream::elapsed(self.started, now);
        let name = self.config.name.as_str();
        let (session_id, value) = match result {
            Ok(result) => result,
            Err(error) => {
                state.metrics.record_upstream_tools_refresh(name, "error", nanos);
                return Progress::Failed(error);
            },
        };
        let tools = match value.get("tools") {
            Some(tools) => tools.as_array(),
            None => None,
        };
        match tools {
            Some(tools) => {
                state.metrics.record_upstream_tools_refresh(name, "success", nanos);
                let session_id = match session_id {
                    Some(id) => Some(id),
                    None => text::copy_optional(&self.session_id),
                };
                Progress::Loaded { session_id, tools: json::copy_items(tools) }
            },
            None => {
                state.metrics.record_upstream_tools_refresh(name, "error", nanos);
                Progress::Failed(
                    message::quoted_text("upstream ", name, " tools/list returned no tools array"),
                )
            },
        }
    }
}

/// What is remembered of a server from one round to the next: its session, and how many rounds
/// have failed since one succeeded.
#[derive(Debug)]
pub struct Manager {
    pub name: String,
    pub session_id: Option<String>,
    pub failures: u32,
}

/// What is remembered of a server, as mathematics.
pub struct ManagerView {
    pub name: Seq<char>,
    pub session_id: Option<Seq<char>>,
    pub failures: u32,
}

impl View for Manager {
    type V = ManagerView;

    open spec fn view(&self) -> ManagerView {
        ManagerView {
            name: self.name@,
            session_id: text::optional(self.session_id),
            failures: self.failures,
        }
    }
}

/// What to do after a failed round.
#[derive(Debug, Clone, Copy, PartialEq, Eq, Structural)]
pub struct Retry {
    /// Wait for so many milliseconds.
    pub millis: u64,
    /// The server has now failed as often as it may: no round follows the wait, unless the limit is
    /// raised meanwhile.
    pub exhausted: bool,
    /// The server is required too: the gateway does not start without it.
    pub fatal: bool,
}

/// Has a server failed as often in a row as it may? A limit of 0 is none.
pub open spec fn given_up(config: ServerConfigView, failures: u32) -> bool {
    config.reconnect.max_attempts > 0 && failures >= config.reconnect.max_attempts
}

/// What is remembered after a round that brought the tools.
pub open spec fn manager_after_success(
    manager: ManagerView,
    session_id: Option<Seq<char>>,
) -> ManagerView {
    ManagerView {
        session_id: if session_id is Some {
            session_id
        } else {
            manager.session_id
        },
        failures: 0,
        ..manager
    }
}

/// What is remembered after a round that failed.
pub open spec fn manager_after_failure(manager: ManagerView) -> ManagerView {
    ManagerView {
        session_id: None,
        failures: if manager.failures == u32::MAX {
            u32::MAX
        } else {
            (manager.failures + 1) as u32
        },
        ..manager
    }
}

/// The servers after one of them, if it is still there, has changed.
pub open spec fn with_server(
    state: AppStateView,
    name: Seq<char>,
    server: ManagedServerView,
) -> AppStateView {
    AppStateView {
        servers: if state.servers.contains_key(name) {
            state.servers.insert(name, server)
        } else {
            state.servers
        },
        ..state
    }
}

/// The counter of attempts to reach a server.
pub open spec fn attempts(server: Seq<char>, result: Seq<char>) -> metrics::CounterKey {
    metrics::key(Family::UpstreamReconnectAttempts, server, result)
}

/// The counter of a server's health checks.
pub open spec fn checks(server: Seq<char>, result: Seq<char>) -> metrics::CounterKey {
    metrics::key(Family::UpstreamHealthChecks, server, result)
}

/// What is kept after a round that brought the tools.
pub open spec fn state_after_success(
    state: AppStateView,
    manager: ManagerView,
    session_id: Option<Seq<char>>,
    tools: Seq<JsonView>,
    now: u64,
) -> AppStateView {
    let name = manager.name;
    let attempted = if manager.failures > 0 {
        state.metrics.plus(attempts(name, "success"@), 1)
    } else {
        state.metrics
    };
    let counted = AppStateView { metrics: attempted.plus(checks(name, "success"@), 1), ..state };
    with_server(
        counted,
        name,
        state.servers[name].reached(
            manager_after_success(manager, session_id).session_id,
            tools,
            now,
        ),
    )
}

/// What to do after a failed round.
pub open spec fn retry_after(config: ServerConfigView, failures: u32) -> Retry {
    Retry {
        millis: upstream::backoff_millis(config.reconnect, failures) as u64,
        exhausted: given_up(config, failures),
        fatal: given_up(config, failures) && config.required,
    }
}

/// What is kept after a round that failed.
pub open spec fn state_after_failure(
    state: AppStateView,
    manager: ManagerView,
    error: Seq<char>,
    millis: u64,
) -> AppStateView {
    let name = manager.name;
    let counted = AppStateView {
        metrics: state.metrics.plus(attempts(name, "error"@), 1).plus(
            checks(name, "failure"@),
            1,
        ).with_backoff(name, millis),
        ..state
    };
    with_server(counted, name, state.servers[name].lost(error))
}

/// After how many seconds the tools of a server are asked for again.
pub open spec fn refresh_after(config: ServerConfigView) -> u64 {
    if config.tools.ttl_seconds < 1 {
        1
    } else {
        config.tools.ttl_seconds
    }
}

/// The round that begins, if one does.
pub open spec fn round_begun(state: AppStateView, manager: ManagerView, now: u64) -> Option<
    RoundView,
> {
    if state.servers.contains_key(manager.name) && !given_up(
        state.servers[manager.name].config,
        manager.failures,
    ) {
        Some(first_phase(state.servers[manager.name].config, manager.session_id, now))
    } else {
        None
    }
}

/// Has a server failed as often in a row as it may?
fn is_given_up(config: &ServerConfig, failures: u32) -> (yes: bool)
    ensures
        yes == given_up(config@, failures),
{
    config.reconnect.max_attempts > 0 && failures >= config.reconnect.max_attempts
}

impl Manager {
    /// Nothing is remembered of a server yet.
    pub fn new(name: String) -> (manager: Self)
        ensures
            manager@ == (ManagerView { name: name@, session_id: None, failures: 0 }),
    {
        Manager { name, session_id: None, failures: 0 }
    }

    /// Begins a round, unless the server is gone or has failed as often in a row as it may.
    pub fn begin_round(&self, state: &AppState, now: u64) -> (round: Option<Round>)
        requires
            state.wf(),
        ensures
            match round {
                Some(round) => {
                    &&& round.config.wf()
                    &&& state@.servers.contains_key(self@.name)
                    &&& !given_up(state@.servers[self@.name].config, self@.failures)
                    &&& round@ == first_phase(
                        state@.servers[self@.name].config,
                        self@.session_id,
                        now,
                    )
                },
                None => !state@.servers.contains_key(self@.name) || given_up(
                    state@.servers[self@.name].config,
                    self@.failures,
                ),
            },
            match round {
                Some(round) => round_begun(state@, self@, now) == Some(round@),
                None => round_begun(state@, self@, now) is None,
            },
    {
        let config = match state.registry.get_server_config(self.name.as_str()) {
            Some(config) => config,
            None => return None,
        };
        if is_given_up(&config, self.failures) {
            return None;
        }
        let phase = if self.session_id.is_some() {
            Phase::List
        } else {
            Phase::Initialize
        };
        Some(
            Round {
                config,
                phase,
                session_id: text::copy_optional(&self.session_id),
                started: now,
            },
        )
    }

    /// A round brought the tools. The next one follows after so many seconds.
    pub fn succeed(
        &mut self,
        state: &mut AppState,
        config: &ServerConfig,
        session_id: Option<String>,
        tools: Vec<Json>,
        now: u64,
    ) -> (seconds: u64)
        requires
            old(state).wf(),
        ensures
            final(state).wf(),
            final(self)@ == manager_after_success(old(self)@, text::optional(session_id)),
            final(state)@ == state_after_success(
                old(state)@,
                old(self)@,
                text::optional(session_id),
                json::views(tools@),
                now,
            ),
            seconds == vstd::math::max(config@.tools.ttl_seconds as int, 1),
            seconds == refresh_after(config@),
    {
        if self.failures > 0 {
            state.metrics.record_upstream_reconnect_attempt(self.name.as_str(), "success");
        }
        state.metrics.record_upstream_health_check(self.name.as_str(), "success");
        self.failures = 0;
        if session_id.is_some() {
            self.session_id = session_id;
        }
        state.registry.set_server_connected(
            self.name.as_str(),
            text::copy_optional(&self.session_id),
            tools,
            now,
        );
        if config.tools.ttl_seconds < 1 {
            1
        } else {
            config.tools.ttl_seconds
        }
    }

    /// A round failed. The next one follows after a wait, unless the server has now failed as often
    /// in a row as it may.
    pub fn fail(&mut self, state: &mut AppState, config: &ServerConfig, error: String) -> (retry:
        Retry)
        requires
            old(state).wf(),
        ensures
            final(state).wf(),
            final(self)@ == manager_after_failure(old(self)@),
            final(state)@ == state_after_failure(old(state)@, old(self)@, error@, retry.millis),
            retry == retry_after(config@, final(self)@.failures),
    {
        state.metrics.record_upstream_reconnect_attempt(self.name.as_str(), "error");
        state.metrics.record_upstream_health_check(self.name.as_str(), "failure");
        self.failures = self.failures.saturating_add(1);
        self.session_id = None;
        state.registry.set_server_disconnected(self.name.as_str(), error);
        let exhausted = is_given_up(config, self.failures);
        let millis: u64 = upstream::backoff_wait(&config.reconnect, self.failures);
        state.metrics.set_upstream_backoff(self.name.as_str(), millis);
        Retry { millis, exhausted, fatal: exhausted && config.required }
    }

    /// The wait after a failed round is over.
    pub fn waited(&self, state: &mut AppState, retry: Retry)
        requires
            old(state).wf(),
        ensures
            final(state).wf(),
            final(state)@ == (AppStateView {
                metrics: old(state)@.metrics.with_backoff_complete(self@.name, retry.millis),
                ..old(state)@
            }),
    {
        state.metrics.record_upstream_backoff_complete(self.name.as_str(), retry.millis);
    }
}

/// What is remembered after a number of failed rounds in a row.
pub open spec fn manager_after_failures(manager: ManagerView, rounds: nat) -> ManagerView
    decreases rounds,
{
    if rounds == 0 {
        manager
    } else {
        manager_after_failure(manager_after_failures(manager, (rounds - 1) as nat))
    }
}

/// A limit of 0 never gives a server up. A limit above 0 gives it up after as many failures in a
/// row, and not before, whether the server is required or not.
pub proof fn law_attempts_are_limited(
    config: ServerConfigView,
    name: Seq<char>,
    session_id: Option<Seq<char>>,
    rounds: nat,
)
    ensures
        ({
            let fresh = ManagerView { name, session_id, failures: 0 };
            let after = manager_after_failures(fresh, rounds);
            let most = config.reconnect.max_attempts;
            &&& most == 0 ==> !given_up(config, after.failures)
            &&& most > 0 ==> (given_up(config, after.failures) <==> rounds >= most)
        }),
{
    lemma_failures(ManagerView { name, session_id, failures: 0 }, rounds);
}

proof fn lemma_failures(fresh: ManagerView, rounds: nat)
    requires
        fresh.failures == 0,
    ensures
        manager_after_failures(fresh, rounds).failures == vstd::math::min(
            rounds as int,
            u32::MAX as int,
        ),
    decreases rounds,
{
    if rounds > 0 {
        lemma_failures(fresh, (rounds - 1) as nat);
    }
}

/// A round that succeeds, or a task that starts afresh, begins to count again.
pub proof fn law_success_restores_all_attempts(
    config: ServerConfigView,
    manager: ManagerView,
    session_id: Option<Seq<char>>,
)
    ensures
        !given_up(config, manager_after_success(manager, session_id).failures),
        !given_up(config, 0),
{
}

/// After a failed round the gateway forgets the session and introduces itself again, and the server
/// offers no tools until it answers.
pub proof fn law_failure_starts_over(
    state: AppStateView,
    manager: ManagerView,
    error: Seq<char>,
    millis: u64,
    now: u64,
)
    ensures
        ({
            let after = state_after_failure(state, manager, error, millis);
            let name = manager.name;
            &&& first_phase(
                after.servers[name].config,
                manager_after_failure(manager).session_id,
                now,
            ).phase == Phase::Initialize
            &&& state.servers.contains_key(name) ==> !after.servers[name].connected
                && after.servers[name].tools.len() == 0 && after.servers[name].session_id is None
        }),
{
}

/// After a round that brought the tools they are offered, and where there is a session the next
/// round asks for the tools only.
pub proof fn law_success_keeps_the_session(
    state: AppStateView,
    manager: ManagerView,
    session_id: Seq<char>,
    tools: Seq<JsonView>,
    now: u64,
    later: u64,
)
    requires
        state.servers.contains_key(manager.name),
    ensures
        ({
            let after = state_after_success(state, manager, Some(session_id), tools, now);
            let server = after.servers[manager.name];
            &&& server.connected && server.tools == tools && server.session_id == Some(session_id)
            &&& server.last_seen == Some(now) && server.last_error is None
            &&& first_phase(
                server.config,
                manager_after_success(manager, Some(session_id)).session_id,
                later,
            ) == (RoundView {
                config: server.config,
                phase: Phase::List,
                session_id: Some(session_id),
                started: later,
            })
        }),
{
}

/// A round ends: each phase leads to the next one, or ends it.
pub proof fn law_rounds_end(round: RoundView, outcome: OutcomeView, now: u64)
    ensures
        match progress(round, outcome, now) {
            ProgressView::Next(next) => {
                &&& next.config == round.config
                &&& match round.phase {
                    Phase::Initialize => next.phase == Phase::Notify,
                    Phase::Notify => next.phase == Phase::List,
                    Phase::List => false,
                }
            },
            _ => round.phase != Phase::Notify,
        },
{
}

/// The list of tools that a server gives is loaded whole: every tool that stands in it, at its
/// place, and no others. The session goes on under the name that the answer gives, or under the one
/// that it has.
pub proof fn law_list_of_tools_is_loaded_whole(
    round: RoundView,
    response: upstream::UpstreamResponseView,
    reply: upstream::ReplyView,
    body: JsonView,
    result: JsonView,
    tools: Seq<JsonView>,
    now: u64,
)
    requires
        round.phase == Phase::List,
        upstream::reply_of(round.config, response) == Ok::<upstream::ReplyView, Seq<char>>(reply),
        reply.body == Some(body),
        body.field("error"@) is None,
        body.field("result"@) == Some(result),
        result.field("tools"@) == Some(JsonView::Array(tools)),
    ensures
        progress(round, OutcomeView::Response(response), now) matches ProgressView::Loaded {
            session_id,
            tools: loaded,
        } && {
            &&& loaded.len() == tools.len()
            &&& forall|i: int| 0 <= i < tools.len() ==> #[trigger] loaded[i] == tools[i]
            &&& session_id == match reply.session_id {
                Some(named) => Some(named),
                None => round.session_id,
            }
        },
{
}

/// An answer to the question for the tools that holds no list of them fails the round; so does an
/// error.
pub proof fn law_round_without_tools_fails(
    round: RoundView,
    result: Result<(Option<Seq<char>>, JsonView), Seq<char>>,
)
    ensures
        match result {
            Err(why) => list_progress(round, result) == ProgressView::Failed(why),
            Ok((session_id, value)) => match value.field("tools"@) {
                Some(JsonView::Array(_)) => list_progress(round, result) is Loaded,
                _ => list_progress(round, result) == ProgressView::Failed(
                    "upstream "@ + "'"@ + round.config.name + "'"@
                        + " tools/list returned no tools array"@,
                ),
            },
        },
{
}

/// What a phase brings is what the answer to its request brings; an answer that brings nothing ends
/// the introduction, and the question for the tools, with the reason.
pub proof fn law_failed_phase_fails_the_round(
    round: RoundView,
    outcome: OutcomeView,
    why: Seq<char>,
    now: u64,
)
    requires
        round.phase != Phase::Notify,
        upstream::result_to(round.config, outcome) == Err::<
            (Option<Seq<char>>, JsonView),
            Seq<char>,
        >(why),
    ensures
        progress(round, outcome, now) == ProgressView::Failed(why),
{
}

/// A server that answers the introduction is told so in the session that it names, and asked for
/// its tools in the same session, whether or not it heard that.
pub proof fn law_round_stays_in_the_session_that_the_server_names(
    config: ServerConfigView,
    outcome: OutcomeView,
    session_id: Option<Seq<char>>,
    value: JsonView,
    heard: OutcomeView,
    started: u64,
    now: u64,
    later: u64,
)
    requires
        upstream::result_to(config, outcome) == Ok::<(Option<Seq<char>>, JsonView), Seq<char>>(
            (session_id, value),
        ),
    ensures
        progress(first_phase(config, None, started), outcome, now) matches ProgressView::Next(
            second,
        ) && {
            &&& second.config == config && second.phase == Phase::Notify && second.session_id
                == session_id && second.started == now
            &&& progress(second, heard, later) matches ProgressView::Next(third) && third.config
                == config && third.phase == Phase::List && third.session_id == session_id
                && third.started == later
        },
{
}

/// A round begins with an introduction where there is no session, and with the question for the
/// tools, in that session, where there is one.
pub proof fn law_rounds_begin(config: ServerConfigView, session_id: Option<Seq<char>>, now: u64)
    ensures
        ({
            let round = first_phase(config, session_id, now);
            &&& round.config == config && round.session_id == session_id && round.started == now
            &&& session_id is None ==> round.phase == Phase::Initialize
            &&& session_id is Some ==> round.phase == Phase::List
        }),
{
}

/// The gateway introduces itself by name, confirms a welcome without asking for an answer, and asks
/// for the tools.
pub proof fn law_what_each_phase_asks()
    ensures
        ({
            let first = phase_body(Phase::Initialize);
            &&& first.text_field("method"@) == Some("initialize"@)
            &&& first.field("id"@) == Some(JsonView::Number(json::int_number(1)))
            &&& first.field("params"@) matches Some(params) && {
                &&& params.text_field("protocolVersion"@) == Some("2024-11-05"@)
                &&& params.field("capabilities"@) == Some(JsonView::Object(Map::empty()))
                &&& params.field("clientInfo"@) matches Some(info) && info.text_field("name"@)
                    == Some("mcpstead"@) && info.text_field("version"@) == Some("0.1.0"@)
            }
        }),
        phase_body(Phase::Notify).text_field("method"@) == Some("notifications/initialized"@),
        phase_body(Phase::Notify).field("id"@) is None,
        phase_body(Phase::Notify).field("params"@) is None,
        phase_body(Phase::List).text_field("method"@) == Some("tools/list"@),
        phase_body(Phase::List).field("id"@) == Some(JsonView::Number(json::int_number(2))),
        phase_body(Phase::List).field("params"@) == Some(JsonView::Object(Map::empty())),
{
    rpc::law_request_says_what_it_asks(
        JsonView::Number(json::int_number(1)),
        "initialize"@,
        introduction(),
        "id"@,
    );
    rpc::law_request_says_what_it_asks(
        JsonView::Number(json::int_number(2)),
        "tools/list"@,
        JsonView::Object(json::no_fields()),
        "id"@,
    );
    rpc::law_notification_has_no_id("notifications/initialized"@, JsonView::Null);
    reveal_strlit("protocolVersion");
    reveal_strlit("capabilities");
    reveal_strlit("clientInfo");
    reveal_strlit("name");
    reveal_strlit("version");
    assert("protocolVersion"@.len() == 15 && "capabilities"@.len() == 12 && "clientInfo"@.len()
        == 10 && "name"@.len() == 4 && "version"@.len() == 7);
}

/// A round that brought the tools leaves its server connected, with exactly these tools, with no
/// error and seen just now, and counts one health check. All other servers stay as they are. The
/// failures before it are forgotten, and where there were any, a successful attempt is counted.
pub proof fn law_success_connects_the_server(
    state: AppStateView,
    manager: ManagerView,
    session_id: Option<Seq<char>>,
    tools: Seq<JsonView>,
    now: u64,
)
    requires
        state.servers.contains_key(manager.name),
    ensures
        ({
            let after = state_after_success(state, manager, session_id, tools, now);
            let remembered = manager_after_success(manager, session_id);
            let server = after.servers[manager.name];
            let checked = metrics::key(Family::UpstreamHealthChecks, manager.name, "success"@);
            let attempted = metrics::key(
                Family::UpstreamReconnectAttempts,
                manager.name,
                "success"@,
            );
            &&& server.connected
            &&& server.tools == tools
            &&& server.last_error is None
            &&& server.last_seen == Some(now)
            &&& server.config == state.servers[manager.name].config
            &&& server.reconnects == state.servers[manager.name].reconnects
            &&& server.session_id == match session_id {
                Some(named) => Some(named),
                None => manager.session_id,
            }
            &&& remembered.session_id == server.session_id
            &&& remembered.failures == 0
            &&& remembered.name == manager.name
            &&& after.servers.remove(manager.name) == state.servers.remove(manager.name)
            &&& after.sessions == state.sessions
            &&& after.metrics.tool_calls == state.metrics.tool_calls
            &&& after.metrics.counters[checked] == metrics::counted(
                state.metrics.counters[checked],
                1,
            )
            &&& after.metrics.counters[attempted] == if manager.failures > 0 {
                metrics::counted(state.metrics.counters[attempted], 1)
            } else {
                state.metrics.counters[attempted]
            }
        }),
{
    let after = state_after_success(state, manager, session_id, tools, now);
    assert(after.servers.remove(manager.name) =~= state.servers.remove(manager.name));
}

/// A round that failed leaves its server disconnected, with the reason, without tools and without a
/// session, and counts one more failure, one failed attempt and one failed health check; the wait
/// that follows is shown. All other servers stay as they are.
pub proof fn law_failure_disconnects_the_server(
    state: AppStateView,
    manager: ManagerView,
    error: Seq<char>,
    millis: u64,
)
    requires
        state.servers.contains_key(manager.name),
    ensures
        ({
            let after = state_after_failure(state, manager, error, millis);
            let remembered = manager_after_failure(manager);
            let before = state.servers[manager.name];
            let server = after.servers[manager.name];
            let checked = metrics::key(Family::UpstreamHealthChecks, manager.name, "failure"@);
            let attempted = metrics::key(Family::UpstreamReconnectAttempts, manager.name, "error"@);
            let waiting = metrics::key(Family::UpstreamBackoffMillis, manager.name, Seq::empty());
            &&& !server.connected
            &&& server.last_error == Some(error)
            &&& server.tools.len() == 0
            &&& server.session_id is None
            &&& server.last_seen == before.last_seen
            &&& server.config == before.config
            &&& before.reconnects < u64::MAX ==> server.reconnects == before.reconnects + 1
            &&& remembered.session_id is None
            &&& remembered.name == manager.name
            &&& manager.failures < u32::MAX ==> remembered.failures == manager.failures + 1
            &&& after.servers.remove(manager.name) == state.servers.remove(manager.name)
            &&& after.sessions == state.sessions
            &&& after.metrics.tool_calls == state.metrics.tool_calls
            &&& after.metrics.counters[checked] == metrics::counted(
                state.metrics.counters[checked],
                1,
            )
            &&& after.metrics.counters[attempted] == metrics::counted(
                state.metrics.counters[attempted],
                1,
            )
            &&& after.metrics.counters[waiting] == millis
        }),
{
    let after = state_after_failure(state, manager, error, millis);
    assert(after.servers.remove(manager.name) =~= state.servers.remove(manager.name));
}

/// A round of a server that is gone changes no server.
pub proof fn law_rounds_bring_no_server_back(
    state: AppStateView,
    manager: ManagerView,
    session_id: Option<Seq<char>>,
    tools: Seq<JsonView>,
    now: u64,
    error: Seq<char>,
    millis: u64,
)
    requires
        !state.servers.contains_key(manager.name),
    ensures
        state_after_success(state, manager, session_id, tools, now).servers == state.servers,
        state_after_failure(state, manager, error, millis).servers == state.servers,
{
}

/// After a failure the gateway waits as long as the configuration says for so many failures; it
/// gives the server up exactly if there is a limit and it is reached, and cannot go on where that
/// server is required.
pub proof fn law_retry_follows_the_configuration(config: ServerConfigView, failures: u32)
    ensures
        ({
            let retry = retry_after(config, failures);
            &&& retry.millis == upstream::backoff_millis(config.reconnect, failures)
            &&& retry.exhausted <==> config.reconnect.max_attempts > 0 && failures
                >= config.reconnect.max_attempts
            &&& retry.fatal <==> retry.exhausted && config.required
        }),
{
    upstream::law_backoff_is_bounded(config.reconnect, failures);
}

/// A phase that succeeds is counted as a success of its kind, one that fails as an error, with the
/// time that it took; a confirmation is not counted.
pub proof fn law_phases_are_counted(
    state: AppStateView,
    round: RoundView,
    next: ProgressView,
    now: u64,
)
    ensures
        ({
            let after = phase_counted(state, round, next, now);
            let label = if next is Failed {
                "error"@
            } else {
                "success"@
            };
            let (many, long) = match round.phase {
                Phase::Initialize => (
                    Family::UpstreamInitializes,
                    Family::UpstreamInitializeNanos,
                ),
                _ => (Family::UpstreamToolsRefreshes, Family::UpstreamToolsRefreshNanos),
            };
            let count = metrics::key(many, round.config.name, label);
            let time = metrics::key(long, round.config.name, label);
            &&& after == (AppStateView { metrics: after.metrics, ..state })
            &&& after.metrics.tool_calls == state.metrics.tool_calls
            &&& round.phase == Phase::Notify ==> after == state
            &&& round.phase != Phase::Notify ==> after.metrics.counters
                == state.metrics.counters.insert(
                count,
                metrics::counted(state.metrics.counters[count], 1),
            ).insert(
                time,
                metrics::counted(
                    state.metrics.counters[time],
                    upstream::span(round.started, now),
                ),
            )
        }),
{
}

/// A round begins, with what the gateway now knows of the server, exactly if there is such a server
/// and it may still be tried: with no limit always, with a limit as long as it has failed less
/// often in a row.
pub proof fn law_rounds_begin_while_there_are_attempts(
    state: AppStateView,
    manager: ManagerView,
    now: u64,
)
    ensures
        ({
            let most = state.servers[manager.name].config.reconnect.max_attempts;
            let may = state.servers.contains_key(manager.name) && (most == 0 || manager.failures
                < most);
            &&& may ==> (round_begun(state, manager, now) matches Some(round) && round.config
                == state.servers[manager.name].config && round.session_id == manager.session_id
                && round.started == now)
            &&& !may ==> round_begun(state, manager, now) is None
        }),
{
}

/// The tools are asked for again when their time is over, which is at least a second.
pub proof fn law_tools_are_refreshed_in_time(config: ServerConfigView)
    ensures
        refresh_after(config) >= 1,
        config.tools.ttl_seconds >= 1 ==> refresh_after(config) == config.tools.ttl_seconds,
        config.tools.ttl_seconds == 0 ==> refresh_after(config) == 1,
{
}

/// What a phase asks goes to the server of the round, in the session of the round, with what the
/// phase has to say.
pub proof fn law_phases_ask_their_server(round: RoundView, variables: Map<Seq<char>, Seq<char>>)
    ensures
        phase_request(round, variables) matches Ok(request) ==> {
            &&& request.url == round.config.url
            &&& request.session_id == round.session_id
            &&& request.body == json::json_text(phase_body(round.phase))
        },
        round.config.auth is None ==> phase_request(round, variables) is Ok,
{
}

/// The bytes of an answer are counted for the server in every phase, and the phase is counted by
/// what it led to.
pub proof fn law_phase_counts_the_answer_and_itself(
    state: AppStateView,
    round: RoundView,
    response: upstream::UpstreamResponseView,
    now: u64,
)
    requires
        response.body.len() <= u64::MAX,
    ensures
        ({
            let outcome = OutcomeView::Response(response);
            let after = after_phase(state, round, outcome, now);
            let received = metrics::key(Family::UpstreamBytes, round.config.name, "received"@);
            let label = if progress(round, outcome, now) is Failed {
                "error"@
            } else {
                "success"@
            };
            let introduced = metrics::key(Family::UpstreamInitializes, round.config.name, label);
            let refreshed = metrics::key(Family::UpstreamToolsRefreshes, round.config.name, label);
            &&& after.servers == state.servers && after.sessions == state.sessions
            &&& after.metrics.counters[received] == metrics::counted(
                state.metrics.counters[received],
                response.body.len() as u64,
            )
            &&& round.phase == Phase::Initialize ==> after.metrics.counters[introduced]
                == metrics::counted(state.metrics.counters[introduced], 1)
            &&& round.phase == Phase::List ==> after.metrics.counters[refreshed]
                == metrics::counted(state.metrics.counters[refreshed], 1)
        }),
{
}

/// Rounds, what they lead to and what is remembered are seen as they are.
pub proof fn law_rounds_are_seen_as_they_are(
    round: Round,
    manager: Manager,
    session_id: Option<String>,
    tools: Vec<Json>,
    error: String,
)
    ensures
        round@.config == round.config@,
        round@.phase == round.phase,
        round@.started == round.started,
        round.session_id matches Some(id) ==> round@.session_id == Some(id@),
        round.session_id is None ==> round@.session_id is None,
        manager@.name == manager.name@,
        manager@.failures == manager.failures,
        manager.session_id matches Some(id) ==> manager@.session_id == Some(id@),
        manager.session_id is None ==> manager@.session_id is None,
        Progress::Next(round)@ == ProgressView::Next(round@),
        Progress::Failed(error)@ == ProgressView::Failed(error@),
        (Progress::Loaded { session_id, tools })@ matches ProgressView::Loaded { tools: loaded, .. }
            && loaded.len() == tools@.len() && forall|i: int|
            0 <= i < tools@.len() ==> #[trigger] loaded[i] == tools@[i]@,
{
}

} // verus!
