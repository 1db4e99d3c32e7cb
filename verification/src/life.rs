//! What can happen to the gateway between two configurations, and what stays as it is.
use vstd::prelude::*;

use crate::auth;
use crate::config;
use crate::config::{AuthView, ConfigView, ServerConfigView};
use crate::downstream;
use crate::downstream::PostRequestView;
use crate::json::JsonView;
use crate::manager;
use crate::manager::{ManagerView, RoundView};
use crate::post;
use crate::post::PostView;
use crate::reload;
use crate::state;
use crate::state::AppStateView;
use crate::upstream;
use crate::upstream::OutcomeView;

verus! {

/// What can happen to the gateway while it runs with one configuration.
pub enum Event {
    /// A client's `POST` arrives.
    Opened { request: PostRequestView, started: u64, now: u64 },
    /// Its messages are begun with.
    Begun { session_id: Option<Seq<char>>, now: u64 },
    /// It is taken one step further.
    Advanced { post: PostView, now: u64 },
    /// A tool call for it comes to its end.
    Returned { post: PostView, outcome: OutcomeView, now: u64 },
    /// A client's `GET` arrives.
    Listened { header: Option<Seq<char>>, session_id: Option<Seq<char>>, nanos: u64, now: u64 },
    /// A client's `DELETE` arrives.
    Parted { header: Option<Seq<char>>, session_id: Option<Seq<char>>, nanos: u64 },
    /// A body is made ready for a server.
    Sent { server: ServerConfigView, body: JsonView },
    /// A phase of a round comes to its end.
    PhaseEnded { round: RoundView, outcome: OutcomeView, now: u64 },
    /// A round brings the tools.
    Succeeded {
        manager: ManagerView,
        session_id: Option<Seq<char>>,
        tools: Seq<JsonView>,
        now: u64,
    },
    /// A round fails.
    Failed { manager: ManagerView, error: Seq<char>, millis: u64 },
    /// The wait after it is over.
    Waited { name: Seq<char>, millis: u64 },
    /// A client asks for a reload.
    ReloadAsked { header: Option<Seq<char>> },
    /// A reload fails.
    ReloadFailed,
    /// No more sessions are accepted.
    Stopped,
}

/// What is kept after something happened.
pub open spec fn happened(kept: AppStateView, event: Event) -> AppStateView {
    match event {
        Event::Opened { request, started, now } => downstream::opened(
            kept,
            request,
            started,
            now,
        ).1,
        Event::Begun { session_id, now } => post::begun(kept, session_id, now),
        Event::Advanced { post, now } => post::advanced(kept, post, now).1,
        Event::Returned { post, outcome, now } => post::returned(kept, post, outcome, now).0,
        Event::Listened { header, session_id, nanos, now } => downstream::listened(
            kept,
            header,
            session_id,
            nanos,
            now,
        ).1,
        Event::Parted { header, session_id, nanos } => downstream::parted(
            kept,
            header,
            session_id,
            nanos,
        ).1,
        Event::Sent { server, body } => upstream::after_send(kept, server, body),
        Event::PhaseEnded { round, outcome, now } => manager::after_phase(
            kept,
            round,
            outcome,
            now,
        ),
        Event::Succeeded { manager, session_id, tools, now } => manager::state_after_success(
            kept,
            manager,
            session_id,
            tools,
            now,
        ),
        Event::Failed { manager, error, millis } => manager::state_after_failure(
            kept,
            manager,
            error,
            millis,
        ),
        Event::Waited { name, millis } => AppStateView {
            metrics: kept.metrics.with_backoff_complete(name, millis),
            ..kept
        },
        Event::ReloadAsked { header } => auth::after_decision(kept, header),
        Event::ReloadFailed => reload::after_failed_reload(kept),
        Event::Stopped => AppStateView { accepting: false, ..kept },
    }
}

/// What is kept after several things happened, one after another.
pub open spec fn all_happened(kept: AppStateView, events: Seq<Event>) -> AppStateView
    decreases events.len(),
{
    if events.len() == 0 {
        kept
    } else {
        happened(all_happened(kept, events.drop_last()), events.last())
    }
}

/// Do two states agree in the configuration that holds, in the token that clients have to show, in
/// what the variables of the servers' tokens held, and in which servers there are?
pub open spec fn same_settings(a: AppStateView, b: AppStateView) -> bool {
    &&& a.live_config == b.live_config
    &&& a.auth_mode == b.auth_mode
    &&& a.bearer_token == b.bearer_token
    &&& a.metrics_enabled == b.metrics_enabled
    &&& a.variables == b.variables
    &&& a.servers.dom() == b.servers.dom()
}

proof fn lemma_advanced_keeps_settings(kept: AppStateView, post: PostView, now: u64)
    ensures
        same_settings(kept, post::advanced(kept, post, now).1),
{
    let (counted, idle) = post::closed(kept, post, now);
    assert(same_settings(kept, counted));
    assert(same_settings(counted, post::taken(counted, idle, now).0));
    assert(same_settings(counted, post::finished(counted, idle).1));
}

proof fn lemma_returned_keeps_settings(
    kept: AppStateView,
    post: PostView,
    outcome: OutcomeView,
    now: u64,
)
    ensures
        same_settings(kept, post::returned(kept, post, outcome, now).0),
{
    let after = post::returned(kept, post, outcome, now).0;
    assert(after.servers.dom() =~= kept.servers.dom());
}

proof fn lemma_round_keeps_settings(kept: AppStateView, event: Event)
    requires
        event is PhaseEnded || event is Succeeded || event is Failed,
    ensures
        same_settings(kept, happened(kept, event)),
{
    assert(happened(kept, event).servers.dom() =~= kept.servers.dom());
}

proof fn lemma_settings_stay(kept: AppStateView, event: Event)
    ensures
        same_settings(kept, happened(kept, event)),
{
    match event {
        Event::Advanced { post, now } => lemma_advanced_keeps_settings(kept, post, now),
        Event::Returned { post, outcome, now } => lemma_returned_keeps_settings(
            kept,
            post,
            outcome,
            now,
        ),
        Event::PhaseEnded { .. } => lemma_round_keeps_settings(kept, event),
        Event::Succeeded { .. } => lemma_round_keeps_settings(kept, event),
        Event::Failed { .. } => lemma_round_keeps_settings(kept, event),
        _ => {},
    }
}

/// Whatever happens between two configurations, the gateway keeps the configuration that it runs
/// with, the token that clients have to show, what the variables of the servers' tokens held, and
/// which servers there are.
pub proof fn law_settings_stay(kept: AppStateView, events: Seq<Event>)
    ensures
        same_settings(kept, all_happened(kept, events)),
    decreases events.len(),
{
    if events.len() > 0 {
        law_settings_stay(kept, events.drop_last());
        lemma_settings_stay(all_happened(kept, events.drop_last()), events.last());
    }
}

/// Is a server's token the one that an environment variable holds?
pub open spec fn token_in(server: ServerConfigView, variable: Seq<char>) -> bool {
    server.auth matches Some(AuthView::Object { kind, token, token_env }) && kind == "bearer"@
        && token is None && token_env == Some(variable)
}

/// The token of a server that an environment variable names is the one that the variable held when
/// the gateway started, whatever has happened since, and every request to the server carries it.
pub proof fn law_token_is_resolved_at_startup(
    config: ConfigView,
    bearer_token: Option<Seq<char>>,
    variables: Map<Seq<char>, Seq<char>>,
    events: Seq<Event>,
    server: ServerConfigView,
    variable: Seq<char>,
    session_id: Option<Seq<char>>,
    body: JsonView,
)
    requires
        token_in(server, variable),
        variables.contains_key(variable),
    ensures
        ({
            let later = all_happened(state::first_state(config, bearer_token, variables), events);
            &&& config::bearer_token_of(server, later.variables) == Ok::<
                Option<Seq<char>>,
                config::ConfigFault,
            >(Some(variables[variable]))
            &&& upstream::request_to(server, session_id, body, later.variables) matches Ok(request)
                && request.bearer_token == Some(variables[variable])
        }),
{
    law_settings_stay(state::first_state(config, bearer_token, variables), events);
    lemma_token(server, variable, variables);
}

/// After a reload it is the one that the variable held then.
pub proof fn law_token_is_resolved_at_reload(
    kept: AppStateView,
    config: ConfigView,
    bearer_token: Option<Seq<char>>,
    variables: Map<Seq<char>, Seq<char>>,
    events: Seq<Event>,
    server: ServerConfigView,
    variable: Seq<char>,
)
    requires
        token_in(server, variable),
        variables.contains_key(variable),
    ensures
        config::bearer_token_of(
            server,
            all_happened(
                reload::after_reload(kept, config, bearer_token, variables),
                events,
            ).variables,
        ) == Ok::<Option<Seq<char>>, config::ConfigFault>(Some(variables[variable])),
{
    law_settings_stay(
        reload::after_reload(kept, config, bearer_token, variables),
        events,
    );
    lemma_token(server, variable, variables);
}

proof fn lemma_token(
    server: ServerConfigView,
    variable: Seq<char>,
    variables: Map<Seq<char>, Seq<char>>,
)
    requires
        token_in(server, variable),
        variables.contains_key(variable),
    ensures
        config::bearer_token_of(server, variables) == Ok::<Option<Seq<char>>, config::ConfigFault>(
            Some(variables[variable]),
        ),
{
    reveal_strlit("none");
    reveal_strlit("bearer");
    assert("none"@.len() == 4 && "bearer"@.len() == 6);
}

/// The rules of the servers stay, whatever happens between two configurations: each stands
/// under its own name, and one that is not connected offers no tools and has no session.
pub proof fn law_rules_of_the_servers_stay(kept: AppStateView, events: Seq<Event>)
    requires
        state::registry_ok(kept.servers),
    ensures
        state::registry_ok(all_happened(kept, events).servers),
    decreases events.len(),
{
    if events.len() > 0 {
        law_rules_of_the_servers_stay(kept, events.drop_last());
    }
}

} // verus!
