//! What the gateway keeps: its upstream servers, its downstream sessions and its settings.
use vstd::prelude::*;
use vstd::string::*;

use crate::config;
use crate::config::{Config, McpAuthMode, ServerConfig, ServerConfigView};
use crate::json;
use crate::json::{Json, JsonView};
use crate::metrics::{Metrics, MetricsView};
use crate::table;
use crate::table::Table;
use crate::text;

verus! {

/// An upstream server and how it is doing. Times are nanoseconds on the gateway's own clock.
#[derive(Debug)]
pub struct ManagedServer {
    pub config: ServerConfig,
    pub connected: bool,
    pub last_error: Option<String>,
    pub session_id: Option<String>,
    pub tools: Vec<Json>,
    pub last_seen: Option<u64>,
    pub reconnects: u64,
}

/// An upstream server and how it is doing, as mathematics.
pub struct ManagedServerView {
    pub config: ServerConfigView,
    pub connected: bool,
    pub last_error: Option<Seq<char>>,
    pub session_id: Option<Seq<char>>,
    pub tools: Seq<JsonView>,
    pub last_seen: Option<u64>,
    pub reconnects: u64,
}

impl View for ManagedServer {
    type V = ManagedServerView;

    open spec fn view(&self) -> ManagedServerView {
        ManagedServerView {
            config: self.config@,
            connected: self.connected,
            last_error: text::optional(self.last_error),
            session_id: text::optional(self.session_id),
            tools: json::views(self.tools@),
            last_seen: self.last_seen,
            reconnects: self.reconnects,
        }
    }
}

/// A server that has not been reached yet.
pub open spec fn new_server(config: ServerConfigView) -> ManagedServerView {
    ManagedServerView {
        config,
        connected: false,
        last_error: None,
        session_id: None,
        tools: Seq::empty(),
        last_seen: None,
        reconnects: 0,
    }
}

impl ManagedServerView {
    /// The server has answered with its tools.
    pub open spec fn reached(
        self,
        session_id: Option<Seq<char>>,
        tools: Seq<JsonView>,
        now: u64,
    ) -> ManagedServerView {
        ManagedServerView {
            connected: true,
            last_error: None,
            session_id,
            tools,
            last_seen: Some(now),
            ..self
        }
    }

    /// The server could not be reached.
    pub open spec fn lost(self, error: Seq<char>) -> ManagedServerView {
        ManagedServerView {
            connected: false,
            last_error: Some(error),
            session_id: None,
            tools: Seq::empty(),
            reconnects: crate::metrics::counted(self.reconnects, 1),
            ..self
        }
    }

    /// A server that is not connected offers no tools and has no session.
    pub open spec fn settled(self) -> bool {
        !self.connected ==> self.tools.len() == 0 && self.session_id is None
    }
}

impl ManagedServer {
    /// A server that has not been reached yet.
    pub fn new(config: ServerConfig) -> (server: Self)
        ensures
            server.config == config,
            server@ == new_server(config@),
    {
        let server = ManagedServer {
            config,
            connected: false,
            last_error: None,
            session_id: None,
            tools: Vec::new(),
            last_seen: None,
            reconnects: 0,
        };
        assert(server@.tools =~= Seq::empty());
        server
    }
}

/// The upstream servers, by name.
#[derive(Debug)]
pub struct Registry {
    pub servers: Table<ManagedServer>,
}

/// What a table of servers holds.
pub open spec fn server_map(table: Table<ManagedServer>) -> Map<Seq<char>, ManagedServerView> {
    table.map().map_values(|server: ManagedServer| server@)
}

impl View for Registry {
    type V = Map<Seq<char>, ManagedServerView>;

    open spec fn view(&self) -> Map<Seq<char>, ManagedServerView> {
        server_map(self.servers)
    }
}

/// Each server stands under its own name, and one that is not connected offers no tools and has
/// no session.
pub open spec fn registry_ok(servers: Map<Seq<char>, ManagedServerView>) -> bool {
    forall|name: Seq<char>| #[trigger]
        servers.contains_key(name) ==> servers[name].config.name == name && servers[name].settled()
}

impl Registry {
    /// The table is one, its servers are well formed, and the registry keeps its rules.
    pub open spec fn wf(&self) -> bool {
        &&& self.servers.wf()
        &&& forall|name: Seq<char>| #[trigger]
            self.servers.map().contains_key(name) ==> self.servers.map()[name].config.wf()
        &&& registry_ok(self@)
    }

    /// No servers.
    pub fn new() -> (registry: Self)
        ensures
            registry.wf(),
            registry@ == Map::<Seq<char>, ManagedServerView>::empty(),
    {
        let registry = Registry { servers: Table::new() };
        assert(registry@ =~= Map::empty());
        registry
    }

    /// Puts a server that has not been reached yet in the place of its namesake.
    pub fn start_over(&mut self, config: ServerConfig)
        requires
            old(self).wf(),
            config.wf(),
        ensures
            final(self).wf(),
            final(self)@ == old(self)@.insert(config@.name, new_server(config@)),
    {
        let ghost view = config@;
        let name = config.name.clone();
        self.servers.insert(name, ManagedServer::new(config));
        assert(self@ =~= old(self)@.insert(view.name, new_server(view)));
    }

    /// Forgets a server.
    pub fn forget(&mut self, name: &str)
        requires
            old(self).wf(),
        ensures
            final(self).wf(),
            final(self)@ == old(self)@.remove(name@),
    {
        let _ = self.servers.remove(name);
        assert(self@ =~= old(self)@.remove(name@));
    }

    /// Gives a server another configuration and leaves it running.
    pub fn reconfigure(&mut self, config: ServerConfig)
        requires
            old(self).wf(),
            config.wf(),
        ensures
            final(self).wf(),
            final(self)@ == if old(self)@.contains_key(config@.name) {
                old(self)@.insert(
                    config@.name,
                    ManagedServerView { config: config@, ..old(self)@[config@.name] },
                )
            } else {
                old(self)@
            },
    {
        let ghost view = config@;
        let name = config.name.clone();
        match self.servers.remove(name.as_str()) {
            Some(server) => {
                let ghost was = server@;
                assert(old(self)@[view.name] == was);
                let mut server = server;
                server.config = config;
                self.servers.insert(name, server);
                assert(self@ =~= old(self)@.insert(
                    view.name,
                    ManagedServerView { config: view, ..was },
                ));
            },
            None => {
                assert(self@ =~= old(self)@);
            },
        }
    }

    /// A server has answered with its tools.
    pub fn set_server_connected(
        &mut self,
        name: &str,
        session_id: Option<String>,
        tools: Vec<Json>,
        now: u64,
    )
        requires
            old(self).wf(),
        ensures
            final(self).wf(),
            final(self)@ == if old(self)@.contains_key(name@) {
                old(self)@.insert(
                    name@,
                    old(self)@[name@].reached(
                        text::optional(session_id),
                        json::views(tools@),
                        now,
                    ),
                )
            } else {
                old(self)@
            },
    {
        match self.servers.remove(name) {
            Some(server) => {
                let ghost was = server@;
                assert(old(self)@[name@] == was);
                let mut server = server;
                server.connected = true;
                server.last_error = None;
                server.session_id = session_id;
                server.tools = tools;
                server.last_seen = Some(now);
                let ghost is = was.reached(text::optional(session_id), json::views(tools@), now);
                assert(server@ == is);
                self.servers.insert(name.to_owned(), server);
                assert(self@ =~= old(self)@.insert(name@, is));
            },
            None => {
                assert(self@ =~= old(self)@);
            },
        }
    }

    /// A server could not be reached.
    pub fn set_server_disconnected(&mut self, name: &str, error: String)
        requires
            old(self).wf(),
        ensures
            final(self).wf(),
            final(self)@ == if old(self)@.contains_key(name@) {
                old(self)@.insert(name@, old(self)@[name@].lost(error@))
            } else {
                old(self)@
            },
    {
        match self.servers.remove(name) {
            Some(server) => {
                let ghost was = server@;
                assert(old(self)@[name@] == was);
                let mut server = server;
                server.connected = false;
                server.last_error = Some(error);
                server.session_id = None;
                server.tools = Vec::new();
                server.reconnects = server.reconnects.saturating_add(1);
                assert(server@.tools =~= Seq::empty());
                let ghost is = was.lost(error@);
                assert(server@ == is);
                self.servers.insert(name.to_owned(), server);
                assert(self@ =~= old(self)@.insert(name@, is));
            },
            None => {
                assert(self@ =~= old(self)@);
            },
        }
    }

    /// A server has answered.
    pub fn mark_server_seen(&mut self, name: &str, now: u64)
        requires
            old(self).wf(),
        ensures
            final(self).wf(),
            final(self)@ == if old(self)@.contains_key(name@) {
                old(self)@.insert(
                    name@,
                    ManagedServerView { last_seen: Some(now), ..old(self)@[name@] },
                )
            } else {
                old(self)@
            },
    {
        match self.servers.remove(name) {
            Some(server) => {
                let ghost was = server@;
                assert(old(self)@[name@] == was);
                let mut server = server;
                server.last_seen = Some(now);
                self.servers.insert(name.to_owned(), server);
                assert(self@ =~= old(self)@.insert(
                    name@,
                    ManagedServerView { last_seen: Some(now), ..was },
                ));
            },
            None => {
                assert(self@ =~= old(self)@);
            },
        }
    }

    /// The configuration of a server.
    pub fn get_server_config(&self, name: &str) -> (found: Option<ServerConfig>)
        requires
            self.wf(),
        ensures
            match found {
                Some(config) => config.wf() && self@.contains_key(name@) && config@
                    == self@[name@].config,
                None => !self@.contains_key(name@),
            },
    {
        match self.servers.get(name) {
            Some(server) => {
                let config = server.config.copy();
                assert(self@[name@] == server@);
                Some(config)
            },
            None => None,
        }
    }

    /// The names of the servers, in order.
    pub fn server_names(&self) -> (names: Vec<String>)
        requires
            self.wf(),
        ensures
            text::texts(names@) == table::in_order(self@.dom()),
    {
        proof {
            self.servers.lemma_names();
            assert(self@.dom() =~= self.servers.map().dom());
        }
        let mut names: Vec<String> = Vec::new();
        let mut i: usize = 0;
        while i < self.servers.len()
            invariant
                i <= self.servers.names().len(),
                text::texts(names@) == self.servers.names().take(i as int),
            decreases self.servers.names().len() - i,
        {
            let ghost before = text::texts(names@);
            names.push(self.servers.name_at(i).clone());
            assert(text::texts(names@) =~= before.push(self.servers.names()[i as int]));
            assert(self.servers.names().take(i + 1) =~= self.servers.names().take(i as int).push(
                self.servers.names()[i as int],
            ));
            i += 1;
        }
        assert(self.servers.names().take(i as int) =~= self.servers.names());
        names
    }
}

/// A session of a downstream client.
#[derive(Debug, Clone, Copy, PartialEq, Eq, Structural)]
pub struct DownstreamSession {
    pub created_at: u64,
    pub last_activity: u64,
}

/// How downstream clients prove who they are, and the token that they have to show.
#[derive(Debug)]
pub struct McpAuthState {
    pub mode: McpAuthMode,
    pub bearer_token: Option<String>,
}

/// Everything that the gateway keeps.
#[derive(Debug)]
pub struct AppState {
    pub registry: Registry,
    pub metrics: Metrics,
    pub sessions: Table<DownstreamSession>,
    pub mcp_auth: McpAuthState,
    pub accepting: bool,
    pub metrics_enabled: bool,
    pub live_config: Config,
    /// What the environment variables of the servers' tokens held when the configuration took
    /// effect.
    pub variables: Table<String>,
}

/// Everything that the gateway keeps, as mathematics.
pub struct AppStateView {
    pub servers: Map<Seq<char>, ManagedServerView>,
    pub metrics: MetricsView,
    pub sessions: Map<Seq<char>, DownstreamSession>,
    pub auth_mode: McpAuthMode,
    pub bearer_token: Option<Seq<char>>,
    pub accepting: bool,
    pub metrics_enabled: bool,
    pub live_config: config::ConfigView,
    pub variables: Map<Seq<char>, Seq<char>>,
}

impl View for AppState {
    type V = AppStateView;

    open spec fn view(&self) -> AppStateView {
        AppStateView {
            servers: self.registry@,
            metrics: self.metrics@,
            sessions: self.sessions.map(),
            auth_mode: self.mcp_auth.mode,
            bearer_token: text::optional(self.mcp_auth.bearer_token),
            accepting: self.accepting,
            metrics_enabled: self.metrics_enabled,
            live_config: self.live_config@,
            variables: config::text_map(self.variables),
        }
    }
}

/// The servers of a configuration, none of them reached yet.
pub open spec fn new_servers(servers: Seq<ServerConfigView>) -> Map<Seq<char>, ManagedServerView> {
    config::by_name(servers).map_values(|server: ServerConfigView| new_server(server))
}

impl AppStateView {
    /// A session was used.
    pub open spec fn with_session_touched(self, id: Seq<char>, now: u64) -> AppStateView {
        if self.sessions.contains_key(id) {
            let session = DownstreamSession { last_activity: now, ..self.sessions[id] };
            AppStateView { sessions: self.sessions.insert(id, session), ..self }
        } else {
            self
        }
    }

    /// A session is opened.
    pub open spec fn with_session_opened(self, id: Seq<char>, now: u64) -> AppStateView {
        AppStateView {
            sessions: self.sessions.insert(
                id,
                DownstreamSession { created_at: now, last_activity: now },
            ),
            metrics: self.metrics.plus(
                crate::metrics::key(
                    crate::metrics::Family::SessionsOpened,
                    Seq::empty(),
                    Seq::empty(),
                ),
                1,
            ),
            ..self
        }
    }

    /// A session is ended. Nothing happens where there is none of this name.
    pub open spec fn with_session_ended(self, id: Seq<char>, reason: Seq<char>) -> AppStateView {
        if self.sessions.contains_key(id) {
            AppStateView {
                sessions: self.sessions.remove(id),
                metrics: self.metrics.plus(
                    crate::metrics::key(
                        crate::metrics::Family::SessionTerminations,
                        reason,
                        Seq::empty(),
                    ),
                    1,
                ),
                ..self
            }
        } else {
            self
        }
    }
}

impl AppState {
    /// Every part is well formed.
    pub open spec fn wf(&self) -> bool {
        &&& self.registry.wf()
        &&& self.metrics.wf()
        &&& self.sessions.wf()
        &&& self.live_config.wf()
        &&& self.variables.wf()
    }

    /// A session was used.
    pub fn touch_session(&mut self, id: &str, now: u64)
        requires
            old(self).wf(),
        ensures
            final(self).wf(),
            final(self)@ == old(self)@.with_session_touched(id@, now),
    {
        let found = match self.sessions.get(id) {
            Some(session) => Some(*session),
            None => None,
        };
        if let Some(session) = found {
            self.sessions.insert(
                id.to_owned(),
                DownstreamSession { created_at: session.created_at, last_activity: now },
            );
        }
    }

    /// A session is opened.
    pub fn open_session(&mut self, id: &str, now: u64)
        requires
            old(self).wf(),
        ensures
            final(self).wf(),
            final(self)@ == old(self)@.with_session_opened(id@, now),
    {
        self.sessions.insert(
            id.to_owned(),
            DownstreamSession { created_at: now, last_activity: now },
        );
        self.metrics.record_session_opened();
    }

    /// A session is ended.
    pub fn terminate_session(&mut self, id: &str, reason: &str)
        requires
            old(self).wf(),
        ensures
            final(self).wf(),
            final(self)@ == old(self)@.with_session_ended(id@, reason@),
    {
        if self.sessions.remove(id).is_some() {
            self.metrics.record_session_terminated(reason);
        } else {
            assert(self.sessions.map() =~= old(self).sessions.map());
        }
    }

    /// May a client open a session?
    pub fn accepting_new_sessions(&self) -> (yes: bool)
        ensures
            yes == self@.accepting,
    {
        self.accepting
    }

    /// From now on no client may open a session.
    pub fn stop_accepting_new_sessions(&mut self)
        requires
            old(self).wf(),
        ensures
            final(self).wf(),
            final(self)@ == (AppStateView { accepting: false, ..old(self)@ }),
    {
        self.accepting = false;
    }
}

/// The state that the gateway starts with, where `variables` is what the environment variables of
/// the servers' tokens hold.
pub open spec fn first_state(
    config: config::ConfigView,
    bearer_token: Option<Seq<char>>,
    variables: Map<Seq<char>, Seq<char>>,
) -> AppStateView {
    AppStateView {
        servers: new_servers(config.servers),
        metrics: crate::metrics::no_metrics(),
        sessions: Map::empty(),
        auth_mode: config.auth_mode,
        bearer_token,
        accepting: true,
        metrics_enabled: config.metrics.enabled,
        live_config: config,
        variables,
    }
}

/// The state that the gateway starts with, where `variables` is what the environment variables of
/// the servers' tokens hold.
pub fn build_state(
    config: &Config,
    mcp_bearer_token: Option<String>,
    variables: Table<String>,
) -> (state: AppState)
    requires
        config.wf(),
        variables.wf(),
    ensures
        state.wf(),
        state@ == first_state(
            config@,
            text::optional(mcp_bearer_token),
            config::text_map(variables),
        ),
{
    let mut registry = Registry::new();
    let ghost views = config@.servers;
    let mut i: usize = 0;
    assert(registry@ =~= new_servers(views.take(0)));
    while i < config.servers.len()
        invariant
            config.wf(),
            registry.wf(),
            i <= config.servers@.len(),
            views == config::server_views(config.servers@),
            registry@ == new_servers(views.take(i as int)),
        decreases config.servers@.len() - i,
    {
        assert(config.servers@[i as int].wf());
        registry.start_over(config.servers[i].copy());
        assert(views.take(i + 1).drop_last() =~= views.take(i as int));
        assert(registry@ =~= new_servers(views.take(i + 1)));
        i += 1;
    }
    assert(views.take(i as int) =~= views);
    AppState {
        registry,
        metrics: Metrics::new(),
        sessions: Table::new(),
        mcp_auth: McpAuthState { mode: config.mcp.auth.mode, bearer_token: mcp_bearer_token },
        accepting: true,
        metrics_enabled: config.metrics.enabled,
        live_config: config.copy(),
        variables,
    }
}

/// The gateway starts with every server of a valid configuration, none of them reached yet.
pub proof fn law_every_server_is_kept(
    config: config::ConfigView,
    bearer_token: Option<Seq<char>>,
    variables: Map<Seq<char>, Seq<char>>,
    i: int,
)
    requires
        config::valid_config(config),
        0 <= i < config.servers.len(),
    ensures
        ({
            let servers = first_state(config, bearer_token, variables).servers;
            let server = config.servers[i];
            servers.contains_key(server.name) && servers[server.name] == new_server(server)
        }),
{
    config::lemma_by_name_distinct(config.servers, i);
}

/// The servers that the gateway starts with keep the registry's rules.
pub proof fn law_first_state_keeps_the_rules(
    config: config::ConfigView,
    bearer_token: Option<Seq<char>>,
    variables: Map<Seq<char>, Seq<char>>,
)
    ensures
        registry_ok(first_state(config, bearer_token, variables).servers),
{
    config::lemma_by_name(config.servers);
}

/// A server that answers is connected, with the tools and the session that it gave and without an
/// error, and was seen just then. One that fails is not, has neither tools nor a session, keeps
/// when it was last seen, and counts the failure. One that starts over has nothing of the kind yet.
/// The configuration stays through all of this.
pub proof fn law_how_servers_change(
    server: ManagedServerView,
    config: ServerConfigView,
    session_id: Option<Seq<char>>,
    tools: Seq<JsonView>,
    error: Seq<char>,
    now: u64,
)
    ensures
        ({
            let reached = server.reached(session_id, tools, now);
            &&& reached.connected && reached.tools == tools && reached.session_id == session_id
            &&& reached.last_error is None && reached.last_seen == Some(now)
            &&& reached.config == server.config && reached.reconnects == server.reconnects
        }),
        ({
            let lost = server.lost(error);
            &&& !lost.connected && lost.tools.len() == 0 && lost.session_id is None
            &&& lost.last_error == Some(error) && lost.last_seen == server.last_seen
            &&& lost.config == server.config
            &&& server.reconnects < u64::MAX ==> lost.reconnects == server.reconnects + 1
        }),
        ({
            let fresh = new_server(config);
            &&& !fresh.connected && fresh.tools.len() == 0 && fresh.session_id is None
            &&& fresh.last_error is None && fresh.last_seen is None && fresh.reconnects == 0
            &&& fresh.config == config
        }),
{
}

/// A session that is opened is there, begun and used just then; one that is used keeps its
/// beginning; one that is ended is gone. Other sessions stay as they are, a session that is not
/// there cannot be used or ended, and each opening and each end is counted.
pub proof fn law_how_sessions_change(
    state: AppStateView,
    id: Seq<char>,
    other: Seq<char>,
    reason: Seq<char>,
    now: u64,
)
    requires
        other != id,
    ensures
        ({
            let opens = crate::metrics::key(
                crate::metrics::Family::SessionsOpened,
                Seq::empty(),
                Seq::empty(),
            );
            let after = state.with_session_opened(id, now);
            &&& after.sessions.contains_key(id)
            &&& after.sessions[id].created_at == now && after.sessions[id].last_activity == now
            &&& after.sessions.contains_key(other) <==> state.sessions.contains_key(other)
            &&& after.sessions[other] == state.sessions[other]
            &&& after.metrics.counters == state.metrics.counters.insert(
                opens,
                crate::metrics::counted(state.metrics.counters[opens], 1),
            )
            &&& after.servers == state.servers && after.accepting == state.accepting
        }),
        ({
            let after = state.with_session_touched(id, now);
            &&& after.sessions.dom() == state.sessions.dom()
            &&& state.sessions.contains_key(id) ==> after.sessions[id].last_activity == now
                && after.sessions[id].created_at == state.sessions[id].created_at
            &&& after.sessions[other] == state.sessions[other]
            &&& after.metrics == state.metrics && after.servers == state.servers
        }),
        ({
            let ends = crate::metrics::key(
                crate::metrics::Family::SessionTerminations,
                reason,
                Seq::empty(),
            );
            let after = state.with_session_ended(id, reason);
            &&& !after.sessions.contains_key(id)
            &&& after.sessions.contains_key(other) <==> state.sessions.contains_key(other)
            &&& after.sessions[other] == state.sessions[other]
            &&& state.sessions.contains_key(id) ==> after.metrics.counters
                == state.metrics.counters.insert(
                ends,
                crate::metrics::counted(state.metrics.counters[ends], 1),
            )
            &&& !state.sessions.contains_key(id) ==> after == state
            &&& after.servers == state.servers && after.accepting == state.accepting
        }),
{
    let touched = state.with_session_touched(id, now);
    assert(touched.sessions.dom() =~= state.sessions.dom());
}

/// The gateway starts without sessions and without counts, accepting clients, with what its
/// configuration and the environment say.
pub proof fn law_the_beginning(
    config: config::ConfigView,
    bearer_token: Option<Seq<char>>,
    variables: Map<Seq<char>, Seq<char>>,
    counter: crate::metrics::CounterKey,
    name: Seq<char>,
)
    ensures
        ({
            let state = first_state(config, bearer_token, variables);
            &&& !state.sessions.contains_key(name)
            &&& !state.metrics.tool_calls.contains_key(name)
            &&& state.metrics.counters[counter] == 0
            &&& state.accepting
            &&& state.auth_mode == config.auth_mode
            &&& state.bearer_token == bearer_token
            &&& state.metrics_enabled == config.metrics.enabled
            &&& state.live_config == config
            &&& state.variables == variables
        }),
{
}

/// What the gateway keeps is seen as it is.
pub proof fn law_state_is_seen_as_it_is(state: AppState, server: ManagedServer, name: Seq<char>)
    ensures
        state@.accepting == state.accepting,
        state@.metrics_enabled == state.metrics_enabled,
        state@.auth_mode == state.mcp_auth.mode,
        state.mcp_auth.bearer_token matches Some(token) ==> state@.bearer_token == Some(token@),
        state.mcp_auth.bearer_token is None ==> state@.bearer_token is None,
        state@.sessions == state.sessions.map(),
        state@.metrics == state.metrics@,
        state@.live_config == state.live_config@,
        state@.servers.contains_key(name) <==> state.registry.servers.map().contains_key(name),
        state.registry.servers.map().contains_key(name) ==> state@.servers[name]
            == state.registry.servers.map()[name]@,
        state@.variables.contains_key(name) <==> state.variables.map().contains_key(name),
        state.variables.map().contains_key(name) ==> state@.variables[name]
            == state.variables.map()[name]@,
        server@.config == server.config@,
        server@.connected == server.connected,
        server@.last_seen == server.last_seen,
        server@.reconnects == server.reconnects,
        server@.tools.len() == server.tools@.len(),
        forall|i: int|
            0 <= i < server.tools@.len() ==> #[trigger] server@.tools[i] == server.tools@[i]@,
        server.last_error matches Some(error) ==> server@.last_error == Some(error@),
        server.last_error is None ==> server@.last_error is None,
        server.session_id matches Some(id) ==> server@.session_id == Some(id@),
        server.session_id is None ==> server@.session_id is None,
{
}

} // verus!
