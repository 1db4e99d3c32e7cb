//! How a changed configuration takes effect while the gateway runs.
use vstd::prelude::*;
use vstd::string::*;

use crate::auth;
use crate::auth::AuthDecision;
use crate::config;
use crate::config::{Config, ConfigView, ServerConfig, ServerConfigView};
use crate::http;
use crate::http::{HttpReply, HttpReplyView};
use crate::json;
use crate::metrics;
use crate::metrics::Family;
use crate::state;
use crate::state::{AppState, AppStateView, ManagedServerView, McpAuthState, Registry};
use crate::table;
use crate::table::Table;
use crate::text;

verus! {

/// What of a new configuration takes effect without a restart: all but the address, the logging
/// and the times of sessions.
pub open spec fn reloadable(old: ConfigView, new: ConfigView) -> ConfigView {
    ConfigView {
        host: old.host,
        port: old.port,
        logging_level: old.logging_level,
        session: old.session,
        ..new
    }
}

/// What of a new configuration takes effect without a restart.
pub fn reloadable_config(old: &Config, new: Config) -> (config: Config)
    requires
        new.wf(),
    ensures
        config.wf(),
        config@ == reloadable(old@, new@),
{
    let mut config = new;
    config.host = old.host.clone();
    config.port = old.port;
    config.logging.level = old.logging.level.clone();
    config.mcp.session = old.mcp.session;
    config
}

/// What a table of servers says.
pub open spec fn config_map(table: Table<ServerConfig>) -> Map<Seq<char>, ServerConfigView> {
    table.map().map_values(|server: ServerConfig| server@)
}

/// The tables of headers are ones.
pub open spec fn configs_ok(table: Table<ServerConfig>) -> bool {
    &&& table.wf()
    &&& forall|name: Seq<char>| #[trigger]
        table.map().contains_key(name) ==> table.map()[name].wf()
}

/// The servers of a configuration by name.
pub fn servers_by_name(config: &Config) -> (servers: Table<ServerConfig>)
    requires
        config.wf(),
    ensures
        configs_ok(servers),
        config_map(servers) == config::by_name(config@.servers),
{
    let mut servers: Table<ServerConfig> = Table::new();
    let ghost views = config@.servers;
    assert(config_map(servers) =~= config::by_name(views.take(0)));
    let mut i: usize = 0;
    while i < config.servers.len()
        invariant
            config.wf(),
            configs_ok(servers),
            i <= config.servers@.len(),
            views == config::server_views(config.servers@),
            config_map(servers) == config::by_name(views.take(i as int)),
        decreases config.servers@.len() - i,
    {
        assert(config.servers@[i as int].wf());
        let server = config.servers[i].copy();
        let ghost before = config_map(servers);
        servers.insert(server.name.clone(), server);
        assert(config_map(servers) =~= before.insert(server@.name, server@));
        assert(views.take(i + 1).drop_last() =~= views.take(i as int));
        i += 1;
    }
    assert(views.take(i as int) =~= views);
    servers
}

/// What a new configuration means for a server.
#[derive(Debug, Clone, Copy, PartialEq, Eq, Structural)]
pub enum Change {
    Removed,
    Added,
    Restarted,
    Updated,
    Unchanged,
}

/// What a new configuration means for a server that is in the old one or in the new one.
pub open spec fn change(
    old: Map<Seq<char>, ServerConfigView>,
    new: Map<Seq<char>, ServerConfigView>,
    name: Seq<char>,
) -> Change {
    if !new.contains_key(name) {
        Change::Removed
    } else if !old.contains_key(name) {
        Change::Added
    } else if old[name] == new[name] {
        Change::Unchanged
    } else if config::fresh_session_needed(old[name], new[name]) {
        Change::Restarted
    } else {
        Change::Updated
    }
}

/// How many servers a reload touched, and how.
#[derive(Debug, Clone, Copy, PartialEq, Eq, Structural)]
pub struct ReloadSummary {
    pub added: usize,
    pub removed: usize,
    pub restarted: usize,
    pub updated: usize,
    pub unchanged: usize,
}

/// How many of the named servers change in this way.
pub open spec fn tally(
    old: Map<Seq<char>, ServerConfigView>,
    new: Map<Seq<char>, ServerConfigView>,
    names: Seq<Seq<char>>,
    kind: Change,
) -> nat
    decreases names.len(),
{
    if names.len() == 0 {
        0
    } else {
        let before = tally(old, new, names.drop_last(), kind);
        if change(old, new, names.last()) == kind {
            before + 1
        } else {
            before
        }
    }
}

/// One step of a reload.
#[derive(Debug)]
pub enum ReloadStep {
    /// Stop the task that keeps a server connected.
    Abort(String),
    /// Forget a server.
    Remove(String),
    /// Drop the lock on the resetting of a server's session.
    DropResetLock(String),
    /// Put a server that has not been reached yet in the place of its namesake.
    Insert(ServerConfig),
    /// Start a task that keeps a server connected.
    Spawn(String),
    /// Give a server another configuration and leave it running.
    Update(ServerConfig),
    /// Start a task that keeps a server connected, where the last one has given the server up.
    Resume(String),
}

/// One step of a reload, as mathematics.
pub enum ReloadStepView {
    Abort(Seq<char>),
    Remove(Seq<char>),
    DropResetLock(Seq<char>),
    Insert(ServerConfigView),
    Spawn(Seq<char>),
    Update(ServerConfigView),
    Resume(Seq<char>),
}

impl View for ReloadStep {
    type V = ReloadStepView;

    open spec fn view(&self) -> ReloadStepView {
        match self {
            ReloadStep::Abort(name) => ReloadStepView::Abort(name@),
            ReloadStep::Remove(name) => ReloadStepView::Remove(name@),
            ReloadStep::DropResetLock(name) => ReloadStepView::DropResetLock(name@),
            ReloadStep::Insert(config) => ReloadStepView::Insert(config@),
            ReloadStep::Spawn(name) => ReloadStepView::Spawn(name@),
            ReloadStep::Update(config) => ReloadStepView::Update(config@),
            ReloadStep::Resume(name) => ReloadStepView::Resume(name@),
        }
    }
}

impl ReloadStep {
    /// The server is well formed.
    pub open spec fn wf(&self) -> bool {
        match self {
            ReloadStep::Insert(config) => config.wf(),
            ReloadStep::Update(config) => config.wf(),
            _ => true,
        }
    }
}

/// What steps say.
pub open spec fn step_views(steps: Seq<ReloadStep>) -> Seq<ReloadStepView> {
    steps.map_values(|step: ReloadStep| step@)
}

/// The steps that a change takes.
pub open spec fn steps_for(kind: Change, name: Seq<char>, new: ServerConfigView) -> Seq<
    ReloadStepView,
> {
    match kind {
        Change::Removed => seq![
            ReloadStepView::Abort(name),
            ReloadStepView::Remove(name),
            ReloadStepView::DropResetLock(name),
        ],
        Change::Added => seq![ReloadStepView::Insert(new), ReloadStepView::Spawn(name)],
        Change::Restarted => seq![
            ReloadStepView::Abort(name),
            ReloadStepView::Insert(new),
            ReloadStepView::DropResetLock(name),
            ReloadStepView::Spawn(name),
        ],
        Change::Updated => seq![ReloadStepView::Update(new), ReloadStepView::Resume(name)],
        Change::Unchanged => Seq::empty(),
    }
}

/// The steps that take the named servers out that are gone.
pub open spec fn removals(
    old: Map<Seq<char>, ServerConfigView>,
    new: Map<Seq<char>, ServerConfigView>,
    names: Seq<Seq<char>>,
) -> Seq<ReloadStepView>
    decreases names.len(),
{
    if names.len() == 0 {
        Seq::empty()
    } else {
        let before = removals(old, new, names.drop_last());
        if change(old, new, names.last()) == Change::Removed {
            before + steps_for(Change::Removed, names.last(), old[names.last()])
        } else {
            before
        }
    }
}

/// The steps that bring the named servers to what the new configuration says of them.
pub open spec fn arrivals(
    old: Map<Seq<char>, ServerConfigView>,
    new: Map<Seq<char>, ServerConfigView>,
    names: Seq<Seq<char>>,
) -> Seq<ReloadStepView>
    decreases names.len(),
{
    if names.len() == 0 {
        Seq::empty()
    } else {
        let name = names.last();
        arrivals(old, new, names.drop_last()) + steps_for(
            change(old, new, name),
            name,
            new[name],
        )
    }
}

/// The steps of a reload: first the servers that are gone, then the others, each in the order of
/// their names.
pub open spec fn reload_steps(
    old: Map<Seq<char>, ServerConfigView>,
    new: Map<Seq<char>, ServerConfigView>,
) -> Seq<ReloadStepView> {
    removals(old, new, table::in_order(old.dom())) + arrivals(
        old,
        new,
        table::in_order(new.dom()),
    )
}

/// The counts of a reload.
pub open spec fn is_summary(
    summary: ReloadSummary,
    old: Map<Seq<char>, ServerConfigView>,
    new: Map<Seq<char>, ServerConfigView>,
) -> bool {
    let gone = table::in_order(old.dom());
    let here = table::in_order(new.dom());
    &&& summary.removed == tally(old, new, gone, Change::Removed)
    &&& summary.added == tally(old, new, here, Change::Added)
    &&& summary.restarted == tally(old, new, here, Change::Restarted)
    &&& summary.updated == tally(old, new, here, Change::Updated)
    &&& summary.unchanged == tally(old, new, here, Change::Unchanged)
}

/// No more servers change than there are.
pub proof fn lemma_tally_bound(
    old: Map<Seq<char>, ServerConfigView>,
    new: Map<Seq<char>, ServerConfigView>,
    names: Seq<Seq<char>>,
    kind: Change,
)
    ensures
        tally(old, new, names, kind) <= names.len(),
    decreases names.len(),
{
    if names.len() > 0 {
        lemma_tally_bound(old, new, names.drop_last(), kind);
    }
}

/// Adds a step.
fn add_step(steps: &mut Vec<ReloadStep>, step: ReloadStep)
    requires
        step.wf(),
        forall|i: int| 0 <= i < old(steps)@.len() ==> (#[trigger] old(steps)@[i]).wf(),
    ensures
        forall|i: int| 0 <= i < final(steps)@.len() ==> (#[trigger] final(steps)@[i]).wf(),
        step_views(final(steps)@) == step_views(old(steps)@).push(step@),
{
    steps.push(step);
    assert(step_views(steps@) =~= step_views(old(steps)@).push(step@));
}

/// The steps that take out the servers that are gone, and how many those are.
fn plan_removals(old: &Table<ServerConfig>, new: &Table<ServerConfig>) -> (plan: (
    usize,
    Vec<ReloadStep>,
))
    requires
        configs_ok(*old),
        configs_ok(*new),
    ensures
        plan.0 == tally(config_map(*old), config_map(*new), old.names(), Change::Removed),
        forall|i: int| 0 <= i < plan.1@.len() ==> (#[trigger] plan.1@[i]).wf(),
        step_views(plan.1@) == removals(config_map(*old), config_map(*new), old.names()),
{
    let ghost before = config_map(*old);
    let ghost after = config_map(*new);
    let ghost names = old.names();
    let mut steps: Vec<ReloadStep> = Vec::new();
    let mut removed: usize = 0;
    let size: usize = old.len();
    let mut i: usize = 0;
    assert(step_views(steps@) =~= Seq::empty());
    while i < size
        invariant
            configs_ok(*old),
            configs_ok(*new),
            size == names.len(),
            i <= size,
            names == old.names(),
            before == config_map(*old),
            after == config_map(*new),
            removed == tally(before, after, names.take(i as int), Change::Removed),
            forall|k: int| 0 <= k < steps@.len() ==> (#[trigger] steps@[k]).wf(),
            step_views(steps@) == removals(before, after, names.take(i as int)),
        decreases size - i,
    {
        let name = old.name_at(i);
        proof {
            assert(names.take(i + 1).drop_last() =~= names.take(i as int));
            lemma_tally_bound(before, after, names.take(i as int), Change::Removed);
        }
        let ghost listed = step_views(steps@);
        if !new.contains_name(name.as_str()) {
            add_step(&mut steps, ReloadStep::Abort(name.clone()));
            add_step(&mut steps, ReloadStep::Remove(name.clone()));
            add_step(&mut steps, ReloadStep::DropResetLock(name.clone()));
            assert(step_views(steps@) =~= listed + steps_for(
                Change::Removed,
                name@,
                before[name@],
            ));
            removed += 1;
        }
        i += 1;
    }
    assert(names.take(i as int) =~= names);
    (removed, steps)
}

/// What a new configuration means for a server that is in it.
fn change_of(old: Option<&ServerConfig>, new: &ServerConfig) -> (kind: Change)
    requires
        old matches Some(server) ==> server.wf(),
        new.wf(),
    ensures
        kind == match old {
            None => Change::Added,
            Some(server) => if server@ == new@ {
                Change::Unchanged
            } else if config::fresh_session_needed(server@, new@) {
                Change::Restarted
            } else {
                Change::Updated
            },
        },
{
    match old {
        None => Change::Added,
        Some(server) => if server.same(new) {
            Change::Unchanged
        } else if server.requires_fresh_upstream_session(new) {
            Change::Restarted
        } else {
            Change::Updated
        },
    }
}

/// Adds the steps that a change of a server in the new configuration takes.
fn add_arrival(steps: &mut Vec<ReloadStep>, kind: Change, name: &String, new: &ServerConfig)
    requires
        kind != Change::Removed,
        new.wf(),
        forall|i: int| 0 <= i < old(steps)@.len() ==> (#[trigger] old(steps)@[i]).wf(),
    ensures
        forall|i: int| 0 <= i < final(steps)@.len() ==> (#[trigger] final(steps)@[i]).wf(),
        step_views(final(steps)@) == step_views(old(steps)@) + steps_for(kind, name@, new@),
{
    let ghost listed = step_views(steps@);
    match kind {
        Change::Added => {
            add_step(steps, ReloadStep::Insert(new.copy()));
            add_step(steps, ReloadStep::Spawn(name.clone()));
        },
        Change::Restarted => {
            add_step(steps, ReloadStep::Abort(name.clone()));
            add_step(steps, ReloadStep::Insert(new.copy()));
            add_step(steps, ReloadStep::DropResetLock(name.clone()));
            add_step(steps, ReloadStep::Spawn(name.clone()));
        },
        Change::Updated => {
            add_step(steps, ReloadStep::Update(new.copy()));
            add_step(steps, ReloadStep::Resume(name.clone()));
        },
        _ => {},
    }
    assert(step_views(steps@) =~= listed + steps_for(kind, name@, new@));
}

/// The steps and the counts of a reload.
pub fn upstream_diff(old_config: &Config, new_config: &Config) -> (plan: (
    ReloadSummary,
    Vec<ReloadStep>,
))
    requires
        old_config.wf(),
        new_config.wf(),
    ensures
        is_summary(
            plan.0,
            config::by_name(old_config@.servers),
            config::by_name(new_config@.servers),
        ),
        forall|i: int| 0 <= i < plan.1@.len() ==> (#[trigger] plan.1@[i]).wf(),
        step_views(plan.1@) == reload_steps(
            config::by_name(old_config@.servers),
            config::by_name(new_config@.servers),
        ),
{
    let old = servers_by_name(old_config);
    let new = servers_by_name(new_config);
    let ghost before = config_map(old);
    let ghost after = config_map(new);
    let ghost names = new.names();
    proof {
        old.lemma_names();
        new.lemma_names();
        assert(before.dom() =~= old.map().dom());
        assert(after.dom() =~= new.map().dom());
    }
    let (removed, mut steps) = plan_removals(&old, &new);
    let ghost gone = step_views(steps@);
    let mut added: usize = 0;
    let mut restarted: usize = 0;
    let mut updated: usize = 0;
    let mut unchanged: usize = 0;
    let size: usize = new.len();
    let mut i: usize = 0;
    assert(gone + arrivals(before, after, names.take(0)) =~= gone);
    while i < size
        invariant
            configs_ok(old),
            configs_ok(new),
            size == names.len(),
            i <= size,
            names == new.names(),
            before == config_map(old),
            after == config_map(new),
            forall|name: Seq<char>|
                names.contains(name) <==> #[trigger] new.map().contains_key(name),
            added == tally(before, after, names.take(i as int), Change::Added),
            restarted == tally(before, after, names.take(i as int), Change::Restarted),
            updated == tally(before, after, names.take(i as int), Change::Updated),
            unchanged == tally(before, after, names.take(i as int), Change::Unchanged),
            forall|k: int| 0 <= k < steps@.len() ==> (#[trigger] steps@[k]).wf(),
            step_views(steps@) == gone + arrivals(before, after, names.take(i as int)),
        decreases size - i,
    {
        let name = new.name_at(i);
        let server = new.value_at(i);
        proof {
            assert(names.take(i + 1).drop_last() =~= names.take(i as int));
            assert(names.contains(name@));
            assert(new.map()[name@].wf());
            assert(after[name@] == server@);
            lemma_tally_bound(before, after, names.take(i as int), Change::Added);
            lemma_tally_bound(before, after, names.take(i as int), Change::Restarted);
            lemma_tally_bound(before, after, names.take(i as int), Change::Updated);
            lemma_tally_bound(before, after, names.take(i as int), Change::Unchanged);
        }
        let found = old.get(name.as_str());
        let kind = change_of(found, server);
        assert(kind == change(before, after, name@));
        match kind {
            Change::Added => {
                added += 1;
            },
            Change::Restarted => {
                restarted += 1;
            },
            Change::Updated => {
                updated += 1;
            },
            _ => {
                unchanged += 1;
            },
        }
        add_arrival(&mut steps, kind, name, server);
        assert(step_views(steps@) =~= gone + (arrivals(before, after, names.take(i as int))
            + steps_for(kind, name@, server@)));
        i += 1;
    }
    assert(names.take(i as int) =~= names);
    (ReloadSummary { added, removed, restarted, updated, unchanged }, steps)
}

/// The servers after a step. Tasks and locks are not among them.
pub open spec fn step_taken(
    servers: Map<Seq<char>, ManagedServerView>,
    step: ReloadStepView,
) -> Map<Seq<char>, ManagedServerView> {
    match step {
        ReloadStepView::Remove(name) => servers.remove(name),
        ReloadStepView::Insert(config) => servers.insert(config.name, state::new_server(config)),
        ReloadStepView::Update(config) => if servers.contains_key(config.name) {
            servers.insert(
                config.name,
                ManagedServerView { config, ..servers[config.name] },
            )
        } else {
            servers
        },
        _ => servers,
    }
}

/// The servers after steps.
pub open spec fn steps_taken(
    servers: Map<Seq<char>, ManagedServerView>,
    steps: Seq<ReloadStepView>,
) -> Map<Seq<char>, ManagedServerView>
    decreases steps.len(),
{
    if steps.len() == 0 {
        servers
    } else {
        step_taken(steps_taken(servers, steps.drop_last()), steps.last())
    }
}

/// Takes a step of a reload, as far as it concerns the servers.
pub fn take_step(registry: &mut Registry, step: ReloadStep)
    requires
        old(registry).wf(),
        step.wf(),
    ensures
        final(registry).wf(),
        final(registry)@ == step_taken(old(registry)@, step@),
{
    match step {
        ReloadStep::Remove(name) => registry.forget(name.as_str()),
        ReloadStep::Insert(config) => registry.start_over(config),
        ReloadStep::Update(config) => registry.reconfigure(config),
        _ => {},
    }
}

/// What a new configuration brings.
#[derive(Debug)]
pub struct Reload {
    pub config: Config,
    pub bearer_token: Option<String>,
    pub summary: ReloadSummary,
    pub steps: Vec<ReloadStep>,
}

impl Reload {
    /// The configuration and the steps are well formed.
    pub open spec fn wf(&self) -> bool {
        &&& self.config.wf()
        &&& forall|i: int| 0 <= i < self.steps@.len() ==> (#[trigger] self.steps@[i]).wf()
    }
}

/// The token that downstream clients have to show under a configuration, where `variable` is what
/// `MCPSTEAD_BEARER_TOKEN` holds; or what is wrong with the configuration.
pub open spec fn accepted_token(config: ConfigView, variable: Option<Seq<char>>) -> Result<
    Option<Seq<char>>,
    config::ConfigFault,
> {
    match config::config_fault(config) {
        Some(fault) => Err(fault),
        None => match config.auth_mode {
            config::McpAuthMode::NoAuth => Ok(None),
            config::McpAuthMode::Bearer => match variable {
                Some(value) => Ok(Some(value)),
                None => Err(config::ConfigFault::MissingBearerToken),
            },
        },
    }
}

/// What a new configuration brings, where `loaded` is what was read of it, or why it could not be
/// read. Nothing changes yet.
pub fn plan_reload(state: &AppState, loaded: Result<Config, String>, variable: Option<String>) -> (
    plan: Result<Reload, String>)
    requires
        state.wf(),
        loaded matches Ok(config) ==> config.wf(),
    ensures
        match loaded {
            Err(error) => plan matches Err(said) && said@ == error@,
            Ok(config) => match accepted_token(config@, text::optional(variable)) {
                Err(fault) => plan matches Err(said) && said@ == config::fault_text(fault),
                Ok(token) => {
                    let new = reloadable(state@.live_config, config@);
                    let before = config::by_name(state@.live_config.servers);
                    let after = config::by_name(new.servers);
                    plan matches Ok(reload) && {
                        &&& reload.wf()
                        &&& reload.config@ == new
                        &&& text::optional(reload.bearer_token) == token
                        &&& is_summary(reload.summary, before, after)
                        &&& step_views(reload.steps@) == reload_steps(before, after)
                    }
                },
            },
        },
{
    let loaded = match loaded {
        Ok(config) => config,
        Err(error) => return Err(error),
    };
    if let Err(error) = config::validate_config(&loaded) {
        return Err(error.message());
    }
    let bearer_token = match config::load_mcp_bearer_token(&loaded, variable) {
        Ok(token) => token,
        Err(error) => return Err(error.message()),
    };
    let config = reloadable_config(&state.live_config, loaded);
    let (summary, steps) = upstream_diff(&state.live_config, &config);
    Ok(Reload { config, bearer_token, summary, steps })
}

/// The counter of reloads.
pub open spec fn reloads(result: Seq<char>) -> metrics::CounterKey {
    metrics::key(Family::ConfigReloads, result, Seq::empty())
}

/// What is kept after a new configuration took effect, where `variables` is what the environment
/// variables of the servers' tokens then hold.
pub open spec fn after_reload(
    state: AppStateView,
    config: ConfigView,
    bearer_token: Option<Seq<char>>,
    variables: Map<Seq<char>, Seq<char>>,
) -> AppStateView {
    AppStateView {
        live_config: config,
        variables,
        auth_mode: config.auth_mode,
        bearer_token,
        metrics_enabled: config.metrics.enabled,
        metrics: state.metrics.plus(reloads("success"@), 1),
        ..state
    }
}

/// The steps are taken, and the rest of the new configuration takes effect.
pub fn finish_reload(
    state: &mut AppState,
    config: Config,
    bearer_token: Option<String>,
    variables: Table<String>,
)
    requires
        old(state).wf(),
        config.wf(),
        variables.wf(),
    ensures
        final(state).wf(),
        final(state)@ == after_reload(
            old(state)@,
            config@,
            text::optional(bearer_token),
            config::text_map(variables),
        ),
{
    state.variables = variables;
    state.mcp_auth = McpAuthState { mode: config.mcp.auth.mode, bearer_token };
    state.metrics_enabled = config.metrics.enabled;
    state.live_config = config;
    state.metrics.record_config_reload("success");
}

/// What is kept after a reload that failed: everything, but for the count.
pub open spec fn after_failed_reload(state: AppStateView) -> AppStateView {
    AppStateView { metrics: state.metrics.plus(reloads("error"@), 1), ..state }
}

/// A reload failed.
pub fn fail_reload(state: &mut AppState)
    requires
        old(state).wf(),
    ensures
        final(state).wf(),
        final(state)@ == after_failed_reload(old(state)@),
{
    state.metrics.record_config_reload("error");
}

/// Reloads the configuration as far as it concerns what the gateway keeps, where `loaded` is what
/// was read of it, `variable` what `MCPSTEAD_BEARER_TOKEN` holds and `variables` what the
/// environment variables of the servers' tokens hold. Starting and stopping tasks is left to the
/// caller of the single steps.
pub fn reload_config(
    state: &mut AppState,
    loaded: Result<Config, String>,
    variable: Option<String>,
    variables: Table<String>,
) -> (result: Result<ReloadSummary, String>)
    requires
        old(state).wf(),
        variables.wf(),
        loaded matches Ok(config) ==> config.wf(),
    ensures
        final(state).wf(),
        match loaded {
            Err(error) => {
                &&& result matches Err(said) && said@ == error@
                &&& final(state)@ == after_failed_reload(old(state)@)
            },
            Ok(config) => match accepted_token(config@, text::optional(variable)) {
                Err(fault) => {
                    &&& result matches Err(said) && said@ == config::fault_text(fault)
                    &&& final(state)@ == after_failed_reload(old(state)@)
                },
                Ok(token) => {
                    let new = reloadable(old(state)@.live_config, config@);
                    let before = config::by_name(old(state)@.live_config.servers);
                    let after = config::by_name(new.servers);
                    &&& result matches Ok(summary) && is_summary(summary, before, after)
                    &&& final(state)@ == after_reload(
                        AppStateView {
                            servers: steps_taken(
                                old(state)@.servers,
                                reload_steps(before, after),
                            ),
                            ..old(state)@
                        },
                        new,
                        token,
                        config::text_map(variables),
                    )
                },
            },
        },
{
    match plan_reload(state, loaded, variable) {
        Ok(reload) => {
            let Reload { config, bearer_token, summary, steps } = reload;
            let ghost all = step_views(steps@);
            let ghost kept = state@;
            let ghost start = state.registry@;
            for step in iter: steps
                invariant
                    state.wf(),
                    variables.wf(),
                    all == step_views(iter.seq()),
                    forall|i: int| 0 <= i < iter.seq().len() ==> (#[trigger] iter.seq()[i]).wf(),
                    state@ == (AppStateView {
                        servers: steps_taken(start, all.take(iter.index() as int)),
                        ..kept
                    }),
            {
                assert(all.take(iter.index() + 1).drop_last() =~= all.take(iter.index() as int));
                take_step(&mut state.registry, step);
            }
            assert(all.take(all.len() as int) =~= all);
            finish_reload(state, config, bearer_token, variables);
            Ok(summary)
        },
        Err(error) => {
            fail_reload(state);
            Err(error)
        },
    }
}

/// The servers after a reload: those of the new configuration. One that is new, or that has to be
/// restarted, has not been reached yet; the others go on as they were, under the configuration that
/// now holds for them.
pub open spec fn reloaded(
    servers: Map<Seq<char>, ManagedServerView>,
    old: Map<Seq<char>, ServerConfigView>,
    new: Map<Seq<char>, ServerConfigView>,
) -> Map<Seq<char>, ManagedServerView> {
    Map::new(
        |name: Seq<char>| new.contains_key(name),
        |name: Seq<char>| server_reloaded(servers, old, new, name),
    )
}

/// A server of the new configuration after a reload.
pub open spec fn server_reloaded(
    servers: Map<Seq<char>, ManagedServerView>,
    old: Map<Seq<char>, ServerConfigView>,
    new: Map<Seq<char>, ServerConfigView>,
    name: Seq<char>,
) -> ManagedServerView {
    match change(old, new, name) {
        Change::Unchanged => servers[name],
        Change::Updated => ManagedServerView { config: new[name], ..servers[name] },
        _ => state::new_server(new[name]),
    }
}

/// Steps one after another.
proof fn lemma_steps_then(
    servers: Map<Seq<char>, ManagedServerView>,
    first: Seq<ReloadStepView>,
    second: Seq<ReloadStepView>,
)
    ensures
        steps_taken(servers, first + second) == steps_taken(steps_taken(servers, first), second),
    decreases second.len(),
{
    if second.len() == 0 {
        assert(first + second =~= first);
    } else {
        assert((first + second).drop_last() =~= first + second.drop_last());
        lemma_steps_then(servers, first, second.drop_last());
    }
}

/// The steps that take out servers take out those that are gone.
proof fn lemma_removals(
    servers: Map<Seq<char>, ManagedServerView>,
    old: Map<Seq<char>, ServerConfigView>,
    new: Map<Seq<char>, ServerConfigView>,
    names: Seq<Seq<char>>,
)
    ensures
        ({
            let left = steps_taken(servers, removals(old, new, names));
            &&& forall|name: Seq<char>| #[trigger]
                left.contains_key(name) <==> servers.contains_key(name) && (new.contains_key(name)
                    || !names.contains(name))
            &&& forall|name: Seq<char>| #[trigger]
                left.contains_key(name) ==> left[name] == servers[name]
        }),
    decreases names.len(),
{
    if names.len() > 0 {
        let shorter = names.drop_last();
        let last = names.last();
        lemma_removals(servers, old, new, shorter);
        let before = steps_taken(servers, removals(old, new, shorter));
        let steps = steps_for(Change::Removed, last, old[last]);
        lemma_steps_then(servers, removals(old, new, shorter), steps);
        lemma_three_steps(before, steps);
        table::lemma_but_last(names);
    }
}

/// Three steps, the second of which takes a server out.
proof fn lemma_three_steps(
    servers: Map<Seq<char>, ManagedServerView>,
    steps: Seq<ReloadStepView>,
)
    requires
        steps.len() == 3,
    ensures
        steps_taken(servers, steps) == step_taken(
            step_taken(step_taken(servers, steps[0]), steps[1]),
            steps[2],
        ),
{
    reveal_with_fuel(steps_taken, 4);
    assert(steps.drop_last().drop_last().drop_last() =~= Seq::empty());
}

/// The steps of one server of the new configuration bring it to what that says.
proof fn lemma_arrival(
    servers: Map<Seq<char>, ManagedServerView>,
    old: Map<Seq<char>, ServerConfigView>,
    new: Map<Seq<char>, ServerConfigView>,
    name: Seq<char>,
)
    requires
        new.contains_key(name),
        new[name].name == name,
        old.contains_key(name) ==> servers.contains_key(name),
    ensures
        steps_taken(servers, steps_for(change(old, new, name), name, new[name]))
            == servers.insert(name, server_reloaded(servers, old, new, name)),
{
    let kind = change(old, new, name);
    let steps = steps_for(kind, name, new[name]);
    reveal_with_fuel(steps_taken, 5);
    match kind {
        Change::Added => {
            assert(steps.drop_last().drop_last() =~= Seq::empty());
        },
        Change::Restarted => {
            assert(steps.drop_last().drop_last().drop_last().drop_last() =~= Seq::empty());
        },
        Change::Updated => {
            assert(steps.drop_last().drop_last() =~= Seq::empty());
        },
        _ => {
            assert(servers.insert(name, servers[name]) =~= servers);
        },
    }
}

/// The steps of the servers of the new configuration bring them to what that says.
proof fn lemma_arrivals(
    servers: Map<Seq<char>, ManagedServerView>,
    old: Map<Seq<char>, ServerConfigView>,
    new: Map<Seq<char>, ServerConfigView>,
    names: Seq<Seq<char>>,
)
    requires
        names.no_duplicates(),
        forall|i: int|
            0 <= i < names.len() ==> new.contains_key(#[trigger] names[i]) && new[names[i]].name
                == names[i],
        forall|i: int|
            0 <= i < names.len() && old.contains_key(#[trigger] names[i])
                ==> servers.contains_key(names[i]),
    ensures
        ({
            let left = steps_taken(servers, arrivals(old, new, names));
            &&& forall|name: Seq<char>| #[trigger]
                left.contains_key(name) <==> servers.contains_key(name) || names.contains(name)
            &&& forall|name: Seq<char>| #[trigger]
                left.contains_key(name) ==> left[name] == if names.contains(name) {
                    server_reloaded(servers, old, new, name)
                } else {
                    servers[name]
                }
        }),
    decreases names.len(),
{
    if names.len() > 0 {
        let shorter = names.drop_last();
        let last = names.last();
        lemma_arrivals(servers, old, new, shorter);
        let before = steps_taken(servers, arrivals(old, new, shorter));
        assert(names[names.len() - 1] == last);
        lemma_steps_then(
            servers,
            arrivals(old, new, shorter),
            steps_for(change(old, new, last), last, new[last]),
        );
        lemma_arrival(before, old, new, last);
        table::lemma_but_last(names);
        table::lemma_last_is_new(names);
        assert(servers.contains_key(last) ==> before.contains_key(last));
        assert(server_reloaded(before, old, new, last) == server_reloaded(servers, old, new, last));
    }
}

/// After a reload the gateway keeps exactly the servers of the new configuration: those that are
/// new or have to be restarted start over, the others keep their connection, their session and
/// their tools.
pub proof fn law_reload_result(
    servers: Map<Seq<char>, ManagedServerView>,
    old: Seq<ServerConfigView>,
    new: Seq<ServerConfigView>,
)
    requires
        servers.dom() == config::by_name(old).dom(),
    ensures
        steps_taken(servers, reload_steps(config::by_name(old), config::by_name(new))) == reloaded(
            servers,
            config::by_name(old),
            config::by_name(new),
        ),
{
    let before = config::by_name(old);
    let after = config::by_name(new);
    let gone = table::in_order(before.dom());
    let here = table::in_order(after.dom());
    config::lemma_by_name(old);
    config::lemma_by_name(new);
    table::lemma_in_order(before.dom());
    table::lemma_in_order(after.dom());
    lemma_removals(servers, before, after, gone);
    let left = steps_taken(servers, removals(before, after, gone));
    assert forall|i: int| 0 <= i < here.len() implies after.contains_key(#[trigger] here[i])
        && after[here[i]].name == here[i] by {
        assert(here.contains(here[i]));
        assert(after.dom().contains(here[i]));
    }
    lemma_steps_then(servers, removals(before, after, gone), arrivals(before, after, here));
    lemma_arrivals(left, before, after, here);
    let result = steps_taken(servers, reload_steps(before, after));
    assert forall|name: Seq<char>| #[trigger]
        result.contains_key(name) <==> after.contains_key(name) by {
        assert(here.contains(name) <==> after.dom().contains(name));
        assert(gone.contains(name) <==> before.dom().contains(name));
    }
    assert forall|name: Seq<char>| #[trigger] after.contains_key(name) implies result[name]
        == server_reloaded(servers, before, after, name) by {
        assert(here.contains(name) <==> after.dom().contains(name));
        assert(result.contains_key(name));
        assert(before.dom().contains(name) ==> servers.dom().contains(name));
        assert(servers.contains_key(name) ==> left.contains_key(name));
    }
    assert(result =~= reloaded(servers, before, after));
}

/// The gateway keeps the servers of the configuration that it runs with, and no others.
pub open spec fn in_step(state: AppStateView) -> bool {
    state.servers.dom() == config::by_name(state.live_config.servers).dom()
}

/// The gateway starts with the servers of its configuration.
pub proof fn law_first_state_in_step(
    config: ConfigView,
    bearer_token: Option<Seq<char>>,
    variables: Map<Seq<char>, Seq<char>>,
)
    ensures
        in_step(state::first_state(config, bearer_token, variables)),
{
    assert(state::new_servers(config.servers).dom() =~= config::by_name(config.servers).dom());
}

/// A reload that succeeds leaves the gateway with the servers of the configuration that it then
/// runs with.
pub proof fn law_reload_in_step(
    state: AppStateView,
    loaded: ConfigView,
    bearer_token: Option<Seq<char>>,
    variables: Map<Seq<char>, Seq<char>>,
)
    requires
        in_step(state),
    ensures
        ({
            let new = reloadable(state.live_config, loaded);
            let steps = reload_steps(
                config::by_name(state.live_config.servers),
                config::by_name(new.servers),
            );
            let kept = AppStateView { servers: steps_taken(state.servers, steps), ..state };
            in_step(after_reload(kept, new, bearer_token, variables))
        }),
{
    law_reload_result(state.servers, state.live_config.servers, loaded.servers);
    let old = config::by_name(state.live_config.servers);
    let new = config::by_name(loaded.servers);
    assert(reloaded(state.servers, old, new).dom() =~= new.dom());
}

/// What a new configuration means for each of its servers is one of four things.
proof fn lemma_tallies_of_new(
    old: Map<Seq<char>, ServerConfigView>,
    new: Map<Seq<char>, ServerConfigView>,
    names: Seq<Seq<char>>,
)
    requires
        forall|i: int| 0 <= i < names.len() ==> new.contains_key(#[trigger] names[i]),
    ensures
        tally(old, new, names, Change::Added) + tally(old, new, names, Change::Restarted) + tally(
            old,
            new,
            names,
            Change::Updated,
        ) + tally(old, new, names, Change::Unchanged) == names.len(),
    decreases names.len(),
{
    if names.len() > 0 {
        lemma_tallies_of_new(old, new, names.drop_last());
    }
}

/// A tally counts the names of the change.
proof fn lemma_tally_is_count(
    old: Map<Seq<char>, ServerConfigView>,
    new: Map<Seq<char>, ServerConfigView>,
    names: Seq<Seq<char>>,
    kind: Change,
)
    requires
        names.no_duplicates(),
    ensures
        ({
            let those = names.to_set().filter(|name: Seq<char>| change(old, new, name) == kind);
            those.finite() && tally(old, new, names, kind) == those.len()
        }),
    decreases names.len(),
{
    let is_kind = |name: Seq<char>| change(old, new, name) == kind;
    vstd::seq_lib::seq_to_set_is_finite(names);
    let those = names.to_set().filter(is_kind);
    if names.len() == 0 {
        assert(those =~= Set::empty());
    } else {
        let shorter = names.drop_last();
        let last = names.last();
        lemma_tally_is_count(old, new, shorter, kind);
        vstd::seq_lib::seq_to_set_is_finite(shorter);
        let before = shorter.to_set().filter(is_kind);
        table::lemma_but_last(names);
        table::lemma_last_is_new(names);
        if is_kind(last) {
            assert(those =~= before.insert(last));
        } else {
            assert(those =~= before);
        }
    }
}

/// The names of the servers that change in this way.
pub open spec fn changed(
    old: Map<Seq<char>, ServerConfigView>,
    new: Map<Seq<char>, ServerConfigView>,
    kind: Change,
) -> Set<Seq<char>> {
    (old.dom() + new.dom()).filter(|name: Seq<char>| change(old, new, name) == kind)
}

/// The summary of a reload counts, for each change, the servers that undergo it; and every server
/// of the new configuration, and every server of the old one, is counted once.
pub proof fn law_reload_counts(
    summary: ReloadSummary,
    old: Map<Seq<char>, ServerConfigView>,
    new: Map<Seq<char>, ServerConfigView>,
)
    requires
        old.dom().finite(),
        new.dom().finite(),
        is_summary(summary, old, new),
    ensures
        summary.removed == changed(old, new, Change::Removed).len(),
        summary.added == changed(old, new, Change::Added).len(),
        summary.restarted == changed(old, new, Change::Restarted).len(),
        summary.updated == changed(old, new, Change::Updated).len(),
        summary.unchanged == changed(old, new, Change::Unchanged).len(),
        summary.added + summary.restarted + summary.updated + summary.unchanged == new.dom().len(),
        summary.removed + summary.restarted + summary.updated + summary.unchanged
            == old.dom().len(),
{
    let gone = table::in_order(old.dom());
    let here = table::in_order(new.dom());
    table::lemma_in_order(old.dom());
    table::lemma_in_order(new.dom());
    assert(gone.to_set() =~= old.dom());
    assert(here.to_set() =~= new.dom());
    lemma_changed(old, new);
    lemma_tally_is_count(old, new, gone, Change::Removed);
    lemma_tally_is_count(old, new, here, Change::Added);
    lemma_tally_is_count(old, new, here, Change::Restarted);
    lemma_tally_is_count(old, new, here, Change::Updated);
    lemma_tally_is_count(old, new, here, Change::Unchanged);
    assert forall|i: int| 0 <= i < here.len() implies new.contains_key(#[trigger] here[i]) by {
        assert(here.contains(here[i]));
        assert(new.dom().contains(here[i]));
    }
    lemma_tallies_of_new(old, new, here);
    let removed = changed(old, new, Change::Removed);
    let restarted = changed(old, new, Change::Restarted);
    let updated = changed(old, new, Change::Updated);
    let unchanged = changed(old, new, Change::Unchanged);
    assert(old.dom() =~= removed + restarted + updated + unchanged);
    vstd::set_lib::lemma_set_disjoint_lens(removed, restarted);
    vstd::set_lib::lemma_set_disjoint_lens(removed + restarted, updated);
    vstd::set_lib::lemma_set_disjoint_lens(removed + restarted + updated, unchanged);
}

/// Servers that are removed are in the old configuration, all others in the new one.
proof fn lemma_changed(
    old: Map<Seq<char>, ServerConfigView>,
    new: Map<Seq<char>, ServerConfigView>,
)
    requires
        old.dom().finite(),
        new.dom().finite(),
    ensures
        forall|kind: Change| (#[trigger] changed(old, new, kind)).finite(),
        changed(old, new, Change::Removed) == old.dom().filter(
            |name: Seq<char>| change(old, new, name) == Change::Removed,
        ),
        forall|kind: Change|
            kind != Change::Removed ==> #[trigger] changed(old, new, kind) == new.dom().filter(
                |name: Seq<char>| change(old, new, name) == kind,
            ),
{
    assert(changed(old, new, Change::Removed) =~= old.dom().filter(
        |name: Seq<char>| change(old, new, name) == Change::Removed,
    ));
    assert forall|kind: Change| kind != Change::Removed implies #[trigger] changed(old, new, kind)
        == new.dom().filter(|name: Seq<char>| change(old, new, name) == kind) by {
        assert(changed(old, new, kind) =~= new.dom().filter(
            |name: Seq<char>| change(old, new, name) == kind,
        ));
    }
}

/// A reload of the same servers takes no step.
pub proof fn law_same_servers_take_no_step(servers: Map<Seq<char>, ServerConfigView>)
    requires
        servers.dom().finite(),
    ensures
        reload_steps(servers, servers) == Seq::<ReloadStepView>::empty(),
{
    table::lemma_in_order(servers.dom());
    lemma_no_steps(servers, table::in_order(servers.dom()));
}

proof fn lemma_no_steps(servers: Map<Seq<char>, ServerConfigView>, names: Seq<Seq<char>>)
    requires
        forall|name: Seq<char>| #[trigger] names.contains(name) ==> servers.dom().contains(name),
    ensures
        removals(servers, servers, names) == Seq::<ReloadStepView>::empty(),
        arrivals(servers, servers, names) == Seq::<ReloadStepView>::empty(),
    decreases names.len(),
{
    if names.len() > 0 {
        table::lemma_but_last(names);
        assert forall|name: Seq<char>| #[trigger]
            names.drop_last().contains(name) implies servers.dom().contains(name) by {
            assert(names.contains(name));
        }
        lemma_no_steps(servers, names.drop_last());
        assert(names.contains(names.last()));
    }
}

/// A count under its name.
pub open spec fn named_count(name: Seq<char>, count: usize) -> Seq<char> {
    "\""@ + name + "\":"@ + text::decimal(count as nat)
}

/// The JSON text of a summary.
pub open spec fn summary_text(summary: ReloadSummary) -> Seq<char> {
    "{"@ + named_count("added"@, summary.added) + ","@ + named_count("removed"@, summary.removed)
        + ","@ + named_count("restarted"@, summary.restarted) + ","@ + named_count(
        "updated"@,
        summary.updated,
    ) + ","@ + named_count("unchanged"@, summary.unchanged) + "}"@
}

/// A count under its name.
fn named_count_text(name: &str, count: usize) -> (text: String)
    ensures
        text@ == named_count(name@, count),
{
    let mut text = "\"".to_owned();
    text.append(name);
    text.append("\":");
    text.append(text::decimal_text(count as u64).as_str());
    text
}

impl ReloadSummary {
    /// The JSON text of the summary.
    pub fn to_json(&self) -> (text: String)
        ensures
            text@ == summary_text(*self),
    {
        let mut text = "{".to_owned();
        text.append(named_count_text("added", self.added).as_str());
        text.append(",");
        text.append(named_count_text("removed", self.removed).as_str());
        text.append(",");
        text.append(named_count_text("restarted", self.restarted).as_str());
        text.append(",");
        text.append(named_count_text("updated", self.updated).as_str());
        text.append(",");
        text.append(named_count_text("unchanged", self.unchanged).as_str());
        text.append("}");
        text
    }
}

/// May a client ask for a reload? Otherwise the reply that turns it away.
pub fn open_reload(state: &mut AppState, authorization: Option<&str>) -> (refusal: Option<
    HttpReply,
>)
    requires
        old(state).wf(),
    ensures
        final(state).wf(),
        final(state)@ == auth::after_decision(old(state)@, json::text_option(authorization)),
        match refusal {
            None => auth::state_decision(old(state)@, json::text_option(authorization))
                == AuthDecision::Allow,
            Some(reply) => {
                &&& auth::state_decision(old(state)@, json::text_option(authorization)) is Deny
                &&& reply@ == http::unauthorized()
            },
        },
{
    match auth::authorize(state, authorization) {
        AuthDecision::Allow => None,
        AuthDecision::Deny(_) => Some(http::unauthorized_response()),
    }
}

/// What a client that asked for a reload is told.
pub open spec fn told_of_reload(result: Result<ReloadSummary, Seq<char>>) -> HttpReplyView {
    match result {
        Ok(summary) => http::text_reply(200, "application/json"@, summary_text(summary)),
        Err(error) => http::text_reply(400, http::plain_text(), error),
    }
}

/// What came of a reload.
pub open spec fn outcome_view(result: Result<ReloadSummary, String>) -> Result<
    ReloadSummary,
    Seq<char>,
> {
    match result {
        Ok(summary) => Ok(summary),
        Err(error) => Err(error@),
    }
}

/// What a client that asked for a reload is told.
pub fn reload_reply(result: &Result<ReloadSummary, String>) -> (reply: HttpReply)
    ensures
        reply@ == told_of_reload(outcome_view(*result)),
{
    match result {
        Ok(summary) => http::worded_reply(200, "application/json", summary.to_json()),
        Err(error) => http::worded_reply(400, "text/plain; charset=utf-8", error.clone()),
    }
}

/// A change of whether a server is required, of how it is reached again or of how often its tools
/// are refreshed leaves its connection alone.
pub proof fn law_soft_change_keeps_the_connection(
    servers: Map<Seq<char>, ManagedServerView>,
    old: Map<Seq<char>, ServerConfigView>,
    new: Map<Seq<char>, ServerConfigView>,
    name: Seq<char>,
)
    requires
        old.contains_key(name),
        new.contains_key(name),
        new[name] == (ServerConfigView {
            required: new[name].required,
            reconnect: new[name].reconnect,
            tools: new[name].tools,
            ..old[name]
        }),
        servers[name].config == old[name],
    ensures
        server_reloaded(servers, old, new, name) == (ManagedServerView {
            config: new[name],
            ..servers[name]
        }),
{
}

/// The steps of a server are among those of all servers.
proof fn lemma_arrival_among(
    old: Map<Seq<char>, ServerConfigView>,
    new: Map<Seq<char>, ServerConfigView>,
    names: Seq<Seq<char>>,
    name: Seq<char>,
    step: ReloadStepView,
)
    requires
        names.contains(name),
        steps_for(change(old, new, name), name, new[name]).contains(step),
    ensures
        arrivals(old, new, names).contains(step),
    decreases names.len(),
{
    let shorter = names.drop_last();
    let before = arrivals(old, new, shorter);
    let mine = steps_for(change(old, new, names.last()), names.last(), new[names.last()]);
    if name == names.last() {
        let k = choose|k: int| 0 <= k < mine.len() && mine[k] == step;
        assert((before + mine)[before.len() + k] == step);
    } else {
        table::lemma_but_last(names);
        lemma_arrival_among(old, new, shorter, name, step);
        let k = choose|k: int| 0 <= k < before.len() && before[k] == step;
        assert((before + mine)[k] == step);
    }
}

/// A server whose configuration changes has a task again that keeps it connected, though it had
/// been given up before: one is started for a server that is new or restarted, and resumed for one
/// that is updated.
pub proof fn law_changed_server_is_tried_again(
    old: Map<Seq<char>, ServerConfigView>,
    new: Map<Seq<char>, ServerConfigView>,
    name: Seq<char>,
)
    requires
        new.dom().finite(),
        new.contains_key(name),
    ensures
        match change(old, new, name) {
            Change::Added => reload_steps(old, new).contains(ReloadStepView::Spawn(name)),
            Change::Restarted => reload_steps(old, new).contains(ReloadStepView::Spawn(name)),
            Change::Updated => reload_steps(old, new).contains(ReloadStepView::Resume(name)),
            _ => true,
        },
{
    let kind = change(old, new, name);
    let steps = steps_for(kind, name, new[name]);
    let here = table::in_order(new.dom());
    table::lemma_in_order(new.dom());
    assert(new.dom().contains(name));
    if kind != Change::Unchanged {
        let last = steps.last();
        assert(steps[steps.len() - 1] == last);
        lemma_arrival_among(old, new, here, name, last);
        let gone = removals(old, new, table::in_order(old.dom()));
        let more = arrivals(old, new, here);
        let k = choose|k: int| 0 <= k < more.len() && more[k] == last;
        assert((gone + more)[gone.len() + k] == last);
    }
}

/// A server is removed if the new configuration does not name it, added if the old one does not,
/// unchanged if both say the same of it; it is updated if they differ only in whether it is
/// required, in how it is reached again and in how often its tools are refreshed, and restarted
/// otherwise.
pub proof fn law_changes_are_told_by_comparing(
    old: Map<Seq<char>, ServerConfigView>,
    new: Map<Seq<char>, ServerConfigView>,
    name: Seq<char>,
)
    ensures
        !new.contains_key(name) ==> change(old, new, name) == Change::Removed,
        new.contains_key(name) && !old.contains_key(name) ==> change(old, new, name)
            == Change::Added,
        new.contains_key(name) && old.contains_key(name) && old[name].name == new[name].name ==> {
            let soft = ServerConfigView {
                required: new[name].required,
                reconnect: new[name].reconnect,
                tools: new[name].tools,
                ..old[name]
            };
            &&& change(old, new, name) == Change::Unchanged <==> old[name] == new[name]
            &&& change(old, new, name) == Change::Updated <==> old[name] != new[name] && new[name]
                == soft
            &&& change(old, new, name) == Change::Restarted <==> new[name] != soft
        },
{
    if new.contains_key(name) && old.contains_key(name) {
        config::law_what_asks_for_a_fresh_session(old[name], new[name]);
    }
}

/// After a reload the gateway keeps the servers that the new configuration names, and no others,
/// each under what that says of it. A server goes on as it was, with its connection, its session
/// and its tools, if it was there before and nothing changed but whether it is required, how it is
/// reached again and how often its tools are refreshed; otherwise it has not been reached yet.
pub proof fn law_servers_after_a_reload(
    servers: Map<Seq<char>, ManagedServerView>,
    old: Seq<ServerConfigView>,
    new: Seq<ServerConfigView>,
    name: Seq<char>,
)
    requires
        servers.dom() == config::by_name(old).dom(),
        forall|other: Seq<char>| #[trigger]
            servers.contains_key(other) ==> servers[other].config == config::by_name(old)[other],
    ensures
        ({
            let before = config::by_name(old);
            let after = config::by_name(new);
            let left = steps_taken(servers, reload_steps(before, after));
            &&& left.contains_key(name) <==> after.contains_key(name)
            &&& after.contains_key(name) ==> {
                let goes_on = before.contains_key(name) && after[name] == (ServerConfigView {
                    required: after[name].required,
                    reconnect: after[name].reconnect,
                    tools: after[name].tools,
                    ..before[name]
                });
                &&& left[name].config == after[name]
                &&& goes_on ==> {
                    &&& left[name].connected == servers[name].connected
                    &&& left[name].session_id == servers[name].session_id
                    &&& left[name].tools == servers[name].tools
                    &&& left[name].last_seen == servers[name].last_seen
                    &&& left[name].last_error == servers[name].last_error
                    &&& left[name].reconnects == servers[name].reconnects
                }
                &&& !goes_on ==> !left[name].connected && left[name].session_id is None
                    && left[name].tools.len() == 0 && left[name].last_seen is None
                    && left[name].last_error is None && left[name].reconnects == 0
            }
        }),
{
    law_reload_result(servers, old, new);
    let before = config::by_name(old);
    let after = config::by_name(new);
    config::lemma_by_name(old);
    config::lemma_by_name(new);
    if after.contains_key(name) {
        law_changes_are_told_by_comparing(before, after, name);
        assert(before.dom().contains(name) <==> servers.dom().contains(name));
    }
}

/// A new configuration takes effect at once but for the address, the logging and the times of
/// sessions, which stay as they were.
pub proof fn law_what_a_reload_leaves(old: ConfigView, new: ConfigView)
    ensures
        ({
            let kept = reloadable(old, new);
            &&& kept.host == old.host && kept.port == old.port
            &&& kept.logging_level == old.logging_level
            &&& kept.session == old.session
            &&& kept.servers == new.servers
            &&& kept.auth_mode == new.auth_mode
            &&& kept.auth_bearer_token == new.auth_bearer_token
            &&& kept.metrics == new.metrics
        }),
{
}

/// A reload that fails is counted and changes nothing else. One that succeeds is counted; from then
/// on the new configuration holds, with its token for clients, its tokens for servers and its
/// metrics. Servers are changed by the steps alone, and sessions stay.
pub proof fn law_what_a_reload_changes(
    state: AppStateView,
    config: ConfigView,
    bearer_token: Option<Seq<char>>,
    variables: Map<Seq<char>, Seq<char>>,
)
    ensures
        ({
            let counter = metrics::key(Family::ConfigReloads, "error"@, Seq::empty());
            let after = after_failed_reload(state);
            &&& after == (AppStateView { metrics: after.metrics, ..state })
            &&& after.metrics.tool_calls == state.metrics.tool_calls
            &&& after.metrics.counters == state.metrics.counters.insert(
                counter,
                metrics::counted(state.metrics.counters[counter], 1),
            )
        }),
        ({
            let counter = metrics::key(Family::ConfigReloads, "success"@, Seq::empty());
            let after = after_reload(state, config, bearer_token, variables);
            &&& after.live_config == config
            &&& after.auth_mode == config.auth_mode
            &&& after.bearer_token == bearer_token
            &&& after.variables == variables
            &&& after.metrics_enabled == config.metrics.enabled
            &&& after.servers == state.servers
            &&& after.sessions == state.sessions
            &&& after.accepting == state.accepting
            &&& after.metrics.tool_calls == state.metrics.tool_calls
            &&& after.metrics.counters == state.metrics.counters.insert(
                counter,
                metrics::counted(state.metrics.counters[counter], 1),
            )
        }),
{
}

/// A configuration is taken over exactly if nothing is wrong with it and, where clients have to
/// show a token, there is one; that is then the token, and there is none where clients need not
/// show one.
pub proof fn law_which_configurations_are_taken_over(
    config: ConfigView,
    variable: Option<Seq<char>>,
)
    ensures
        ({
            let token = accepted_token(config, variable);
            &&& config::config_fault(config) matches Some(fault) ==> (token matches Err(said)
                && said == fault)
            &&& config::config_fault(config) is None ==> match config.auth_mode {
                config::McpAuthMode::NoAuth => token matches Ok(none) && none is None,
                config::McpAuthMode::Bearer => match variable {
                    Some(value) => token matches Ok(Some(shown)) && shown == value,
                    None => token matches Err(said) && said
                        == config::ConfigFault::MissingBearerToken,
                },
            }
        }),
{
}

/// Does a step concern this server?
pub open spec fn concerns(step: ReloadStepView, name: Seq<char>) -> bool {
    match step {
        ReloadStepView::Abort(other) => other == name,
        ReloadStepView::Remove(other) => other == name,
        ReloadStepView::DropResetLock(other) => other == name,
        ReloadStepView::Insert(server) => server.name == name,
        ReloadStepView::Spawn(other) => other == name,
        ReloadStepView::Update(server) => server.name == name,
        ReloadStepView::Resume(other) => other == name,
    }
}

proof fn lemma_contains_sum(
    a: Seq<ReloadStepView>,
    b: Seq<ReloadStepView>,
    step: ReloadStepView,
)
    ensures
        (a + b).contains(step) <==> a.contains(step) || b.contains(step),
{
    if a.contains(step) {
        let i = choose|i: int| 0 <= i < a.len() && a[i] == step;
        assert((a + b)[i] == step);
    }
    if b.contains(step) {
        let i = choose|i: int| 0 <= i < b.len() && b[i] == step;
        assert((a + b)[a.len() + i] == step);
    }
    if (a + b).contains(step) {
        let i = choose|i: int| 0 <= i < (a + b).len() && (a + b)[i] == step;
        if i < a.len() {
            assert(a[i] == step);
        } else {
            assert(b[i - a.len()] == step);
        }
    }
}

/// The steps of a change concern its server.
proof fn lemma_steps_concern(
    kind: Change,
    name: Seq<char>,
    server: ServerConfigView,
    step: ReloadStepView,
)
    requires
        server.name == name || kind == Change::Removed,
        steps_for(kind, name, server).contains(step),
    ensures
        concerns(step, name),
{
}

proof fn lemma_removals_hold(
    old: Map<Seq<char>, ServerConfigView>,
    new: Map<Seq<char>, ServerConfigView>,
    names: Seq<Seq<char>>,
    step: ReloadStepView,
)
    ensures
        removals(old, new, names).contains(step) <==> exists|i: int|
            0 <= i < names.len() && change(old, new, #[trigger] names[i]) == Change::Removed
                && steps_for(Change::Removed, names[i], old[names[i]]).contains(step),
    decreases names.len(),
{
    if names.len() > 0 {
        let shorter = names.drop_last();
        let last = names.last();
        lemma_removals_hold(old, new, shorter, step);
        let mine = steps_for(Change::Removed, last, old[last]);
        lemma_contains_sum(removals(old, new, shorter), mine, step);
        assert(names[names.len() - 1] == last);
        if removals(old, new, shorter).contains(step) {
            let i = choose|i: int|
                0 <= i < shorter.len() && change(old, new, #[trigger] shorter[i])
                    == Change::Removed && steps_for(
                    Change::Removed,
                    shorter[i],
                    old[shorter[i]],
                ).contains(step);
            assert(names[i] == shorter[i]);
        }
        if exists|i: int|
            0 <= i < names.len() && change(old, new, #[trigger] names[i]) == Change::Removed
                && steps_for(Change::Removed, names[i], old[names[i]]).contains(step) {
            let i = choose|i: int|
                0 <= i < names.len() && change(old, new, #[trigger] names[i]) == Change::Removed
                    && steps_for(Change::Removed, names[i], old[names[i]]).contains(step);
            if i < shorter.len() {
                assert(shorter[i] == names[i]);
            }
        }
    }
}

proof fn lemma_arrivals_hold(
    old: Map<Seq<char>, ServerConfigView>,
    new: Map<Seq<char>, ServerConfigView>,
    names: Seq<Seq<char>>,
    step: ReloadStepView,
)
    ensures
        arrivals(old, new, names).contains(step) <==> exists|i: int|
            0 <= i < names.len() && steps_for(
                change(old, new, #[trigger] names[i]),
                names[i],
                new[names[i]],
            ).contains(step),
    decreases names.len(),
{
    if names.len() > 0 {
        let shorter = names.drop_last();
        let last = names.last();
        lemma_arrivals_hold(old, new, shorter, step);
        let mine = steps_for(change(old, new, last), last, new[last]);
        lemma_contains_sum(arrivals(old, new, shorter), mine, step);
        assert(names[names.len() - 1] == last);
        if arrivals(old, new, shorter).contains(step) {
            let i = choose|i: int|
                0 <= i < shorter.len() && steps_for(
                    change(old, new, #[trigger] shorter[i]),
                    shorter[i],
                    new[shorter[i]],
                ).contains(step);
            assert(names[i] == shorter[i]);
        }
        if exists|i: int|
            0 <= i < names.len() && steps_for(
                change(old, new, #[trigger] names[i]),
                names[i],
                new[names[i]],
            ).contains(step) {
            let i = choose|i: int|
                0 <= i < names.len() && steps_for(
                    change(old, new, #[trigger] names[i]),
                    names[i],
                    new[names[i]],
                ).contains(step);
            if i < shorter.len() {
                assert(shorter[i] == names[i]);
            }
        }
    }
}

/// The steps of a reload are, for each server, those that its change takes, and no others: a server
/// that is gone has its task stopped, is forgotten and loses its lock; one that is new is put in
/// and gets a task; one that is restarted has its task stopped, is put in anew, loses its lock and
/// gets a task; one that is updated gets its new configuration and a task where it has none; one
/// that is unchanged is left alone.
pub proof fn law_steps_go_by_the_changes(
    old: Map<Seq<char>, ServerConfigView>,
    new: Map<Seq<char>, ServerConfigView>,
    name: Seq<char>,
    step: ReloadStepView,
)
    requires
        old.dom().finite(),
        new.dom().finite(),
        forall|other: Seq<char>| #[trigger] new.contains_key(other) ==> new[other].name == other,
        old.contains_key(name) || new.contains_key(name),
        concerns(step, name),
    ensures
        reload_steps(old, new).contains(step) <==> match change(old, new, name) {
            Change::Removed => step == ReloadStepView::Abort(name) || step
                == ReloadStepView::Remove(name) || step == ReloadStepView::DropResetLock(name),
            Change::Added => step == ReloadStepView::Insert(new[name]) || step
                == ReloadStepView::Spawn(name),
            Change::Restarted => step == ReloadStepView::Abort(name) || step
                == ReloadStepView::Insert(new[name]) || step == ReloadStepView::DropResetLock(name)
                || step == ReloadStepView::Spawn(name),
            Change::Updated => step == ReloadStepView::Update(new[name]) || step
                == ReloadStepView::Resume(name),
            Change::Unchanged => false,
        },
{
    let gone = table::in_order(old.dom());
    let here = table::in_order(new.dom());
    table::lemma_in_order(old.dom());
    table::lemma_in_order(new.dom());
    lemma_removals_hold(old, new, gone, step);
    lemma_arrivals_hold(old, new, here, step);
    lemma_contains_sum(removals(old, new, gone), arrivals(old, new, here), step);
    assert(old.dom().contains(name) <==> gone.contains(name));
    assert(new.dom().contains(name) <==> here.contains(name));
    let kind = change(old, new, name);
    lemma_steps_of_a_change(kind, name, new[name], step);
    lemma_steps_of_a_change(Change::Removed, name, old[name], step);
    if removals(old, new, gone).contains(step) {
        let i = choose|i: int|
            0 <= i < gone.len() && change(old, new, #[trigger] gone[i]) == Change::Removed
                && steps_for(Change::Removed, gone[i], old[gone[i]]).contains(step);
        lemma_steps_concern(Change::Removed, gone[i], old[gone[i]], step);
        assert(gone[i] == name);
    }
    if arrivals(old, new, here).contains(step) {
        let i = choose|i: int|
            0 <= i < here.len() && steps_for(
                change(old, new, #[trigger] here[i]),
                here[i],
                new[here[i]],
            ).contains(step);
        assert(here.contains(here[i]));
        assert(new.dom().contains(here[i]));
        assert(new.contains_key(here[i]));
        lemma_steps_concern(change(old, new, here[i]), here[i], new[here[i]], step);
        assert(here[i] == name);
    }
    if new.contains_key(name) {
        let i = choose|i: int| 0 <= i < here.len() && here[i] == name;
        assert(here[i] == name);
    } else {
        let i = choose|i: int| 0 <= i < gone.len() && gone[i] == name;
        assert(gone[i] == name);
    }
}

/// The steps of a change, one by one.
proof fn lemma_steps_of_a_change(
    kind: Change,
    name: Seq<char>,
    server: ServerConfigView,
    step: ReloadStepView,
)
    ensures
        steps_for(kind, name, server).contains(step) <==> match kind {
            Change::Removed => step == ReloadStepView::Abort(name) || step
                == ReloadStepView::Remove(name) || step == ReloadStepView::DropResetLock(name),
            Change::Added => step == ReloadStepView::Insert(server) || step
                == ReloadStepView::Spawn(name),
            Change::Restarted => step == ReloadStepView::Abort(name) || step
                == ReloadStepView::Insert(server) || step == ReloadStepView::DropResetLock(name)
                || step == ReloadStepView::Spawn(name),
            Change::Updated => step == ReloadStepView::Update(server) || step
                == ReloadStepView::Resume(name),
            Change::Unchanged => false,
        },
{
    let steps = steps_for(kind, name, server);
    if steps.len() > 0 {
        assert(steps.contains(steps[0]));
    }
    if steps.len() > 1 {
        assert(steps.contains(steps[1]));
    }
    if steps.len() > 2 {
        assert(steps.contains(steps[2]));
    }
    if steps.len() > 3 {
        assert(steps.contains(steps[3]));
    }
}

/// A server that is restarted has its old task stopped before its new one is started, and is put in
/// between.
pub proof fn law_restart_stops_before_it_starts(name: Seq<char>, server: ServerConfigView)
    ensures
        ({
            let steps = steps_for(Change::Restarted, name, server);
            &&& steps.first() == ReloadStepView::Abort(name)
            &&& steps[1] == ReloadStepView::Insert(server)
            &&& steps.last() == ReloadStepView::Spawn(name)
        }),
        ({
            let steps = steps_for(Change::Removed, name, server);
            steps.first() == ReloadStepView::Abort(name)
        }),
        ({
            let steps = steps_for(Change::Added, name, server);
            steps.first() == ReloadStepView::Insert(server) && steps.last()
                == ReloadStepView::Spawn(name)
        }),
        ({
            let steps = steps_for(Change::Updated, name, server);
            steps.first() == ReloadStepView::Update(server) && steps.last()
                == ReloadStepView::Resume(name)
        }),
{
}

/// What a client is told of a reload names each count under its own name.
pub proof fn law_summary_names_its_counts(summary: ReloadSummary)
    ensures
        summary_text(summary) == "{"@ + ("\""@ + "added"@ + "\":"@ + text::decimal(
            summary.added as nat,
        )) + ","@ + ("\""@ + "removed"@ + "\":"@ + text::decimal(summary.removed as nat)) + ","@ + (
        "\""@ + "restarted"@ + "\":"@ + text::decimal(summary.restarted as nat)) + ","@ + ("\""@
            + "updated"@ + "\":"@ + text::decimal(summary.updated as nat)) + ","@ + ("\""@
            + "unchanged"@ + "\":"@ + text::decimal(summary.unchanged as nat)) + "}"@,
{
}

/// A client that asked for a reload is told the counts, or why nothing was changed.
pub proof fn law_client_is_told_of_the_reload(summary: ReloadSummary, why: Seq<char>)
    ensures
        told_of_reload(Ok(summary)).status == 200,
        told_of_reload(Ok(summary)).content_type == Some("application/json"@),
        told_of_reload(Ok(summary)).body == summary_text(summary),
        told_of_reload(Err(why)).status == 400,
        told_of_reload(Err(why)).body == why,
{
}

/// The steps of a reload are seen as they are.
pub proof fn law_steps_are_seen_as_they_are(name: String, server: ServerConfig)
    ensures
        ReloadStep::Abort(name)@ == ReloadStepView::Abort(name@),
        ReloadStep::Remove(name)@ == ReloadStepView::Remove(name@),
        ReloadStep::DropResetLock(name)@ == ReloadStepView::DropResetLock(name@),
        ReloadStep::Insert(server)@ == ReloadStepView::Insert(server@),
        ReloadStep::Spawn(name)@ == ReloadStepView::Spawn(name@),
        ReloadStep::Update(server)@ == ReloadStepView::Update(server@),
        ReloadStep::Resume(name)@ == ReloadStepView::Resume(name@),
{
}

} // verus!
