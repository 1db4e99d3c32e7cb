use mcpstead::config::{
    token_variables, AuthConfig, AuthObject, Config, McpAuthMode, ReconnectConfig, ServerConfig,
    ToolsConfig,
};
use mcpstead::json::Json;
use mcpstead::metrics::Family;
use mcpstead::reload::{
    open_reload, plan_reload, reload_config, reload_reply, reloadable_config, servers_by_name,
    take_step, ReloadStep, ReloadSummary,
};
use mcpstead::state::build_state;
use mcpstead::table::Table;
use mcpstead::upstream::send_upstream_body;

fn config_with_servers(servers: Vec<ServerConfig>) -> Config {
    Config { servers, ..Config::default() }
}

fn server(name: &str, url: &str) -> ServerConfig {
    let mut server = ServerConfig::default();
    server.name = name.to_string();
    server.url = url.to_string();
    server
}

fn step_name(step: &ReloadStep) -> String {
    match step {
        ReloadStep::Abort(name) => format!("abort {name}"),
        ReloadStep::Remove(name) => format!("remove {name}"),
        ReloadStep::DropResetLock(name) => format!("unlock {name}"),
        ReloadStep::Insert(config) => format!("insert {}", config.name),
        ReloadStep::Spawn(name) => format!("spawn {name}"),
        ReloadStep::Update(config) => format!("update {}", config.name),
        ReloadStep::Resume(name) => format!("resume {name}"),
    }
}

fn planned(initial: &Config, loaded: Config) -> Vec<String> {
    let state = build_state(initial, None, Table::new());
    let reload = plan_reload(&state, Ok(loaded), None).unwrap();
    reload.steps.iter().map(step_name).collect()
}

#[test]
fn reload_parse_error_keeps_running_config() {
    let initial = config_with_servers(vec![server("a", "http://127.0.0.1:1")]);
    let mut state = build_state(&initial, None, Table::new());
    let err = reload_config(
        &mut state,
        Err("parse config 'bad': failed".to_string()),
        None,
        Table::new(),
    )
    .unwrap_err();
    assert!(err.contains("parse config"));
    assert_eq!(state.live_config.servers[0].name, "a");
    assert_eq!(state.metrics.counters.get(Family::ConfigReloads, "error", ""), 1);
}

#[test]
fn reload_identical_config_is_noop() {
    let initial = config_with_servers(vec![server("a", "http://127.0.0.1:1")]);
    let mut state = build_state(&initial, None, Table::new());
    let summary = reload_config(
        &mut state,
        Ok(config_with_servers(vec![server("a", "http://127.0.0.1:1")])),
        None,
        Table::new(),
    )
    .unwrap();
    assert_eq!(summary.unchanged, 1);
    assert_eq!(summary.added, 0);
    assert_eq!(state.metrics.counters.get(Family::ConfigReloads, "success", ""), 1);
}

#[test]
fn reload_adds_upstream_and_spawns_task() {
    let initial = config_with_servers(vec![server("a", "http://127.0.0.1:1")]);
    let loaded = || {
        config_with_servers(vec![
            server("a", "http://127.0.0.1:1"),
            server("b", "http://127.0.0.1:2"),
        ])
    };
    let mut state = build_state(&initial, None, Table::new());
    let summary = reload_config(&mut state, Ok(loaded()), None, Table::new()).unwrap();
    assert_eq!(summary.added, 1);
    assert_eq!(summary.unchanged, 1);
    assert!(state.registry.servers.contains_name("b"));
    assert_eq!(planned(&initial, loaded()), vec!["insert b", "spawn b"]);
}

#[test]
fn reload_removes_upstream_task_registry_and_reset_lock() {
    let initial = config_with_servers(vec![
        server("a", "http://127.0.0.1:1"),
        server("b", "http://127.0.0.1:2"),
    ]);
    let loaded = || config_with_servers(vec![server("a", "http://127.0.0.1:1")]);
    let mut state = build_state(&initial, None, Table::new());
    let summary = reload_config(&mut state, Ok(loaded()), None, Table::new()).unwrap();
    assert_eq!(summary.removed, 1);
    assert_eq!(summary.unchanged, 1);
    assert!(!state.registry.servers.contains_name("b"));
    assert_eq!(planned(&initial, loaded()), vec!["abort b", "remove b", "unlock b"]);
}

#[test]
fn reload_hard_changes_restart_upstream() {
    let initial = config_with_servers(vec![server("a", "http://127.0.0.1:1")]);
    let loaded = || config_with_servers(vec![server("a", "http://127.0.0.1:2")]);
    let mut state = build_state(&initial, None, Table::new());
    state.registry.set_server_connected(
        "a",
        Some("old-session".to_string()),
        vec![Json::parse(br#"{"name":"old"}"#).unwrap()],
        3,
    );
    let summary = reload_config(&mut state, Ok(loaded()), None, Table::new()).unwrap();
    assert_eq!(summary.restarted, 1);
    let managed = state.registry.servers.get("a").unwrap();
    assert_eq!(managed.config.url, "http://127.0.0.1:2");
    assert!(!managed.connected);
    assert!(managed.session_id.is_none());
    assert!(managed.tools.is_empty());
    assert_eq!(
        planned(&initial, loaded()),
        vec!["abort a", "insert a", "unlock a", "spawn a"]
    );
}

#[test]
fn reload_updates_soft_upstream_fields_in_place() {
    let mut initial_server = server("a", "http://127.0.0.1:1");
    initial_server.reconnect = ReconnectConfig::default();
    initial_server.tools = ToolsConfig::default();
    let initial = config_with_servers(vec![initial_server]);
    let mut state = build_state(&initial, None, Table::new());
    state.registry.set_server_connected("a", Some("s".to_string()), Vec::new(), 3);

    let mut changed = server("a", "http://127.0.0.1:1");
    changed.reconnect.backoff_max_ms = 42;
    changed.tools.ttl_seconds = 7;
    let loaded = config_with_servers(vec![changed]);
    let steps = planned(&initial, loaded.copy());
    let summary = reload_config(&mut state, Ok(loaded), None, Table::new()).unwrap();

    assert_eq!(summary.updated, 1);
    let managed = state.registry.servers.get("a").unwrap();
    assert_eq!(managed.config.reconnect.backoff_max_ms, 42);
    assert_eq!(managed.config.tools.ttl_seconds, 7);
    assert!(managed.connected);
    assert_eq!(managed.session_id.as_deref(), Some("s"));
    assert_eq!(steps, vec!["update a", "resume a"]);
}

#[test]
fn changed_servers_have_a_task_again() {
    let initial = config_with_servers(vec![
        server("moved", "http://127.0.0.1:1"),
        server("same", "http://127.0.0.1:2"),
        server("tuned", "http://127.0.0.1:3"),
    ]);
    let mut tuned = server("tuned", "http://127.0.0.1:3");
    tuned.reconnect.max_attempts = 9;
    let loaded = config_with_servers(vec![
        server("moved", "http://127.0.0.1:9"),
        server("new", "http://127.0.0.1:4"),
        server("same", "http://127.0.0.1:2"),
        tuned,
    ]);
    let steps = planned(&initial, loaded);
    assert!(steps.contains(&"spawn moved".to_string()));
    assert!(steps.contains(&"spawn new".to_string()));
    assert!(steps.contains(&"resume tuned".to_string()));
    assert!(!steps.iter().any(|step| step.ends_with(" same")));
}

#[test]
fn tokens_are_resolved_when_the_configuration_takes_effect() {
    let held = |value: &str| {
        let mut variables = Table::new();
        variables.insert("NAME".to_string(), value.to_string());
        variables
    };
    let mut guarded = server("a", "http://127.0.0.1:1");
    guarded.auth = Some(AuthConfig::Object(AuthObject {
        kind: "bearer".to_string(),
        token: None,
        token_env: Some("NAME".to_string()),
    }));
    let config = config_with_servers(vec![guarded]);
    assert_eq!(token_variables(&config), vec!["NAME"]);
    let mut state = build_state(&config, None, held("first"));
    let server = config.servers[0].copy();
    for _ in 0..2 {
        let request = send_upstream_body(&mut state, &server, None, &Json::Null).unwrap();
        assert_eq!(request.bearer_token.as_deref(), Some("first"));
    }
    reload_config(&mut state, Ok(config), None, held("second")).unwrap();
    let request = send_upstream_body(&mut state, &server, None, &Json::Null).unwrap();
    assert_eq!(request.bearer_token.as_deref(), Some("second"));
    assert!(reload_config(&mut state, Err("no".to_string()), None, held("third")).is_err());
    let request = send_upstream_body(&mut state, &server, None, &Json::Null).unwrap();
    assert_eq!(request.bearer_token.as_deref(), Some("second"));
}

#[test]
fn reload_counts_every_server_once() {
    let initial = config_with_servers(vec![
        server("gone", "http://127.0.0.1:1"),
        server("same", "http://127.0.0.1:2"),
        server("moved", "http://127.0.0.1:3"),
        server("tuned", "http://127.0.0.1:4"),
    ]);
    let mut tuned = server("tuned", "http://127.0.0.1:4");
    tuned.required = true;
    let mut state = build_state(&initial, None, Table::new());
    let summary = reload_config(
        &mut state,
        Ok(config_with_servers(vec![
            server("new", "http://127.0.0.1:5"),
            server("same", "http://127.0.0.1:2"),
            server("moved", "http://127.0.0.1:9"),
            tuned,
        ])),
        None,
        Table::new(),
    )
    .unwrap();
    assert_eq!(
        summary,
        ReloadSummary { added: 1, removed: 1, restarted: 1, updated: 1, unchanged: 1 }
    );
    assert_eq!(
        state.registry.server_names(),
        vec!["moved", "new", "same", "tuned"]
    );
}

#[test]
fn reload_leaves_what_needs_a_restart() {
    let old = Config { host: "h".to_string(), port: 1, ..Config::default() };
    let mut new = Config { host: "i".to_string(), port: 2, ..Config::default() };
    new.logging.level = "debug".to_string();
    new.mcp.session.idle_ttl_seconds = 9;
    new.metrics.enabled = false;
    let kept = reloadable_config(&old, new);
    assert_eq!(kept.host, "h");
    assert_eq!(kept.port, 1);
    assert_eq!(kept.logging.level, "info");
    assert_eq!(kept.mcp.session.idle_ttl_seconds, 3600);
    assert!(!kept.metrics.enabled);
}

#[test]
fn reload_changes_the_token() {
    let mut state = build_state(&Config::default(), None, Table::new());
    let mut loaded = Config::default();
    loaded.mcp.auth.mode = McpAuthMode::Bearer;
    assert!(reload_config(&mut state, Ok(loaded.copy()), None, Table::new()).is_err());
    assert_eq!(state.mcp_auth.mode, McpAuthMode::NoAuth);
    let token = Some("t".to_string());
    assert!(reload_config(&mut state, Ok(loaded), token, Table::new()).is_ok());
    assert_eq!(state.mcp_auth.mode, McpAuthMode::Bearer);
    assert_eq!(state.mcp_auth.bearer_token.as_deref(), Some("t"));
    assert_eq!(open_reload(&mut state, None).unwrap().status, 401);
    assert!(open_reload(&mut state, Some("Bearer t")).is_none());
}

#[test]
fn reload_of_a_faulty_config_is_refused() {
    let mut state = build_state(&Config::default(), None, Table::new());
    let error = reload_config(
        &mut state,
        Ok(config_with_servers(vec![server("a__b", "http://127.0.0.1:1")])),
        None,
        Table::new(),
    )
    .unwrap_err();
    assert_eq!(error, "server name 'a__b' cannot contain '__'");
    assert_eq!(state.registry.servers.len(), 0);
}

#[test]
fn reload_is_reported() {
    let summary = ReloadSummary { added: 1, removed: 0, restarted: 12, updated: 0, unchanged: 3 };
    let reply = reload_reply(&Ok(summary));
    assert_eq!(reply.status, 200);
    assert_eq!(reply.content_type.as_deref(), Some("application/json"));
    assert_eq!(
        reply.body,
        r#"{"added":1,"removed":0,"restarted":12,"updated":0,"unchanged":3}"#
    );
    let reply = reload_reply(&Err("no".to_string()));
    assert_eq!(reply.status, 400);
    assert_eq!(reply.body, "no");
}

#[test]
fn the_later_server_of_a_name_counts() {
    let config = config_with_servers(vec![
        server("a", "http://127.0.0.1:1"),
        server("a", "http://127.0.0.1:2"),
    ]);
    let servers = servers_by_name(&config);
    assert_eq!(servers.len(), 1);
    assert_eq!(servers.get("a").unwrap().url, "http://127.0.0.1:2");
}

#[test]
fn steps_can_be_taken_one_by_one() {
    let mut state = build_state(&Config::default(), None, Table::new());
    take_step(&mut state.registry, ReloadStep::Insert(server("a", "u")));
    take_step(&mut state.registry, ReloadStep::Spawn("a".to_string()));
    assert!(state.registry.servers.contains_name("a"));
    take_step(&mut state.registry, ReloadStep::Update(server("b", "u")));
    assert!(!state.registry.servers.contains_name("b"));
    take_step(&mut state.registry, ReloadStep::Remove("a".to_string()));
    assert_eq!(state.registry.servers.len(), 0);
}
