use mcpstead::config::{Config, ServerConfig};
use mcpstead::health::{health, missing_required, startup, Startup};
use mcpstead::json::Json;
use mcpstead::manager::{Manager, Phase, Progress, Round};
use mcpstead::metrics::Family;
use mcpstead::page::{call_samples, metrics};
use mcpstead::state::{build_state, AppState};
use mcpstead::table::Table;
use mcpstead::upstream::{Outcome, UpstreamResponse};

fn managed_server(name: &str) -> ServerConfig {
    ServerConfig {
        name: name.to_string(),
        url: "http://127.0.0.1:1".to_string(),
        ..ServerConfig::default()
    }
}

fn managed_state(servers: Vec<ServerConfig>) -> AppState {
    build_state(&Config { servers, ..Config::default() }, None, Table::new())
}

fn ok(session_id: Option<&str>, body: &str) -> Outcome {
    Outcome::Response(UpstreamResponse {
        status: 200,
        session_id: session_id.map(|id| id.to_string()),
        content_type: Some("application/json".to_string()),
        body: body.as_bytes().to_vec(),
    })
}

fn next_round(progress: Progress) -> Round {
    match progress {
        Progress::Next(round) => round,
        _ => panic!("another phase is expected"),
    }
}

#[test]
fn a_server_is_introduced_and_asked_for_its_tools() {
    let mut state = managed_state(vec![managed_server("a")]);
    let mut manager = Manager::new("a".to_string());
    let round = manager.begin_round(&state, 10).unwrap();
    assert_eq!(round.phase, Phase::Initialize);
    let request = round.request(&mut state).unwrap();
    assert_eq!(
        request.body,
        "{\"id\":1,\"jsonrpc\":\"2.0\",\"method\":\"initialize\",\"params\":{\"capabilities\":{},\
\"clientInfo\":{\"name\":\"mcpstead\",\"version\":\"0.1.0\"},\
\"protocolVersion\":\"2024-11-05\"}}"
    );
    assert_eq!(request.session_id, None);
    let round = next_round(round.end_phase(&mut state, &ok(Some("s"), "{\"result\":{}}"), 13));
    assert_eq!(round.phase, Phase::Notify);
    let request = round.request(&mut state).unwrap();
    assert_eq!(
        request.body,
        "{\"jsonrpc\":\"2.0\",\"method\":\"notifications/initialized\"}"
    );
    assert_eq!(request.session_id.as_deref(), Some("s"));
    let round = next_round(round.end_phase(&mut state, &Outcome::NotSent, 14));
    assert_eq!(round.phase, Phase::List);
    let request = round.request(&mut state).unwrap();
    assert_eq!(
        request.body,
        "{\"id\":2,\"jsonrpc\":\"2.0\",\"method\":\"tools/list\",\"params\":{}}"
    );
    let config = round.config.copy();
    let outcome = ok(None, "{\"result\":{\"tools\":[{\"name\":\"t\"}]}}");
    match round.end_phase(&mut state, &outcome, 19) {
        Progress::Loaded { session_id, tools } => {
            assert_eq!(session_id.as_deref(), Some("s"));
            assert_eq!(manager.succeed(&mut state, &config, session_id, tools, 19), 300);
        }
        _ => panic!("tools are expected"),
    }
    let server = state.registry.servers.get("a").unwrap();
    assert!(server.connected);
    assert_eq!(server.tools.len(), 1);
    assert_eq!(server.session_id.as_deref(), Some("s"));
    assert_eq!(server.last_seen, Some(19));
    let counters = &state.metrics.counters;
    assert_eq!(counters.get(Family::UpstreamInitializes, "a", "success"), 1);
    assert_eq!(counters.get(Family::UpstreamInitializeNanos, "a", "success"), 3);
    assert_eq!(counters.get(Family::UpstreamToolsRefreshes, "a", "success"), 1);
    assert_eq!(counters.get(Family::UpstreamToolsRefreshNanos, "a", "success"), 5);
    assert_eq!(counters.get(Family::UpstreamHealthChecks, "a", "success"), 1);
    assert_eq!(counters.get(Family::UpstreamReconnectAttempts, "a", "success"), 0);

    let round = manager.begin_round(&state, 30).unwrap();
    assert_eq!(round.phase, Phase::List);
    assert_eq!(round.session_id.as_deref(), Some("s"));
}

#[test]
fn a_failed_round_is_tried_again_later() {
    let mut server = managed_server("a");
    server.required = true;
    server.reconnect.max_attempts = 2;
    let mut state = managed_state(vec![server]);
    let mut manager = Manager::new("a".to_string());
    let round = manager.begin_round(&state, 10).unwrap();
    let config = round.config.copy();
    let error = match round.end_phase(&mut state, &Outcome::NotSent, 11) {
        Progress::Failed(error) => error,
        _ => panic!("a failure is expected"),
    };
    assert_eq!(error, "upstream 'a' request failed");
    let retry = manager.fail(&mut state, &config, error.clone());
    assert_eq!(retry.millis, 1000);
    assert!(!retry.exhausted);
    assert!(!retry.fatal);
    assert!(manager.begin_round(&state, 12).is_some());
    assert_eq!(
        state.metrics.counters.get(Family::UpstreamBackoffMillis, "a", ""),
        1000
    );
    manager.waited(&mut state, retry);
    assert_eq!(state.metrics.counters.get(Family::UpstreamBackoffMillis, "a", ""), 0);
    assert_eq!(
        state.metrics.counters.get(Family::UpstreamBackoffMillisTotal, "a", ""),
        1000
    );
    let retry = manager.fail(&mut state, &config, error);
    assert_eq!(retry.millis, 2000);
    assert!(retry.exhausted);
    assert!(retry.fatal);
    assert!(manager.begin_round(&state, 13).is_none());
    let server = state.registry.servers.get("a").unwrap();
    assert_eq!(server.reconnects, 2);
    assert_eq!(server.last_error.as_deref(), Some("upstream 'a' request failed"));
    assert_eq!(state.metrics.counters.get(Family::UpstreamHealthChecks, "a", "failure"), 2);

    manager.succeed(&mut state, &config, None, Vec::new(), 50);
    assert_eq!(
        state.metrics.counters.get(Family::UpstreamReconnectAttempts, "a", "success"),
        1
    );
    assert_eq!(manager.failures, 0);
    assert!(manager.begin_round(&state, 60).is_some());
}

#[test]
fn a_server_that_is_not_required_is_given_up_too() {
    let mut server = managed_server("a");
    server.reconnect.max_attempts = 3;
    let config = server.copy();
    let mut state = managed_state(vec![server]);
    let mut manager = Manager::new("a".to_string());
    for _ in 0..2 {
        assert!(manager.begin_round(&state, 1).is_some());
        assert!(!manager.fail(&mut state, &config, "down".to_string()).exhausted);
    }
    assert!(manager.begin_round(&state, 1).is_some());
    let retry = manager.fail(&mut state, &config, "down".to_string());
    assert!(retry.exhausted);
    assert!(!retry.fatal);
    assert!(manager.begin_round(&state, 1).is_none());
    assert!(Manager::new("a".to_string()).begin_round(&state, 1).is_some());
}

#[test]
fn without_a_limit_no_server_is_given_up() {
    let mut server = managed_server("a");
    server.required = true;
    server.reconnect.max_attempts = 0;
    let config = server.copy();
    let mut state = managed_state(vec![server]);
    let mut manager = Manager::new("a".to_string());
    manager.failures = u32::MAX - 1;
    for _ in 0..3 {
        assert!(!manager.fail(&mut state, &config, "down".to_string()).exhausted);
        assert!(manager.begin_round(&state, 1).is_some());
    }
    assert_eq!(manager.failures, u32::MAX);
}

#[test]
fn a_success_restores_all_attempts() {
    let mut server = managed_server("a");
    server.reconnect.max_attempts = 2;
    let config = server.copy();
    let mut state = managed_state(vec![server]);
    let mut manager = Manager::new("a".to_string());
    assert!(!manager.fail(&mut state, &config, "down".to_string()).exhausted);
    manager.succeed(&mut state, &config, None, Vec::new(), 5);
    assert!(!manager.fail(&mut state, &config, "down".to_string()).exhausted);
    assert!(manager.fail(&mut state, &config, "down".to_string()).exhausted);
}

#[test]
fn answers_without_tools_are_failures() {
    let mut state = managed_state(vec![managed_server("a")]);
    let mut manager = Manager::new("a".to_string());
    manager.session_id = Some("s".to_string());
    let round = manager.begin_round(&state, 10).unwrap();
    match round.end_phase(&mut state, &ok(None, "{\"result\":{\"tools\":1}}"), 11) {
        Progress::Failed(error) => {
            assert_eq!(error, "upstream 'a' tools/list returned no tools array");
        }
        _ => panic!("a failure is expected"),
    }
    assert_eq!(
        state.metrics.counters.get(Family::UpstreamToolsRefreshes, "a", "error"),
        1
    );
}

#[test]
fn results_end_the_phases_that_wait_for_them() {
    let mut state = managed_state(vec![managed_server("a")]);
    let round = Manager::new("a".to_string()).begin_round(&state, 1).unwrap();
    let value = Json::Null;
    let round = next_round(round.end_initialize(
        &mut state,
        Ok((Some("n".to_string()), value)),
        2,
    ));
    assert_eq!(round.session_id.as_deref(), Some("n"));
    let mut manager = Manager::new("a".to_string());
    manager.session_id = Some("s".to_string());
    let round = manager.begin_round(&state, 1).unwrap();
    match round.load_tools(&mut state, Err("why".to_string()), 2) {
        Progress::Failed(error) => assert_eq!(error, "why"),
        _ => panic!("a failure is expected"),
    }
}

#[test]
fn a_server_that_is_gone_is_left_alone() {
    let state = managed_state(Vec::new());
    assert!(Manager::new("a".to_string()).begin_round(&state, 1).is_none());
}

#[test]
fn health_tells_of_every_server() {
    let mut b = managed_server("b");
    b.required = true;
    let mut state = managed_state(vec![b, managed_server("a")]);
    state.registry.set_server_connected("a", None, vec![Json::Null], 4);
    let report = health(&state.registry, 1, 10);
    assert_eq!(report.status, "degraded");
    assert_eq!(report.uptime_nanos, 9);
    assert_eq!(report.servers.len(), 2);
    assert_eq!(report.servers[0].name, "a");
    assert_eq!(report.servers[0].protocol, "auto");
    assert_eq!(report.servers[0].tools_count, 1);
    assert_eq!(report.servers[0].last_seen_nanos_ago, Some(6));
    assert_eq!(report.servers[1].name, "b");
    assert_eq!(report.servers[1].last_seen_nanos_ago, None);
    assert_eq!(missing_required(&state.registry).as_deref(), Some("b"));

    state.registry.set_server_connected("b", None, Vec::new(), 5);
    assert_eq!(health(&state.registry, 1, 10).status, "ok");
    assert_eq!(missing_required(&state.registry), None);
}

#[test]
fn the_gateway_starts_with_its_required_servers() {
    let required = |name: &str| {
        let mut server = managed_server(name);
        server.required = true;
        server
    };
    let servers = vec![required("c"), required("b"), managed_server("a")];
    let mut state = managed_state(servers);
    assert_eq!(startup(&state.registry, None), Startup::Wait("b".to_string()));
    assert_eq!(
        startup(&state.registry, Some("c")),
        Startup::Fail("required upstream 'c' exhausted reconnect attempts".to_string())
    );
    state.registry.set_server_connected("b", None, Vec::new(), 1);
    assert_eq!(startup(&state.registry, None), Startup::Wait("c".to_string()));
    state.registry.set_server_connected("c", None, Vec::new(), 2);
    assert_eq!(startup(&state.registry, None), Startup::Start);
    assert_eq!(startup(&state.registry, Some("c")), Startup::Start);
    assert_eq!(startup(&managed_state(Vec::new()).registry, None), Startup::Start);
}

#[test]
fn metrics_are_shown_where_they_are_enabled() {
    let mut state = managed_state(vec![managed_server("a")]);
    state.registry.set_server_connected("a", None, vec![Json::Null], 4);
    state.metrics.record_tool_call("a", "t", 5, Some("internal"));
    state.metrics.record_tool_call("a", "t", 7, None);
    state.metrics.record_tool_call("a", "s\"", 1, None);
    state.open_session("x", 1);
    let samples = call_samples(&state.metrics);
    assert_eq!(samples.len(), 2);
    assert_eq!(samples[0].tool, "s\"");
    assert_eq!(samples[1].metric.duration_sum_nanos, 12);
    let reply = metrics(
        &state,
        &vec!["0.500000".to_string()],
        &vec!["0.000001".to_string(), "0.000012".to_string()],
    );
    assert_eq!(reply.status, 200);
    assert_eq!(reply.content_type.as_deref(), Some("text/plain; version=0.0.4"));
    assert_eq!(
        reply.body,
        "# HELP mcpstead_upstream_connected Upstream connection state.\n\
# TYPE mcpstead_upstream_connected gauge\n\
mcpstead_upstream_connected{server=\"a\"} 1\n\
# HELP mcpstead_upstream_tools_count Cached upstream tool count.\n\
# TYPE mcpstead_upstream_tools_count gauge\n\
mcpstead_upstream_tools_count{server=\"a\"} 1\n\
# HELP mcpstead_upstream_reconnects_total Upstream reconnect attempts.\n\
# TYPE mcpstead_upstream_reconnects_total counter\n\
mcpstead_upstream_reconnects_total{server=\"a\"} 0\n\
# HELP mcpstead_upstream_last_seen_seconds Seconds since upstream success.\n\
# TYPE mcpstead_upstream_last_seen_seconds gauge\n\
mcpstead_upstream_last_seen_seconds{server=\"a\"} 0.500000\n\
# HELP mcpstead_downstream_sessions_active Active downstream sessions.\n\
# TYPE mcpstead_downstream_sessions_active gauge\n\
mcpstead_downstream_sessions_active 1\n\
# HELP mcpstead_tool_calls_total Tool calls routed upstream.\n\
# TYPE mcpstead_tool_calls_total counter\n\
mcpstead_tool_calls_total{server=\"a\",tool=\"s\\\"\"} 1\n\
mcpstead_tool_calls_total{server=\"a\",tool=\"t\"} 2\n\
# HELP mcpstead_tool_call_errors_total Tool call errors.\n\
# TYPE mcpstead_tool_call_errors_total counter\n\
mcpstead_tool_call_errors_total{server=\"a\",tool=\"s\\\"\"} 0\n\
mcpstead_tool_call_errors_total{server=\"a\",tool=\"t\"} 1\n\
# HELP mcpstead_tool_call_duration_seconds_sum Total tool call duration.\n\
# TYPE mcpstead_tool_call_duration_seconds_sum counter\n\
mcpstead_tool_call_duration_seconds_sum{server=\"a\",tool=\"s\\\"\"} 0.000001\n\
mcpstead_tool_call_duration_seconds_sum{server=\"a\",tool=\"t\"} 0.000012\n"
    );
    state.metrics_enabled = false;
    let reply = metrics(&state, &vec![String::new()], &vec![String::new(), String::new()]);
    assert_eq!(reply.status, 404);
    assert_eq!(reply.body, "metrics disabled\n");
}
