use mcpstead::auth::{authorize_mcp, AuthDecision, DenyReason};
use mcpstead::config::{Config, McpAuthConfig, McpAuthMode, McpConfig, ServerConfig};
use mcpstead::downstream::{
    categorize_tool_error, delete_mcp, get_mcp, initialize_response_succeeded, open_post,
    read_post, upstream_tool_returned_error, value_has_method, PostRequest,
};
use mcpstead::http::{downstream_response, wants_sse, HttpReply};
use mcpstead::json::Json;
use mcpstead::message::{handle_message, method_label, Handled};
use mcpstead::metrics::{escape_label, Family};
use mcpstead::post::{begin_post, start_post, Post, Step};
use mcpstead::sse::{parse_body, parse_mcp_body};
use mcpstead::state::{build_state, AppState, McpAuthState};
use mcpstead::table::Table;
use mcpstead::text::split_text_once;
use mcpstead::tools::{list_downstream_tools, namespaced_tool, qualified_name};
use mcpstead::upstream::{Outcome, UpstreamResponse};

const INITIALIZE: &str = "{\"jsonrpc\":\"2.0\",\"id\":1,\"method\":\"initialize\",\
\"params\":{\"protocolVersion\":\"2024-11-05\"}}";

fn test_state(mode: McpAuthMode, token: Option<&str>) -> AppState {
    let config = Config {
        mcp: McpConfig {
            auth: McpAuthConfig { mode, bearer_token: None },
            ..McpConfig::default()
        },
        ..Config::default()
    };
    build_state(&config, token.map(|t| t.to_string()), Table::new())
}

fn tools_state() -> AppState {
    let server = |name: &str| ServerConfig {
        name: name.to_string(),
        url: "http://127.0.0.1:1".to_string(),
        ..ServerConfig::default()
    };
    let config = Config {
        servers: vec![server("b"), server("a"), server("off")],
        ..Config::default()
    };
    let mut state = build_state(&config, None, Table::new());
    let tool = |text: &str| Json::parse(text.as_bytes()).unwrap();
    state.registry.set_server_connected(
        "b",
        Some("sb".to_string()),
        vec![tool(r#"{"name":"run"}"#), tool(r#"{"title":"nameless"}"#)],
        5,
    );
    state.registry.set_server_connected(
        "a",
        None,
        vec![tool(r#"{"name":"run","description":"Runs."}"#)],
        6,
    );
    state
}

fn post_request(auth: Option<&str>, payload: &str) -> PostRequest {
    PostRequest {
        authorization: auth.map(|a| a.to_string()),
        session_id: None,
        accept: None,
        body: payload.as_bytes().to_vec(),
    }
}

fn run_to_reply(state: &mut AppState, post: &mut Post) -> HttpReply {
    loop {
        match post.advance(state, 1) {
            Step::Again => {}
            Step::Upstream => panic!("no upstream is expected"),
            Step::Reply(reply) => return reply,
        }
    }
}

fn post_payload(state: &mut AppState, auth: Option<&str>, payload: &str) -> HttpReply {
    match start_post(state, &post_request(auth, payload), 0, 1) {
        Ok(mut post) => run_to_reply(state, &mut post),
        Err(reply) => reply,
    }
}

fn body_json(reply: &HttpReply) -> Json {
    Json::parse(reply.body.as_bytes()).unwrap()
}

fn error_code(value: &Json) -> Option<&Json> {
    value.get("error").unwrap().get("code")
}

#[test]
fn mode_none_allows_unauthenticated_request() {
    let mut state = test_state(McpAuthMode::NoAuth, None);
    let reply = post_payload(&mut state, None, INITIALIZE);
    assert_eq!(reply.status, 200);
    assert_eq!(body_json(&reply).get("id"), Some(&Json::integer(1)));
}

#[test]
fn bearer_auth_rejects_missing_header() {
    let mut state = test_state(McpAuthMode::Bearer, Some("secret"));
    let reply = post_payload(&mut state, None, INITIALIZE);
    assert_eq!(reply.status, 401);
    assert_eq!(reply.www_authenticate.as_deref(), Some("Bearer"));
}

#[test]
fn bearer_auth_rejects_wrong_token() {
    let mut state = test_state(McpAuthMode::Bearer, Some("secret"));
    let reply = post_payload(&mut state, Some("Bearer wrong"), INITIALIZE);
    assert_eq!(reply.status, 401);
    assert_eq!(reply.www_authenticate.as_deref(), Some("Bearer"));
}

#[test]
fn bearer_auth_accepts_right_token() {
    let mut state = test_state(McpAuthMode::Bearer, Some("secret"));
    let reply = post_payload(&mut state, Some("Bearer secret"), INITIALIZE);
    assert_eq!(reply.status, 200);
    assert!(reply.session_id.is_some());
    assert_eq!(body_json(&reply).get("id"), Some(&Json::integer(1)));
}

#[test]
fn shutdown_rejects_new_initialize_sessions() {
    let mut state = test_state(McpAuthMode::NoAuth, None);
    state.stop_accepting_new_sessions();
    let reply = post_payload(&mut state, None, INITIALIZE);
    assert_eq!(reply.status, 503);
    assert_eq!(reply.body, "gateway shutting down");
}

#[test]
fn initialize_notification_records_init_failed() {
    let mut state = test_state(McpAuthMode::NoAuth, None);
    let reply = post_payload(
        &mut state,
        None,
        r#"{"jsonrpc":"2.0","method":"initialize","params":{}}"#,
    );
    assert_eq!(reply.status, 202);
    assert!(reply.session_id.is_none());
    assert_eq!(state.sessions.len(), 0);
    assert_eq!(
        state.metrics.counters.get(Family::SessionTerminations, "init_failed", ""),
        1
    );
}

#[test]
fn synthetic_tool_error_uses_internal_reason() {
    assert_eq!(categorize_tool_error("synthetic"), "internal");
}

#[test]
fn namespaces_tools() {
    let tool = Json::parse(br#"{"name":"search","inputSchema":{"type":"object"}}"#).unwrap();
    let namespaced = namespaced_tool("example", &tool).unwrap();
    assert_eq!(namespaced.get_str("name"), Some("example__search"));
}

#[test]
fn escapes_prometheus_labels() {
    assert_eq!(escape_label("a\\b\"c\nd"), "a\\\\b\\\"c\\nd");
}

#[test]
fn tool_errors_are_categorized() {
    assert_eq!(categorize_tool_error("operation Timed Out"), "upstream_timeout");
    assert_eq!(categorize_tool_error("http 401 timeout"), "upstream_timeout");
    assert_eq!(
        categorize_tool_error("upstream 'a' HTTP 403: no"),
        "upstream_auth_failed"
    );
    assert_eq!(
        categorize_tool_error("upstream 'a' JSON-RPC error: {}"),
        "upstream_protocol_error"
    );
    assert_eq!(categorize_tool_error("SSE response had no data event"), "upstream_protocol_error");
    assert_eq!(categorize_tool_error("upstream 'a' request failed"), "upstream_protocol_error");
}

#[test]
fn every_refusal_has_its_reason() {
    let auth = McpAuthState {
        mode: McpAuthMode::Bearer,
        bearer_token: Some("secret".to_string()),
    };
    assert_eq!(authorize_mcp(Some("  Bearer secret "), &auth), AuthDecision::Allow);
    assert_eq!(
        authorize_mcp(None, &auth),
        AuthDecision::Deny(DenyReason::MissingHeader)
    );
    assert_eq!(
        authorize_mcp(Some("Basic secret"), &auth),
        AuthDecision::Deny(DenyReason::BadFormat)
    );
    assert_eq!(
        authorize_mcp(Some("Bearer "), &auth),
        AuthDecision::Deny(DenyReason::BadFormat)
    );
    assert_eq!(
        authorize_mcp(Some("Bearer Secret"), &auth),
        AuthDecision::Deny(DenyReason::WrongToken)
    );
    assert_eq!(
        authorize_mcp(Some("Bearer secre"), &auth),
        AuthDecision::Deny(DenyReason::WrongToken)
    );
    let auth = McpAuthState { mode: McpAuthMode::Bearer, bearer_token: None };
    assert_eq!(
        authorize_mcp(Some("Bearer secret"), &auth),
        AuthDecision::Deny(DenyReason::Internal)
    );
    assert_eq!(DenyReason::Internal.label(), "internal");
    assert_eq!(DenyReason::WrongToken.label(), "wrong_token");
}

#[test]
fn decisions_are_counted_where_tokens_count() {
    let mut state = test_state(McpAuthMode::Bearer, Some("secret"));
    post_payload(&mut state, Some("Bearer wrong"), INITIALIZE);
    post_payload(&mut state, Some("Bearer secret"), INITIALIZE);
    let counters = &state.metrics.counters;
    assert_eq!(counters.get(Family::AuthFailures, "wrong_token", ""), 1);
    assert_eq!(counters.get(Family::AuthSuccesses, "", ""), 1);
    assert_eq!(counters.get(Family::McpRequests, "unknown", "error"), 1);
    assert_eq!(counters.get(Family::McpRequests, "initialize", "success"), 1);
    assert_eq!(counters.get(Family::SessionsOpened, "", ""), 1);

    let mut state = test_state(McpAuthMode::NoAuth, None);
    post_payload(&mut state, None, INITIALIZE);
    assert_eq!(state.metrics.counters.get(Family::AuthSuccesses, "", ""), 0);
}

#[test]
fn welcome_says_who_the_gateway_is() {
    let mut state = test_state(McpAuthMode::NoAuth, None);
    let reply = post_payload(&mut state, None, INITIALIZE);
    assert_eq!(
        reply.body,
        "{\"id\":1,\"jsonrpc\":\"2.0\",\"result\":{\"capabilities\":{\"tools\":{\"listChanged\":false}},\"protocolVersion\":\"2024-11-05\",\"serverInfo\":{\"name\":\"mcpstead\",\"version\":\"0.1.0\"}}}"
    );
    assert_eq!(reply.content_type.as_deref(), Some("application/json"));
    let id = reply.session_id.unwrap();
    assert_eq!(id.len(), 36);
    assert_eq!(id.as_bytes()[14], b'4');
    assert_eq!(id.chars().filter(|c| *c == '-').count(), 4);
    assert!(state.sessions.contains_name(&id));
}

#[test]
fn two_sessions_have_two_names() {
    let mut state = test_state(McpAuthMode::NoAuth, None);
    let first = post_payload(&mut state, None, INITIALIZE).session_id.unwrap();
    let second = post_payload(&mut state, None, INITIALIZE).session_id.unwrap();
    assert_ne!(first, second);
    assert_eq!(state.sessions.len(), 2);
}

#[test]
fn streams_are_for_clients_that_take_nothing_else() {
    assert!(wants_sse(Some("text/event-stream")));
    assert!(!wants_sse(Some("application/json, text/event-stream")));
    assert!(!wants_sse(Some("*/*")));
    assert!(!wants_sse(None));
    let mut state = test_state(McpAuthMode::NoAuth, None);
    let mut request = post_request(None, r#"{"jsonrpc":"2.0","id":"x","method":"nope"}"#);
    request.accept = Some("text/event-stream".to_string());
    let mut post = start_post(&mut state, &request, 0, 1).unwrap();
    let reply = run_to_reply(&mut state, &mut post);
    assert_eq!(reply.content_type.as_deref(), Some("text/event-stream"));
    assert_eq!(
        reply.body,
        "data: {\"error\":{\"code\":-32601,\"message\":\"method 'nope' not found\"},\"id\":\"x\",\"jsonrpc\":\"2.0\"}\n\n"
    );
}

#[test]
fn faulty_requests_get_errors() {
    let mut state = test_state(McpAuthMode::NoAuth, None);
    let cases = [
        ("3", -32600, "request must be an object"),
        (r#"{"id":1,"method":"tools/list"}"#, -32600, "jsonrpc must be '2.0'"),
        (r#"{"id":1,"jsonrpc":"2.0"}"#, -32600, "method is required"),
        (r#"{"id":1,"jsonrpc":"2.0","method":"tools/call"}"#, -32602, "params are required"),
        (
            r#"{"id":1,"jsonrpc":"2.0","method":"tools/call","params":{}}"#,
            -32602,
            "params.name is required",
        ),
        (
            r#"{"id":1,"jsonrpc":"2.0","method":"tools/call","params":{"name":"x"}}"#,
            -32602,
            "tool name must be server__tool",
        ),
        (
            r#"{"id":1,"jsonrpc":"2.0","method":"tools/call","params":{"name":"x__y"}}"#,
            -32602,
            "unknown upstream 'x'",
        ),
    ];
    for (payload, code, message) in cases {
        let reply = post_payload(&mut state, None, payload);
        assert_eq!(reply.status, 200);
        let value = body_json(&reply);
        assert_eq!(error_code(&value), Some(&Json::integer(code)));
        assert_eq!(value.get("error").unwrap().get_str("message"), Some(message));
    }
    let reply = post_payload(&mut state, None, "{");
    let value = body_json(&reply);
    assert_eq!(error_code(&value), Some(&Json::integer(-32700)));
    assert_eq!(value.get("id"), Some(&Json::Null));
    assert_eq!(state.metrics.counters.get(Family::McpRequests, "invalid", "error"), 3);
}

#[test]
fn the_parser_s_complaint_is_passed_on() {
    let mut state = test_state(McpAuthMode::NoAuth, None);
    let reply = read_post(&mut state, None, Err("odd".to_string()), 4).unwrap_err();
    assert_eq!(body_json(&reply).get("error").unwrap().get_str("message"), Some("odd"));
    let value = Json::parse(INITIALIZE.as_bytes()).unwrap();
    assert!(read_post(&mut state, None, Ok(value), 4).is_ok());
}

#[test]
fn notifications_get_no_body() {
    let mut state = test_state(McpAuthMode::NoAuth, None);
    for payload in [
        r#"{"jsonrpc":"2.0","method":"tools/list"}"#,
        r#"{"jsonrpc":"2.0","id":1,"method":"notifications/initialized"}"#,
        r#"{"method":7}"#,
        "[]",
    ] {
        let reply = post_payload(&mut state, None, payload);
        assert_eq!(reply.status, 202);
        assert_eq!(reply.body, "");
        assert_eq!(reply.content_type, None);
    }
}

#[test]
fn batches_are_answered_in_order() {
    let mut state = test_state(McpAuthMode::NoAuth, None);
    let payload = format!(
        "[{{\"jsonrpc\":\"2.0\",\"id\":9,\"method\":\"tools/list\"}},{{\"jsonrpc\":\"2.0\",\"method\":\"tools/list\"}},{INITIALIZE},4]"
    );
    let reply = post_payload(&mut state, None, &payload);
    assert_eq!(reply.status, 200);
    assert!(reply.session_id.is_some());
    let value = body_json(&reply);
    let answers = value.as_array().unwrap();
    assert_eq!(answers.len(), 3);
    assert_eq!(answers[0].get("id"), Some(&Json::integer(9)));
    assert_eq!(answers[1].get("id"), Some(&Json::integer(1)));
    assert_eq!(answers[2].get("id"), Some(&Json::Null));
}

#[test]
fn an_introduction_that_fails_ends_the_session() {
    let mut state = test_state(McpAuthMode::NoAuth, None);
    let reply = post_payload(&mut state, None, r#"[[{"id":1,"method":"initialize"}]]"#);
    assert_eq!(reply.status, 200);
    assert!(reply.session_id.is_none());
    assert_eq!(state.sessions.len(), 0);
    assert_eq!(
        state.metrics.counters.get(Family::SessionTerminations, "init_failed", ""),
        1
    );
}

#[test]
fn methods_are_found_in_batches() {
    let value = Json::parse(br#"[1,[{"method":"initialize"}]]"#).unwrap();
    assert!(value_has_method(&value, "initialize"));
    assert!(!value_has_method(&value, "tools/list"));
    assert_eq!(method_label(&value), "invalid");
    let value = Json::parse(br#"{"method":"odd"}"#).unwrap();
    assert_eq!(method_label(&value), "unknown");
    let value = Json::parse(
        br#"[{"error":{}},{"result":{"serverInfo":{"name":"mcpstead"}}}]"#,
    )
    .unwrap();
    assert!(initialize_response_succeeded(&value));
    let value =
        Json::parse(br#"{"error":null,"result":{"serverInfo":{"name":"mcpstead"}}}"#).unwrap();
    assert!(!initialize_response_succeeded(&value));
}

#[test]
fn sessions_are_used_and_ended() {
    let mut state = test_state(McpAuthMode::NoAuth, None);
    state.open_session("s", 1);
    let mut request = post_request(None, "[]");
    request.session_id = Some(" s ".to_string());
    assert!(open_post(&mut state, &request, 2, 5).is_ok());
    assert_eq!(state.sessions.get("s").unwrap().last_activity, 5);
    assert_eq!(state.sessions.get("s").unwrap().created_at, 1);

    let reply = get_mcp(&mut state, None, Some("s"), 6, 9);
    assert_eq!(reply.status, 405);
    assert_eq!(reply.body, "server notifications are not implemented");
    assert_eq!(state.sessions.get("s").unwrap().last_activity, 9);
    assert_eq!(state.metrics.counters.get(Family::McpRequests, "listen", "error"), 1);
    assert_eq!(state.metrics.counters.get(Family::McpRequestNanos, "listen", "error"), 3);

    let reply = delete_mcp(&mut state, None, Some("s"), 9, 10);
    assert_eq!(reply.status, 202);
    assert_eq!(state.sessions.len(), 0);
    assert_eq!(
        state.metrics.counters.get(Family::SessionTerminations, "client_delete", ""),
        1
    );
    delete_mcp(&mut state, None, Some("s"), 9, 10);
    assert_eq!(
        state.metrics.counters.get(Family::SessionTerminations, "client_delete", ""),
        1
    );
    assert_eq!(state.metrics.counters.get(Family::McpRequests, "terminate", "success"), 2);
}

#[test]
fn strangers_may_neither_listen_nor_end_sessions() {
    let mut state = test_state(McpAuthMode::Bearer, Some("secret"));
    state.open_session("s", 1);
    assert_eq!(get_mcp(&mut state, None, Some("s"), 6, 9).status, 401);
    assert_eq!(delete_mcp(&mut state, None, Some("s"), 6, 9).status, 401);
    assert_eq!(state.sessions.get("s").unwrap().last_activity, 1);
}

#[test]
fn tools_of_connected_servers_are_listed() {
    let state = tools_state();
    let value = list_downstream_tools(&state.registry);
    let tools = value.get("tools").unwrap().as_array().unwrap();
    assert_eq!(tools.len(), 2);
    assert_eq!(tools[0].get_str("name"), Some("a__run"));
    assert_eq!(tools[0].get_str("description"), Some("[a] Runs."));
    assert_eq!(tools[1].get_str("name"), Some("b__run"));
    assert_eq!(tools[1].get_str("description"), Some("Tool from b"));
    assert_eq!(qualified_name("a", "run"), "a__run");
}

#[test]
fn clients_read_qualified_names() {
    let tool = Json::parse(br#"{"name":"search","description":"Finds.","x":[]}"#).unwrap();
    assert_eq!(
        namespaced_tool("example", &tool).unwrap().to_text(),
        r#"{"description":"[example] Finds.","name":"example__search","x":[]}"#
    );
    let mut state = tools_state();
    let list = r#"{"jsonrpc":"2.0","id":1,"method":"tools/list"}"#;
    let reply = post_payload(&mut state, None, list);
    assert_eq!(
        reply.body,
        [
            r#"{"id":1,"jsonrpc":"2.0","result":{"tools":["#,
            r#"{"description":"[a] Runs.","name":"a__run"},"#,
            r#"{"description":"Tool from b","name":"b__run"}]}}"#,
        ]
        .concat()
    );
}

#[test]
fn of_members_with_one_name_the_last_is_written() {
    let member = |name: &str, n: i64| (name.to_string(), Json::integer(n));
    let object = Json::object(vec![
        member("a", 1),
        member("b", 2),
        member("a", 3),
        member("c", 4),
        member("a", 5),
        member("b", 6),
    ]);
    assert_eq!(object.to_text(), r#"{"a":5,"b":6,"c":4}"#);
    let outer = Json::object(vec![("o".to_string(), Json::Null), ("o".to_string(), object)]);
    assert_eq!(outer.to_text(), r#"{"o":{"a":5,"b":6,"c":4}}"#);
    assert_eq!(Json::object(Vec::new()).to_text(), "{}");
}

#[test]
fn listed_tools_are_called() {
    let state = tools_state();
    let message = Json::parse(
        br#"{"jsonrpc":"2.0","id":5,"method":"tools/call","params":{"name":"b__run__fast"}}"#,
    )
    .unwrap();
    match handle_message(&state.registry, &message) {
        Handled::Call(call) => {
            assert_eq!(call.server, "b");
            assert_eq!(call.tool, "run__fast");
            assert_eq!(call.session_id.as_deref(), Some("sb"));
            assert_eq!(call.arguments, Json::object(Vec::new()));
            assert_eq!(
                call.body().to_text(),
                "{\"id\":5,\"jsonrpc\":\"2.0\",\"method\":\"tools/call\",\"params\":{\"arguments\":{},\"name\":\"run__fast\"}}"
            );
        }
        _ => panic!("a call is expected"),
    }
}

#[test]
fn disconnected_servers_are_not_called() {
    let mut state = tools_state();
    let reply = post_payload(
        &mut state,
        None,
        r#"{"jsonrpc":"2.0","id":5,"method":"tools/call","params":{"name":"off__x"}}"#,
    );
    let value = body_json(&reply);
    assert_eq!(error_code(&value), Some(&Json::integer(-32000)));
    assert_eq!(
        value.get("error").unwrap().get_str("message"),
        Some("upstream 'off' is disconnected")
    );
    assert_eq!(
        state.metrics.counters.get(Family::ToolCallErrorReasons, "upstream_disconnected", ""),
        1
    );
}

fn call_b(state: &mut AppState, outcome: Outcome) -> HttpReply {
    let value = Json::parse(
        br#"{"jsonrpc":"2.0","id":5,"method":"tools/call","params":{"name":"b__run","arguments":{"x":1}}}"#,
    )
    .unwrap();
    let mut post = begin_post(state, None, None, value, 10);
    assert_eq!(post.advance(state, 10), Step::Upstream);
    let request = post.call_request(state, 12).unwrap();
    assert_eq!(request.content_type, "application/json");
    assert_eq!(request.bearer_token, None);
    assert_eq!(request.session_id.as_deref(), Some("sb"));
    assert_eq!(
        request.body,
        "{\"id\":5,\"jsonrpc\":\"2.0\",\"method\":\"tools/call\",\"params\":{\"arguments\":{\"x\":1},\"name\":\"run\"}}"
    );
    post.call_returned(state, &outcome, 20);
    match post.advance(state, 25) {
        Step::Reply(reply) => reply,
        _ => panic!("a reply is expected"),
    }
}

#[test]
fn tool_results_are_passed_on() {
    let mut state = tools_state();
    let response = UpstreamResponse {
        status: 200,
        session_id: None,
        content_type: None,
        body: br#"{"jsonrpc":"2.0","id":5,"result":{"content":[]}}"#.to_vec(),
    };
    let reply = call_b(&mut state, Outcome::Response(response));
    assert_eq!(reply.body, "{\"id\":5,\"jsonrpc\":\"2.0\",\"result\":{\"content\":[]}}");
    let metric = state.metrics.tool_calls.get("b").unwrap().get("run").unwrap();
    assert_eq!(metric.count, 1);
    assert_eq!(metric.errors, 0);
    assert_eq!(metric.duration_sum_nanos, 8);
    assert_eq!(state.registry.servers.get("b").unwrap().last_seen, Some(20));
    assert_eq!(
        state.metrics.counters.get(Family::McpRequestNanos, "tools/call", "success"),
        15
    );
}

#[test]
fn results_that_tell_of_a_failure_are_counted() {
    let mut state = tools_state();
    let response = UpstreamResponse {
        status: 200,
        session_id: None,
        content_type: None,
        body: br#"{"result":{"isError":true}}"#.to_vec(),
    };
    let reply = call_b(&mut state, Outcome::Response(response));
    assert_eq!(reply.status, 200);
    assert_eq!(
        state.metrics.counters.get(Family::ToolCallErrorReasons, "upstream_returned_error", ""),
        1
    );
    assert!(!upstream_tool_returned_error(&Json::parse(br#"{"isError":1}"#).unwrap()));
}

#[test]
fn failed_calls_get_errors() {
    let mut state = tools_state();
    let reply = call_b(&mut state, Outcome::NotSent);
    let value = body_json(&reply);
    assert_eq!(error_code(&value), Some(&Json::integer(-32000)));
    assert_eq!(
        value.get("error").unwrap().get_str("message"),
        Some("upstream 'b' request failed")
    );
    assert_eq!(
        state.metrics.counters.get(Family::ToolCallErrorReasons, "upstream_protocol_error", ""),
        1
    );
    assert_eq!(state.registry.servers.get("b").unwrap().last_seen, Some(5));
    assert_eq!(
        state.metrics.counters.get(Family::McpRequests, "tools/call", "error"),
        1
    );
}

#[test]
fn stream_replies_read_back() {
    let mut state = test_state(McpAuthMode::NoAuth, None);
    let mut request = post_request(None, INITIALIZE);
    let mut post = start_post(&mut state, &request, 0, 1).unwrap();
    let plain = run_to_reply(&mut state, &mut post);
    request.accept = Some("text/event-stream".to_string());
    let mut post = start_post(&mut state, &request, 0, 1).unwrap();
    let streamed = run_to_reply(&mut state, &mut post);
    let read = parse_mcp_body(Some("text/event-stream"), streamed.body.as_bytes()).unwrap();
    assert_eq!(read.to_text(), plain.body);
}

/// A value within so many arrays.
fn nested(depth: usize, value: Json) -> Json {
    let mut nested = value;
    for _ in 0..depth {
        nested = Json::array(vec![nested]);
    }
    nested
}

#[test]
fn values_read_back_from_replies() {
    let texts = [
        "null",
        "true",
        "false",
        "0",
        "-12",
        "-9223372036854775808",
        "18446744073709551615",
        "\"\"",
        "\"data: \\n\\u0001 \u{e9}\u{1f600} \\\"\"",
        "\"event:\"",
        "[]",
        "{}",
        "[\"DONE\"]",
        "{\"a\":[1,{\"b\":null}],\"\":\"x\"}",
    ];
    let mut values: Vec<Json> =
        texts.iter().map(|text| Json::parse(text.as_bytes()).unwrap()).collect();
    values.push(nested(127, Json::Null));
    for value in &values {
        assert!(value.reads_back());
        for accept in [None, Some("text/event-stream")] {
            let reply = downstream_response(accept, 200, Some(value), None);
            let kind = reply.content_type.as_deref();
            assert_eq!(&parse_mcp_body(kind, reply.body.as_bytes()).unwrap(), value);
            assert_eq!(&parse_body(true, kind, reply.body.as_bytes()).unwrap(), value);
        }
    }
}

#[test]
fn some_values_may_not_read_back() {
    assert!(!Json::parse(b"1.5").unwrap().reads_back());
    assert!(!Json::parse(b"{\"a\":[-0]}").unwrap().reads_back());
    assert!(!Json::parse(b"18446744073709551616").unwrap().reads_back());
    let deep = nested(128, Json::Null);
    assert!(!deep.reads_back());
    assert!(Json::parse(deep.to_text().as_bytes()).is_err());
    let raw = "$serde_json::private::RawValue".to_string();
    assert!(!Json::object(vec![(raw, Json::integer(1))]).reads_back());
    let twice = vec![
        ("a".to_string(), Json::parse(b"1.5").unwrap()),
        ("a".to_string(), Json::integer(1)),
    ];
    assert!(Json::object(twice).reads_back());
}

#[test]
fn answers_read_back_from_whole_requests() {
    let mut state = test_state(McpAuthMode::NoAuth, None);
    let batch = format!("[{INITIALIZE},{{\"jsonrpc\":\"2.0\",\"id\":2,\"method\":\"nope\"}}]");
    let plain = post_payload(&mut state, None, &batch);
    let read = parse_mcp_body(plain.content_type.as_deref(), plain.body.as_bytes()).unwrap();
    assert_eq!(read, body_json(&plain));
    assert!(read.reads_back());
}

#[test]
fn qualified_names_split_again() {
    let split = |name: &str| split_text_once(name, "__");
    let pair = |a: &str, b: &str| Some((a.to_string(), b.to_string()));
    assert_eq!(split(&qualified_name("a", "b")), pair("a", "b"));
    assert_eq!(split(&qualified_name("a_b", "__c")), pair("a_b", "__c"));
    assert_eq!(split(&qualified_name("a", "")), pair("a", ""));
    assert_eq!(qualified_name("a_", "b"), qualified_name("a", "_b"));
    assert_eq!(split(&qualified_name("a_", "b")), pair("a", "_b"));
}

#[test]
fn labels_that_differ_differ_when_escaped() {
    assert_eq!(escape_label("plain"), "plain");
    assert_ne!(escape_label("a\nb"), escape_label("a\\nb"));
    assert!(!escape_label("a\nb").contains('\n'));
}

#[test]
fn a_session_that_is_told_is_kept() {
    let mut state = test_state(McpAuthMode::NoAuth, None);
    let value = Json::parse(INITIALIZE.as_bytes()).unwrap();
    let mut post = begin_post(&mut state, None, Some("mine".to_string()), value, 3);
    assert_eq!(state.sessions.get("mine").unwrap().created_at, 3);
    let reply = run_to_reply(&mut state, &mut post);
    assert_eq!(reply.session_id.as_deref(), Some("mine"));
    assert!(state.sessions.contains_name("mine"));
    let value = Json::parse(br#"{"method":"initialize","id":1}"#).unwrap();
    let mut post = begin_post(&mut state, None, Some("other".to_string()), value, 3);
    let reply = run_to_reply(&mut state, &mut post);
    assert_eq!(reply.session_id, None);
    assert!(!state.sessions.contains_name("other"));
}
