use std::time::Duration;

use mcpstead::config::{AuthConfig, AuthObject, ReconnectConfig, ServerConfig};
use mcpstead::json::Json;
use mcpstead::metrics::Family;
use mcpstead::sse::{
    choose_sse_event, collect_sse_events, find_json, parse_body, parse_mcp_body, push_sse_event,
    parse_sse_body, read_source, BodyError, JsonSource, SseChoice, SseEvent,
};
use mcpstead::state::{build_state, AppState};
use mcpstead::table::Table;
use mcpstead::upstream::{
    backoff_delay, backoff_wait, elapsed, parse_upstream_response, reply_result,
    send_upstream_body, upstream_reply, upstream_result, Outcome, Reply, UpstreamResponse,
};

fn upstream_server(name: &str) -> ServerConfig {
    ServerConfig {
        name: name.to_string(),
        url: "http://127.0.0.1:1/mcp".to_string(),
        ..ServerConfig::default()
    }
}

fn plain_state() -> AppState {
    build_state(&mcpstead::config::Config::default(), None, Table::new())
}

fn answer(status: u16, content_type: Option<&str>, body: &[u8]) -> UpstreamResponse {
    UpstreamResponse {
        status,
        session_id: Some("s1".to_string()),
        content_type: content_type.map(|kind| kind.to_string()),
        body: body.to_vec(),
    }
}

#[test]
fn parses_plain_json_body() {
    let value = parse_mcp_body(
        Some("application/json"),
        br#"{"jsonrpc":"2.0","id":1,"result":{}}"#,
    )
    .unwrap();
    assert_eq!(value.get("id"), Some(&Json::integer(1)));
}

#[test]
fn parses_sse_body_with_event_lines() {
    let value = parse_mcp_body(
        Some("text/event-stream"),
        b"event: message\ndata: {\"jsonrpc\":\"2.0\",\"id\":1,\"result\":{}}\n\n",
    )
    .unwrap();
    assert_eq!(value.get("id"), Some(&Json::integer(1)));
}

#[test]
fn skips_non_message_sse_events() {
    let value = parse_mcp_body(
        Some("text/event-stream"),
        b"event: ping\ndata: keepalive\n\n\
event: message\ndata: {\"jsonrpc\":\"2.0\",\"id\":2,\"result\":{}}\n\n",
    )
    .unwrap();
    assert_eq!(value.get("id"), Some(&Json::integer(2)));
}

#[test]
fn ignores_bare_ping_sse_events() {
    let err = parse_mcp_body(
        Some("text/event-stream"),
        b"event: ping\ndata: keepalive\n\n",
    )
    .unwrap_err();
    assert!(err.message().contains("SSE response had no data event"));
}

#[test]
fn parses_custom_sse_event_when_no_message_exists() {
    let value = parse_mcp_body(
        Some("text/event-stream"),
        b"event: result\ndata: {\"jsonrpc\":\"2.0\",\"id\":3,\"result\":{}}\n\n",
    )
    .unwrap();
    assert_eq!(value.get("id"), Some(&Json::integer(3)));
}

#[test]
fn reports_sse_error_events() {
    let err =
        parse_mcp_body(Some("text/event-stream"), b"event: error\ndata: bad\n\n").unwrap_err();
    assert!(err.message().contains("SSE error event: bad"));
}

#[test]
fn computes_backoff() {
    let config = ReconnectConfig {
        max_attempts: 0,
        backoff_base_ms: 100,
        backoff_max_ms: 1_000,
    };
    assert_eq!(backoff_delay(&config, 1), Duration::from_millis(100));
    assert_eq!(backoff_delay(&config, 2), Duration::from_millis(200));
    assert_eq!(backoff_delay(&config, 20), Duration::from_millis(1_000));
}

#[test]
fn backoff_stays_within_its_bounds() {
    let config = ReconnectConfig { max_attempts: 0, backoff_base_ms: 0, backoff_max_ms: 0 };
    assert_eq!(backoff_wait(&config, 5), 1);
    let config = ReconnectConfig {
        max_attempts: 0,
        backoff_base_ms: u64::MAX,
        backoff_max_ms: u64::MAX,
    };
    assert_eq!(backoff_wait(&config, 9), u64::MAX);
    let config = ReconnectConfig {
        max_attempts: 0,
        backoff_base_ms: 1,
        backoff_max_ms: u64::MAX,
    };
    assert_eq!(backoff_wait(&config, 0), 1);
    assert_eq!(backoff_wait(&config, 3), 4);
    assert_eq!(backoff_wait(&config, 21), 1 << 20);
    assert_eq!(backoff_wait(&config, u32::MAX), 1 << 20);
}

#[test]
fn a_clock_that_goes_back_shows_no_time() {
    assert_eq!(elapsed(3, 10), 7);
    assert_eq!(elapsed(10, 3), 0);
}

#[test]
fn streams_are_read_line_by_line() {
    let events = collect_sse_events(
        ": comment\r\nevent: a\r\ndata: one\ndata:two\nid: 7\n\ndata\n\nevent\n",
    );
    assert_eq!(events.len(), 3);
    assert_eq!(events[0].event_type.as_deref(), Some("a"));
    assert_eq!(events[0].data(), "one\ntwo");
    assert_eq!(events[1].event_type, None);
    assert_eq!(events[1].data_lines, vec![String::new()]);
    assert_eq!(events[2].event_type.as_deref(), Some(""));
}

#[test]
fn an_event_of_nothing_is_no_event() {
    let mut events: Vec<SseEvent> = Vec::new();
    let mut event_type: Option<String> = None;
    let mut data_lines: Vec<String> = Vec::new();
    push_sse_event(&mut events, &mut event_type, &mut data_lines);
    assert!(events.is_empty());
    data_lines.push("x".to_string());
    push_sse_event(&mut events, &mut event_type, &mut data_lines);
    assert_eq!(events.len(), 1);
    assert!(data_lines.is_empty());
}

#[test]
fn the_first_message_or_error_is_the_answer() {
    let events = collect_sse_events(
        "event: custom\ndata: c\n\nevent: heartbeat\ndata: h\n\ndata: [DONE]\n\n\
data:  m \n\nevent: error\ndata: e\n\n",
    );
    assert!(matches!(choose_sse_event(&events), SseChoice::Message(data) if data == "m"));
    let events = collect_sse_events("event: custom\ndata: c\n\nevent: error\ndata: e\n\n");
    assert!(matches!(choose_sse_event(&events), SseChoice::Failure(data) if data == "e"));
    let events = collect_sse_events("event: x\ndata: c\n\nevent: y\ndata: d\n\n");
    assert!(matches!(
        choose_sse_event(&events),
        SseChoice::Custom(kind, data) if kind == "x" && data == "c"
    ));
    assert!(matches!(choose_sse_event(&Vec::new()), SseChoice::Nothing));
}

#[test]
fn bodies_that_hold_no_answer_say_why() {
    assert_eq!(parse_mcp_body(None, &[0xff]).unwrap_err(), BodyError::NotUtf8);
    assert_eq!(
        parse_mcp_body(None, b"{").unwrap_err().message(),
        "response body is not valid JSON"
    );
    assert_eq!(
        parse_mcp_body(None, b"data: {\n\n").unwrap_err().message(),
        "SSE message data is not valid JSON"
    );
    assert_eq!(
        parse_mcp_body(None, b"  data: {\n\n").unwrap_err().message(),
        "SSE response had no data event"
    );
    assert_eq!(
        parse_mcp_body(None, b"event: odd\ndata: {\n\n").unwrap_err().message(),
        "SSE event 'odd' data is not valid JSON"
    );
}

#[test]
fn the_json_text_of_a_body_is_found() {
    let source = find_json(false, None, b" {} ").unwrap();
    assert_eq!(source.text, " {} ");
    assert_eq!(source.blame, BodyError::NotJson);
    let source = find_json(false, Some("text/event-stream; charset=utf-8"), b"data: 1\n").unwrap();
    assert_eq!(source.text, "1");
    assert_eq!(source.blame, BodyError::MessageNotJson);
    let source = JsonSource { text: "1".to_string(), blame: BodyError::NotJson };
    assert_eq!(
        read_source(source, Err("odd".to_string())).unwrap_err(),
        BodyError::NotJson
    );
}

#[test]
fn streams_may_end_without_an_empty_line() {
    let value = parse_sse_body("data: {\ndata: \"id\": 6}").unwrap();
    assert_eq!(value.get("id"), Some(&Json::integer(6)));
    assert_eq!(parse_sse_body("").unwrap_err(), BodyError::NoDataEvent);
}

#[test]
fn event_lines_can_be_ignored() {
    let body = b"event: ping\ndata: {\"id\":4}\n\n";
    assert!(parse_body(false, Some("text/event-stream"), body).is_err());
    let value = parse_body(true, Some("text/event-stream"), body).unwrap();
    assert_eq!(value.get("id"), Some(&Json::integer(4)));
}

#[test]
fn with_event_lines_ignored_they_can_be_taken_out() {
    let stream = Some("text/event-stream");
    let cases: [(&[u8], &[u8]); 4] = [
        (b"event: ping\r\ndata: {\"id\":4}\n\n", b"data: {\"id\":4}\n\n"),
        (b"data: 1\nevent: error\ndata: \n\n", b"data: 1\ndata: \n\n"),
        (b": c\nevent: x\nevent: y\n\ndata: 5", b": c\n\ndata: 5"),
        (b"data: {\n\nevent: message", b"data: {\n\n"),
    ];
    for (body, without) in cases {
        assert_eq!(parse_body(true, stream, body), parse_body(true, stream, without));
    }
    assert_eq!(parse_body(true, None, b"event: x\n").unwrap_err(), BodyError::NoDataEvent);
    assert_eq!(parse_body(true, None, b"").unwrap_err(), BodyError::NotJson);
}

#[test]
fn requests_carry_what_the_configuration_says() {
    let mut state = plain_state();
    state.variables.insert("NAME".to_string(), "token".to_string());
    let mut server = upstream_server("a");
    server.tls_skip_verify = true;
    server.headers.insert("x-b".to_string(), "2".to_string());
    server.headers.insert("x-a".to_string(), "1".to_string());
    server.auth = Some(AuthConfig::Object(AuthObject {
        kind: "bearer".to_string(),
        token: None,
        token_env: Some("NAME".to_string()),
    }));
    let body = Json::parse("{\"b\":[1,null],\"a\":\"\u{e9}\"}".as_bytes()).unwrap();
    let request = send_upstream_body(&mut state, &server, Some("s0"), &body).unwrap();
    assert_eq!(request.url, "http://127.0.0.1:1/mcp");
    assert!(request.skip_verify);
    assert_eq!(request.content_type, "application/json");
    assert_eq!(request.accept, "application/json, text/event-stream");
    assert_eq!(request.session_id.as_deref(), Some("s0"));
    assert_eq!(request.bearer_token.as_deref(), Some("token"));
    assert_eq!(
        request.headers,
        vec![
            ("x-a".to_string(), "1".to_string()),
            ("x-b".to_string(), "2".to_string())
        ]
    );
    assert_eq!(request.body, "{\"a\":\"\u{e9}\",\"b\":[1,null]}");
    assert_eq!(state.metrics.counters.get(Family::UpstreamBytes, "a", "sent"), 23);

    state.variables = Table::new();
    let error = send_upstream_body(&mut state, &server, None, &Json::Null).unwrap_err();
    assert!(error.contains("NAME"));
    assert_eq!(state.metrics.counters.get(Family::UpstreamBytes, "a", "sent"), 27);
}

#[test]
fn answers_are_read() {
    let mut state = plain_state();
    let server = upstream_server("a");
    let reply =
        parse_upstream_response(&mut state, &server, &answer(202, None, b"")).unwrap();
    assert_eq!(reply.session_id.as_deref(), Some("s1"));
    assert!(reply.body.is_none());
    let reply = parse_upstream_response(
        &mut state,
        &server,
        &answer(200, Some("application/json"), b"{\"id\":1}"),
    )
    .unwrap();
    assert_eq!(reply.body.unwrap().get("id"), Some(&Json::integer(1)));
    assert_eq!(state.metrics.counters.get(Family::UpstreamBytes, "a", "received"), 8);
    let error =
        parse_upstream_response(&mut state, &server, &answer(401, None, b"no\xff")).unwrap_err();
    assert_eq!(error, "upstream 'a' HTTP 401: no\u{fffd}");
    let long = vec![120u8; 600];
    let error =
        parse_upstream_response(&mut state, &server, &answer(500, None, &long)).unwrap_err();
    assert_eq!(error.len(), "upstream 'a' HTTP 500: ".len() + 512);
}

#[test]
fn requests_can_fail_in_several_ways() {
    let mut state = plain_state();
    let server = upstream_server("a");
    assert_eq!(
        upstream_reply(&mut state, &server, &Outcome::NotSent).unwrap_err(),
        "upstream 'a' request failed"
    );
    assert_eq!(
        upstream_reply(&mut state, &server, &Outcome::Cut("cut".to_string())).unwrap_err(),
        "cut"
    );
    assert_eq!(
        upstream_reply(&mut state, &server, &Outcome::Unprepared("why".to_string())).unwrap_err(),
        "why"
    );
    assert_eq!(
        upstream_result(&mut state, &server, &Outcome::Response(answer(200, None, b"")))
            .unwrap_err(),
        "upstream 'a' returned no body"
    );
    assert_eq!(
        upstream_result(
            &mut state,
            &server,
            &Outcome::Response(answer(200, None, b"{\"error\":{\"code\":1}}"))
        )
        .unwrap_err(),
        "upstream 'a' JSON-RPC error: {\"code\":1}"
    );
}

#[test]
fn a_reply_without_a_result_gives_null() {
    let body = Json::parse(b"{\"id\":1}").unwrap();
    let (session_id, result) =
        reply_result("a", Ok(Reply { session_id: None, body: Some(body) })).unwrap();
    assert_eq!(session_id, None);
    assert_eq!(result, Json::Null);
}
