use mcpstead::config::{
    config_path, idle_sessions_may_outlive_ttl, invalid_bind_address, listen_address,
    load_mcp_bearer_token, token_variables, validate_config, AuthConfig, AuthObject, Config,
    ConfigError, McpAuthConfig, McpAuthMode, McpConfig, McpSessionConfig, ServerConfig,
};
use mcpstead::table::Table;

fn named_server(name: &str, url: &str) -> ServerConfig {
    ServerConfig { name: name.to_string(), url: url.to_string(), ..ServerConfig::default() }
}

fn with_named_servers(servers: Vec<ServerConfig>) -> Config {
    Config { servers, ..Config::default() }
}

fn with_session(session: McpSessionConfig) -> Config {
    Config { mcp: McpConfig { session, ..McpConfig::default() }, ..Config::default() }
}

#[test]
fn rejects_bearer_token_in_config_file() {
    let config = Config {
        mcp: McpConfig {
            auth: McpAuthConfig {
                mode: McpAuthMode::Bearer,
                bearer_token: Some("secret".to_string()),
            },
            ..McpConfig::default()
        },
        ..Config::default()
    };
    let err = validate_config(&config).unwrap_err();
    assert!(err.message().contains("mcp.auth.bearer_token is not allowed"));
}

#[test]
fn session_config_defaults() {
    let config = Config::default();
    assert_eq!(config.mcp.session.idle_ttl_seconds, 3600);
    assert_eq!(config.mcp.session.gc_interval_seconds, 60);
    assert_eq!(config.mcp.session.shutdown_grace_seconds, 5);
}

#[test]
fn rejects_zero_session_durations() {
    let config = with_session(McpSessionConfig {
        idle_ttl_seconds: 0,
        ..McpSessionConfig::default()
    });
    let err = validate_config(&config).unwrap_err();
    assert!(err.message().contains("mcp.session.idle_ttl_seconds must be greater than 0"));
}

#[test]
fn rejects_other_zero_session_durations() {
    let config = with_session(McpSessionConfig {
        gc_interval_seconds: 0,
        ..McpSessionConfig::default()
    });
    assert_eq!(
        validate_config(&config).unwrap_err().message(),
        "mcp.session.gc_interval_seconds must be greater than 0"
    );
    let config = with_session(McpSessionConfig {
        shutdown_grace_seconds: 0,
        ..McpSessionConfig::default()
    });
    assert_eq!(
        validate_config(&config).unwrap_err().message(),
        "mcp.session.shutdown_grace_seconds must be greater than 0"
    );
}

#[test]
fn rejects_faulty_servers() {
    let config = with_named_servers(vec![named_server("", "http://127.0.0.1:1")]);
    assert_eq!(validate_config(&config).unwrap_err().message(), "server name cannot be empty");
    let config = with_named_servers(vec![named_server("a__b", "http://127.0.0.1:1")]);
    assert_eq!(
        validate_config(&config).unwrap_err().message(),
        "server name 'a__b' cannot contain '__'"
    );
    let config = with_named_servers(vec![named_server("a", "")]);
    assert_eq!(validate_config(&config).unwrap_err().message(), "server 'a' url cannot be empty");
    let config = with_named_servers(vec![
        named_server("a", "http://127.0.0.1:1"),
        named_server("b", "http://127.0.0.1:2"),
        named_server("a", "http://127.0.0.1:3"),
    ]);
    assert_eq!(validate_config(&config).unwrap_err().message(), "duplicate server name 'a'");
}

#[test]
fn accepts_distinct_servers() {
    let config = with_named_servers(vec![
        named_server("a", "http://127.0.0.1:1"),
        named_server("b_", "http://127.0.0.1:2"),
    ]);
    assert!(validate_config(&config).is_ok());
    assert!(validate_config(&Config::default()).is_ok());
}

#[test]
fn defaults_of_a_server() {
    let server = ServerConfig::default();
    assert_eq!(server.protocol, "auto");
    assert!(!server.required);
    assert!(!server.tls_skip_verify);
    assert_eq!(server.reconnect.max_attempts, 0);
    assert_eq!(server.reconnect.backoff_base_ms, 1000);
    assert_eq!(server.reconnect.backoff_max_ms, 30000);
    assert_eq!(server.tools.ttl_seconds, 300);
    assert_eq!(server.accept_header(), "application/json, text/event-stream");
}

#[test]
fn accept_header_can_be_overridden() {
    let mut server = ServerConfig::default();
    server.quirks.inject_accept_header = Some("application/json".to_string());
    assert_eq!(server.accept_header(), "application/json");
}

#[test]
fn upstream_tokens_are_resolved() {
    let none: Table<String> = Table::new();
    let mut held: Table<String> = Table::new();
    held.insert("NAME".to_string(), "held".to_string());
    let mut server = named_server("a", "http://127.0.0.1:1");
    assert!(matches!(server.bearer_token(&none), Ok(None)));

    server.auth = Some(AuthConfig::Mode("none".to_string()));
    assert!(matches!(server.bearer_token(&none), Ok(None)));

    server.auth = Some(AuthConfig::Mode("basic".to_string()));
    assert_eq!(
        server.bearer_token(&none).unwrap_err(),
        ConfigError::UnsupportedAuthMode("basic".to_string())
    );

    let bearer = |token: Option<&str>, token_env: Option<&str>| {
        Some(AuthConfig::Object(AuthObject {
            kind: "bearer".to_string(),
            token: token.map(|t| t.to_string()),
            token_env: token_env.map(|t| t.to_string()),
        }))
    };
    server.auth = bearer(Some("plain"), Some("NAME"));
    assert_eq!(server.token_variable(), None);
    assert_eq!(server.bearer_token(&none).unwrap(), Some("plain".to_string()));

    server.auth = bearer(None, Some("NAME"));
    assert_eq!(server.token_variable(), Some("NAME"));
    assert_eq!(
        server.bearer_token(&held).unwrap(),
        Some("held".to_string())
    );
    assert_eq!(
        server.bearer_token(&none).unwrap_err().message(),
        "missing env var 'NAME' for server 'a'"
    );

    server.auth = bearer(None, None);
    assert_eq!(
        server.bearer_token(&none).unwrap_err(),
        ConfigError::BearerWithoutToken("a".to_string())
    );
}

#[test]
fn the_variables_of_the_tokens_are_listed() {
    let with_auth = |name: &str, token: Option<&str>, token_env: Option<&str>| {
        let mut server = named_server(name, "http://127.0.0.1:1");
        server.auth = Some(AuthConfig::Object(AuthObject {
            kind: "bearer".to_string(),
            token: token.map(|t| t.to_string()),
            token_env: token_env.map(|t| t.to_string()),
        }));
        server
    };
    let config = with_named_servers(vec![
        with_auth("a", None, Some("A")),
        named_server("b", "http://127.0.0.1:1"),
        with_auth("c", Some("plain"), Some("C")),
        with_auth("d", None, Some("D")),
    ]);
    assert_eq!(token_variables(&config), vec!["A", "D"]);
}

#[test]
fn headers_are_sent_as_they_stand() {
    let mut server = named_server("a", "http://127.0.0.1:1");
    server.headers.insert("X-Api-Key".to_string(), "${EXAMPLE_KEY}".to_string());
    let config = with_named_servers(vec![server]);
    assert_eq!(token_variables(&config), Vec::<String>::new());
    assert_eq!(
        config.servers[0].headers.get("X-Api-Key").map(|value| value.as_str()),
        Some("${EXAMPLE_KEY}")
    );
}

#[test]
fn downstream_token_comes_from_the_environment() {
    let mut config = Config::default();
    assert_eq!(load_mcp_bearer_token(&config, None).unwrap(), None);
    config.mcp.auth.mode = McpAuthMode::Bearer;
    assert_eq!(
        load_mcp_bearer_token(&config, Some("secret".to_string())).unwrap(),
        Some("secret".to_string())
    );
    assert_eq!(
        load_mcp_bearer_token(&config, None).unwrap_err().message(),
        "MCPSTEAD_BEARER_TOKEN is required when mcp.auth.mode=bearer"
    );
}

#[test]
fn session_times_may_not_fit() {
    let mut session = McpSessionConfig::default();
    assert!(!idle_sessions_may_outlive_ttl(&session));
    session.gc_interval_seconds = 3601;
    assert!(idle_sessions_may_outlive_ttl(&session));
}

#[test]
fn missing_config_errors_clearly() {
    let err = config_path(None, None, None).unwrap_err();
    assert_eq!(
        err.message(),
        "mcpstead requires --config <path> or MCPSTEAD_CONFIG=<path>"
    );
}

fn bind_message() -> String {
    let config = Config {
        host: "not a host".to_string(),
        port: 8766,
        servers: Vec::new(),
        ..Config::default()
    };
    assert_eq!(listen_address(&config), "not a host:8766");
    invalid_bind_address(&config)
}

#[test]
fn flag_config_loads() {
    let path = config_path(Some("flag".to_string()), None, None).unwrap();
    assert_eq!(path, "flag");
    assert!(bind_message().contains("invalid bind address 'not a host:8766'"));
}

#[test]
fn env_config_loads() {
    let path = config_path(None, Some("env".to_string()), None).unwrap();
    assert_eq!(path, "env");
    assert!(bind_message().contains("invalid bind address 'not a host:8766'"));
}

#[test]
fn flag_wins_over_env_config() {
    let path = config_path(
        Some("flag-wins".to_string()),
        Some("/tmp/mcpstead-env-should-not-load.yaml".to_string()),
        None,
    )
    .unwrap();
    assert_eq!(path, "flag-wins");
    assert!(!path.contains("mcpstead-env-should-not-load"));
    assert!(bind_message().contains("invalid bind address 'not a host:8766'"));
}

#[test]
fn default_file_comes_last() {
    assert_eq!(config_path(None, None, Some("home".to_string())).unwrap(), "home");
    assert_eq!(
        config_path(None, Some("env".to_string()), Some("home".to_string())).unwrap(),
        "env"
    );
}

#[test]
fn changes_that_need_a_fresh_session() {
    let old = named_server("a", "http://127.0.0.1:1");
    let mut new = old.copy();
    assert!(old.same(&new));
    assert!(!old.requires_fresh_upstream_session(&new));
    new.required = true;
    new.tools.ttl_seconds = 7;
    assert!(!old.same(&new));
    assert!(!old.requires_fresh_upstream_session(&new));
    new.headers.insert("x-key".to_string(), "1".to_string());
    assert!(old.requires_fresh_upstream_session(&new));
}

#[test]
fn tables_are_walked_in_order() {
    let mut table: Table<u8> = Table::new();
    table.insert("b".to_string(), 2);
    table.insert("a".to_string(), 1);
    table.insert("c".to_string(), 3);
    table.insert("b".to_string(), 4);
    assert_eq!(table.len(), 3);
    assert_eq!(table.name_at(0), "a");
    assert_eq!(table.name_at(1), "b");
    assert_eq!(table.name_at(2), "c");
    assert_eq!(*table.value_at(1), 4);
    assert_eq!(table.get("c"), Some(&3));
    assert_eq!(table.remove("a"), Some(1));
    assert_eq!(table.remove("a"), None);
    assert!(!table.contains_name("a"));
    assert_eq!(table.len(), 2);
}
