//! The gateway's configuration: what it holds, its defaults, and when it is valid.
use vstd::prelude::*;
use vstd::string::*;

use crate::table::Table;
use crate::text;

verus! {

/// The Accept header sent upstream where the configuration names no other.
pub const DEFAULT_ACCEPT: &'static str = "application/json, text/event-stream";

/// How downstream clients prove who they are.
#[derive(Debug, Clone, Copy, PartialEq, Eq, Structural)]
pub enum McpAuthMode {
    NoAuth,
    Bearer,
}

/// `mcp.auth`.
#[derive(Debug)]
pub struct McpAuthConfig {
    pub mode: McpAuthMode,
    pub bearer_token: Option<String>,
}

/// `mcp.session`.
#[derive(Debug, Clone, Copy, PartialEq, Eq, Structural)]
pub struct McpSessionConfig {
    pub idle_ttl_seconds: u64,
    pub gc_interval_seconds: u64,
    pub shutdown_grace_seconds: u64,
}

/// `mcp`.
#[derive(Debug)]
pub struct McpConfig {
    pub auth: McpAuthConfig,
    pub session: McpSessionConfig,
}

/// The object form of a server's `auth`.
#[derive(Debug)]
pub struct AuthObject {
    pub kind: String,
    pub token: Option<String>,
    pub token_env: Option<String>,
}

/// A server's `auth`: a bare mode, or an object.
#[derive(Debug)]
pub enum AuthConfig {
    Mode(String),
    Object(AuthObject),
}

/// A server's `quirks`.
#[derive(Debug)]
pub struct QuirksConfig {
    pub normalize_sse_events: bool,
    pub inject_accept_header: Option<String>,
}

/// A server's `reconnect`.
#[derive(Debug, Clone, Copy, PartialEq, Eq, Structural)]
pub struct ReconnectConfig {
    pub max_attempts: u32,
    pub backoff_base_ms: u64,
    pub backoff_max_ms: u64,
}

/// A server's `tools`.
#[derive(Debug, Clone, Copy, PartialEq, Eq, Structural)]
pub struct ToolsConfig {
    pub ttl_seconds: u64,
}

/// One entry of `servers`.
#[derive(Debug)]
pub struct ServerConfig {
    pub name: String,
    pub url: String,
    pub protocol: String,
    pub required: bool,
    pub tls_skip_verify: bool,
    pub auth: Option<AuthConfig>,
    /// Headers of every request to the server. Their values are sent as they stand: a value such as
    /// `${NAME}` is not replaced by what an environment variable holds.
    pub headers: Table<String>,
    pub quirks: QuirksConfig,
    pub reconnect: ReconnectConfig,
    pub tools: ToolsConfig,
}

/// `metrics`.
#[derive(Debug, Clone, Copy, PartialEq, Eq, Structural)]
pub struct MetricsConfig {
    pub enabled: bool,
}

/// `logging`.
#[derive(Debug)]
pub struct LoggingConfig {
    pub level: String,
}

/// The whole configuration.
#[derive(Debug)]
pub struct Config {
    pub host: String,
    pub port: u16,
    pub mcp: McpConfig,
    pub servers: Vec<ServerConfig>,
    pub metrics: MetricsConfig,
    pub logging: LoggingConfig,
}

/// What a server's `auth` says.
pub enum AuthView {
    Mode(Seq<char>),
    Object { kind: Seq<char>, token: Option<Seq<char>>, token_env: Option<Seq<char>> },
}

/// What an entry of `servers` says.
pub struct ServerConfigView {
    pub name: Seq<char>,
    pub url: Seq<char>,
    pub protocol: Seq<char>,
    pub required: bool,
    pub tls_skip_verify: bool,
    pub auth: Option<AuthView>,
    pub headers: Map<Seq<char>, Seq<char>>,
    pub normalize_sse_events: bool,
    pub inject_accept_header: Option<Seq<char>>,
    pub reconnect: ReconnectConfig,
    pub tools: ToolsConfig,
}

/// What a configuration says.
pub struct ConfigView {
    pub host: Seq<char>,
    pub port: u16,
    pub auth_mode: McpAuthMode,
    pub auth_bearer_token: Option<Seq<char>>,
    pub session: McpSessionConfig,
    pub servers: Seq<ServerConfigView>,
    pub metrics: MetricsConfig,
    pub logging_level: Seq<char>,
}

impl View for AuthConfig {
    type V = AuthView;

    open spec fn view(&self) -> AuthView {
        match *self {
            AuthConfig::Mode(mode) => AuthView::Mode(mode@),
            AuthConfig::Object(auth) => AuthView::Object {
                kind: auth.kind@,
                token: text::optional(auth.token),
                token_env: text::optional(auth.token_env),
            },
        }
    }
}

/// What a table of texts holds.
pub open spec fn text_map(table: Table<String>) -> Map<Seq<char>, Seq<char>> {
    table.map().map_values(|value: String| value@)
}

/// What a server's optional `auth` says.
pub open spec fn auth_view(auth: Option<AuthConfig>) -> Option<AuthView> {
    match auth {
        Some(a) => Some(a@),
        None => None,
    }
}

impl View for ServerConfig {
    type V = ServerConfigView;

    open spec fn view(&self) -> ServerConfigView {
        ServerConfigView {
            name: self.name@,
            url: self.url@,
            protocol: self.protocol@,
            required: self.required,
            tls_skip_verify: self.tls_skip_verify,
            auth: auth_view(self.auth),
            headers: text_map(self.headers),
            normalize_sse_events: self.quirks.normalize_sse_events,
            inject_accept_header: text::optional(self.quirks.inject_accept_header),
            reconnect: self.reconnect,
            tools: self.tools,
        }
    }
}

/// What the entries of `servers` say.
pub open spec fn server_views(servers: Seq<ServerConfig>) -> Seq<ServerConfigView> {
    servers.map_values(|server: ServerConfig| server@)
}

impl View for Config {
    type V = ConfigView;

    open spec fn view(&self) -> ConfigView {
        ConfigView {
            host: self.host@,
            port: self.port,
            auth_mode: self.mcp.auth.mode,
            auth_bearer_token: text::optional(self.mcp.auth.bearer_token),
            session: self.mcp.session,
            servers: server_views(self.servers@),
            metrics: self.metrics,
            logging_level: self.logging.level@,
        }
    }
}

impl ServerConfig {
    /// The table of headers is one.
    pub open spec fn wf(&self) -> bool {
        self.headers.wf()
    }
}

impl Config {
    /// Every server is well formed.
    pub open spec fn wf(&self) -> bool {
        forall|i: int| 0 <= i < self.servers@.len() ==> (#[trigger] self.servers@[i]).wf()
    }
}

impl Default for McpSessionConfig {
    fn default() -> (config: Self)
        ensures
            config.idle_ttl_seconds == 3600,
            config.gc_interval_seconds == 60,
            config.shutdown_grace_seconds == 5,
    {
        McpSessionConfig {
            idle_ttl_seconds: 3600,
            gc_interval_seconds: 60,
            shutdown_grace_seconds: 5,
        }
    }
}

impl Default for McpAuthConfig {
    fn default() -> (config: Self)
        ensures
            config.mode == McpAuthMode::NoAuth,
            config.bearer_token is None,
    {
        McpAuthConfig { mode: McpAuthMode::NoAuth, bearer_token: None }
    }
}

impl Default for McpConfig {
    fn default() -> (config: Self)
        ensures
            config.auth.mode == McpAuthMode::NoAuth,
            config.auth.bearer_token is None,
            config.session == default_session(),
    {
        McpConfig { auth: McpAuthConfig::default(), session: McpSessionConfig::default() }
    }
}

/// The session settings where the configuration gives none.
pub open spec fn default_session() -> McpSessionConfig {
    McpSessionConfig { idle_ttl_seconds: 3600, gc_interval_seconds: 60, shutdown_grace_seconds: 5 }
}

/// The reconnect settings where the configuration gives none.
pub open spec fn default_reconnect() -> ReconnectConfig {
    ReconnectConfig { max_attempts: 0, backoff_base_ms: 1_000, backoff_max_ms: 30_000 }
}

impl Default for ReconnectConfig {
    fn default() -> (config: Self)
        ensures
            config == default_reconnect(),
    {
        ReconnectConfig { max_attempts: 0, backoff_base_ms: 1_000, backoff_max_ms: 30_000 }
    }
}

impl Default for ToolsConfig {
    fn default() -> (config: Self)
        ensures
            config.ttl_seconds == 300,
    {
        ToolsConfig { ttl_seconds: 300 }
    }
}

impl Default for MetricsConfig {
    fn default() -> (config: Self)
        ensures
            config.enabled,
    {
        MetricsConfig { enabled: true }
    }
}

impl Default for LoggingConfig {
    fn default() -> (config: Self)
        ensures
            config.level@ == "info"@,
    {
        LoggingConfig { level: "info".to_owned() }
    }
}

impl Default for QuirksConfig {
    fn default() -> (config: Self)
        ensures
            !config.normalize_sse_events,
            config.inject_accept_header is None,
    {
        QuirksConfig { normalize_sse_events: false, inject_accept_header: None }
    }
}

/// A server of which the configuration says nothing.
pub open spec fn default_server() -> ServerConfigView {
    ServerConfigView {
        name: Seq::empty(),
        url: Seq::empty(),
        protocol: "auto"@,
        required: false,
        tls_skip_verify: false,
        auth: None,
        headers: Map::empty(),
        normalize_sse_events: false,
        inject_accept_header: None,
        reconnect: default_reconnect(),
        tools: ToolsConfig { ttl_seconds: 300 },
    }
}

impl Default for ServerConfig {
    fn default() -> (config: Self)
        ensures
            config.wf(),
            config@ == default_server(),
    {
        let config = ServerConfig {
            name: String::new(),
            url: String::new(),
            protocol: "auto".to_owned(),
            required: false,
            tls_skip_verify: false,
            auth: None,
            headers: Table::new(),
            quirks: QuirksConfig::default(),
            reconnect: ReconnectConfig::default(),
            tools: ToolsConfig::default(),
        };
        assert(text_map(config.headers) =~= Map::empty());
        config
    }
}

/// A configuration of which nothing is said.
pub open spec fn default_config() -> ConfigView {
    ConfigView {
        host: "127.0.0.1"@,
        port: 8766,
        auth_mode: McpAuthMode::NoAuth,
        auth_bearer_token: None,
        session: default_session(),
        servers: Seq::empty(),
        metrics: MetricsConfig { enabled: true },
        logging_level: "info"@,
    }
}

impl Default for Config {
    fn default() -> (config: Self)
        ensures
            config.wf(),
            config@ == default_config(),
    {
        let config = Config {
            host: "127.0.0.1".to_owned(),
            port: 8766,
            mcp: McpConfig::default(),
            servers: Vec::new(),
            metrics: MetricsConfig::default(),
            logging: LoggingConfig::default(),
        };
        assert(config@.servers =~= Seq::empty());
        config
    }
}

/// What is wrong with a configuration.
#[derive(Debug, PartialEq)]
pub enum ConfigError {
    BearerTokenInConfig,
    ZeroIdleTtl,
    ZeroGcInterval,
    ZeroShutdownGrace,
    EmptyServerName,
    SeparatorInServerName(String),
    EmptyServerUrl(String),
    DuplicateServerName(String),
    UnsupportedAuthMode(String),
    UnsupportedAuthType(String),
    MissingTokenVariable { variable: String, server: String },
    BearerWithoutToken(String),
    MissingBearerToken,
    MissingConfigPath,
}

/// What is wrong with a configuration, as mathematics.
pub enum ConfigFault {
    BearerTokenInConfig,
    ZeroIdleTtl,
    ZeroGcInterval,
    ZeroShutdownGrace,
    EmptyServerName,
    SeparatorInServerName(Seq<char>),
    EmptyServerUrl(Seq<char>),
    DuplicateServerName(Seq<char>),
    UnsupportedAuthMode(Seq<char>),
    UnsupportedAuthType(Seq<char>),
    MissingTokenVariable { variable: Seq<char>, server: Seq<char> },
    BearerWithoutToken(Seq<char>),
    MissingBearerToken,
    MissingConfigPath,
}

impl View for ConfigError {
    type V = ConfigFault;

    open spec fn view(&self) -> ConfigFault {
        match *self {
            ConfigError::BearerTokenInConfig => ConfigFault::BearerTokenInConfig,
            ConfigError::ZeroIdleTtl => ConfigFault::ZeroIdleTtl,
            ConfigError::ZeroGcInterval => ConfigFault::ZeroGcInterval,
            ConfigError::ZeroShutdownGrace => ConfigFault::ZeroShutdownGrace,
            ConfigError::EmptyServerName => ConfigFault::EmptyServerName,
            ConfigError::SeparatorInServerName(name) => ConfigFault::SeparatorInServerName(name@),
            ConfigError::EmptyServerUrl(name) => ConfigFault::EmptyServerUrl(name@),
            ConfigError::DuplicateServerName(name) => ConfigFault::DuplicateServerName(name@),
            ConfigError::UnsupportedAuthMode(mode) => ConfigFault::UnsupportedAuthMode(mode@),
            ConfigError::UnsupportedAuthType(kind) => ConfigFault::UnsupportedAuthType(kind@),
            ConfigError::MissingTokenVariable { variable, server } =>
                ConfigFault::MissingTokenVariable { variable: variable@, server: server@ },
            ConfigError::BearerWithoutToken(name) => ConfigFault::BearerWithoutToken(name@),
            ConfigError::MissingBearerToken => ConfigFault::MissingBearerToken,
            ConfigError::MissingConfigPath => ConfigFault::MissingConfigPath,
        }
    }
}

/// What is wrong, in words.
pub open spec fn fault_text(fault: ConfigFault) -> Seq<char> {
    match fault {
        ConfigFault::BearerTokenInConfig =>
            "mcp.auth.bearer_token is not allowed; use MCPSTEAD_BEARER_TOKEN"@,
        ConfigFault::ZeroIdleTtl => "mcp.session.idle_ttl_seconds must be greater than 0"@,
        ConfigFault::ZeroGcInterval => "mcp.session.gc_interval_seconds must be greater than 0"@,
        ConfigFault::ZeroShutdownGrace =>
            "mcp.session.shutdown_grace_seconds must be greater than 0"@,
        ConfigFault::EmptyServerName => "server name cannot be empty"@,
        ConfigFault::SeparatorInServerName(name) =>
            "server name '"@ + name + "' cannot contain '__'"@,
        ConfigFault::EmptyServerUrl(name) => "server '"@ + name + "' url cannot be empty"@,
        ConfigFault::DuplicateServerName(name) => "duplicate server name '"@ + name + "'"@,
        ConfigFault::UnsupportedAuthMode(mode) => "unsupported auth mode '"@ + mode + "'"@,
        ConfigFault::UnsupportedAuthType(kind) => "unsupported auth type '"@ + kind + "'"@,
        ConfigFault::MissingTokenVariable { variable, server } =>
            "missing env var '"@ + variable + "' for server '"@ + server + "'"@,
        ConfigFault::BearerWithoutToken(name) =>
            "bearer auth for server '"@ + name + "' needs token or token_env"@,
        ConfigFault::MissingBearerToken =>
            "MCPSTEAD_BEARER_TOKEN is required when mcp.auth.mode=bearer"@,
        ConfigFault::MissingConfigPath =>
            "mcpstead requires --config <path> or MCPSTEAD_CONFIG=<path>"@,
    }
}

/// `before`, a text and `after`, one after another.
fn around(before: &str, middle: &str, after: &str) -> (whole: String)
    ensures
        whole@ == before@ + middle@ + after@,
{
    let mut whole = before.to_owned();
    whole.append(middle);
    whole.append(after);
    whole
}

impl ConfigError {
    /// What is wrong, in words.
    pub fn message(&self) -> (message: String)
        ensures
            message@ == fault_text(self@),
    {
        match self {
            ConfigError::BearerTokenInConfig =>
                "mcp.auth.bearer_token is not allowed; use MCPSTEAD_BEARER_TOKEN".to_owned(),
            ConfigError::ZeroIdleTtl =>
                "mcp.session.idle_ttl_seconds must be greater than 0".to_owned(),
            ConfigError::ZeroGcInterval =>
                "mcp.session.gc_interval_seconds must be greater than 0".to_owned(),
            ConfigError::ZeroShutdownGrace =>
                "mcp.session.shutdown_grace_seconds must be greater than 0".to_owned(),
            ConfigError::EmptyServerName => "server name cannot be empty".to_owned(),
            ConfigError::SeparatorInServerName(name) =>
                around("server name '", name.as_str(), "' cannot contain '__'"),
            ConfigError::EmptyServerUrl(name) =>
                around("server '", name.as_str(), "' url cannot be empty"),
            ConfigError::DuplicateServerName(name) =>
                around("duplicate server name '", name.as_str(), "'"),
            ConfigError::UnsupportedAuthMode(mode) =>
                around("unsupported auth mode '", mode.as_str(), "'"),
            ConfigError::UnsupportedAuthType(kind) =>
                around("unsupported auth type '", kind.as_str(), "'"),
            ConfigError::MissingTokenVariable { variable, server } => {
                let mut message = around("missing env var '", variable.as_str(), "' for server '");
                message.append(server.as_str());
                message.append("'");
                message
            },
            ConfigError::BearerWithoutToken(name) =>
                around("bearer auth for server '", name.as_str(), "' needs token or token_env"),
            ConfigError::MissingBearerToken =>
                "MCPSTEAD_BEARER_TOKEN is required when mcp.auth.mode=bearer".to_owned(),
            ConfigError::MissingConfigPath =>
                "mcpstead requires --config <path> or MCPSTEAD_CONFIG=<path>".to_owned(),
        }
    }
}

/// What is wrong with the server at place `i`: it is nameless, its name holds the separator of
/// tool names, it has no address, or an earlier server has its name.
pub open spec fn server_fault(servers: Seq<ServerConfigView>, i: int) -> Option<ConfigFault> {
    let server = servers[i];
    if server.name.len() == 0 {
        Some(ConfigFault::EmptyServerName)
    } else if text::contains(server.name, "__"@) {
        Some(ConfigFault::SeparatorInServerName(server.name))
    } else if server.url.len() == 0 {
        Some(ConfigFault::EmptyServerUrl(server.name))
    } else if exists|j: int| 0 <= j < i && #[trigger] servers[j].name == server.name {
        Some(ConfigFault::DuplicateServerName(server.name))
    } else {
        None
    }
}

/// What is wrong with the first faulty server from place `i` on.
pub open spec fn servers_fault(servers: Seq<ServerConfigView>, i: int) -> Option<ConfigFault>
    decreases servers.len() - i,
{
    if i < 0 || i >= servers.len() {
        None
    } else {
        match server_fault(servers, i) {
            Some(fault) => Some(fault),
            None => servers_fault(servers, i + 1),
        }
    }
}

/// What is first found wrong with a configuration.
pub open spec fn config_fault(config: ConfigView) -> Option<ConfigFault> {
    if config.auth_bearer_token is Some {
        Some(ConfigFault::BearerTokenInConfig)
    } else if config.session.idle_ttl_seconds == 0 {
        Some(ConfigFault::ZeroIdleTtl)
    } else if config.session.gc_interval_seconds == 0 {
        Some(ConfigFault::ZeroGcInterval)
    } else if config.session.shutdown_grace_seconds == 0 {
        Some(ConfigFault::ZeroShutdownGrace)
    } else {
        servers_fault(config.servers, 0)
    }
}

/// A configuration that the gateway can run with.
pub open spec fn valid_config(config: ConfigView) -> bool {
    &&& config.auth_bearer_token is None
    &&& config.session.idle_ttl_seconds > 0
    &&& config.session.gc_interval_seconds > 0
    &&& config.session.shutdown_grace_seconds > 0
    &&& valid_servers(config.servers)
}

/// Every server has a name without the separator of tool names, and an address; no two share a
/// name.
pub open spec fn valid_servers(servers: Seq<ServerConfigView>) -> bool {
    &&& forall|i: int|
        0 <= i < servers.len() ==> {
            &&& (#[trigger] servers[i]).name.len() > 0
            &&& !text::contains(servers[i].name, "__"@)
            &&& servers[i].url.len() > 0
        }
    &&& forall|i: int, j: int|
        0 <= i < j < servers.len() ==> (#[trigger] servers[i]).name != (#[trigger] servers[j]).name
}

/// Nothing is wrong with the servers from `i` on exactly if none of them is faulty.
proof fn lemma_servers_fault(servers: Seq<ServerConfigView>, i: int)
    requires
        0 <= i,
    ensures
        servers_fault(servers, i) is None <==> forall|k: int|
            i <= k < servers.len() ==> (#[trigger] server_fault(servers, k)) is None,
    decreases servers.len() - i,
{
    if i < servers.len() {
        lemma_servers_fault(servers, i + 1);
    }
}

/// A configuration is valid exactly if nothing is found wrong with it.
pub proof fn law_valid_config_has_no_fault(config: ConfigView)
    ensures
        valid_config(config) <==> config_fault(config) is None,
{
    let servers = config.servers;
    lemma_servers_fault(servers, 0);
    if servers_fault(servers, 0) is None {
        assert forall|i: int| 0 <= i < servers.len() implies {
            &&& (#[trigger] servers[i]).name.len() > 0
            &&& !text::contains(servers[i].name, "__"@)
            &&& servers[i].url.len() > 0
        } by {
            assert(server_fault(servers, i) is None);
        }
        assert forall|i: int, j: int| 0 <= i < j < servers.len() implies (
        #[trigger] servers[i]).name != (#[trigger] servers[j]).name by {
            assert(server_fault(servers, j) is None);
        }
    }
    if valid_servers(servers) {
        assert forall|k: int| 0 <= k < servers.len() implies (#[trigger] server_fault(
            servers,
            k,
        )) is None by {
            assert(servers[k].name.len() > 0);
        }
    }
}

/// Is the configuration one that the gateway can run with?
pub fn validate_config(config: &Config) -> (verdict: Result<(), ConfigError>)
    ensures
        verdict is Ok <==> valid_config(config@),
        match verdict {
            Ok(_) => config_fault(config@) is None,
            Err(error) => config_fault(config@) == Some(error@),
        },
{
    proof {
        law_valid_config_has_no_fault(config@);
    }
    if config.mcp.auth.bearer_token.is_some() {
        return Err(ConfigError::BearerTokenInConfig);
    }
    if config.mcp.session.idle_ttl_seconds == 0 {
        return Err(ConfigError::ZeroIdleTtl);
    }
    if config.mcp.session.gc_interval_seconds == 0 {
        return Err(ConfigError::ZeroGcInterval);
    }
    if config.mcp.session.shutdown_grace_seconds == 0 {
        return Err(ConfigError::ZeroShutdownGrace);
    }
    let ghost servers = config@.servers;
    let mut i: usize = 0;
    while i < config.servers.len()
        invariant
            i <= config.servers@.len(),
            servers == server_views(config.servers@),
            servers_fault(servers, 0) == servers_fault(servers, i as int),
            config_fault(config@) == servers_fault(servers, 0),
            valid_config(config@) <==> config_fault(config@) is None,
        decreases config.servers@.len() - i,
    {
        let server = &config.servers[i];
        assert(servers[i as int] == server@);
        if server.name.as_str().is_empty() {
            return Err(ConfigError::EmptyServerName);
        }
        if text::contains_text(server.name.as_str(), "__") {
            return Err(ConfigError::SeparatorInServerName(server.name.clone()));
        }
        if server.url.as_str().is_empty() {
            return Err(ConfigError::EmptyServerUrl(server.name.clone()));
        }
        if named_before(&config.servers, i) {
            return Err(ConfigError::DuplicateServerName(server.name.clone()));
        }
        i += 1;
    }
    Ok(())
}

/// Has an earlier server the name of the server at place `i`?
fn named_before(servers: &Vec<ServerConfig>, i: usize) -> (found: bool)
    requires
        i < servers@.len(),
    ensures
        found == exists|j: int|
            0 <= j < i && #[trigger] server_views(servers@)[j].name == server_views(
                servers@,
            )[i as int].name,
{
    let mut j: usize = 0;
    while j < i
        invariant
            j <= i < servers@.len(),
            forall|k: int|
                0 <= k < j ==>
                    #[trigger] server_views(servers@)[k].name
                        != server_views(servers@)[i as int].name,
        decreases i - j,
    {
        if servers[j].name == servers[i].name {
            assert(server_views(servers@)[j as int].name == server_views(servers@)[i as int].name);
            return true;
        }
        j += 1;
    }
    false
}

/// The environment variable that holds a server's bearer token, if its configuration names one
/// and no token.
pub open spec fn token_variable_of(server: ServerConfigView) -> Option<Seq<char>> {
    match server.auth {
        Some(AuthView::Object { kind, token, token_env }) => if kind == "bearer"@ && token is None {
            token_env
        } else {
            None
        },
        _ => None,
    }
}

/// The environment variables that hold bearer tokens of servers, in the order of the servers.
pub open spec fn token_variables_of(servers: Seq<ServerConfigView>) -> Seq<Seq<char>>
    decreases servers.len(),
{
    if servers.len() == 0 {
        Seq::empty()
    } else {
        let before = token_variables_of(servers.drop_last());
        match token_variable_of(servers.last()) {
            Some(name) => before.push(name),
            None => before,
        }
    }
}

/// The bearer token that a server is sent, where `variables` is what environment variables hold.
pub open spec fn bearer_token_of(
    server: ServerConfigView,
    variables: Map<Seq<char>, Seq<char>>,
) -> Result<Option<Seq<char>>, ConfigFault> {
    match server.auth {
        None => Ok(None),
        Some(AuthView::Mode(mode)) => if mode == "none"@ {
            Ok(None)
        } else {
            Err(ConfigFault::UnsupportedAuthMode(mode))
        },
        Some(AuthView::Object { kind, token, token_env }) => if kind == "none"@ {
            Ok(None)
        } else if kind != "bearer"@ {
            Err(ConfigFault::UnsupportedAuthType(kind))
        } else {
            match (token, token_env) {
                (Some(t), _) => Ok(Some(t)),
                (None, Some(name)) => if variables.contains_key(name) {
                    Ok(Some(variables[name]))
                } else {
                    Err(ConfigFault::MissingTokenVariable { variable: name, server: server.name })
                },
                (None, None) => Err(ConfigFault::BearerWithoutToken(server.name)),
            }
        },
    }
}

/// What an optional token holds, or what stood in its way.
pub open spec fn token_view(token: Result<Option<String>, ConfigError>) -> Result<
    Option<Seq<char>>,
    ConfigFault,
> {
    match token {
        Ok(t) => Ok(text::optional(t)),
        Err(error) => Err(error@),
    }
}

/// Does the upstream session of a server have to start afresh when its configuration changes from
/// `old` to `new`? It does where the change touches whom the gateway talks to, or how.
pub open spec fn fresh_session_needed(old: ServerConfigView, new: ServerConfigView) -> bool {
    ||| old.url != new.url
    ||| old.protocol != new.protocol
    ||| old.tls_skip_verify != new.tls_skip_verify
    ||| old.auth != new.auth
    ||| old.headers != new.headers
    ||| old.normalize_sse_events != new.normalize_sse_events
    ||| old.inject_accept_header != new.inject_accept_header
}

fn same_auth(a: &Option<AuthConfig>, b: &Option<AuthConfig>) -> (same: bool)
    ensures
        same == (auth_view(*a) == auth_view(*b)),
{
    match (a, b) {
        (None, None) => true,
        (Some(AuthConfig::Mode(x)), Some(AuthConfig::Mode(y))) => *x == *y,
        (Some(AuthConfig::Object(x)), Some(AuthConfig::Object(y))) => {
            x.kind == y.kind && text::same_optional(&x.token, &y.token) && text::same_optional(
                &x.token_env,
                &y.token_env,
            )
        },
        _ => false,
    }
}

fn copy_auth(auth: &Option<AuthConfig>) -> (copy: Option<AuthConfig>)
    ensures
        auth_view(copy) == auth_view(*auth),
{
    match auth {
        None => None,
        Some(AuthConfig::Mode(mode)) => Some(AuthConfig::Mode(mode.clone())),
        Some(AuthConfig::Object(object)) => Some(
            AuthConfig::Object(
                AuthObject {
                    kind: object.kind.clone(),
                    token: text::copy_optional(&object.token),
                    token_env: text::copy_optional(&object.token_env),
                },
            ),
        ),
    }
}

/// Do two tables hold the same texts under the same names?
fn same_texts(a: &Table<String>, b: &Table<String>) -> (same: bool)
    requires
        a.wf(),
        b.wf(),
    ensures
        same == (text_map(*a) == text_map(*b)),
{
    proof {
        a.lemma_names();
        b.lemma_names();
    }
    let ghost left = text_map(*a);
    let ghost right = text_map(*b);
    assert(left.dom() =~= a.map().dom());
    assert(right.dom() =~= b.map().dom());
    if a.len() != b.len() {
        return false;
    }
    let mut i: usize = 0;
    while i < a.len()
        invariant
            a.wf(),
            b.wf(),
            i <= a.names().len(),
            left == text_map(*a),
            right == text_map(*b),
            left.dom() == a.map().dom(),
            right.dom() == b.map().dom(),
            forall|k: int|
                0 <= k < a.names().len() ==> a.map().contains_key(#[trigger] a.names()[k]),
            forall|k: int|
                0 <= k < i ==> right.contains_key(#[trigger] a.names()[k]) && left[a.names()[k]]
                    == right[a.names()[k]],
        decreases a.names().len() - i,
    {
        let ghost name = a.names()[i as int];
        match b.get(a.name_at(i).as_str()) {
            Some(value) => {
                if *value != *a.value_at(i) {
                    assert(left[name] != right[name]);
                    return false;
                }
            },
            None => {
                assert(left.contains_key(name) && !right.contains_key(name));
                return false;
            },
        }
        i += 1;
    }
    proof {
        assert forall|name: Seq<char>| left.contains_key(name) implies right.contains_key(name)
            && left[name] == right[name] by {
            assert(a.map().contains_key(name));
            assert(a.names().contains(name));
        }
        assert(left.dom().subset_of(right.dom()));
        vstd::set_lib::lemma_subset_equality(left.dom(), right.dom());
        assert(left =~= right);
    }
    true
}

/// A table of its own that holds the same texts under the same names.
fn copy_texts(table: &Table<String>) -> (copy: Table<String>)
    requires
        table.wf(),
    ensures
        copy.wf(),
        text_map(copy) == text_map(*table),
{
    proof {
        table.lemma_names();
    }
    let mut copy: Table<String> = Table::new();
    let mut i: usize = 0;
    while i < table.len()
        invariant
            table.wf(),
            copy.wf(),
            i <= table.names().len(),
            table.names().no_duplicates(),
            forall|k: int|
                0 <= k < table.names().len() ==>
                    table.map().contains_key(#[trigger] table.names()[k]),
            forall|name: Seq<char>| #[trigger]
                copy.map().contains_key(name) <==> exists|k: int|
                    0 <= k < i && #[trigger] table.names()[k] == name,
            forall|k: int|
                0 <= k < i ==> copy.map()[#[trigger] table.names()[k]]@
                    == table.map()[table.names()[k]]@,
        decreases table.names().len() - i,
    {
        let ghost before = copy.map();
        copy.insert(table.name_at(i).clone(), table.value_at(i).clone());
        proof {
            let here = table.names()[i as int];
            assert forall|name: Seq<char>| #[trigger]
                copy.map().contains_key(name) <==> exists|k: int|
                    0 <= k < i + 1 && #[trigger] table.names()[k] == name by {
                if name == here {
                    assert(table.names()[i as int] == name);
                }
                if before.contains_key(name) {
                    let k = choose|k: int| 0 <= k < i && #[trigger] table.names()[k] == name;
                    assert(table.names()[k] == name);
                }
            }
        }
        i += 1;
    }
    proof {
        assert forall|name: Seq<char>| text_map(copy).contains_key(name) <==> text_map(
            *table,
        ).contains_key(name) by {
            if table.map().contains_key(name) {
                assert(table.names().contains(name));
                let k = choose|k: int| 0 <= k < table.names().len() && table.names()[k] == name;
                assert(table.names()[k] == name);
            }
            assert(copy.map().contains_key(name) == text_map(copy).contains_key(name));
        }
        assert forall|name: Seq<char>|
            text_map(copy).contains_key(name) implies #[trigger] text_map(
            copy,
        )[name] == text_map(*table)[name] by {
            assert(copy.map().contains_key(name));
            let k = choose|k: int|
                0 <= k < table.names().len() && #[trigger] table.names()[k] == name;
            assert(table.names()[k] == name);
        }
        assert(text_map(copy) =~= text_map(*table));
    }
    copy
}

impl ServerConfig {
    /// The Accept header that the server is sent.
    pub fn accept_header(&self) -> (accept: &str)
        ensures
            accept@ == (match self@.inject_accept_header {
                Some(own) => own,
                None => DEFAULT_ACCEPT@,
            }),
    {
        match &self.quirks.inject_accept_header {
            Some(own) => own.as_str(),
            None => DEFAULT_ACCEPT,
        }
    }

    /// The environment variable that holds the server's bearer token.
    pub fn token_variable(&self) -> (name: Option<&str>)
        ensures
            crate::json::text_option(name) == token_variable_of(self@),
    {
        match &self.auth {
            Some(AuthConfig::Object(auth)) => {
                if text::same_text(auth.kind.as_str(), "bearer") && auth.token.is_none() {
                    match &auth.token_env {
                        Some(name) => Some(name.as_str()),
                        None => None,
                    }
                } else {
                    None
                }
            },
            _ => None,
        }
    }

    /// The bearer token that the server is sent, where `variables` is what environment variables
    /// hold.
    pub fn bearer_token(&self, variables: &Table<String>) -> (token: Result<
        Option<String>,
        ConfigError,
    >)
        requires
            variables.wf(),
        ensures
            token_view(token) == bearer_token_of(self@, text_map(*variables)),
    {
        proof {
            reveal_strlit("none");
            reveal_strlit("bearer");
        }
        match &self.auth {
            None => Ok(None),
            Some(AuthConfig::Mode(mode)) => {
                if text::same_text(mode.as_str(), "none") {
                    Ok(None)
                } else {
                    Err(ConfigError::UnsupportedAuthMode(mode.clone()))
                }
            },
            Some(AuthConfig::Object(auth)) => {
                if text::same_text(auth.kind.as_str(), "none") {
                    return Ok(None);
                }
                if !text::same_text(auth.kind.as_str(), "bearer") {
                    return Err(ConfigError::UnsupportedAuthType(auth.kind.clone()));
                }
                if let Some(token) = &auth.token {
                    return Ok(Some(token.clone()));
                }
                match &auth.token_env {
                    Some(name) => match variables.get(name.as_str()) {
                        Some(value) => Ok(Some(value.clone())),
                        None => Err(
                            ConfigError::MissingTokenVariable {
                                variable: name.clone(),
                                server: self.name.clone(),
                            },
                        ),
                    },
                    None => Err(ConfigError::BearerWithoutToken(self.name.clone())),
                }
            },
        }
    }

    /// Does the upstream session have to start afresh when the configuration becomes `new`?
    pub fn requires_fresh_upstream_session(&self, new: &ServerConfig) -> (fresh: bool)
        requires
            self.wf(),
            new.wf(),
        ensures
            fresh == fresh_session_needed(self@, new@),
    {
        self.url != new.url || self.protocol != new.protocol || self.tls_skip_verify
            != new.tls_skip_verify || !same_auth(&self.auth, &new.auth) || !same_texts(
            &self.headers,
            &new.headers,
        ) || self.quirks.normalize_sse_events != new.quirks.normalize_sse_events
            || !text::same_optional(
            &self.quirks.inject_accept_header,
            &new.quirks.inject_accept_header,
        )
    }

    /// Do two configurations of a server say the same?
    pub fn same(&self, other: &ServerConfig) -> (same: bool)
        requires
            self.wf(),
            other.wf(),
        ensures
            same == (self@ == other@),
    {
        self.name == other.name && self.required == other.required && self.reconnect
            == other.reconnect && self.tools == other.tools
            && !self.requires_fresh_upstream_session(other)
    }

    /// A configuration of its own that says the same.
    pub fn copy(&self) -> (copy: ServerConfig)
        requires
            self.wf(),
        ensures
            copy.wf(),
            copy@ == self@,
    {
        ServerConfig {
            name: self.name.clone(),
            url: self.url.clone(),
            protocol: self.protocol.clone(),
            required: self.required,
            tls_skip_verify: self.tls_skip_verify,
            auth: copy_auth(&self.auth),
            headers: copy_texts(&self.headers),
            quirks: QuirksConfig {
                normalize_sse_events: self.quirks.normalize_sse_events,
                inject_accept_header: text::copy_optional(&self.quirks.inject_accept_header),
            },
            reconnect: self.reconnect,
            tools: self.tools,
        }
    }
}

/// The environment variables that hold bearer tokens of a configuration's servers. What they hold
/// is read when the configuration takes effect.
pub fn token_variables(config: &Config) -> (names: Vec<String>)
    ensures
        text::texts(names@) == token_variables_of(config@.servers),
{
    let ghost views = config@.servers;
    let mut names: Vec<String> = Vec::new();
    let mut i: usize = 0;
    assert(text::texts(names@) =~= token_variables_of(views.take(0)));
    while i < config.servers.len()
        invariant
            i <= config.servers@.len(),
            views == server_views(config.servers@),
            text::texts(names@) == token_variables_of(views.take(i as int)),
        decreases config.servers@.len() - i,
    {
        let ghost before = text::texts(names@);
        assert(views.take(i + 1).drop_last() =~= views.take(i as int));
        if let Some(name) = config.servers[i].token_variable() {
            names.push(name.to_owned());
            assert(text::texts(names@) =~= before.push(name@));
        }
        i += 1;
    }
    assert(views.take(i as int) =~= views);
    names
}

/// The token that downstream clients have to show, where `variable` is what
/// `MCPSTEAD_BEARER_TOKEN` holds.
pub open spec fn client_token(config: ConfigView, variable: Option<Seq<char>>) -> Result<
    Option<Seq<char>>,
    ConfigFault,
> {
    match config.auth_mode {
        McpAuthMode::NoAuth => Ok(None),
        McpAuthMode::Bearer => match variable {
            Some(value) => Ok(Some(value)),
            None => Err(ConfigFault::MissingBearerToken),
        },
    }
}

/// The token that downstream clients have to show, where `variable` is what
/// `MCPSTEAD_BEARER_TOKEN` holds.
pub fn load_mcp_bearer_token(config: &Config, variable: Option<String>) -> (token: Result<
    Option<String>,
    ConfigError,
>)
    ensures
        token_view(token) == client_token(config@, text::optional(variable)),
{
    match config.mcp.auth.mode {
        McpAuthMode::NoAuth => Ok(None),
        McpAuthMode::Bearer => match variable {
            Some(value) => Ok(Some(value)),
            None => Err(ConfigError::MissingBearerToken),
        },
    }
}

/// Can idle sessions outlive their time, because they are collected less often than it runs?
pub fn idle_sessions_may_outlive_ttl(session: &McpSessionConfig) -> (yes: bool)
    ensures
        yes == (session.gc_interval_seconds > session.idle_ttl_seconds),
{
    session.gc_interval_seconds > session.idle_ttl_seconds
}

/// Where the configuration is read from: the path of the command line, else that of the
/// environment, else the default file where there is one.
pub open spec fn chosen_path(
    flag: Option<Seq<char>>,
    variable: Option<Seq<char>>,
    default_file: Option<Seq<char>>,
) -> Option<Seq<char>> {
    if flag is Some {
        flag
    } else if variable is Some {
        variable
    } else {
        default_file
    }
}

/// Where the configuration is read from: the path of the command line, else that of the
/// environment, else the default file where there is one.
pub fn config_path(
    flag: Option<String>,
    variable: Option<String>,
    default_file: Option<String>,
) -> (path: Result<String, ConfigError>)
    ensures
        match path {
            Ok(p) => Some(p@) == (match (flag, variable, default_file) {
                (Some(f), _, _) => Some(f@),
                (None, Some(v), _) => Some(v@),
                (None, None, d) => text::optional(d),
            }),
            Err(error) => {
                &&& flag is None && variable is None && default_file is None
                &&& error@ == ConfigFault::MissingConfigPath
            },
        },
        match path {
            Ok(p) => chosen_path(
                text::optional(flag),
                text::optional(variable),
                text::optional(default_file),
            ) == Some(p@),
            Err(_) => chosen_path(
                text::optional(flag),
                text::optional(variable),
                text::optional(default_file),
            ) is None,
        },
{
    match flag {
        Some(path) => Ok(path),
        None => match variable {
            Some(path) => Ok(path),
            None => match default_file {
                Some(path) => Ok(path),
                None => Err(ConfigError::MissingConfigPath),
            },
        },
    }
}

/// The address that the gateway listens on, as `host:port`.
pub open spec fn address_of(config: ConfigView) -> Seq<char> {
    config.host + ":"@ + text::decimal(config.port as nat)
}

/// The address that the gateway listens on, as `host:port`.
pub fn listen_address(config: &Config) -> (address: String)
    ensures
        address@ == address_of(config@),
{
    let port = text::decimal_text(config.port as u64);
    around(config.host.as_str(), ":", port.as_str())
}

/// What is said of a listening address that is none.
pub fn invalid_bind_address(config: &Config) -> (message: String)
    ensures
        message@ == "invalid bind address '"@ + address_of(config@) + "'"@,
{
    around("invalid bind address '", listen_address(config).as_str(), "'")
}

/// The servers by name. Of two with one name the later counts.
pub open spec fn by_name(servers: Seq<ServerConfigView>) -> Map<Seq<char>, ServerConfigView>
    decreases servers.len(),
{
    if servers.len() == 0 {
        Map::empty()
    } else {
        by_name(servers.drop_last()).insert(servers.last().name, servers.last())
    }
}

/// The names of the map are those of the servers, and a server stands under its own name.
pub proof fn lemma_by_name(servers: Seq<ServerConfigView>)
    ensures
        by_name(servers).dom().finite(),
        forall|name: Seq<char>| #[trigger]
            by_name(servers).contains_key(name) <==> exists|i: int|
                0 <= i < servers.len() && #[trigger] servers[i].name == name,
        forall|name: Seq<char>| #[trigger]
            by_name(servers).contains_key(name) ==> by_name(servers)[name].name == name,
    decreases servers.len(),
{
    if servers.len() > 0 {
        let shorter = servers.drop_last();
        lemma_by_name(shorter);
        assert forall|name: Seq<char>| #[trigger]
            by_name(servers).contains_key(name) <==> exists|i: int|
                0 <= i < servers.len() && #[trigger] servers[i].name == name by {
            if by_name(servers).contains_key(name) {
                if name == servers.last().name {
                    assert(servers[servers.len() - 1].name == name);
                } else {
                    let i = choose|i: int|
                        0 <= i < shorter.len() && #[trigger] shorter[i].name == name;
                    assert(servers[i].name == name);
                }
            }
            if exists|i: int| 0 <= i < servers.len() && #[trigger] servers[i].name == name {
                let i = choose|i: int| 0 <= i < servers.len() && #[trigger] servers[i].name == name;
                if i < shorter.len() {
                    assert(shorter[i].name == name);
                }
            }
        }
    }
}

/// Where no two servers share a name, each of them is found under its own.
pub proof fn lemma_by_name_distinct(servers: Seq<ServerConfigView>, i: int)
    requires
        0 <= i < servers.len(),
        forall|a: int, b: int|
            0 <= a < b < servers.len() ==> (#[trigger] servers[a]).name
                != (#[trigger] servers[b]).name,
    ensures
        by_name(servers).contains_key(servers[i].name),
        by_name(servers)[servers[i].name] == servers[i],
    decreases servers.len(),
{
    if i < servers.len() - 1 {
        assert(servers.drop_last()[i] == servers[i]);
        lemma_by_name_distinct(servers.drop_last(), i);
        assert(servers[i].name != servers[servers.len() - 1].name);
    }
}

impl Config {
    /// A configuration of its own that says the same.
    pub fn copy(&self) -> (copy: Config)
        requires
            self.wf(),
        ensures
            copy.wf(),
            copy@ == self@,
    {
        let mut servers: Vec<ServerConfig> = Vec::new();
        let mut i: usize = 0;
        while i < self.servers.len()
            invariant
                self.wf(),
                i <= self.servers@.len(),
                server_views(servers@) == server_views(self.servers@.take(i as int)),
                forall|k: int| 0 <= k < servers@.len() ==> (#[trigger] servers@[k]).wf(),
            decreases self.servers@.len() - i,
        {
            let ghost before = server_views(servers@);
            assert(self.servers@[i as int].wf());
            servers.push(self.servers[i].copy());
            assert(server_views(servers@) =~= before.push(self.servers@[i as int]@));
            assert(server_views(self.servers@.take(i + 1)) =~= before.push(
                self.servers@[i as int]@,
            ));
            i += 1;
        }
        assert(self.servers@.take(i as int) =~= self.servers@);
        Config {
            host: self.host.clone(),
            port: self.port,
            mcp: McpConfig {
                auth: McpAuthConfig {
                    mode: self.mcp.auth.mode,
                    bearer_token: text::copy_optional(&self.mcp.auth.bearer_token),
                },
                session: self.mcp.session,
            },
            servers,
            metrics: self.metrics,
            logging: LoggingConfig { level: self.logging.level.clone() },
        }
    }
}

/// A configuration that is accepted holds no token for clients and no time of zero; each of its
/// servers has a name without two underscores in a row and an address, and no two have one name.
pub proof fn law_accepted_configuration(config: ConfigView, i: int, j: int, at: int)
    requires
        config_fault(config) is None,
        0 <= i < config.servers.len(),
    ensures
        config.auth_bearer_token is None,
        config.session.idle_ttl_seconds > 0,
        config.session.gc_interval_seconds > 0,
        config.session.shutdown_grace_seconds > 0,
        config.servers[i].name.len() > 0,
        config.servers[i].url.len() > 0,
        0 <= at < config.servers[i].name.len() - 1 ==> !(config.servers[i].name[at] == '_'
            && config.servers[i].name[at + 1] == '_'),
        0 <= j < config.servers.len() && j != i ==> config.servers[j].name
            != config.servers[i].name,
{
    law_valid_config_has_no_fault(config);
    let name = config.servers[i].name;
    if 0 <= at < name.len() - 1 && name[at] == '_' && name[at + 1] == '_' {
        reveal_strlit("__");
        assert(name.subrange(at, at + 2) =~= "__"@);
        assert(text::occurs_at(name, "__"@, at));
    }
    if 0 <= j < i {
        assert(config.servers[j].name != config.servers[i].name);
    }
}

/// Are the servers before place `i` without fault?
pub open spec fn sound_before(servers: Seq<ServerConfigView>, i: int) -> bool {
    forall|k: int| 0 <= k < i ==> (#[trigger] servers[k]).name.len() > 0 && !text::contains(
        servers[k].name,
        "__"@,
    ) && servers[k].url.len() > 0 && forall|j: int|
        0 <= j < k ==> (#[trigger] servers[j]).name != servers[k].name
}

proof fn lemma_first_fault(servers: Seq<ServerConfigView>, from: int, i: int)
    requires
        0 <= from <= i < servers.len(),
        forall|k: int| from <= k < i ==> (#[trigger] server_fault(servers, k)) is None,
        server_fault(servers, i) is Some,
    ensures
        servers_fault(servers, from) == server_fault(servers, i),
    decreases i - from,
{
    if from < i {
        assert(server_fault(servers, from) is None);
        lemma_first_fault(servers, from + 1, i);
    }
}

/// A configuration that is refused is refused for the first thing that is wrong with it: a token
/// for clients, a time of zero, or the first faulty server; of that, that it has no name, that its
/// name holds two underscores in a row, that it has no address, or that its name was there before.
pub proof fn law_refusal_names_the_first_fault(config: ConfigView, i: int)
    ensures
        config.auth_bearer_token is Some ==> config_fault(config) == Some(
            ConfigFault::BearerTokenInConfig,
        ),
        config.auth_bearer_token is None ==> {
            let session = config.session;
            &&& session.idle_ttl_seconds == 0 ==> config_fault(config) == Some(
                ConfigFault::ZeroIdleTtl,
            )
            &&& session.idle_ttl_seconds > 0 && session.gc_interval_seconds == 0 ==> config_fault(
                config,
            ) == Some(ConfigFault::ZeroGcInterval)
            &&& session.idle_ttl_seconds > 0 && session.gc_interval_seconds > 0
                && session.shutdown_grace_seconds == 0 ==> config_fault(config) == Some(
                ConfigFault::ZeroShutdownGrace,
            )
            &&& session.idle_ttl_seconds > 0 && session.gc_interval_seconds > 0
                && session.shutdown_grace_seconds > 0 && 0 <= i < config.servers.len()
                && sound_before(config.servers, i) ==> {
                let server = config.servers[i];
                &&& server.name.len() == 0 ==> config_fault(config) == Some(
                    ConfigFault::EmptyServerName,
                )
                &&& server.name.len() > 0 && text::contains(server.name, "__"@) ==> config_fault(
                    config,
                ) == Some(ConfigFault::SeparatorInServerName(server.name))
                &&& server.name.len() > 0 && !text::contains(server.name, "__"@) && server.url.len()
                    == 0 ==> config_fault(config) == Some(ConfigFault::EmptyServerUrl(server.name))
                &&& server.name.len() > 0 && !text::contains(server.name, "__"@) && server.url.len()
                    > 0 && (exists|j: int| 0 <= j < i && (#[trigger] config.servers[j]).name
                    == server.name) ==> config_fault(config) == Some(
                    ConfigFault::DuplicateServerName(server.name),
                )
            }
        },
{
    let servers = config.servers;
    if 0 <= i < servers.len() && sound_before(servers, i) {
        assert forall|k: int| 0 <= k < i implies (#[trigger] server_fault(servers, k)) is None by {
            assert(servers[k].name.len() > 0);
        }
        if exists|j: int| 0 <= j < i && (#[trigger] servers[j]).name == servers[i].name {
            let j = choose|j: int| 0 <= j < i && (#[trigger] servers[j]).name == servers[i].name;
            assert(servers[j].name == servers[i].name);
        }
        if server_fault(servers, i) is Some {
            lemma_first_fault(servers, 0, i);
        }
    }
}

/// What is said of a fault names it, and the server or the word that it is about.
pub proof fn law_words_for_faults(name: Seq<char>, server: Seq<char>)
    ensures
        fault_text(ConfigFault::BearerTokenInConfig)
            == "mcp.auth.bearer_token is not allowed; use MCPSTEAD_BEARER_TOKEN"@,
        fault_text(ConfigFault::ZeroIdleTtl)
            == "mcp.session.idle_ttl_seconds must be greater than 0"@,
        fault_text(ConfigFault::ZeroGcInterval)
            == "mcp.session.gc_interval_seconds must be greater than 0"@,
        fault_text(ConfigFault::ZeroShutdownGrace)
            == "mcp.session.shutdown_grace_seconds must be greater than 0"@,
        fault_text(ConfigFault::EmptyServerName) == "server name cannot be empty"@,
        fault_text(ConfigFault::SeparatorInServerName(name)) == "server name '"@ + name
            + "' cannot contain '__'"@,
        fault_text(ConfigFault::EmptyServerUrl(name)) == "server '"@ + name
            + "' url cannot be empty"@,
        fault_text(ConfigFault::DuplicateServerName(name)) == "duplicate server name '"@ + name
            + "'"@,
        fault_text(ConfigFault::UnsupportedAuthMode(name)) == "unsupported auth mode '"@ + name
            + "'"@,
        fault_text(ConfigFault::UnsupportedAuthType(name)) == "unsupported auth type '"@ + name
            + "'"@,
        fault_text(ConfigFault::MissingTokenVariable { variable: name, server })
            == "missing env var '"@ + name + "' for server '"@ + server + "'"@,
        fault_text(ConfigFault::BearerWithoutToken(name)) == "bearer auth for server '"@ + name
            + "' needs token or token_env"@,
        fault_text(ConfigFault::MissingBearerToken)
            == "MCPSTEAD_BEARER_TOKEN is required when mcp.auth.mode=bearer"@,
        fault_text(ConfigFault::MissingConfigPath)
            == "mcpstead requires --config <path> or MCPSTEAD_CONFIG=<path>"@,
{
}

/// What holds where a configuration says nothing.
pub proof fn law_defaults()
    ensures
        default_config().host == "127.0.0.1"@,
        default_config().port == 8766,
        default_config().auth_mode == McpAuthMode::NoAuth,
        default_config().auth_bearer_token is None,
        default_config().servers.len() == 0,
        default_config().metrics.enabled,
        default_config().logging_level == "info"@,
        default_config().session.idle_ttl_seconds == 3600,
        default_config().session.gc_interval_seconds == 60,
        default_config().session.shutdown_grace_seconds == 5,
        default_server().protocol == "auto"@,
        !default_server().required,
        !default_server().tls_skip_verify,
        default_server().auth is None,
        default_server().headers == Map::<Seq<char>, Seq<char>>::empty(),
        !default_server().normalize_sse_events,
        default_server().inject_accept_header is None,
        default_server().reconnect.max_attempts == 0,
        default_server().reconnect.backoff_base_ms == 1000,
        default_server().reconnect.backoff_max_ms == 30000,
        default_server().tools.ttl_seconds == 300,
{
}

/// The environment variables of tokens are those that servers name who have to show a token and
/// have none written down, in the order of the servers.
pub proof fn law_token_variables_go_by_servers(
    servers: Seq<ServerConfigView>,
    server: ServerConfigView,
)
    ensures
        token_variables_of(Seq::empty()) == Seq::<Seq<char>>::empty(),
        match server.auth {
            Some(AuthView::Object { kind, token, token_env }) => token_variables_of(
                servers.push(server),
            ) == if kind == "bearer"@ && token is None && token_env is Some {
                token_variables_of(servers).push(token_env->Some_0)
            } else {
                token_variables_of(servers)
            },
            _ => token_variables_of(servers.push(server)) == token_variables_of(servers),
        },
{
    assert(servers.push(server).drop_last() =~= servers);
}

/// A changed configuration asks for a fresh session exactly if it changes more than the name,
/// whether the server is required, how it is reached again and how often its tools are refreshed.
pub proof fn law_what_asks_for_a_fresh_session(old: ServerConfigView, new: ServerConfigView)
    ensures
        fresh_session_needed(old, new) <==> new != (ServerConfigView {
            name: new.name,
            required: new.required,
            reconnect: new.reconnect,
            tools: new.tools,
            ..old
        }),
{
}

/// Of servers with one name the later one counts, and the others stay.
pub proof fn law_later_server_of_a_name_counts(
    servers: Seq<ServerConfigView>,
    server: ServerConfigView,
    other: Seq<char>,
)
    requires
        other != server.name,
    ensures
        by_name(servers.push(server)).contains_key(server.name),
        by_name(servers.push(server))[server.name] == server,
        by_name(servers.push(server)).contains_key(other) <==> by_name(servers).contains_key(other),
        by_name(servers.push(server))[other] == by_name(servers)[other],
        by_name(Seq::empty()) == Map::<Seq<char>, ServerConfigView>::empty(),
{
    assert(servers.push(server).drop_last() =~= servers);
}

/// Clients have to show what the environment holds for them exactly if the configuration asks for a
/// token; without that the gateway does not run.
pub proof fn law_clients_show_the_token_of_the_environment(
    config: ConfigView,
    variable: Option<Seq<char>>,
)
    ensures
        config.auth_mode == McpAuthMode::NoAuth ==> (client_token(config, variable) matches Ok(none)
            && none is None),
        config.auth_mode == McpAuthMode::Bearer ==> match variable {
            Some(value) => client_token(config, variable) matches Ok(Some(token)) && token == value,
            None => client_token(config, variable) matches Err(fault) && fault
                == ConfigFault::MissingBearerToken,
        },
{
}

/// The path of the command line goes before that of the environment, and that before the default
/// file.
pub proof fn law_command_line_goes_first(
    path: Seq<char>,
    variable: Option<Seq<char>>,
    default_file: Option<Seq<char>>,
)
    ensures
        chosen_path(Some(path), variable, default_file) == Some(path),
        chosen_path(None, Some(path), default_file) == Some(path),
        chosen_path(None, None, default_file) == default_file,
{
}

/// The gateway listens on its host, at its port.
pub proof fn law_address_is_host_and_port(config: ConfigView)
    ensures
        ({
            let n = config.host.len() as int;
            let address = address_of(config);
            &&& address.take(n) == config.host
            &&& address[n] == ':'
            &&& text::number_in(address.skip(n + 1)) == config.port
        }),
{
    reveal_strlit(":");
    text::law_digits_stand_for_the_number(config.port as nat);
    let n = config.host.len() as int;
    assert(address_of(config).take(n) =~= config.host);
    assert(address_of(config).skip(n + 1) =~= text::decimal(config.port as nat));
}

/// A configuration is seen as it is.
pub proof fn law_configurations_are_seen_as_they_are(
    config: Config,
    server: ServerConfig,
    name: Seq<char>,
    i: int,
)
    ensures
        config@.host == config.host@,
        config@.port == config.port,
        config@.auth_mode == config.mcp.auth.mode,
        config.mcp.auth.bearer_token matches Some(token) ==> config@.auth_bearer_token == Some(
            token@,
        ),
        config.mcp.auth.bearer_token is None ==> config@.auth_bearer_token is None,
        config@.session == config.mcp.session,
        config@.metrics == config.metrics,
        config@.logging_level == config.logging.level@,
        config@.servers.len() == config.servers@.len(),
        0 <= i < config.servers@.len() ==> config@.servers[i] == config.servers@[i]@,
        server@.name == server.name@,
        server@.url == server.url@,
        server@.protocol == server.protocol@,
        server@.required == server.required,
        server@.tls_skip_verify == server.tls_skip_verify,
        server@.normalize_sse_events == server.quirks.normalize_sse_events,
        server.quirks.inject_accept_header matches Some(own) ==> server@.inject_accept_header
            == Some(own@),
        server.quirks.inject_accept_header is None ==> server@.inject_accept_header is None,
        server@.reconnect == server.reconnect,
        server@.tools == server.tools,
        server@.headers.contains_key(name) <==> server.headers.map().contains_key(name),
        server.headers.map().contains_key(name) ==> server@.headers[name]
            == server.headers.map()[name]@,
        server.auth is None ==> server@.auth is None,
        server.auth matches Some(AuthConfig::Mode(mode)) ==> server@.auth == Some(
            AuthView::Mode(mode@),
        ),
        server.auth matches Some(AuthConfig::Object(object)) ==> server@.auth == Some(
            AuthView::Object {
                kind: object.kind@,
                token: text::optional(object.token),
                token_env: text::optional(object.token_env),
            },
        ),
{
}

} // verus!
