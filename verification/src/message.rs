//! What a downstream client's message asks for.
use vstd::prelude::*;
use vstd::string::*;

use crate::config::{ServerConfig, ServerConfigView};
use crate::json;
use crate::json::{Json, JsonView};
use crate::rpc;
use crate::state::{ManagedServerView, Registry};
use crate::text;
use crate::tools;

verus! {

/// The version that the gateway gives for itself.
pub const VERSION: &'static str = "0.1.0";

/// A call of an upstream's tool that a client asks for.
#[derive(Debug)]
pub struct ToolCall {
    pub id: Json,
    pub server: String,
    pub tool: String,
    pub arguments: Json,
    pub config: ServerConfig,
    pub session_id: Option<String>,
}

/// A call of an upstream's tool, as mathematics.
pub struct ToolCallView {
    pub id: JsonView,
    pub server: Seq<char>,
    pub tool: Seq<char>,
    pub arguments: JsonView,
    pub config: ServerConfigView,
    pub session_id: Option<Seq<char>>,
}

impl View for ToolCall {
    type V = ToolCallView;

    open spec fn view(&self) -> ToolCallView {
        ToolCallView {
            id: self.id@,
            server: self.server@,
            tool: self.tool@,
            arguments: self.arguments@,
            config: self.config@,
            session_id: text::optional(self.session_id),
        }
    }
}

/// What becomes of a message.
#[derive(Debug)]
pub enum Handled {
    /// It gets no answer.
    Silent,
    /// It gets this answer.
    Answer(Json),
    /// It asks for a tool of a server that is not connected.
    Disconnected { id: Json, server: String, tool: String },
    /// It asks for a tool that has to be called.
    Call(ToolCall),
}

/// What becomes of a message, as mathematics.
pub enum HandledView {
    Silent,
    Answer(JsonView),
    Disconnected { id: JsonView, server: Seq<char>, tool: Seq<char> },
    Call(ToolCallView),
}

impl View for Handled {
    type V = HandledView;

    open spec fn view(&self) -> HandledView {
        match self {
            Handled::Silent => HandledView::Silent,
            Handled::Answer(answer) => HandledView::Answer(answer@),
            Handled::Disconnected { id, server, tool } => HandledView::Disconnected {
                id: id@,
                server: server@,
                tool: tool@,
            },
            Handled::Call(call) => HandledView::Call(call@),
        }
    }
}

/// The name under which a message is counted.
pub open spec fn method_name(message: JsonView) -> Seq<char> {
    match message.text_field("method"@) {
        Some(method) => if method == "initialize"@ || method == "notifications/initialized"@
            || method == "tools/list"@ || method == "tools/call"@ {
            method
        } else {
            "unknown"@
        },
        None => "invalid"@,
    }
}

/// The name under which a message is counted.
pub fn method_label(message: &Json) -> (label: &'static str)
    ensures
        label@ == method_name(message@),
{
    match message.get_str("method") {
        Some(method) => if text::same_text(method, "initialize") {
            "initialize"
        } else if text::same_text(method, "notifications/initialized") {
            "notifications/initialized"
        } else if text::same_text(method, "tools/list") {
            "tools/list"
        } else if text::same_text(method, "tools/call") {
            "tools/call"
        } else {
            "unknown"
        },
        None => "invalid",
    }
}

/// The version of the protocol that a client asks for.
pub open spec fn wanted_version(message: JsonView) -> Seq<char> {
    let asked = match message.field("params"@) {
        Some(params) => params.text_field("protocolVersion"@),
        None => None,
    };
    match asked {
        Some(version) => version,
        None => "2024-11-05"@,
    }
}

/// What the gateway says of itself.
pub open spec fn about_gateway() -> JsonView {
    JsonView::Object(
        json::no_fields().insert("name"@, JsonView::String("mcpstead"@)).insert(
            "version"@,
            JsonView::String(VERSION@),
        ),
    )
}

/// What the gateway can do.
pub open spec fn capabilities() -> JsonView {
    JsonView::Object(
        json::no_fields().insert(
            "tools"@,
            JsonView::Object(json::no_fields().insert("listChanged"@, JsonView::Bool(false))),
        ),
    )
}

/// The answer to a client that introduces itself.
pub open spec fn welcome(message: JsonView) -> JsonView {
    JsonView::Object(
        json::no_fields().insert(
            "protocolVersion"@,
            JsonView::String(wanted_version(message)),
        ).insert("capabilities"@, capabilities()).insert("serverInfo"@, about_gateway()),
    )
}

/// What the gateway says of itself.
pub fn gateway_info() -> (info: Json)
    ensures
        info@ == about_gateway(),
{
    let entries = json::with_member(json::no_members(), "name", Json::string("mcpstead"));
    Json::object(json::with_member(entries, "version", Json::string(VERSION)))
}

/// The answer to a client that introduces itself.
pub fn initialize_result(message: &Json) -> (result: Json)
    ensures
        result@ == welcome(message@),
{
    let asked = match message.get("params") {
        Some(params) => params.get_str("protocolVersion"),
        None => None,
    };
    let version = match asked {
        Some(version) => version,
        None => "2024-11-05",
    };
    let tools = json::with_member(json::no_members(), "listChanged", Json::Bool(false));
    let can = json::with_member(json::no_members(), "tools", Json::object(tools));
    let entries = json::with_member(json::no_members(), "protocolVersion", Json::string(version));
    let entries = json::with_member(entries, "capabilities", Json::object(can));
    Json::object(json::with_member(entries, "serverInfo", gateway_info()))
}

/// A text with a name in quotes in its middle.
pub open spec fn quoted(before: Seq<char>, name: Seq<char>, after: Seq<char>) -> Seq<char> {
    before + "'"@ + name + "'"@ + after
}

/// A text with a name in quotes in its middle.
pub fn quoted_text(before: &str, name: &str, after: &str) -> (text: String)
    ensures
        text@ == quoted(before@, name@, after@),
{
    let mut text = before.to_owned();
    text.append("'");
    text.append(name);
    text.append("'");
    text.append(after);
    text
}

/// The arguments of a tool call: none where the client gives none.
pub open spec fn call_arguments(params: JsonView) -> JsonView {
    match params.field("arguments"@) {
        Some(arguments) => arguments,
        None => JsonView::Object(json::no_fields()),
    }
}

/// What becomes of a request for a tool.
pub open spec fn call_handled(
    servers: Map<Seq<char>, ManagedServerView>,
    id: JsonView,
    message: JsonView,
) -> HandledView {
    let wrong = rpc::JSONRPC_INVALID_PARAMS as int;
    match message.field("params"@) {
        None => HandledView::Answer(rpc::error_of(id, wrong, "params are required"@)),
        Some(params) => match params.text_field("name"@) {
            None => HandledView::Answer(rpc::error_of(id, wrong, "params.name is required"@)),
            Some(full_name) => match text::split_once(full_name, "__"@) {
                None => HandledView::Answer(
                    rpc::error_of(id, wrong, "tool name must be server__tool"@),
                ),
                Some((server, tool)) => if !servers.contains_key(server) {
                    HandledView::Answer(
                        rpc::error_of(
                            id,
                            wrong,
                            quoted("unknown upstream "@, server, Seq::empty()),
                        ),
                    )
                } else if !servers[server].connected {
                    HandledView::Disconnected { id, server, tool }
                } else {
                    HandledView::Call(
                        ToolCallView {
                            id,
                            server,
                            tool,
                            arguments: call_arguments(params),
                            config: servers[server].config,
                            session_id: servers[server].session_id,
                        },
                    )
                },
            },
        },
    }
}

/// What becomes of a message that has an `id`.
pub open spec fn request_handled(
    servers: Map<Seq<char>, ManagedServerView>,
    id: JsonView,
    message: JsonView,
) -> HandledView {
    let wrong = rpc::JSONRPC_INVALID_REQUEST as int;
    if message.text_field("jsonrpc"@) != Some("2.0"@) {
        HandledView::Answer(rpc::error_of(id, wrong, "jsonrpc must be '2.0'"@))
    } else {
        match message.text_field("method"@) {
            None => HandledView::Answer(rpc::error_of(id, wrong, "method is required"@)),
            Some(method) => if method == "initialize"@ {
                HandledView::Answer(rpc::result_of(id, welcome(message)))
            } else if method == "notifications/initialized"@ {
                HandledView::Silent
            } else if method == "tools/list"@ {
                HandledView::Answer(rpc::result_of(id, tools::tools_result(servers)))
            } else if method == "tools/call"@ {
                call_handled(servers, id, message)
            } else {
                HandledView::Answer(
                    rpc::error_of(
                        id,
                        rpc::JSONRPC_METHOD_NOT_FOUND as int,
                        quoted("method "@, method, " not found"@),
                    ),
                )
            },
        }
    }
}

/// What becomes of a message. One without an `id` asks for no answer.
pub open spec fn handled(
    servers: Map<Seq<char>, ManagedServerView>,
    message: JsonView,
) -> HandledView {
    match message {
        JsonView::Object(_) => match message.field("id"@) {
            Some(id) => request_handled(servers, id, message),
            None => HandledView::Silent,
        },
        _ => HandledView::Answer(
            rpc::error_of(
                JsonView::Null,
                rpc::JSONRPC_INVALID_REQUEST as int,
                "request must be an object"@,
            ),
        ),
    }
}

/// What becomes of a request for a tool.
pub fn call_tool(registry: &Registry, response_id: Json, message: &Json) -> (outcome: Handled)
    requires
        registry.wf(),
    ensures
        outcome@ == call_handled(registry@, response_id@, message@),
        outcome matches Handled::Call(call) ==> call.config.wf(),
{
    let params = match message.get("params") {
        Some(params) => params,
        None => {
            return Handled::Answer(
                rpc::json_rpc_error(
                    response_id,
                    rpc::JSONRPC_INVALID_PARAMS,
                    "params are required",
                ),
            );
        },
    };
    let full_name = match params.get_str("name") {
        Some(full_name) => full_name,
        None => {
            return Handled::Answer(
                rpc::json_rpc_error(
                    response_id,
                    rpc::JSONRPC_INVALID_PARAMS,
                    "params.name is required",
                ),
            );
        },
    };
    let (server_name, tool_name) = match text::split_text_once(full_name, "__") {
        Some(parts) => parts,
        None => {
            return Handled::Answer(
                rpc::json_rpc_error(
                    response_id,
                    rpc::JSONRPC_INVALID_PARAMS,
                    "tool name must be server__tool",
                ),
            );
        },
    };
    let arguments = match params.get("arguments") {
        Some(arguments) => arguments.copy(),
        None => Json::object(json::no_members()),
    };
    match registry.servers.get(server_name.as_str()) {
        None => {
            proof {
                reveal_strlit("");
                assert(""@ =~= Seq::empty());
            }
            let unknown = quoted_text("unknown upstream ", server_name.as_str(), "");
            Handled::Answer(
                rpc::json_rpc_error(response_id, rpc::JSONRPC_INVALID_PARAMS, unknown.as_str()),
            )
        },
        Some(server) => {
            assert(registry@[server_name@] == server@);
            if server.connected {
                Handled::Call(
                    ToolCall {
                        id: response_id,
                        server: server_name,
                        tool: tool_name,
                        arguments,
                        config: server.config.copy(),
                        session_id: text::copy_optional(&server.session_id),
                    },
                )
            } else {
                Handled::Disconnected { id: response_id, server: server_name, tool: tool_name }
            }
        },
    }
}

/// What becomes of a message.
pub fn handle_message(registry: &Registry, message: &Json) -> (outcome: Handled)
    requires
        registry.wf(),
    ensures
        outcome@ == handled(registry@, message@),
        outcome matches Handled::Call(call) ==> call.config.wf(),
{
    if message.as_object().is_none() {
        return Handled::Answer(
            rpc::json_rpc_error(
                Json::Null,
                rpc::JSONRPC_INVALID_REQUEST,
                "request must be an object",
            ),
        );
    }
    let id = match message.get("id") {
        Some(id) => id.copy(),
        None => return Handled::Silent,
    };
    let current = match message.get_str("jsonrpc") {
        Some(version) => text::same_text(version, "2.0"),
        None => false,
    };
    if !current {
        return Handled::Answer(
            rpc::json_rpc_error(id, rpc::JSONRPC_INVALID_REQUEST, "jsonrpc must be '2.0'"),
        );
    }
    let method = match message.get_str("method") {
        Some(method) => method,
        None => {
            return Handled::Answer(
                rpc::json_rpc_error(id, rpc::JSONRPC_INVALID_REQUEST, "method is required"),
            );
        },
    };
    if text::same_text(method, "initialize") {
        Handled::Answer(rpc::json_rpc_result(id, initialize_result(message)))
    } else if text::same_text(method, "notifications/initialized") {
        Handled::Silent
    } else if text::same_text(method, "tools/list") {
        Handled::Answer(rpc::json_rpc_result(id, tools::list_downstream_tools(registry)))
    } else if text::same_text(method, "tools/call") {
        call_tool(registry, id, message)
    } else {
        let unknown = quoted_text("method ", method, " not found");
        Handled::Answer(
            rpc::json_rpc_error(id, rpc::JSONRPC_METHOD_NOT_FOUND, unknown.as_str()),
        )
    }
}

/// A message without an `id` gets no answer.
pub proof fn law_notification_gets_no_answer(
    servers: Map<Seq<char>, ManagedServerView>,
    message: JsonView,
)
    requires
        message is Object,
        message.field("id"@) is None,
    ensures
        handled(servers, message) == HandledView::Silent,
{
}

/// A client that asks for a tool of a connected server by its qualified name has that tool of that
/// server called, where the server's name neither holds `"__"` nor ends in `_`.
pub proof fn law_offered_tool_is_called(
    servers: Map<Seq<char>, ManagedServerView>,
    server: Seq<char>,
    tool: Seq<char>,
    message: JsonView,
    id: JsonView,
    params: JsonView,
)
    requires
        servers.contains_key(server),
        servers[server].connected,
        !text::contains(server, "__"@),
        server.len() == 0 || server.last() != '_',
        message.field("id"@) == Some(id),
        message.text_field("jsonrpc"@) == Some("2.0"@),
        message.text_field("method"@) == Some("tools/call"@),
        message.field("params"@) == Some(params),
        params.text_field("name"@) == Some(tools::qualified(server, tool)),
    ensures
        handled(servers, message) == HandledView::Call(
            ToolCallView {
                id,
                server,
                tool,
                arguments: call_arguments(params),
                config: servers[server].config,
                session_id: servers[server].session_id,
            },
        ),
{
    tools::law_qualified_name_splits(server, tool);
    reveal_strlit("initialize");
    reveal_strlit("notifications/initialized");
    reveal_strlit("tools/list");
    reveal_strlit("tools/call");
    assert("initialize"@[0] == 'i' && "notifications/initialized"@[0] == 'n');
    assert("tools/list"@[6] == 'l' && "tools/call"@[0] == 't' && "tools/call"@[6] == 'c');
}

/// No tool of a server that is unknown or not connected is called.
pub proof fn law_only_connected_servers_are_called(
    servers: Map<Seq<char>, ManagedServerView>,
    message: JsonView,
)
    ensures
        handled(servers, message) matches HandledView::Call(call) ==> servers.contains_key(
            call.server,
        ) && servers[call.server].connected,
{
}

/// A tool that is listed is called by the name under which it is listed, where the name of its
/// server neither holds `"__"` nor ends in `_`.
pub proof fn law_listed_tool_is_called(
    servers: Map<Seq<char>, ManagedServerView>,
    server: Seq<char>,
    i: int,
    message: JsonView,
    id: JsonView,
    params: JsonView,
)
    requires
        servers.contains_key(server),
        servers[server].connected,
        0 <= i < servers[server].tools.len(),
        tools::namespaced(server, servers[server].tools[i]) is Some,
        !text::contains(server, "__"@),
        server.len() == 0 || server.last() != '_',
        message.field("id"@) == Some(id),
        message.text_field("jsonrpc"@) == Some("2.0"@),
        message.text_field("method"@) == Some("tools/call"@),
        message.field("params"@) == Some(params),
        params.text_field("name"@) == tools::namespaced(
            server,
            servers[server].tools[i],
        )->Some_0.text_field("name"@),
    ensures
        handled(servers, message) matches HandledView::Call(call) && call.server == server && Some(
            call.tool,
        ) == servers[server].tools[i].text_field("name"@),
{
    let tool = servers[server].tools[i];
    tools::law_offered_tool_keeps_its_members(server, tool, Seq::empty());
    law_offered_tool_is_called(
        servers,
        server,
        tool.text_field("name"@)->Some_0,
        message,
        id,
        params,
    );
}

/// Is a message answered under `id` with an error of this code and in these words?
pub open spec fn fails_with(
    outcome: HandledView,
    id: JsonView,
    code: int,
    words: Seq<char>,
) -> bool {
    outcome matches HandledView::Answer(answer) && {
        &&& answer.text_field("jsonrpc"@) == Some("2.0"@)
        &&& answer.field("id"@) == Some(id)
        &&& answer.field("result"@) is None
        &&& answer.field("error"@) matches Some(error) && {
            &&& error.field("code"@) == Some(JsonView::Number(json::int_number(code)))
            &&& error.text_field("message"@) == Some(words)
        }
    }
}

/// Is a message answered under `id` with this result?
pub open spec fn succeeds_with(outcome: HandledView, id: JsonView, result: JsonView) -> bool {
    outcome matches HandledView::Answer(answer) && {
        &&& answer.text_field("jsonrpc"@) == Some("2.0"@)
        &&& answer.field("id"@) == Some(id)
        &&& answer.field("result"@) == Some(result)
        &&& answer.field("error"@) is None
    }
}

/// Is a message a request of JSON-RPC under `id` that calls `method`?
pub open spec fn requests(message: JsonView, id: JsonView, method: Seq<char>) -> bool {
    &&& message is Object
    &&& message.field("id"@) == Some(id)
    &&& message.text_field("jsonrpc"@) == Some("2.0"@)
    &&& message.text_field("method"@) == Some(method)
}

/// The methods have different names.
proof fn lemma_method_names()
    ensures
        "initialize"@ != "notifications/initialized"@,
        "initialize"@ != "tools/list"@,
        "initialize"@ != "tools/call"@,
        "notifications/initialized"@ != "tools/list"@,
        "notifications/initialized"@ != "tools/call"@,
        "tools/list"@ != "tools/call"@,
{
    reveal_strlit("initialize");
    reveal_strlit("notifications/initialized");
    reveal_strlit("tools/list");
    reveal_strlit("tools/call");
    assert("initialize"@[0] == 'i' && "notifications/initialized"@[0] == 'n');
    assert("tools/list"@[0] == 't' && "tools/call"@[0] == 't');
    assert("tools/list"@[6] == 'l' && "tools/call"@[6] == 'c');
}

/// A client that introduces itself is told the version of the protocol that it asks for, or the
/// gateway's own where it asks for none; that the gateway has tools, of whose change it does not
/// tell; and the gateway's name and version.
pub proof fn law_welcome_names_the_gateway(
    servers: Map<Seq<char>, ManagedServerView>,
    message: JsonView,
    id: JsonView,
)
    requires
        requests(message, id, "initialize"@),
    ensures
        exists|result: JsonView| #[trigger]
            succeeds_with(handled(servers, message), id, result) && {
                &&& result.text_field("protocolVersion"@) == Some(
                    match message.field("params"@) {
                        Some(params) => match params.text_field("protocolVersion"@) {
                            Some(version) => version,
                            None => "2024-11-05"@,
                        },
                        None => "2024-11-05"@,
                    },
                )
                &&& result.field("capabilities"@) matches Some(able) && able.field(
                    "tools"@,
                ) matches Some(tools) && tools.field("listChanged"@) == Some(JsonView::Bool(false))
                &&& result.field("serverInfo"@) matches Some(info) && info.text_field("name"@)
                    == Some("mcpstead"@) && info.text_field("version"@) == Some("0.1.0"@)
            },
{
    lemma_method_names();
    reveal_strlit("protocolVersion");
    reveal_strlit("capabilities");
    reveal_strlit("serverInfo");
    reveal_strlit("name");
    reveal_strlit("version");
    assert("protocolVersion"@.len() == 15 && "capabilities"@.len() == 12 && "serverInfo"@.len()
        == 10 && "name"@.len() == 4 && "version"@.len() == 7);
    rpc::lemma_result_fields(id, welcome(message));
    assert(succeeds_with(handled(servers, message), id, welcome(message)));
}

/// What is no object, or no request of JSON-RPC, or calls no method or one that the gateway does
/// not know, is answered with an error that says so.
pub proof fn law_faulty_messages_are_refused(
    servers: Map<Seq<char>, ManagedServerView>,
    message: JsonView,
    id: JsonView,
)
    ensures
        !(message is Object) ==> fails_with(
            handled(servers, message),
            JsonView::Null,
            -32600,
            "request must be an object"@,
        ),
        message is Object && message.field("id"@) == Some(id) ==> {
            &&& message.text_field("jsonrpc"@) != Some("2.0"@) ==> fails_with(
                handled(servers, message),
                id,
                -32600,
                "jsonrpc must be '2.0'"@,
            )
            &&& message.text_field("jsonrpc"@) == Some("2.0"@) ==> match message.text_field(
                "method"@,
            ) {
                None => fails_with(handled(servers, message), id, -32600, "method is required"@),
                Some(method) => method != "initialize"@ && method != "notifications/initialized"@
                    && method != "tools/list"@ && method != "tools/call"@ ==> fails_with(
                    handled(servers, message),
                    id,
                    -32601,
                    "method "@ + "'"@ + method + "'"@ + " not found"@,
                ),
            }
        },
{
    rpc::lemma_error_fields(JsonView::Null, -32600, "request must be an object"@);
    rpc::lemma_error_fields(id, -32600, "jsonrpc must be '2.0'"@);
    rpc::lemma_error_fields(id, -32600, "method is required"@);
    if let Some(method) = message.text_field("method"@) {
        rpc::lemma_error_fields(id, -32601, "method "@ + "'"@ + method + "'"@ + " not found"@);
    }
}

/// A client that asks which tools there are gets the tools of all connected servers, the servers in
/// the order of their names.
pub proof fn law_tools_are_listed(
    servers: Map<Seq<char>, ManagedServerView>,
    message: JsonView,
    id: JsonView,
    names: Seq<Seq<char>>,
)
    requires
        requests(message, id, "tools/list"@),
        crate::table::ascending(names),
        names.to_set() == servers.dom(),
    ensures
        handled(servers, message) matches HandledView::Answer(answer) && answer.field("id"@)
            == Some(id) && answer.field("error"@) is None && (answer.field("result"@) matches Some(
            result,
        ) && result.field("tools"@) == Some(JsonView::Array(tools::offered(servers, names)))),
{
    lemma_method_names();
    rpc::lemma_result_fields(id, tools::tools_result(servers));
    tools::law_listing_goes_by_server_names(servers, names);
}

/// Two underscores stand at place `at` of a name, and nowhere before.
pub open spec fn first_separator(name: Seq<char>, at: int) -> bool {
    &&& 0 <= at <= name.len() - 2
    &&& name[at] == '_' && name[at + 1] == '_'
    &&& forall|i: int| #![trigger name[i]] 0 <= i < at ==> !(name[i] == '_' && name[i + 1] == '_')
}

/// A name splits at its first two underscores.
pub proof fn lemma_first_separator_splits(name: Seq<char>, at: int)
    requires
        first_separator(name, at),
    ensures
        text::split_once(name, "__"@) == Some((name.take(at), name.skip(at + 2))),
{
    reveal_strlit("__");
    let separator = "__"@;
    text::lemma_find_from(name, separator, 0);
    assert(name.subrange(at, at + 2) =~= separator);
    assert(text::occurs_at(name, separator, at));
    assert forall|i: int| 0 <= i < at implies !text::occurs_at(name, separator, i) by {
        if text::occurs_at(name, separator, i) {
            assert(name.subrange(i, i + 2)[0] == name[i]);
            assert(name.subrange(i, i + 2)[1] == name[i + 1]);
        }
    }
}

/// A request for a tool goes to the server whose name stands before the first two underscores, for
/// the tool whose name stands behind them, with the arguments that the client gives and in the
/// session that the gateway has there. Where the server is not connected, or there is none of this
/// name, no tool is called.
pub proof fn law_call_goes_where_its_name_says(
    servers: Map<Seq<char>, ManagedServerView>,
    message: JsonView,
    id: JsonView,
    params: JsonView,
    name: Seq<char>,
    at: int,
)
    requires
        requests(message, id, "tools/call"@),
        message.field("params"@) == Some(params),
        params.text_field("name"@) == Some(name),
        first_separator(name, at),
    ensures
        ({
            let server = name.take(at);
            let tool = name.skip(at + 2);
            let outcome = handled(servers, message);
            &&& !servers.contains_key(server) ==> fails_with(
                outcome,
                id,
                -32602,
                "unknown upstream "@ + "'"@ + server + "'"@,
            )
            &&& servers.contains_key(server) && !servers[server].connected ==> outcome
                == (HandledView::Disconnected { id, server, tool })
            &&& servers.contains_key(server) && servers[server].connected ==> (
            outcome matches HandledView::Call(call) && {
                &&& call.id == id
                &&& call.server == server
                &&& call.tool == tool
                &&& call.config == servers[server].config
                &&& call.session_id == servers[server].session_id
                &&& call.arguments == match params.field("arguments"@) {
                    Some(arguments) => arguments,
                    None => JsonView::Object(Map::empty()),
                }
            })
        }),
{
    lemma_method_names();
    lemma_first_separator_splits(name, at);
    let server = name.take(at);
    let words = "unknown upstream "@ + "'"@ + server + "'"@;
    assert(quoted("unknown upstream "@, server, Seq::empty()) =~= words);
    rpc::lemma_error_fields(id, -32602, words);
}

/// A request for a tool that names none, or whose name holds no two underscores, is refused.
pub proof fn law_call_without_a_name_is_refused(
    servers: Map<Seq<char>, ManagedServerView>,
    message: JsonView,
    id: JsonView,
)
    requires
        requests(message, id, "tools/call"@),
    ensures
        match message.field("params"@) {
            None => fails_with(handled(servers, message), id, -32602, "params are required"@),
            Some(params) => match params.text_field("name"@) {
                None => fails_with(
                    handled(servers, message),
                    id,
                    -32602,
                    "params.name is required"@,
                ),
                Some(name) => !text::contains(name, "__"@) ==> fails_with(
                    handled(servers, message),
                    id,
                    -32602,
                    "tool name must be server__tool"@,
                ),
            },
        },
{
    lemma_method_names();
    rpc::lemma_error_fields(id, -32602, "params are required"@);
    rpc::lemma_error_fields(id, -32602, "params.name is required"@);
    rpc::lemma_error_fields(id, -32602, "tool name must be server__tool"@);
    if let Some(params) = message.field("params"@) {
        if let Some(name) = params.text_field("name"@) {
            text::lemma_find_from(name, "__"@, 0);
        }
    }
}

/// A client that confirms a welcome is not answered, with an `id` or without.
pub proof fn law_confirmation_gets_no_answer(
    servers: Map<Seq<char>, ManagedServerView>,
    message: JsonView,
    id: JsonView,
)
    requires
        requests(message, id, "notifications/initialized"@),
    ensures
        handled(servers, message) == HandledView::Silent,
{
    lemma_method_names();
}

/// The methods that the gateway knows are counted under their own names, all others under one, and
/// messages that call none under another.
pub proof fn law_methods_are_counted_by_name(message: JsonView)
    ensures
        match message.text_field("method"@) {
            None => method_name(message) == "invalid"@,
            Some(method) => {
                &&& method == "initialize"@ ==> method_name(message) == "initialize"@
                &&& method == "notifications/initialized"@ ==> method_name(message)
                    == "notifications/initialized"@
                &&& method == "tools/list"@ ==> method_name(message) == "tools/list"@
                &&& method == "tools/call"@ ==> method_name(message) == "tools/call"@
                &&& method != "initialize"@ && method != "notifications/initialized"@ && method
                    != "tools/list"@ && method != "tools/call"@ ==> method_name(message)
                    == "unknown"@
            },
        },
{
    lemma_method_names();
}

/// A text with a name in quotes is the text before it, the name between two quotes, and the text
/// after it.
pub proof fn law_quoted_name_stands_in_quotes(
    before: Seq<char>,
    name: Seq<char>,
    after: Seq<char>,
)
    ensures
        ({
            let whole = quoted(before, name, after);
            let n = before.len() as int;
            let m = name.len() as int;
            &&& whole.len() == n + m + 2 + after.len()
            &&& whole.take(n) == before
            &&& whole[n] == '\'' && whole[n + m + 1] == '\''
            &&& whole.subrange(n + 1, n + 1 + m) == name
            &&& whole.skip(n + m + 2) == after
        }),
{
    reveal_strlit("'");
    let whole = quoted(before, name, after);
    let n = before.len() as int;
    let m = name.len() as int;
    assert(whole.take(n) =~= before);
    assert(whole.subrange(n + 1, n + 1 + m) =~= name);
    assert(whole.skip(n + m + 2) =~= after);
}

/// Calls, and what becomes of messages, are seen as they are.
pub proof fn law_calls_are_seen_as_they_are(
    call: ToolCall,
    answer: Json,
    server: String,
    tool: String,
)
    ensures
        call@.id == call.id@,
        call@.server == call.server@,
        call@.tool == call.tool@,
        call@.arguments == call.arguments@,
        call@.config == call.config@,
        call.session_id matches Some(id) ==> call@.session_id == Some(id@),
        call.session_id is None ==> call@.session_id is None,
        Handled::Silent@ == HandledView::Silent,
        Handled::Answer(answer)@ == HandledView::Answer(answer@),
        Handled::Call(call)@ == HandledView::Call(call@),
        (Handled::Disconnected { id: answer, server, tool })@ == (HandledView::Disconnected {
            id: answer@,
            server: server@,
            tool: tool@,
        }),
{
}

} // verus!
