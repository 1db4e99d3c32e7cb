//! The tools of the upstream servers, as the gateway offers them to its own clients.
use vstd::prelude::*;
use vstd::string::*;

use crate::json;
use crate::json::{Json, JsonView};
use crate::state::{ManagedServerView, Registry};
use crate::table;
use crate::text;

verus! {

/// The name under which the gateway offers a server's tool.
pub open spec fn qualified(server: Seq<char>, tool: Seq<char>) -> Seq<char> {
    server + "__"@ + tool
}

/// How the gateway describes a server's tool.
pub open spec fn described(server: Seq<char>, description: Option<Seq<char>>) -> Seq<char> {
    match description {
        Some(words) => "["@ + server + "] "@ + words,
        None => "Tool from "@ + server,
    }
}

/// A server's tool as the gateway offers it. A tool without a name is not offered.
pub open spec fn namespaced(server: Seq<char>, tool: JsonView) -> Option<JsonView> {
    match (tool, tool.text_field("name"@)) {
        (JsonView::Object(map), Some(name)) => Some(
            JsonView::Object(
                map.insert("name"@, JsonView::String(qualified(server, name))).insert(
                    "description"@,
                    JsonView::String(described(server, tool.text_field("description"@))),
                ),
            ),
        ),
        _ => None,
    }
}

/// The name under which the gateway offers a server's tool.
pub fn qualified_name(server: &str, tool: &str) -> (name: String)
    ensures
        name@ == qualified(server@, tool@),
{
    let mut name = server.to_owned();
    name.append("__");
    name.append(tool);
    name
}

/// A server's tool as the gateway offers it.
pub fn namespaced_tool(server_name: &str, tool: &Json) -> (offered: Option<Json>)
    ensures
        match offered {
            Some(value) => namespaced(server_name@, tool@) == Some(value@),
            None => namespaced(server_name@, tool@) is None,
        },
{
    let entries = match tool.as_object() {
        Some(entries) => entries,
        None => return None,
    };
    let name = match tool.get_str("name") {
        Some(name) => name,
        None => return None,
    };
    let mut description = String::new();
    match tool.get_str("description") {
        Some(words) => {
            description.append("[");
            description.append(server_name);
            description.append("] ");
            description.append(words);
        },
        None => {
            description.append("Tool from ");
            description.append(server_name);
        },
    }
    assert(description@ =~= described(server_name@, tool@.text_field("description"@)));
    let qualified = qualified_name(server_name, name);
    let offered = json::copy_members(entries);
    let offered = json::with_member(offered, "name", Json::String(qualified));
    let offered = json::with_member(offered, "description", Json::String(description));
    Some(Json::object(offered))
}

/// The tools of a server, as the gateway offers them.
pub open spec fn offered_by(server: Seq<char>, tools: Seq<JsonView>) -> Seq<JsonView>
    decreases tools.len(),
{
    if tools.len() == 0 {
        Seq::empty()
    } else {
        let before = offered_by(server, tools.drop_last());
        match namespaced(server, tools.last()) {
            Some(tool) => before.push(tool),
            None => before,
        }
    }
}

/// The tools of the servers with the given names that are connected, one server after another.
pub open spec fn offered(
    servers: Map<Seq<char>, ManagedServerView>,
    names: Seq<Seq<char>>,
) -> Seq<JsonView>
    decreases names.len(),
{
    if names.len() == 0 {
        Seq::empty()
    } else {
        let before = offered(servers, names.drop_last());
        if servers[names.last()].connected {
            before + offered_by(names.last(), servers[names.last()].tools)
        } else {
            before
        }
    }
}

/// The tools of all servers that are connected, in the order of the servers' names.
pub open spec fn all_offered(servers: Map<Seq<char>, ManagedServerView>) -> Seq<JsonView> {
    offered(servers, table::in_order(servers.dom()))
}

/// The answer to the question which tools there are.
pub open spec fn tools_result(servers: Map<Seq<char>, ManagedServerView>) -> JsonView {
    JsonView::Object(json::no_fields().insert("tools"@, JsonView::Array(all_offered(servers))))
}

/// Adds the tools of a server.
fn offer_tools(server_name: &str, tools: &Vec<Json>, into: &mut Vec<Json>)
    ensures
        json::views(final(into)@) == json::views(old(into)@) + offered_by(
            server_name@,
            json::views(tools@),
        ),
{
    let ghost start = json::views(into@);
    let ghost all = json::views(tools@);
    let mut i: usize = 0;
    assert(start + offered_by(server_name@, all.take(0)) =~= start);
    while i < tools.len()
        invariant
            i <= tools@.len(),
            all == json::views(tools@),
            json::views(into@) == start + offered_by(server_name@, all.take(i as int)),
        decreases tools@.len() - i,
    {
        let ghost before = json::views(into@);
        let ghost more = all.take(i + 1);
        assert(more.drop_last() =~= all.take(i as int));
        assert(more.last() == tools@[i as int]@);
        if let Some(tool) = namespaced_tool(server_name, &tools[i]) {
            into.push(tool);
            assert(json::views(into@) =~= before.push(tool@));
        }
        assert(json::views(into@) =~= start + offered_by(server_name@, more));
        i += 1;
    }
    assert(all.take(i as int) =~= all);
}

/// The answer to the question which tools there are.
pub fn list_downstream_tools(registry: &Registry) -> (result: Json)
    requires
        registry.wf(),
    ensures
        result@ == tools_result(registry@),
{
    let mut tools: Vec<Json> = Vec::new();
    let ghost names = registry.servers.names();
    proof {
        registry.servers.lemma_names();
        assert(registry@.dom() =~= registry.servers.map().dom());
        assert(json::views(tools@) =~= Seq::empty());
    }
    let mut i: usize = 0;
    while i < registry.servers.len()
        invariant
            registry.wf(),
            i <= names.len(),
            names == registry.servers.names(),
            forall|name: Seq<char>|
                names.contains(name) <==> #[trigger] registry.servers.map().contains_key(name),
            json::views(tools@) == offered(registry@, names.take(i as int)),
        decreases names.len() - i,
    {
        let name = registry.servers.name_at(i);
        let server = registry.servers.value_at(i);
        let ghost more = names.take(i + 1);
        proof {
            assert(more.drop_last() =~= names.take(i as int));
            assert(more.last() == name@);
            assert(names.contains(name@));
            assert(registry@[name@] == server@);
        }
        if server.connected {
            offer_tools(name.as_str(), &server.tools, &mut tools);
        }
        i += 1;
    }
    assert(names.take(i as int) =~= names);
    let result = json::with_member(json::no_members(), "tools", Json::array(tools));
    Json::object(result)
}

/// Where `"__"` stands in a qualified name: behind the server's name, and nowhere before, if that
/// name neither holds it nor ends in `_`.
proof fn lemma_first_separator(server: Seq<char>, tool: Seq<char>)
    requires
        !text::contains(server, "__"@),
        server.len() == 0 || server.last() != '_',
    ensures
        text::find_from(qualified(server, tool), "__"@, 0) == Some(server.len() as int),
{
    let full = qualified(server, tool);
    let separator = "__"@;
    reveal_strlit("__");
    text::lemma_find_from(full, separator, 0);
    let behind = server.len() as int;
    assert(full.subrange(behind, behind + 2) =~= separator);
    assert(text::occurs_at(full, separator, behind));
    assert forall|at: int| 0 <= at < behind implies !text::occurs_at(full, separator, at) by {
        if text::occurs_at(full, separator, at) {
            assert(full.subrange(at, at + 2)[0] == '_');
            assert(full[at] == server[at]);
            if at + 2 <= server.len() {
                assert(server.subrange(at, at + 2) =~= full.subrange(at, at + 2));
                assert(text::occurs_at(server, separator, at));
            }
        }
    }
}

/// A qualified name splits into the server's name and the tool's, where the server's name neither
/// holds `"__"` nor ends in `_`.
pub proof fn law_qualified_name_splits(server: Seq<char>, tool: Seq<char>)
    requires
        !text::contains(server, "__"@),
        server.len() == 0 || server.last() != '_',
    ensures
        text::split_once(qualified(server, tool), "__"@) == Some((server, tool)),
{
    lemma_first_separator(server, tool);
    reveal_strlit("__");
    let full = qualified(server, tool);
    assert(full.take(server.len() as int) =~= server);
    assert(full.skip(server.len() as int + 2) =~= tool);
}

/// Do two tools get one name because the name of one's server ends in the `_` with which the name
/// of the other begins?
pub open spec fn names_run_together(
    server: Seq<char>,
    tool: Seq<char>,
    other_server: Seq<char>,
    other_tool: Seq<char>,
) -> bool {
    other_server == server.push('_') && tool == seq!['_'] + other_tool
}

/// Tools of several servers do not collide, though they have one name, where no server's name holds
/// `"__"`, and unless names run together.
pub proof fn law_qualified_names_differ(
    server: Seq<char>,
    tool: Seq<char>,
    other_server: Seq<char>,
    other_tool: Seq<char>,
)
    requires
        !text::contains(server, "__"@),
        !text::contains(other_server, "__"@),
        !names_run_together(server, tool, other_server, other_tool),
        !names_run_together(other_server, other_tool, server, tool),
        qualified(server, tool) == qualified(other_server, other_tool),
    ensures
        server == other_server,
        tool == other_tool,
{
    if server.len() <= other_server.len() {
        lemma_shorter_server(server, tool, other_server, other_tool);
    } else {
        lemma_shorter_server(other_server, other_tool, server, tool);
    }
}

proof fn lemma_shorter_server(
    server: Seq<char>,
    tool: Seq<char>,
    other_server: Seq<char>,
    other_tool: Seq<char>,
)
    requires
        server.len() <= other_server.len(),
        !text::contains(other_server, "__"@),
        !names_run_together(server, tool, other_server, other_tool),
        qualified(server, tool) == qualified(other_server, other_tool),
    ensures
        server == other_server,
        tool == other_tool,
{
    reveal_strlit("__");
    let full = qualified(server, tool);
    let n = server.len() as int;
    let m = other_server.len() as int;
    assert(server =~= full.take(n));
    assert(other_server =~= full.take(m));
    assert(full[n] == '_' && full[n + 1] == '_');
    assert(tool =~= full.skip(n + 2));
    assert(other_tool =~= full.skip(m + 2));
    if m >= n + 2 {
        assert(other_server.subrange(n, n + 2) =~= "__"@);
        assert(text::occurs_at(other_server, "__"@, n));
    } else if m == n + 1 {
        assert(other_server =~= server.push('_'));
        assert(full[m + 1] == '_');
        assert(tool =~= seq!['_'] + other_tool);
    }
}

/// The tools that the gateway offers are the named tools of its connected servers, and no others.
pub proof fn law_tools_of_connected_servers(
    servers: Map<Seq<char>, ManagedServerView>,
    tool: JsonView,
)
    requires
        servers.dom().finite(),
    ensures
        all_offered(servers).contains(tool) <==> exists|name: Seq<char>, i: int|
            servers.contains_key(name) && servers[name].connected && 0 <= i
                < servers[name].tools.len() && #[trigger] namespaced(name, servers[name].tools[i])
                == Some(tool),
{
    let names = table::in_order(servers.dom());
    table::lemma_in_order(servers.dom());
    lemma_offered(servers, names, tool);
    if all_offered(servers).contains(tool) {
        let (k, i) = choose|k: int, i: int|
            0 <= k < names.len() && servers[names[k]].connected && 0 <= i
                < servers[names[k]].tools.len() && #[trigger] namespaced(
                names[k],
                servers[names[k]].tools[i],
            ) == Some(tool);
        assert(names.contains(names[k]));
        assert(servers.dom().contains(names[k]));
        assert(servers.contains_key(names[k]));
        assert(namespaced(names[k], servers[names[k]].tools[i]) == Some(tool));
    }
    if exists|name: Seq<char>, i: int|
        servers.contains_key(name) && servers[name].connected && 0 <= i < servers[name].tools.len()
            && #[trigger] namespaced(name, servers[name].tools[i]) == Some(tool) {
        let (name, i) = choose|name: Seq<char>, i: int|
            servers.contains_key(name) && servers[name].connected && 0 <= i
                < servers[name].tools.len() && #[trigger] namespaced(name, servers[name].tools[i])
                == Some(tool);
        assert(servers.dom().contains(name));
        assert(names.contains(name));
        let k = choose|k: int| 0 <= k < names.len() && names[k] == name;
        assert(namespaced(names[k], servers[names[k]].tools[i]) == Some(tool));
    }
}

proof fn lemma_offered_by(server: Seq<char>, tools: Seq<JsonView>, tool: JsonView)
    ensures
        offered_by(server, tools).contains(tool) <==> exists|i: int|
            0 <= i < tools.len() && #[trigger] namespaced(server, tools[i]) == Some(tool),
    decreases tools.len(),
{
    if tools.len() == 0 {
    } else {
        let shorter = tools.drop_last();
        let before = offered_by(server, shorter);
        lemma_offered_by(server, shorter, tool);
        match namespaced(server, tools.last()) {
            Some(last) => {
                assert(before.push(last).contains(tool) <==> before.contains(tool) || last == tool)
                    by {
                    if before.contains(tool) {
                        let j = choose|j: int| 0 <= j < before.len() && before[j] == tool;
                        assert(before.push(last)[j] == tool);
                    }
                    if last == tool {
                        assert(before.push(last)[before.len() as int] == tool);
                    }
                }
            },
            None => {},
        }
        if before.contains(tool) {
            let i = choose|i: int|
                0 <= i < shorter.len() && #[trigger] namespaced(server, shorter[i]) == Some(tool);
            assert(namespaced(server, tools[i]) == Some(tool));
        }
        if namespaced(server, tools.last()) == Some(tool) {
            assert(namespaced(server, tools[tools.len() - 1]) == Some(tool));
        }
        if exists|i: int|
            0 <= i < tools.len() && #[trigger] namespaced(server, tools[i]) == Some(tool) {
            let i = choose|i: int|
                0 <= i < tools.len() && #[trigger] namespaced(server, tools[i]) == Some(tool);
            if i < shorter.len() {
                assert(namespaced(server, shorter[i]) == Some(tool));
            }
        }
    }
}

proof fn lemma_offered(
    servers: Map<Seq<char>, ManagedServerView>,
    names: Seq<Seq<char>>,
    tool: JsonView,
)
    ensures
        offered(servers, names).contains(tool) <==> exists|k: int, i: int|
            0 <= k < names.len() && servers[names[k]].connected && 0 <= i
                < servers[names[k]].tools.len() && #[trigger] namespaced(
                names[k],
                servers[names[k]].tools[i],
            ) == Some(tool),
    decreases names.len(),
{
    if names.len() > 0 {
        let shorter = names.drop_last();
        let last = names.last();
        let before = offered(servers, shorter);
        let more = offered_by(last, servers[last].tools);
        lemma_offered(servers, shorter, tool);
        lemma_offered_by(last, servers[last].tools, tool);
        assert((before + more).contains(tool) <==> before.contains(tool) || more.contains(tool))
            by {
            if before.contains(tool) {
                let j = choose|j: int| 0 <= j < before.len() && before[j] == tool;
                assert((before + more)[j] == tool);
            }
            if more.contains(tool) {
                let j = choose|j: int| 0 <= j < more.len() && more[j] == tool;
                assert((before + more)[before.len() + j] == tool);
            }
            if (before + more).contains(tool) {
                let j = choose|j: int|
                    0 <= j < (before + more).len() && (before + more)[j] == tool;
                if j < before.len() {
                    assert(before[j] == tool);
                } else {
                    assert(more[j - before.len()] == tool);
                }
            }
        }
        if before.contains(tool) {
            let (k, i) = choose|k: int, i: int|
                0 <= k < shorter.len() && servers[shorter[k]].connected && 0 <= i
                    < servers[shorter[k]].tools.len() && #[trigger] namespaced(
                    shorter[k],
                    servers[shorter[k]].tools[i],
                ) == Some(tool);
            assert(namespaced(names[k], servers[names[k]].tools[i]) == Some(tool));
        }
        if more.contains(tool) && servers[last].connected {
            let i = choose|i: int|
                0 <= i < servers[last].tools.len() && #[trigger] namespaced(
                    last,
                    servers[last].tools[i],
                ) == Some(tool);
            let k = names.len() - 1;
            assert(namespaced(names[k], servers[names[k]].tools[i]) == Some(tool));
        }
        if exists|k: int, i: int|
            0 <= k < names.len() && servers[names[k]].connected && 0 <= i
                < servers[names[k]].tools.len() && #[trigger] namespaced(
                names[k],
                servers[names[k]].tools[i],
            ) == Some(tool) {
            let (k, i) = choose|k: int, i: int|
                0 <= k < names.len() && servers[names[k]].connected && 0 <= i
                    < servers[names[k]].tools.len() && #[trigger] namespaced(
                    names[k],
                    servers[names[k]].tools[i],
                ) == Some(tool);
            if k < shorter.len() {
                assert(namespaced(shorter[k], servers[shorter[k]].tools[i]) == Some(tool));
            } else {
                assert(namespaced(last, servers[last].tools[i]) == Some(tool));
            }
        }
    }
}

/// A tool that is offered has the qualified name and the gateway's description, and keeps its other
/// members.
pub proof fn law_offered_tool_keeps_its_members(
    server: Seq<char>,
    tool: JsonView,
    member: Seq<char>,
)
    requires
        namespaced(server, tool) is Some,
    ensures
        ({
            let offered = namespaced(server, tool)->Some_0;
            &&& offered.text_field("name"@) == Some(
                qualified(server, tool.text_field("name"@)->Some_0),
            )
            &&& offered.text_field("description"@) == Some(
                described(server, tool.text_field("description"@)),
            )
            &&& member != "name"@ && member != "description"@ ==> offered.field(member)
                == tool.field(member)
        }),
{
    reveal_strlit("name");
    reveal_strlit("description");
    assert("name"@.len() == 4 && "description"@.len() == 11);
}

/// A tool is offered exactly if it is an object with a name. It is then offered under the name of
/// its server, two underscores and its own name, with its server named in its description; its
/// other members stay, and no others come.
pub proof fn law_tool_is_offered_with_its_server(server: Seq<char>, tool: JsonView)
    ensures
        namespaced(server, tool) is Some <==> tool is Object && tool.text_field("name"@) is Some,
        namespaced(server, tool) matches Some(offered) ==> {
            &&& tool.text_field("name"@) matches Some(name) && offered.text_field("name"@) == Some(
                server + "__"@ + name,
            )
            &&& offered.text_field("description"@) == Some(
                match tool.text_field("description"@) {
                    Some(words) => "["@ + server + "] "@ + words,
                    None => "Tool from "@ + server,
                },
            )
            &&& forall|member: Seq<char>|
                member != "name"@ && member != "description"@ ==> #[trigger] offered.field(member)
                    == tool.field(member)
        },
{
    reveal_strlit("name");
    reveal_strlit("description");
    assert("name"@.len() == 4 && "description"@.len() == 11);
}

/// The tools of a server are offered one by one, in the order in which the server lists them: what
/// is offered of two lists one after another is what is offered of the first, then of the second.
pub proof fn law_tools_keep_their_order(
    server: Seq<char>,
    first: Seq<JsonView>,
    second: Seq<JsonView>,
    tool: JsonView,
)
    ensures
        offered_by(server, Seq::empty()) == Seq::<JsonView>::empty(),
        offered_by(server, seq![tool]) == match namespaced(server, tool) {
            Some(offered) => seq![offered],
            None => Seq::empty(),
        },
        offered_by(server, first + second) == offered_by(server, first) + offered_by(
            server,
            second,
        ),
    decreases second.len(),
{
    reveal_with_fuel(offered_by, 2);
    assert(seq![tool].drop_last() =~= Seq::empty());
    if second.len() == 0 {
        assert(first + second =~= first);
    } else {
        law_tools_keep_their_order(server, first, second.drop_last(), tool);
        assert((first + second).drop_last() =~= first + second.drop_last());
    }
    assert(offered_by(server, first + second) =~= offered_by(server, first) + offered_by(
        server,
        second,
    ));
}

/// The servers' tools are offered one server after another; a server that is not connected offers
/// none.
pub proof fn law_servers_offer_one_after_another(
    servers: Map<Seq<char>, ManagedServerView>,
    first: Seq<Seq<char>>,
    second: Seq<Seq<char>>,
    name: Seq<char>,
)
    ensures
        offered(servers, Seq::empty()) == Seq::<JsonView>::empty(),
        offered(servers, seq![name]) == if servers[name].connected {
            offered_by(name, servers[name].tools)
        } else {
            Seq::empty()
        },
        offered(servers, first + second) == offered(servers, first) + offered(servers, second),
    decreases second.len(),
{
    reveal_with_fuel(offered, 2);
    assert(seq![name].drop_last() =~= Seq::empty());
    assert(offered(servers, seq![name]) =~= if servers[name].connected {
        offered_by(name, servers[name].tools)
    } else {
        Seq::empty()
    });
    if second.len() == 0 {
        assert(first + second =~= first);
    } else {
        law_servers_offer_one_after_another(servers, first, second.drop_last(), name);
        assert((first + second).drop_last() =~= first + second.drop_last());
    }
    assert(offered(servers, first + second) =~= offered(servers, first) + offered(servers, second));
}

/// The answer to the question which tools there are lists the tools of all servers, the servers in
/// the order of their names.
pub proof fn law_listing_goes_by_server_names(
    servers: Map<Seq<char>, ManagedServerView>,
    names: Seq<Seq<char>>,
)
    requires
        table::ascending(names),
        names.to_set() == servers.dom(),
    ensures
        tools_result(servers).field("tools"@) == Some(JsonView::Array(offered(servers, names))),
{
    vstd::seq_lib::seq_to_set_is_finite(names);
    table::lemma_in_order(servers.dom());
    assert(table::in_order(servers.dom()).to_set() =~= servers.dom());
    table::lemma_ascending_unique(names, table::in_order(servers.dom()));
}

/// Of a server that is connected, each tool with a name is offered as often as the server lists it.
pub proof fn law_every_named_tool_is_offered(server: Seq<char>, tools: Seq<JsonView>)
    requires
        forall|i: int| 0 <= i < tools.len() ==> namespaced(server, #[trigger] tools[i]) is Some,
    ensures
        offered_by(server, tools).len() == tools.len(),
        forall|i: int|
            0 <= i < tools.len() ==> namespaced(server, tools[i]) == Some(
                #[trigger] offered_by(server, tools)[i],
            ),
    decreases tools.len(),
{
    if tools.len() > 0 {
        let shorter = tools.drop_last();
        assert forall|i: int| 0 <= i < shorter.len() implies namespaced(
            server,
            #[trigger] shorter[i],
        ) is Some by {
            assert(shorter[i] == tools[i]);
        }
        law_every_named_tool_is_offered(server, shorter);
        assert(tools[tools.len() - 1] == tools.last());
        assert forall|i: int| 0 <= i < tools.len() implies namespaced(server, tools[i]) == Some(
            #[trigger] offered_by(server, tools)[i],
        ) by {
            if i < shorter.len() {
                assert(shorter[i] == tools[i]);
                assert(offered_by(server, tools)[i] == offered_by(server, shorter)[i]);
            }
        }
    }
}

/// Under a configuration that is accepted, the name under which a tool is offered leads back to its
/// server and to the tool, where the server's name does not end in `_`.
pub proof fn law_offered_names_lead_back(
    config: crate::config::ConfigView,
    i: int,
    tool: Seq<char>,
)
    requires
        crate::config::config_fault(config) is None,
        0 <= i < config.servers.len(),
        config.servers[i].name.last() != '_',
    ensures
        text::split_once(qualified(config.servers[i].name, tool), "__"@) == Some(
            (config.servers[i].name, tool),
        ),
{
    crate::config::law_valid_config_has_no_fault(config);
    law_qualified_name_splits(config.servers[i].name, tool);
}

} // verus!
