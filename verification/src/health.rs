//! How the gateway and its upstream servers are doing.
use vstd::prelude::*;
use vstd::string::*;

use crate::message;
use crate::state::{ManagedServer, ManagedServerView, Registry};
use crate::table;
use crate::text;
use crate::upstream;

verus! {

/// How an upstream server is doing.
#[derive(Debug, PartialEq)]
pub struct HealthServer {
    pub name: String,
    pub url: String,
    pub protocol: String,
    pub required: bool,
    pub connected: bool,
    pub tools_count: usize,
    pub last_seen_nanos_ago: Option<u64>,
    pub reconnects: u64,
    pub last_error: Option<String>,
}

/// How an upstream server is doing, as mathematics.
pub struct HealthServerView {
    pub name: Seq<char>,
    pub url: Seq<char>,
    pub protocol: Seq<char>,
    pub required: bool,
    pub connected: bool,
    pub tools_count: nat,
    pub last_seen_nanos_ago: Option<u64>,
    pub reconnects: u64,
    pub last_error: Option<Seq<char>>,
}

impl View for HealthServer {
    type V = HealthServerView;

    open spec fn view(&self) -> HealthServerView {
        HealthServerView {
            name: self.name@,
            url: self.url@,
            protocol: self.protocol@,
            required: self.required,
            connected: self.connected,
            tools_count: self.tools_count as nat,
            last_seen_nanos_ago: self.last_seen_nanos_ago,
            reconnects: self.reconnects,
            last_error: text::optional(self.last_error),
        }
    }
}

/// How the gateway is doing.
#[derive(Debug, PartialEq)]
pub struct HealthReport {
    pub status: String,
    pub uptime_nanos: u64,
    pub servers: Vec<HealthServer>,
}

/// How a server is doing.
pub open spec fn server_health(name: Seq<char>, server: ManagedServerView, now: u64) ->
    HealthServerView {
    HealthServerView {
        name,
        url: server.config.url,
        protocol: server.config.protocol,
        required: server.config.required,
        connected: server.connected,
        tools_count: server.tools.len(),
        last_seen_nanos_ago: match server.last_seen {
            Some(seen) => Some(upstream::span(seen, now)),
            None => None,
        },
        reconnects: server.reconnects,
        last_error: server.last_error,
    }
}

/// What a list of servers says.
pub open spec fn health_views(servers: Seq<HealthServer>) -> Seq<HealthServerView> {
    servers.map_values(|server: HealthServer| server@)
}

/// How the servers are doing, in the order of their names.
pub open spec fn servers_health(servers: Map<Seq<char>, ManagedServerView>, now: u64) -> Seq<
    HealthServerView,
> {
    table::in_order(servers.dom()).map_values(
        |name: Seq<char>| server_health(name, servers[name], now),
    )
}

/// Is a server not connected?
pub open spec fn degraded(servers: Map<Seq<char>, ManagedServerView>) -> bool {
    exists|name: Seq<char>| #[trigger] servers.contains_key(name) && !servers[name].connected
}

/// How the gateway is doing, in a word.
pub open spec fn status_word(servers: Map<Seq<char>, ManagedServerView>) -> Seq<char> {
    if degraded(servers) {
        "degraded"@
    } else {
        "ok"@
    }
}

fn health_of(name: &String, server: &ManagedServer, now: u64) -> (health: HealthServer)
    ensures
        health@ == server_health(name@, server@, now),
        health.connected == server.connected,
        health.required == server.config.required,
        health.reconnects == server.reconnects,
        health.tools_count == server.tools@.len(),
        health.name@ == name@,
{
    HealthServer {
        name: name.clone(),
        url: server.config.url.clone(),
        protocol: server.config.protocol.clone(),
        required: server.config.required,
        connected: server.connected,
        tools_count: server.tools.len(),
        last_seen_nanos_ago: match server.last_seen {
            Some(seen) => Some(upstream::elapsed(seen, now)),
            None => None,
        },
        reconnects: server.reconnects,
        last_error: text::copy_optional(&server.last_error),
    }
}

/// How the gateway is doing.
pub fn health(registry: &Registry, started: u64, now: u64) -> (report: HealthReport)
    requires
        registry.wf(),
    ensures
        health_views(report.servers@) == servers_health(registry@, now),
        report.status@ == status_word(registry@),
        report.uptime_nanos == upstream::span(started, now),
{
    let ghost names = registry.servers.names();
    proof {
        registry.servers.lemma_names();
        assert(registry@.dom() =~= registry.servers.map().dom());
    }
    let mut servers: Vec<HealthServer> = Vec::new();
    let mut all_connected = true;
    let mut i: usize = 0;
    while i < registry.servers.len()
        invariant
            registry.wf(),
            i <= names.len(),
            names == registry.servers.names(),
            forall|name: Seq<char>|
                names.contains(name) <==> #[trigger] registry.servers.map().contains_key(name),
            servers@.len() == i,
            forall|k: int|
                0 <= k < i ==> (#[trigger] servers@[k])@ == server_health(
                    names[k],
                    registry@[names[k]],
                    now,
                ),
            all_connected == forall|k: int|
                0 <= k < i ==> registry@[#[trigger] names[k]].connected,
        decreases names.len() - i,
    {
        let name = registry.servers.name_at(i);
        let server = registry.servers.value_at(i);
        proof {
            assert(names.contains(name@));
            assert(registry@[name@] == server@);
        }
        all_connected = all_connected && server.connected;
        servers.push(health_of(name, server, now));
        i += 1;
    }
    proof {
        assert(health_views(servers@) =~= servers_health(registry@, now));
        if degraded(registry@) {
            let name = choose|name: Seq<char>| #[trigger]
                registry@.contains_key(name) && !registry@[name].connected;
            assert(registry.servers.map().contains_key(name));
            assert(names.contains(name));
        }
        if !all_connected {
            let k = choose|k: int|
                0 <= k < names.len() && !registry@[#[trigger] names[k]].connected;
            assert(names.contains(names[k]));
            assert(registry@.contains_key(names[k]));
        }
    }
    let status = if all_connected {
        "ok"
    } else {
        "degraded"
    };
    HealthReport {
        status: status.to_owned(),
        uptime_nanos: upstream::elapsed(started, now),
        servers,
    }
}

/// Is a required server not connected?
pub open spec fn is_missing(server: ManagedServerView) -> bool {
    server.config.required && !server.connected
}

/// Is this the first required server that is not connected, in the order of the names?
pub open spec fn first_missing(
    servers: Map<Seq<char>, ManagedServerView>,
    name: Seq<char>,
) -> bool {
    &&& servers.contains_key(name)
    &&& is_missing(servers[name])
    &&& forall|other: Seq<char>| #[trigger]
        servers.contains_key(other) && is_missing(servers[other]) ==> other == name
            || text::text_lt(name, other)
}

/// Is every required server connected?
pub open spec fn none_missing(servers: Map<Seq<char>, ManagedServerView>) -> bool {
    forall|name: Seq<char>| #[trigger] servers.contains_key(name) ==> !is_missing(servers[name])
}

/// The first required server that is not connected, in the order of the names. The gateway does
/// not start while there is one.
pub fn missing_required(registry: &Registry) -> (missing: Option<String>)
    requires
        registry.wf(),
    ensures
        match missing {
            Some(name) => first_missing(registry@, name@),
            None => none_missing(registry@),
        },
{
    let ghost names = registry.servers.names();
    proof {
        registry.servers.lemma_names();
    }
    let mut i: usize = 0;
    while i < registry.servers.len()
        invariant
            registry.wf(),
            i <= names.len(),
            names == registry.servers.names(),
            table::ascending(names),
            forall|name: Seq<char>|
                names.contains(name) <==> #[trigger] registry.servers.map().contains_key(name),
            forall|k: int| 0 <= k < i ==> !is_missing(registry@[#[trigger] names[k]]),
        decreases names.len() - i,
    {
        let name = registry.servers.name_at(i);
        let server = registry.servers.value_at(i);
        proof {
            assert(names.contains(name@));
            assert(registry@[name@] == server@);
        }
        if server.config.required && !server.connected {
            proof {
                assert forall|other: Seq<char>| #[trigger]
                    registry@.contains_key(other) && is_missing(registry@[other]) implies other
                    == name@ || text::text_lt(name@, other) by {
                    assert(registry.servers.map().contains_key(other));
                    assert(names.contains(other));
                    let k = choose|k: int| 0 <= k < names.len() && names[k] == other;
                    if k > i {
                        assert(text::text_lt(names[i as int], names[k]));
                    }
                }
            }
            return Some(name.clone());
        }
        i += 1;
    }
    proof {
        assert forall|name: Seq<char>| #[trigger]
            registry@.contains_key(name) implies !is_missing(registry@[name]) by {
            assert(registry.servers.map().contains_key(name));
            assert(names.contains(name));
        }
    }
    None
}

/// What the gateway does next on its way to serving clients.
#[derive(Debug, PartialEq)]
pub enum Startup {
    /// Serve clients.
    Start,
    /// Stop, for this reason.
    Fail(String),
    /// Wait for a required server, the first in the order of the names.
    Wait(String),
}

/// Why the gateway does not start without a required server.
pub open spec fn startup_failure(exhausted: Seq<char>) -> Seq<char> {
    message::quoted("required upstream "@, exhausted, " exhausted reconnect attempts"@)
}

/// What to do next on the way to serving clients, where `exhausted` is a required server that has
/// just been given up, if one has: the gateway starts once every required server is connected.
/// Until then it waits, unless one of them has been given up.
pub fn startup(registry: &Registry, exhausted: Option<&str>) -> (next: Startup)
    requires
        registry.wf(),
    ensures
        match next {
            Startup::Start => none_missing(registry@),
            Startup::Fail(reason) => {
                &&& !none_missing(registry@)
                &&& exhausted matches Some(name) && reason@ == startup_failure(name@)
            },
            Startup::Wait(name) => {
                &&& exhausted is None
                &&& first_missing(registry@, name@)
            },
        },
{
    match missing_required(registry) {
        None => Startup::Start,
        Some(missing) => match exhausted {
            Some(name) => Startup::Fail(
                message::quoted_text(
                    "required upstream ",
                    name,
                    " exhausted reconnect attempts",
                ),
            ),
            None => Startup::Wait(missing),
        },
    }
}

/// The report has one entry for each server, in the order of the servers' names, and each says of
/// its server what holds of it: that it is connected exactly if the gateway is connected to it, how
/// many tools it has, how long ago it was seen, how often it was lost and why last, and what its
/// configuration says.
pub proof fn law_health_tells_of_each_server(
    servers: Map<Seq<char>, ManagedServerView>,
    now: u64,
    i: int,
)
    requires
        servers.dom().finite(),
        0 <= i < servers_health(servers, now).len(),
    ensures
        ({
            let entry = servers_health(servers, now)[i];
            let server = servers[entry.name];
            &&& servers.contains_key(entry.name)
            &&& entry.connected <==> server.connected
            &&& entry.required <==> server.config.required
            &&& entry.url == server.config.url
            &&& entry.protocol == server.config.protocol
            &&& entry.tools_count == server.tools.len()
            &&& entry.reconnects == server.reconnects
            &&& entry.last_error == server.last_error
            &&& server.last_seen is None ==> entry.last_seen_nanos_ago is None
            &&& server.last_seen matches Some(seen) ==> (entry.last_seen_nanos_ago matches Some(
                ago,
            ) && (seen <= now ==> seen + ago == now))
        }),
{
    let names = table::in_order(servers.dom());
    table::lemma_in_order(servers.dom());
    assert(names.contains(names[i]));
    assert(servers.dom().contains(names[i]));
}

/// Every server has exactly one entry in the report, and the entries stand in the order of the
/// names.
pub proof fn law_health_leaves_no_server_out(
    servers: Map<Seq<char>, ManagedServerView>,
    now: u64,
    name: Seq<char>,
)
    requires
        servers.dom().finite(),
    ensures
        servers_health(servers, now).len() == servers.dom().len(),
        servers.contains_key(name) <==> exists|i: int|
            0 <= i < servers_health(servers, now).len() && #[trigger] servers_health(
                servers,
                now,
            )[i].name == name,
        forall|i: int, j: int|
            0 <= i < j < servers_health(servers, now).len() ==> text::text_lt(
                (#[trigger] servers_health(servers, now)[i]).name,
                (#[trigger] servers_health(servers, now)[j]).name,
            ),
{
    let names = table::in_order(servers.dom());
    let report = servers_health(servers, now);
    table::lemma_in_order(servers.dom());
    if servers.contains_key(name) {
        assert(servers.dom().contains(name));
        assert(names.contains(name));
        let i = choose|i: int| 0 <= i < names.len() && names[i] == name;
        assert(report[i].name == name);
    }
    if exists|i: int| 0 <= i < report.len() && #[trigger] report[i].name == name {
        let i = choose|i: int| 0 <= i < report.len() && #[trigger] report[i].name == name;
        assert(names[i] == name);
        assert(names.contains(name));
        assert(servers.dom().contains(name));
    }
    assert forall|i: int, j: int| 0 <= i < j < report.len() implies text::text_lt(
        (#[trigger] report[i]).name,
        (#[trigger] report[j]).name,
    ) by {
        assert(text::text_lt(names[i], names[j]));
    }
}

/// The gateway is well exactly if every entry of the report is marked as connected.
pub proof fn law_status_goes_by_the_entries(servers: Map<Seq<char>, ManagedServerView>, now: u64)
    requires
        servers.dom().finite(),
    ensures
        !degraded(servers) <==> forall|i: int|
            0 <= i < servers_health(servers, now).len() ==> (#[trigger] servers_health(
                servers,
                now,
            )[i]).connected,
        status_word(servers) == "ok"@ <==> forall|i: int|
            0 <= i < servers_health(servers, now).len() ==> (#[trigger] servers_health(
                servers,
                now,
            )[i]).connected,
        status_word(servers) == "ok"@ || status_word(servers) == "degraded"@,
{
    reveal_strlit("ok");
    reveal_strlit("degraded");
    assert("ok"@.len() == 2 && "degraded"@.len() == 8);
    let report = servers_health(servers, now);
    let names = table::in_order(servers.dom());
    table::lemma_in_order(servers.dom());
    if !degraded(servers) {
        assert forall|i: int| 0 <= i < report.len() implies (#[trigger] report[i]).connected by {
            assert(names.contains(names[i]));
            assert(servers.dom().contains(names[i]));
            assert(servers.contains_key(names[i]));
        }
    }
    if forall|i: int| 0 <= i < report.len() ==> (#[trigger] report[i]).connected {
        assert forall|name: Seq<char>| #[trigger] servers.contains_key(name) implies servers[name]
            .connected by {
            assert(servers.dom().contains(name));
            assert(names.contains(name));
            let i = choose|i: int| 0 <= i < names.len() && names[i] == name;
            assert(report[i].connected);
        }
    }
}

/// The gateway may start exactly if no required server is left that it is not connected to; servers
/// that are not required do not hold it up.
pub proof fn law_only_required_servers_hold_the_start_up(
    servers: Map<Seq<char>, ManagedServerView>,
    name: Seq<char>,
)
    ensures
        servers.contains_key(name) && servers[name].config.required && !servers[name].connected
            ==> !none_missing(servers),
        (forall|other: Seq<char>| #[trigger]
            servers.contains_key(other) ==> !servers[other].config.required
                || servers[other].connected) ==> none_missing(servers),
        first_missing(servers, name) ==> servers.contains_key(name)
            && servers[name].config.required && !servers[name].connected,
        startup_failure(name) == "required upstream "@ + "'"@ + name + "'"@
            + " exhausted reconnect attempts"@,
{
}

/// The entries of a report are seen as they are.
pub proof fn law_entries_are_seen_as_they_are(entry: HealthServer)
    ensures
        entry@.name == entry.name@,
        entry@.url == entry.url@,
        entry@.protocol == entry.protocol@,
        entry@.required == entry.required,
        entry@.connected == entry.connected,
        entry@.tools_count == entry.tools_count,
        entry@.last_seen_nanos_ago == entry.last_seen_nanos_ago,
        entry@.reconnects == entry.reconnects,
        entry.last_error matches Some(error) ==> entry@.last_error == Some(error@),
        entry.last_error is None ==> entry@.last_error is None,
{
}

} // verus!
