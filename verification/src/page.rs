//! The page that shows the counters.
use vstd::prelude::*;
use vstd::string::*;

use crate::http;
use crate::http::{HttpReply, HttpReplyView};
use crate::metrics;
use crate::metrics::{Metrics, MetricsView, ToolCallMetric};
use crate::state::{AppState, AppStateView, ManagedServerView, Registry};
use crate::table;
use crate::table::Table;
use crate::text;

verus! {

/// A row of the page about an upstream.
#[derive(Debug)]
pub struct ServerRow {
    pub name: String,
    pub connected: bool,
    pub tools_count: usize,
    pub reconnects: u64,
    /// The seconds since the upstream was last seen, in writing.
    pub last_seen: String,
}

/// A row of the page about a tool.
#[derive(Debug)]
pub struct CallRow {
    pub server: String,
    pub tool: String,
    pub count: u64,
    pub errors: u64,
    /// The seconds that its calls took, in writing.
    pub duration: String,
}

/// A row of the page about an upstream, as mathematics.
pub struct ServerRowView {
    pub name: Seq<char>,
    pub connected: bool,
    pub tools_count: nat,
    pub reconnects: u64,
    pub last_seen: Seq<char>,
}

/// A row of the page about a tool, as mathematics.
pub struct CallRowView {
    pub server: Seq<char>,
    pub tool: Seq<char>,
    pub count: u64,
    pub errors: u64,
    pub duration: Seq<char>,
}

impl View for ServerRow {
    type V = ServerRowView;

    open spec fn view(&self) -> ServerRowView {
        ServerRowView {
            name: self.name@,
            connected: self.connected,
            tools_count: self.tools_count as nat,
            reconnects: self.reconnects,
            last_seen: self.last_seen@,
        }
    }
}

impl View for CallRow {
    type V = CallRowView;

    open spec fn view(&self) -> CallRowView {
        CallRowView {
            server: self.server@,
            tool: self.tool@,
            count: self.count,
            errors: self.errors,
            duration: self.duration@,
        }
    }
}

/// What rows about upstreams say.
pub open spec fn server_row_views(rows: Seq<ServerRow>) -> Seq<ServerRowView> {
    rows.map_values(|row: ServerRow| row@)
}

/// What rows about tools say.
pub open spec fn call_row_views(rows: Seq<CallRow>) -> Seq<CallRowView> {
    rows.map_values(|row: CallRow| row@)
}

/// The line of a metric of an upstream.
pub open spec fn server_line(metric: Seq<char>, server: Seq<char>, value: Seq<char>) -> Seq<char> {
    metric + "{server=\""@ + metrics::escape(server) + "\"} "@ + value + "\n"@
}

/// The line of a metric of a tool.
pub open spec fn call_line(
    metric: Seq<char>,
    server: Seq<char>,
    tool: Seq<char>,
    value: Seq<char>,
) -> Seq<char> {
    metric + "{server=\""@ + metrics::escape(server) + "\",tool=\""@ + metrics::escape(tool)
        + "\"} "@ + value + "\n"@
}

/// What the page says of a metric before its values.
pub open spec fn heading(metric: Seq<char>, help: Seq<char>, kind: Seq<char>) -> Seq<char> {
    "# HELP "@ + metric + " "@ + help + "\n# TYPE "@ + metric + " "@ + kind + "\n"@
}

/// The metrics of upstreams.
#[derive(Debug, Clone, Copy, PartialEq, Eq, Structural)]
pub enum ServerMetric {
    Connected,
    ToolsCount,
    Reconnects,
    LastSeen,
}

/// The metrics of tools.
#[derive(Debug, Clone, Copy, PartialEq, Eq, Structural)]
pub enum CallMetric {
    Calls,
    Errors,
    Duration,
}

/// The name of a metric of upstreams.
pub open spec fn server_metric_name(metric: ServerMetric) -> Seq<char> {
    match metric {
        ServerMetric::Connected => "mcpstead_upstream_connected"@,
        ServerMetric::ToolsCount => "mcpstead_upstream_tools_count"@,
        ServerMetric::Reconnects => "mcpstead_upstream_reconnects_total"@,
        ServerMetric::LastSeen => "mcpstead_upstream_last_seen_seconds"@,
    }
}

/// What the page says of a metric of upstreams before its values.
pub open spec fn server_metric_heading(metric: ServerMetric) -> Seq<char> {
    let name = server_metric_name(metric);
    match metric {
        ServerMetric::Connected => heading(name, "Upstream connection state."@, "gauge"@),
        ServerMetric::ToolsCount => heading(name, "Cached upstream tool count."@, "gauge"@),
        ServerMetric::Reconnects => heading(name, "Upstream reconnect attempts."@, "counter"@),
        ServerMetric::LastSeen => heading(name, "Seconds since upstream success."@, "gauge"@),
    }
}

/// The value of a metric of an upstream.
pub open spec fn server_metric_value(metric: ServerMetric, row: ServerRowView) -> Seq<char> {
    match metric {
        ServerMetric::Connected => if row.connected {
            "1"@
        } else {
            "0"@
        },
        ServerMetric::ToolsCount => text::decimal(row.tools_count),
        ServerMetric::Reconnects => text::decimal(row.reconnects as nat),
        ServerMetric::LastSeen => row.last_seen,
    }
}

/// The name of a metric of tools.
pub open spec fn call_metric_name(metric: CallMetric) -> Seq<char> {
    match metric {
        CallMetric::Calls => "mcpstead_tool_calls_total"@,
        CallMetric::Errors => "mcpstead_tool_call_errors_total"@,
        CallMetric::Duration => "mcpstead_tool_call_duration_seconds_sum"@,
    }
}

/// What the page says of a metric of tools before its values.
pub open spec fn call_metric_heading(metric: CallMetric) -> Seq<char> {
    let name = call_metric_name(metric);
    match metric {
        CallMetric::Calls => heading(name, "Tool calls routed upstream."@, "counter"@),
        CallMetric::Errors => heading(name, "Tool call errors."@, "counter"@),
        CallMetric::Duration => heading(name, "Total tool call duration."@, "counter"@),
    }
}

/// The value of a metric of a tool.
pub open spec fn call_metric_value(metric: CallMetric, row: CallRowView) -> Seq<char> {
    match metric {
        CallMetric::Calls => text::decimal(row.count as nat),
        CallMetric::Errors => text::decimal(row.errors as nat),
        CallMetric::Duration => row.duration,
    }
}

/// The lines of a metric of upstreams, in the order of the rows.
pub open spec fn server_lines(metric: ServerMetric, rows: Seq<ServerRowView>) -> Seq<char>
    decreases rows.len(),
{
    if rows.len() == 0 {
        Seq::empty()
    } else {
        server_lines(metric, rows.drop_last()) + server_line(
            server_metric_name(metric),
            rows.last().name,
            server_metric_value(metric, rows.last()),
        )
    }
}

/// The lines of a metric of tools, in the order of the rows.
pub open spec fn call_lines(metric: CallMetric, rows: Seq<CallRowView>) -> Seq<char>
    decreases rows.len(),
{
    if rows.len() == 0 {
        Seq::empty()
    } else {
        call_lines(metric, rows.drop_last()) + call_line(
            call_metric_name(metric),
            rows.last().server,
            rows.last().tool,
            call_metric_value(metric, rows.last()),
        )
    }
}

/// The part of the page about a metric of upstreams.
pub open spec fn server_section(metric: ServerMetric, rows: Seq<ServerRowView>) -> Seq<char> {
    server_metric_heading(metric) + server_lines(metric, rows)
}

/// The part of the page about a metric of tools.
pub open spec fn call_section(metric: CallMetric, rows: Seq<CallRowView>) -> Seq<char> {
    call_metric_heading(metric) + call_lines(metric, rows)
}

/// The part of the page about downstream sessions.
pub open spec fn sessions_section(active: nat) -> Seq<char> {
    heading(
        "mcpstead_downstream_sessions_active"@,
        "Active downstream sessions."@,
        "gauge"@,
    ) + "mcpstead_downstream_sessions_active "@ + text::decimal(active) + "\n"@
}

/// The page.
pub open spec fn metrics_text(
    servers: Seq<ServerRowView>,
    sessions_active: nat,
    calls: Seq<CallRowView>,
) -> Seq<char> {
    server_section(ServerMetric::Connected, servers) + server_section(
        ServerMetric::ToolsCount,
        servers,
    ) + server_section(ServerMetric::Reconnects, servers) + server_section(
        ServerMetric::LastSeen,
        servers,
    ) + sessions_section(sessions_active) + call_section(CallMetric::Calls, calls) + call_section(
        CallMetric::Errors,
        calls,
    ) + call_section(CallMetric::Duration, calls)
}

fn push_heading(output: &mut String, metric: &str, help: &str, kind: &str)
    ensures
        final(output)@ == old(output)@ + heading(metric@, help@, kind@),
{
    output.append("# HELP ");
    output.append(metric);
    output.append(" ");
    output.append(help);
    output.append("\n# TYPE ");
    output.append(metric);
    output.append(" ");
    output.append(kind);
    output.append("\n");
    assert(output@ =~= old(output)@ + heading(metric@, help@, kind@));
}

fn server_metric_label(metric: ServerMetric) -> (name: &'static str)
    ensures
        name@ == server_metric_name(metric),
{
    match metric {
        ServerMetric::Connected => "mcpstead_upstream_connected",
        ServerMetric::ToolsCount => "mcpstead_upstream_tools_count",
        ServerMetric::Reconnects => "mcpstead_upstream_reconnects_total",
        ServerMetric::LastSeen => "mcpstead_upstream_last_seen_seconds",
    }
}

fn server_metric_text(metric: ServerMetric, row: &ServerRow) -> (value: String)
    ensures
        value@ == server_metric_value(metric, row@),
{
    match metric {
        ServerMetric::Connected => if row.connected {
            "1".to_owned()
        } else {
            "0".to_owned()
        },
        ServerMetric::ToolsCount => text::decimal_text(row.tools_count as u64),
        ServerMetric::Reconnects => text::decimal_text(row.reconnects),
        ServerMetric::LastSeen => row.last_seen.clone(),
    }
}

fn push_server_section(output: &mut String, metric: ServerMetric, rows: &Vec<ServerRow>)
    ensures
        final(output)@ == old(output)@ + server_section(metric, server_row_views(rows@)),
{
    let name = server_metric_label(metric);
    match metric {
        ServerMetric::Connected => push_heading(
            output,
            name,
            "Upstream connection state.",
            "gauge",
        ),
        ServerMetric::ToolsCount => push_heading(
            output,
            name,
            "Cached upstream tool count.",
            "gauge",
        ),
        ServerMetric::Reconnects => push_heading(
            output,
            name,
            "Upstream reconnect attempts.",
            "counter",
        ),
        ServerMetric::LastSeen => push_heading(
            output,
            name,
            "Seconds since upstream success.",
            "gauge",
        ),
    }
    let ghost start = output@;
    let ghost all = server_row_views(rows@);
    let mut i: usize = 0;
    assert(start + server_lines(metric, all.take(0)) =~= start);
    while i < rows.len()
        invariant
            i <= rows@.len(),
            name@ == server_metric_name(metric),
            all == server_row_views(rows@),
            output@ == start + server_lines(metric, all.take(i as int)),
        decreases rows@.len() - i,
    {
        let row = &rows[i];
        let ghost before = output@;
        output.append(name);
        output.append("{server=\"");
        output.append(metrics::escape_label(row.name.as_str()).as_str());
        output.append("\"} ");
        output.append(server_metric_text(metric, row).as_str());
        output.append("\n");
        assert(all.take(i + 1).drop_last() =~= all.take(i as int));
        assert(output@ =~= before + server_line(
            name@,
            row.name@,
            server_metric_value(metric, row@),
        ));
        assert(output@ =~= start + server_lines(metric, all.take(i + 1)));
        i += 1;
    }
    assert(all.take(i as int) =~= all);
    assert(output@ =~= old(output)@ + server_section(metric, server_row_views(rows@)));
}

fn call_metric_label(metric: CallMetric) -> (name: &'static str)
    ensures
        name@ == call_metric_name(metric),
{
    match metric {
        CallMetric::Calls => "mcpstead_tool_calls_total",
        CallMetric::Errors => "mcpstead_tool_call_errors_total",
        CallMetric::Duration => "mcpstead_tool_call_duration_seconds_sum",
    }
}

fn call_metric_text(metric: CallMetric, row: &CallRow) -> (value: String)
    ensures
        value@ == call_metric_value(metric, row@),
{
    match metric {
        CallMetric::Calls => text::decimal_text(row.count),
        CallMetric::Errors => text::decimal_text(row.errors),
        CallMetric::Duration => row.duration.clone(),
    }
}

fn push_call_section(output: &mut String, metric: CallMetric, rows: &Vec<CallRow>)
    ensures
        final(output)@ == old(output)@ + call_section(metric, call_row_views(rows@)),
{
    let name = call_metric_label(metric);
    match metric {
        CallMetric::Calls => push_heading(output, name, "Tool calls routed upstream.", "counter"),
        CallMetric::Errors => push_heading(output, name, "Tool call errors.", "counter"),
        CallMetric::Duration => push_heading(output, name, "Total tool call duration.", "counter"),
    }
    let ghost start = output@;
    let ghost all = call_row_views(rows@);
    let mut i: usize = 0;
    assert(start + call_lines(metric, all.take(0)) =~= start);
    while i < rows.len()
        invariant
            i <= rows@.len(),
            name@ == call_metric_name(metric),
            all == call_row_views(rows@),
            output@ == start + call_lines(metric, all.take(i as int)),
        decreases rows@.len() - i,
    {
        let row = &rows[i];
        let ghost before = output@;
        output.append(name);
        output.append("{server=\"");
        output.append(metrics::escape_label(row.server.as_str()).as_str());
        output.append("\",tool=\"");
        output.append(metrics::escape_label(row.tool.as_str()).as_str());
        output.append("\"} ");
        output.append(call_metric_text(metric, row).as_str());
        output.append("\n");
        assert(all.take(i + 1).drop_last() =~= all.take(i as int));
        assert(output@ =~= before + call_line(
            name@,
            row.server@,
            row.tool@,
            call_metric_value(metric, row@),
        ));
        assert(output@ =~= start + call_lines(metric, all.take(i + 1)));
        i += 1;
    }
    assert(all.take(i as int) =~= all);
    assert(output@ =~= old(output)@ + call_section(metric, call_row_views(rows@)));
}

/// The page that shows the metrics.
pub fn render_metrics(
    servers: &Vec<ServerRow>,
    sessions_active: usize,
    calls: &Vec<CallRow>,
) -> (page: String)
    ensures
        page@ == metrics_text(
            server_row_views(servers@),
            sessions_active as nat,
            call_row_views(calls@),
        ),
{
    let mut page = String::new();
    push_server_section(&mut page, ServerMetric::Connected, servers);
    push_server_section(&mut page, ServerMetric::ToolsCount, servers);
    push_server_section(&mut page, ServerMetric::Reconnects, servers);
    push_server_section(&mut page, ServerMetric::LastSeen, servers);
    let ghost before = page@;
    push_heading(
        &mut page,
        "mcpstead_downstream_sessions_active",
        "Active downstream sessions.",
        "gauge",
    );
    page.append("mcpstead_downstream_sessions_active ");
    page.append(text::decimal_text(sessions_active as u64).as_str());
    page.append("\n");
    assert(page@ =~= before + sessions_section(sessions_active as nat));
    push_call_section(&mut page, CallMetric::Calls, calls);
    push_call_section(&mut page, CallMetric::Errors, calls);
    push_call_section(&mut page, CallMetric::Duration, calls);
    assert(page@ =~= metrics_text(
            server_row_views(servers@),
            sessions_active as nat,
            call_row_views(calls@),
        ));
    page
}

/// What is counted of the calls of a tool, with the tool's name.
#[derive(Debug)]
pub struct CallSample {
    pub server: String,
    pub tool: String,
    pub metric: ToolCallMetric,
}

/// What is counted of the calls of a tool, as mathematics.
pub struct CallSampleView {
    pub server: Seq<char>,
    pub tool: Seq<char>,
    pub metric: ToolCallMetric,
}

impl View for CallSample {
    type V = CallSampleView;

    open spec fn view(&self) -> CallSampleView {
        CallSampleView { server: self.server@, tool: self.tool@, metric: self.metric }
    }
}

/// What samples say.
pub open spec fn sample_views(samples: Seq<CallSample>) -> Seq<CallSampleView> {
    samples.map_values(|sample: CallSample| sample@)
}

/// What is counted of a server's tools, in the order of their names.
pub open spec fn server_samples(server: Seq<char>, calls: Map<Seq<char>, ToolCallMetric>) -> Seq<
    CallSampleView,
> {
    table::in_order(calls.dom()).map_values(
        |tool: Seq<char>| CallSampleView { server, tool, metric: calls[tool] },
    )
}

/// What is counted of the tools of the named servers.
pub open spec fn samples(
    tool_calls: Map<Seq<char>, Map<Seq<char>, ToolCallMetric>>,
    servers: Seq<Seq<char>>,
) -> Seq<CallSampleView>
    decreases servers.len(),
{
    if servers.len() == 0 {
        Seq::empty()
    } else {
        samples(tool_calls, servers.drop_last()) + server_samples(
            servers.last(),
            tool_calls[servers.last()],
        )
    }
}

/// What is counted of all tools, in the order of the names of the servers and of their tools.
pub open spec fn all_samples(metrics: MetricsView) -> Seq<CallSampleView> {
    samples(metrics.tool_calls, table::in_order(metrics.tool_calls.dom()))
}

/// Adds what is counted of a server's tools.
fn push_samples(list: &mut Vec<CallSample>, server: &String, calls: &Table<ToolCallMetric>)
    requires
        calls.wf(),
    ensures
        sample_views(final(list)@) == sample_views(old(list)@) + server_samples(
            server@,
            calls.map(),
        ),
{
    let ghost start = sample_views(list@);
    let ghost names = calls.names();
    let ghost mine = server_samples(server@, calls.map());
    proof {
        calls.lemma_names();
    }
    let mut i: usize = 0;
    assert(start + mine.take(0) =~= start);
    while i < calls.len()
        invariant
            calls.wf(),
            i <= names.len(),
            names == calls.names(),
            names == table::in_order(calls.map().dom()),
            mine == server_samples(server@, calls.map()),
            sample_views(list@) == start + mine.take(i as int),
        decreases names.len() - i,
    {
        let ghost before = sample_views(list@);
        let tool = calls.name_at(i);
        let metric = *calls.value_at(i);
        let sample = CallSample { server: server.clone(), tool: tool.clone(), metric };
        list.push(sample);
        assert(sample_views(list@) =~= before.push(sample@));
        assert(sample@ == mine[i as int]);
        assert(sample_views(list@) =~= start + mine.take(i + 1));
        i += 1;
    }
    assert(mine.take(i as int) =~= mine);
}

/// What is counted of all tools.
pub fn call_samples(metrics: &Metrics) -> (list: Vec<CallSample>)
    requires
        metrics.wf(),
    ensures
        sample_views(list@) == all_samples(metrics@),
{
    let ghost names = metrics.tool_calls.names();
    let ghost counted = metrics@.tool_calls;
    proof {
        metrics.tool_calls.lemma_names();
        assert(counted.dom() =~= metrics.tool_calls.map().dom());
    }
    let mut list: Vec<CallSample> = Vec::new();
    let mut i: usize = 0;
    assert(sample_views(list@) =~= Seq::empty());
    while i < metrics.tool_calls.len()
        invariant
            metrics.wf(),
            i <= names.len(),
            names == metrics.tool_calls.names(),
            counted == metrics@.tool_calls,
            forall|name: Seq<char>|
                names.contains(name) <==> #[trigger] metrics.tool_calls.map().contains_key(name),
            sample_views(list@) == samples(counted, names.take(i as int)),
        decreases names.len() - i,
    {
        let server = metrics.tool_calls.name_at(i);
        let calls = metrics.tool_calls.value_at(i);
        proof {
            assert(names.take(i + 1).drop_last() =~= names.take(i as int));
            assert(names.contains(server@));
            assert(counted[server@] == calls.map());
        }
        push_samples(&mut list, server, calls);
        i += 1;
    }
    assert(names.take(i as int) =~= names);
    list
}

/// The rows about the servers, in the order of their names, where `seen` tells of each how many
/// seconds ago it was last seen.
pub open spec fn server_rows(
    servers: Map<Seq<char>, ManagedServerView>,
    seen: Seq<Seq<char>>,
) -> Seq<ServerRowView> {
    let names = table::in_order(servers.dom());
    Seq::new(
        names.len(),
        |i: int|
            ServerRowView {
                name: names[i],
                connected: servers[names[i]].connected,
                tools_count: servers[names[i]].tools.len(),
                reconnects: servers[names[i]].reconnects,
                last_seen: seen[i],
            },
    )
}

/// The rows about the tools, where `took` tells of each how many seconds its calls took.
pub open spec fn call_rows(samples: Seq<CallSampleView>, took: Seq<Seq<char>>) -> Seq<CallRowView> {
    Seq::new(
        samples.len(),
        |i: int|
            CallRowView {
                server: samples[i].server,
                tool: samples[i].tool,
                count: samples[i].metric.count,
                errors: samples[i].metric.errors,
                duration: took[i],
            },
    )
}

fn rows_of_servers(registry: &Registry, seen: &Vec<String>) -> (rows: Vec<ServerRow>)
    requires
        registry.wf(),
        seen@.len() == registry@.dom().len(),
    ensures
        server_row_views(rows@) == server_rows(registry@, text::texts(seen@)),
{
    let ghost names = registry.servers.names();
    proof {
        registry.servers.lemma_names();
        assert(registry@.dom() =~= registry.servers.map().dom());
    }
    let ghost expected = server_rows(registry@, text::texts(seen@));
    let mut rows: Vec<ServerRow> = Vec::new();
    let mut i: usize = 0;
    while i < registry.servers.len()
        invariant
            registry.wf(),
            i <= names.len(),
            names == registry.servers.names(),
            names == table::in_order(registry@.dom()),
            names.len() == seen@.len(),
            forall|name: Seq<char>|
                names.contains(name) <==> #[trigger] registry.servers.map().contains_key(name),
            expected == server_rows(registry@, text::texts(seen@)),
            rows@.len() == i,
            forall|k: int| 0 <= k < i ==> (#[trigger] rows@[k])@ == expected[k],
        decreases names.len() - i,
    {
        let name = registry.servers.name_at(i);
        let server = registry.servers.value_at(i);
        proof {
            assert(names.contains(name@));
            assert(registry@[name@] == server@);
        }
        rows.push(
            ServerRow {
                name: name.clone(),
                connected: server.connected,
                tools_count: server.tools.len(),
                reconnects: server.reconnects,
                last_seen: seen[i].clone(),
            },
        );
        i += 1;
    }
    assert(server_row_views(rows@) =~= expected);
    rows
}

fn rows_of_calls(samples: &Vec<CallSample>, took: &Vec<String>) -> (rows: Vec<CallRow>)
    requires
        took@.len() == samples@.len(),
    ensures
        call_row_views(rows@) == call_rows(sample_views(samples@), text::texts(took@)),
{
    let ghost expected = call_rows(sample_views(samples@), text::texts(took@));
    let mut rows: Vec<CallRow> = Vec::new();
    let mut i: usize = 0;
    while i < samples.len()
        invariant
            i <= samples@.len(),
            took@.len() == samples@.len(),
            expected == call_rows(sample_views(samples@), text::texts(took@)),
            rows@.len() == i,
            forall|k: int| 0 <= k < i ==> (#[trigger] rows@[k])@ == expected[k],
        decreases samples@.len() - i,
    {
        let sample = &samples[i];
        rows.push(
            CallRow {
                server: sample.server.clone(),
                tool: sample.tool.clone(),
                count: sample.metric.count,
                errors: sample.metric.errors,
                duration: took[i].clone(),
            },
        );
        i += 1;
    }
    assert(call_row_views(rows@) =~= expected);
    rows
}

/// The reply to a client that asks for the metrics, where `seen` tells of each server how many
/// seconds ago it was last seen, and `took` of each tool how many seconds its calls took.
pub open spec fn page_reply(
    state: AppStateView,
    seen: Seq<Seq<char>>,
    took: Seq<Seq<char>>,
) -> HttpReplyView {
    if state.metrics_enabled {
        http::text_reply(
            200,
            "text/plain; version=0.0.4"@,
            metrics_text(
                server_rows(state.servers, seen),
                state.sessions.dom().len(),
                call_rows(all_samples(state.metrics), took),
            ),
        )
    } else {
        http::text_reply(404, http::plain_text(), "metrics disabled\n"@)
    }
}

/// The reply to a client that asks for the metrics, where `seen` tells of each server how many
/// seconds ago it was last seen, and `took` of each tool how many seconds its calls took.
pub fn metrics(state: &AppState, seen: &Vec<String>, took: &Vec<String>) -> (reply: HttpReply)
    requires
        state.wf(),
        seen@.len() == state@.servers.dom().len(),
        took@.len() == all_samples(state@.metrics).len(),
    ensures
        reply@ == page_reply(state@, text::texts(seen@), text::texts(took@)),
{
    if !state.metrics_enabled {
        return http::worded_reply(
            404,
            "text/plain; charset=utf-8",
            "metrics disabled\n".to_owned(),
        );
    }
    proof {
        state.sessions.lemma_names();
    }
    let samples = call_samples(&state.metrics);
    assert(samples@.len() == sample_views(samples@).len());
    let page = render_metrics(
        &rows_of_servers(&state.registry, seen),
        state.sessions.len(),
        &rows_of_calls(&samples, took),
    );
    http::worded_reply(200, "text/plain; version=0.0.4", page)
}

/// What stands in a part of a text stands in the text.
proof fn lemma_contains_in_part(
    before: Seq<char>,
    part: Seq<char>,
    after: Seq<char>,
    words: Seq<char>,
)
    requires
        text::contains(part, words),
    ensures
        text::contains(before + part + after, words),
        text::contains(before + part, words),
        text::contains(part + after, words),
{
    let at = choose|at: int| text::occurs_at(part, words, at);
    let n = before.len() as int;
    assert((before + part + after).subrange(n + at, n + at + words.len()) =~= part.subrange(
        at,
        at + words.len(),
    ));
    assert(text::occurs_at(before + part + after, words, n + at));
    assert((before + part).subrange(n + at, n + at + words.len()) =~= part.subrange(
        at,
        at + words.len(),
    ));
    assert(text::occurs_at(before + part, words, n + at));
    assert((part + after).subrange(at, at + words.len()) =~= part.subrange(at, at + words.len()));
    assert(text::occurs_at(part + after, words, at));
}

proof fn lemma_contains_itself(words: Seq<char>)
    ensures
        text::contains(words, words),
{
    assert(words.subrange(0, words.len() as int) =~= words);
    assert(text::occurs_at(words, words, 0));
}

proof fn lemma_server_line_shown(metric: ServerMetric, rows: Seq<ServerRowView>, i: int)
    requires
        0 <= i < rows.len(),
    ensures
        text::contains(
            server_section(metric, rows),
            server_line(
                server_metric_name(metric),
                rows[i].name,
                server_metric_value(metric, rows[i]),
            ),
        ),
    decreases rows.len(),
{
    let line = server_line(
        server_metric_name(metric),
        rows[i].name,
        server_metric_value(metric, rows[i]),
    );
    let none = Seq::<char>::empty();
    let shorter = rows.drop_last();
    let last = server_line(
        server_metric_name(metric),
        rows.last().name,
        server_metric_value(metric, rows.last()),
    );
    if i == rows.len() - 1 {
        lemma_contains_itself(line);
        lemma_contains_in_part(server_lines(metric, shorter), line, none, line);
        lemma_contains_in_part(
            server_metric_heading(metric),
            server_lines(metric, rows),
            none,
            line,
        );
    } else {
        lemma_server_line_shown(metric, shorter, i);
        assert(shorter[i] == rows[i]);
        lemma_contains_in_part(none, server_section(metric, shorter), last, line);
        assert(server_section(metric, shorter) + last =~= server_section(metric, rows));
    }
}

proof fn lemma_call_line_shown(metric: CallMetric, rows: Seq<CallRowView>, i: int)
    requires
        0 <= i < rows.len(),
    ensures
        text::contains(
            call_section(metric, rows),
            call_line(
                call_metric_name(metric),
                rows[i].server,
                rows[i].tool,
                call_metric_value(metric, rows[i]),
            ),
        ),
    decreases rows.len(),
{
    let line = call_line(
        call_metric_name(metric),
        rows[i].server,
        rows[i].tool,
        call_metric_value(metric, rows[i]),
    );
    let none = Seq::<char>::empty();
    let shorter = rows.drop_last();
    let last = call_line(
        call_metric_name(metric),
        rows.last().server,
        rows.last().tool,
        call_metric_value(metric, rows.last()),
    );
    if i == rows.len() - 1 {
        lemma_contains_itself(line);
        lemma_contains_in_part(call_lines(metric, shorter), line, none, line);
        lemma_contains_in_part(call_metric_heading(metric), call_lines(metric, rows), none, line);
    } else {
        lemma_call_line_shown(metric, shorter, i);
        assert(shorter[i] == rows[i]);
        lemma_contains_in_part(none, call_section(metric, shorter), last, line);
        assert(call_section(metric, shorter) + last =~= call_section(metric, rows));
    }
}

/// What stands in one of two texts stands in both of them together.
proof fn lemma_contains_in_sum(first: Seq<char>, second: Seq<char>, words: Seq<char>)
    requires
        text::contains(first, words) || text::contains(second, words),
    ensures
        text::contains(first + second, words),
{
    if text::contains(first, words) {
        lemma_contains_in_part(Seq::empty(), first, second, words);
    } else {
        lemma_contains_in_part(first, second, Seq::empty(), words);
    }
}

/// What stands in one of several texts stands in all of them together.
proof fn lemma_contains_in_all(parts: Seq<Seq<char>>, k: int, words: Seq<char>)
    requires
        0 <= k < parts.len(),
        text::contains(parts[k], words),
    ensures
        text::contains(one_after_another(parts), words),
    decreases parts.len(),
{
    let before = one_after_another(parts.drop_last());
    if k < parts.len() - 1 {
        lemma_contains_in_all(parts.drop_last(), k, words);
    }
    lemma_contains_in_sum(before, parts.last(), words);
}

spec fn one_after_another(parts: Seq<Seq<char>>) -> Seq<char>
    decreases parts.len(),
{
    if parts.len() == 0 {
        Seq::empty()
    } else {
        one_after_another(parts.drop_last()) + parts.last()
    }
}

/// One more text comes behind the others.
proof fn lemma_one_more(parts: Seq<Seq<char>>, part: Seq<char>)
    ensures
        one_after_another(parts.push(part)) == one_after_another(parts) + part,
{
    assert(parts.push(part).drop_last() =~= parts);
}

/// The parts of the page.
spec fn parts_of_the_page(
    servers: Seq<ServerRowView>,
    active: nat,
    calls: Seq<CallRowView>,
) -> Seq<Seq<char>> {
    seq![server_section(ServerMetric::Connected, servers)].push(
        server_section(ServerMetric::ToolsCount, servers),
    ).push(server_section(ServerMetric::Reconnects, servers)).push(
        server_section(ServerMetric::LastSeen, servers),
    ).push(sessions_section(active)).push(call_section(CallMetric::Calls, calls)).push(
        call_section(CallMetric::Errors, calls),
    ).push(call_section(CallMetric::Duration, calls))
}

proof fn lemma_page_in_parts(
    s1: Seq<char>,
    s2: Seq<char>,
    s3: Seq<char>,
    s4: Seq<char>,
    s5: Seq<char>,
    s6: Seq<char>,
    s7: Seq<char>,
    s8: Seq<char>,
)
    ensures
        one_after_another(
            seq![s1].push(s2).push(s3).push(s4).push(s5).push(s6).push(s7).push(s8),
        ) == s1 + s2 + s3 + s4 + s5 + s6 + s7 + s8,
{
    let none = Seq::<Seq<char>>::empty();
    let a = seq![s1];
    let b = a.push(s2);
    let c = b.push(s3);
    let d = c.push(s4);
    let e = d.push(s5);
    let f = e.push(s6);
    let g = f.push(s7);
    lemma_one_more(none, s1);
    assert(none.push(s1) =~= a);
    assert(one_after_another(none) + s1 =~= s1);
    lemma_one_more(a, s2);
    lemma_one_more(b, s3);
    lemma_one_more(c, s4);
    lemma_one_more(d, s5);
    lemma_one_more(e, s6);
    lemma_one_more(f, s7);
    lemma_one_more(g, s8);
}

/// What stands in one part of the page stands in the page.
proof fn lemma_parts_of_the_page(
    servers: Seq<ServerRowView>,
    active: nat,
    calls: Seq<CallRowView>,
    k: int,
    words: Seq<char>,
)
    requires
        0 <= k < 8,
        text::contains(parts_of_the_page(servers, active, calls)[k], words),
    ensures
        text::contains(metrics_text(servers, active, calls), words),
{
    lemma_contains_in_all(parts_of_the_page(servers, active, calls), k, words);
    lemma_page_in_parts(
        server_section(ServerMetric::Connected, servers),
        server_section(ServerMetric::ToolsCount, servers),
        server_section(ServerMetric::Reconnects, servers),
        server_section(ServerMetric::LastSeen, servers),
        sessions_section(active),
        call_section(CallMetric::Calls, calls),
        call_section(CallMetric::Errors, calls),
        call_section(CallMetric::Duration, calls),
    );
}

/// Texts one after another, the last three of them taken together.
proof fn lemma_taken_together(a: Seq<char>, b: Seq<char>, c: Seq<char>, d: Seq<char>)
    ensures
        a + b + c + d == a + (b + c + d),
{
    assert(a + b + c + d =~= a + (b + c + d));
}

/// The line of a metric with the label of a server.
pub open spec fn labelled(metric: Seq<char>, server: Seq<char>, value: Seq<char>) -> Seq<char> {
    metric + "{server=\""@ + metrics::escape(server) + "\"} "@ + value + "\n"@
}

/// The page shows of every upstream, under its name, whether the gateway is connected to it, as one
/// or zero, how many tools it has, how often it was lost, and how long ago it was seen.
pub proof fn law_page_shows_every_upstream(
    state: AppStateView,
    seen: Seq<Seq<char>>,
    took: Seq<Seq<char>>,
    name: Seq<char>,
    i: int,
)
    requires
        state.metrics_enabled,
        state.servers.dom().finite(),
        0 <= i < table::in_order(state.servers.dom()).len(),
        table::in_order(state.servers.dom())[i] == name,
    ensures
        ({
            let page = page_reply(state, seen, took).body;
            let server = state.servers[name];
            &&& state.servers.contains_key(name)
            &&& text::contains(
                page,
                labelled(
                    "mcpstead_upstream_connected"@,
                    name,
                    if server.connected {
                        "1"@
                    } else {
                        "0"@
                    },
                ),
            )
            &&& text::contains(
                page,
                labelled(
                    "mcpstead_upstream_tools_count"@,
                    name,
                    text::decimal(server.tools.len()),
                ),
            )
            &&& text::contains(
                page,
                labelled(
                    "mcpstead_upstream_reconnects_total"@,
                    name,
                    text::decimal(server.reconnects as nat),
                ),
            )
            &&& text::contains(
                page,
                labelled("mcpstead_upstream_last_seen_seconds"@, name, seen[i]),
            )
        }),
{
    let names = table::in_order(state.servers.dom());
    table::lemma_in_order(state.servers.dom());
    assert(names.contains(name));
    assert(state.servers.dom().contains(name));
    let rows = server_rows(state.servers, seen);
    let active = state.sessions.dom().len();
    let calls = call_rows(all_samples(state.metrics), took);
    let server = state.servers[name];
    lemma_server_line_shown(ServerMetric::Connected, rows, i);
    lemma_server_line_shown(ServerMetric::ToolsCount, rows, i);
    lemma_server_line_shown(ServerMetric::Reconnects, rows, i);
    lemma_server_line_shown(ServerMetric::LastSeen, rows, i);
    lemma_parts_of_the_page(
        rows,
        active,
        calls,
        0,
        labelled(
            "mcpstead_upstream_connected"@,
            name,
            if server.connected {
                "1"@
            } else {
                "0"@
            },
        ),
    );
    lemma_parts_of_the_page(
        rows,
        active,
        calls,
        1,
        labelled("mcpstead_upstream_tools_count"@, name, text::decimal(server.tools.len())),
    );
    lemma_parts_of_the_page(
        rows,
        active,
        calls,
        2,
        labelled(
            "mcpstead_upstream_reconnects_total"@,
            name,
            text::decimal(server.reconnects as nat),
        ),
    );
    lemma_parts_of_the_page(
        rows,
        active,
        calls,
        3,
        labelled("mcpstead_upstream_last_seen_seconds"@, name, seen[i]),
    );
}

/// The line of a metric with the labels of a server and of its tool.
pub open spec fn labelled_call(
    metric: Seq<char>,
    server: Seq<char>,
    tool: Seq<char>,
    value: Seq<char>,
) -> Seq<char> {
    metric + "{server=\""@ + metrics::escape(server) + "\",tool=\""@ + metrics::escape(tool)
        + "\"} "@ + value + "\n"@
}

/// The page shows of every tool that was called how often it was called, how often it failed, and
/// how long its calls took.
pub proof fn law_page_shows_every_called_tool(
    state: AppStateView,
    seen: Seq<Seq<char>>,
    took: Seq<Seq<char>>,
    i: int,
)
    requires
        state.metrics_enabled,
        0 <= i < all_samples(state.metrics).len(),
    ensures
        ({
            let page = page_reply(state, seen, took).body;
            let sample = all_samples(state.metrics)[i];
            let (server, tool) = (sample.server, sample.tool);
            let count = text::decimal(sample.metric.count as nat);
            let errors = text::decimal(sample.metric.errors as nat);
            &&& text::contains(
                page,
                labelled_call("mcpstead_tool_calls_total"@, server, tool, count),
            )
            &&& text::contains(
                page,
                labelled_call("mcpstead_tool_call_errors_total"@, server, tool, errors),
            )
            &&& text::contains(
                page,
                labelled_call("mcpstead_tool_call_duration_seconds_sum"@, server, tool, took[i]),
            )
        }),
{
    let rows = server_rows(state.servers, seen);
    let active = state.sessions.dom().len();
    let calls = call_rows(all_samples(state.metrics), took);
    let sample = all_samples(state.metrics)[i];
    lemma_call_shown(rows, active, calls, i, CallMetric::Calls);
    lemma_call_shown(rows, active, calls, i, CallMetric::Errors);
    lemma_call_shown(rows, active, calls, i, CallMetric::Duration);
}

proof fn lemma_call_shown(
    servers: Seq<ServerRowView>,
    active: nat,
    calls: Seq<CallRowView>,
    i: int,
    metric: CallMetric,
)
    requires
        0 <= i < calls.len(),
    ensures
        text::contains(
            metrics_text(servers, active, calls),
            labelled_call(
                call_metric_name(metric),
                calls[i].server,
                calls[i].tool,
                call_metric_value(metric, calls[i]),
            ),
        ),
{
    lemma_call_line_shown(metric, calls, i);
    let k: int = match metric {
        CallMetric::Calls => 5,
        CallMetric::Errors => 6,
        CallMetric::Duration => 7,
    };
    lemma_parts_of_the_page(
        servers,
        active,
        calls,
        k,
        call_line(
            call_metric_name(metric),
            calls[i].server,
            calls[i].tool,
            call_metric_value(metric, calls[i]),
        ),
    );
}

/// The page shows how many sessions there are.
pub proof fn law_page_shows_the_sessions(
    state: AppStateView,
    seen: Seq<Seq<char>>,
    took: Seq<Seq<char>>,
)
    requires
        state.metrics_enabled,
    ensures
        text::contains(
            page_reply(state, seen, took).body,
            "mcpstead_downstream_sessions_active "@ + text::decimal(state.sessions.dom().len())
                + "\n"@,
        ),
{
    let active = state.sessions.dom().len();
    let line = "mcpstead_downstream_sessions_active "@ + text::decimal(active) + "\n"@;
    let head = heading(
        "mcpstead_downstream_sessions_active"@,
        "Active downstream sessions."@,
        "gauge"@,
    );
    lemma_contains_itself(line);
    lemma_contains_in_part(head, line, Seq::empty(), line);
    lemma_taken_together(
        head,
        "mcpstead_downstream_sessions_active "@,
        text::decimal(active),
        "\n"@,
    );
    lemma_parts_of_the_page(
        server_rows(state.servers, seen),
        active,
        call_rows(all_samples(state.metrics), took),
        4,
        line,
    );
}

/// The page is there exactly if it is enabled.
pub proof fn law_page_can_be_disabled(
    state: AppStateView,
    seen: Seq<Seq<char>>,
    took: Seq<Seq<char>>,
)
    ensures
        state.metrics_enabled ==> page_reply(state, seen, took).status == 200 && page_reply(
            state,
            seen,
            took,
        ).content_type == Some("text/plain; version=0.0.4"@),
        !state.metrics_enabled ==> page_reply(state, seen, took).status == 404 && page_reply(
            state,
            seen,
            took,
        ).body == "metrics disabled\n"@,
{
}

/// Lines of a metric follow each other in the order of the rows, one for each row.
pub proof fn law_one_line_for_each_row(
    metric: ServerMetric,
    rows: Seq<ServerRowView>,
    row: ServerRowView,
    call_metric: CallMetric,
    calls: Seq<CallRowView>,
    call: CallRowView,
)
    ensures
        server_lines(metric, Seq::empty()) == Seq::<char>::empty(),
        server_lines(metric, rows.push(row)) == server_lines(metric, rows) + labelled(
            server_metric_name(metric),
            row.name,
            server_metric_value(metric, row),
        ),
        call_lines(call_metric, Seq::empty()) == Seq::<char>::empty(),
        call_lines(call_metric, calls.push(call)) == call_lines(call_metric, calls) + labelled_call(
            call_metric_name(call_metric),
            call.server,
            call.tool,
            call_metric_value(call_metric, call),
        ),
{
    assert(rows.push(row).drop_last() =~= rows);
    assert(calls.push(call).drop_last() =~= calls);
}

proof fn lemma_samples_hold(
    tool_calls: Map<Seq<char>, Map<Seq<char>, ToolCallMetric>>,
    servers: Seq<Seq<char>>,
    sample: CallSampleView,
)
    requires
        forall|k: int|
            0 <= k < servers.len() ==> tool_calls[#[trigger] servers[k]].dom().finite(),
    ensures
        samples(tool_calls, servers).contains(sample) <==> servers.contains(sample.server)
            && tool_calls[sample.server].contains_key(sample.tool)
            && tool_calls[sample.server][sample.tool] == sample.metric,
    decreases servers.len(),
{
    if servers.len() > 0 {
        let shorter = servers.drop_last();
        let last = servers.last();
        assert forall|k: int| 0 <= k < shorter.len() implies tool_calls[#[trigger] shorter[k]]
            .dom().finite() by {
            assert(shorter[k] == servers[k]);
        }
        lemma_samples_hold(tool_calls, shorter, sample);
        table::lemma_but_last(servers);
        assert(servers[servers.len() - 1] == last);
        let before = samples(tool_calls, shorter);
        let mine = server_samples(last, tool_calls[last]);
        let names = table::in_order(tool_calls[last].dom());
        table::lemma_in_order(tool_calls[last].dom());
        assert(mine.contains(sample) <==> sample.server == last && tool_calls[last].contains_key(
            sample.tool,
        ) && tool_calls[last][sample.tool] == sample.metric) by {
            if mine.contains(sample) {
                let j = choose|j: int| 0 <= j < mine.len() && mine[j] == sample;
                assert(names.contains(names[j]));
                assert(tool_calls[last].dom().contains(names[j]));
            }
            if sample.server == last && tool_calls[last].contains_key(sample.tool)
                && tool_calls[last][sample.tool] == sample.metric {
                assert(tool_calls[last].dom().contains(sample.tool));
                assert(names.contains(sample.tool));
                let j = choose|j: int| 0 <= j < names.len() && names[j] == sample.tool;
                assert(mine[j] == sample);
            }
        }
        assert((before + mine).contains(sample) <==> before.contains(sample) || mine.contains(
            sample,
        )) by {
            if before.contains(sample) {
                let j = choose|j: int| 0 <= j < before.len() && before[j] == sample;
                assert((before + mine)[j] == sample);
            }
            if mine.contains(sample) {
                let j = choose|j: int| 0 <= j < mine.len() && mine[j] == sample;
                assert((before + mine)[before.len() + j] == sample);
            }
            if (before + mine).contains(sample) {
                let j = choose|j: int|
                    0 <= j < (before + mine).len() && (before + mine)[j] == sample;
                if j < before.len() {
                    assert(before[j] == sample);
                } else {
                    assert(mine[j - before.len()] == sample);
                }
            }
        }
    }
}

/// The samples are what is counted of the calls of every tool that was called, and nothing else.
pub proof fn law_every_called_tool_has_a_sample(counted: MetricsView, sample: CallSampleView)
    requires
        counted.tool_calls.dom().finite(),
        forall|server: Seq<char>| #[trigger]
            counted.tool_calls.contains_key(server) ==> counted.tool_calls[server].dom().finite(),
    ensures
        all_samples(counted).contains(sample) <==> counted.tool_calls.contains_key(sample.server)
            && counted.tool_calls[sample.server].contains_key(sample.tool)
            && counted.tool_calls[sample.server][sample.tool] == sample.metric,
{
    let servers = table::in_order(counted.tool_calls.dom());
    table::lemma_in_order(counted.tool_calls.dom());
    assert forall|k: int| 0 <= k < servers.len() implies counted.tool_calls[#[trigger] servers[k]]
        .dom().finite() by {
        assert(servers.contains(servers[k]));
        assert(counted.tool_calls.dom().contains(servers[k]));
        assert(counted.tool_calls.contains_key(servers[k]));
    }
    lemma_samples_hold(counted.tool_calls, servers, sample);
    assert(servers.contains(sample.server) <==> counted.tool_calls.dom().contains(sample.server));
}

proof fn lemma_heading_shown(
    servers: Seq<ServerRowView>,
    active: nat,
    calls: Seq<CallRowView>,
    k: int,
    head: Seq<char>,
    rest: Seq<char>,
)
    requires
        0 <= k < 8,
        parts_of_the_page(servers, active, calls)[k] == head + rest,
    ensures
        text::contains(metrics_text(servers, active, calls), head),
{
    lemma_contains_itself(head);
    lemma_contains_in_sum(head, rest, head);
    lemma_parts_of_the_page(servers, active, calls, k, head);
}

/// The page says of each metric of upstreams what it is, and whether it is a gauge or a counter.
pub proof fn law_page_explains_the_metrics_of_upstreams(
    servers: Seq<ServerRowView>,
    active: nat,
    calls: Seq<CallRowView>,
)
    ensures
        ({
            let page = metrics_text(servers, active, calls);
            &&& text::contains(
                page,
                heading(
                    "mcpstead_upstream_connected"@,
                    "Upstream connection state."@,
                    "gauge"@,
                ),
            )
            &&& text::contains(
                page,
                heading(
                    "mcpstead_upstream_tools_count"@,
                    "Cached upstream tool count."@,
                    "gauge"@,
                ),
            )
            &&& text::contains(
                page,
                heading(
                    "mcpstead_upstream_reconnects_total"@,
                    "Upstream reconnect attempts."@,
                    "counter"@,
                ),
            )
            &&& text::contains(
                page,
                heading(
                    "mcpstead_upstream_last_seen_seconds"@,
                    "Seconds since upstream success."@,
                    "gauge"@,
                ),
            )
        }),
{
    lemma_server_heading_shown(servers, active, calls, ServerMetric::Connected, 0);
    lemma_server_heading_shown(servers, active, calls, ServerMetric::ToolsCount, 1);
    lemma_server_heading_shown(servers, active, calls, ServerMetric::Reconnects, 2);
    lemma_server_heading_shown(servers, active, calls, ServerMetric::LastSeen, 3);
}

proof fn lemma_server_heading_shown(
    servers: Seq<ServerRowView>,
    active: nat,
    calls: Seq<CallRowView>,
    metric: ServerMetric,
    k: int,
)
    requires
        0 <= k < 4,
        parts_of_the_page(servers, active, calls)[k] == server_section(metric, servers),
    ensures
        text::contains(metrics_text(servers, active, calls), server_metric_heading(metric)),
{
    lemma_heading_shown(
        servers,
        active,
        calls,
        k,
        server_metric_heading(metric),
        server_lines(metric, servers),
    );
}

proof fn lemma_call_heading_shown(
    servers: Seq<ServerRowView>,
    active: nat,
    calls: Seq<CallRowView>,
    metric: CallMetric,
    k: int,
)
    requires
        5 <= k < 8,
        parts_of_the_page(servers, active, calls)[k] == call_section(metric, calls),
    ensures
        text::contains(metrics_text(servers, active, calls), call_metric_heading(metric)),
{
    lemma_heading_shown(
        servers,
        active,
        calls,
        k,
        call_metric_heading(metric),
        call_lines(metric, calls),
    );
}

/// The page says of each metric of tools what it is, and that it is a counter.
pub proof fn law_page_explains_the_metrics_of_tools(
    servers: Seq<ServerRowView>,
    active: nat,
    calls: Seq<CallRowView>,
)
    ensures
        ({
            let page = metrics_text(servers, active, calls);
            &&& text::contains(
                page,
                heading(
                    "mcpstead_tool_calls_total"@,
                    "Tool calls routed upstream."@,
                    "counter"@,
                ),
            )
            &&& text::contains(
                page,
                heading("mcpstead_tool_call_errors_total"@, "Tool call errors."@, "counter"@),
            )
            &&& text::contains(
                page,
                heading(
                    "mcpstead_tool_call_duration_seconds_sum"@,
                    "Total tool call duration."@,
                    "counter"@,
                ),
            )
        }),
{
    lemma_call_heading_shown(servers, active, calls, CallMetric::Calls, 5);
    lemma_call_heading_shown(servers, active, calls, CallMetric::Errors, 6);
    lemma_call_heading_shown(servers, active, calls, CallMetric::Duration, 7);
}

/// What the page says of a metric names it twice, with what it is and with its kind.
pub proof fn law_headings_help_and_type(metric: Seq<char>, help: Seq<char>, kind: Seq<char>)
    ensures
        heading(metric, help, kind) == "# HELP "@ + metric + " "@ + help + "\n# TYPE "@ + metric
            + " "@ + kind + "\n"@,
{
}

/// The rows of the page are seen as they are.
pub proof fn law_rows_are_seen_as_they_are(row: ServerRow, call: CallRow, sample: CallSample)
    ensures
        row@.name == row.name@,
        row@.connected == row.connected,
        row@.tools_count == row.tools_count,
        row@.reconnects == row.reconnects,
        row@.last_seen == row.last_seen@,
        call@.server == call.server@,
        call@.tool == call.tool@,
        call@.count == call.count,
        call@.errors == call.errors,
        call@.duration == call.duration@,
        sample@.server == sample.server@,
        sample@.tool == sample.tool@,
        sample@.metric == sample.metric,
{
}

} // verus!
