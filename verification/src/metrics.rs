//! Counters of what the gateway does.
use vstd::prelude::*;
use vstd::string::*;

use crate::table::Table;
use crate::text;

verus! {

/// What a counter counts.
#[derive(Debug, Clone, Copy, PartialEq, Eq, Structural)]
pub enum Family {
    /// Requests let through by bearer authorization.
    AuthSuccesses,
    /// Requests refused by it, by reason.
    AuthFailures,
    /// Downstream sessions opened.
    SessionsOpened,
    /// Downstream sessions ended, by reason.
    SessionTerminations,
    /// MCP requests, by method and result.
    McpRequests,
    /// Nanoseconds spent on MCP requests, by method and result.
    McpRequestNanos,
    /// Failed tool calls, by reason.
    ToolCallErrorReasons,
    /// Reloads of the configuration, by result.
    ConfigReloads,
    /// Health checks of an upstream, by server and result.
    UpstreamHealthChecks,
    /// Attempts to reach an upstream again, by server and result.
    UpstreamReconnectAttempts,
    /// Initializations of an upstream, by server and result.
    UpstreamInitializes,
    /// Nanoseconds spent on them, by server and result.
    UpstreamInitializeNanos,
    /// Refreshes of an upstream's tools, by server and result.
    UpstreamToolsRefreshes,
    /// Nanoseconds spent on them, by server and result.
    UpstreamToolsRefreshNanos,
    /// Bytes exchanged with an upstream, by server and direction.
    UpstreamBytes,
    /// Milliseconds that the gateway is waiting before the next attempt, by server.
    UpstreamBackoffMillis,
    /// Milliseconds waited before attempts, by server.
    UpstreamBackoffMillisTotal,
}

/// The name of a counter: what it counts, and its labels. A label that a counter does not have is
/// empty.
pub struct CounterKey {
    pub family: Family,
    pub first: Seq<char>,
    pub second: Seq<char>,
}

/// The name of a counter.
pub open spec fn key(family: Family, first: Seq<char>, second: Seq<char>) -> CounterKey {
    CounterKey { family, first, second }
}

/// One more step of a counter, which stays at its greatest value.
pub open spec fn counted(value: u64, n: u64) -> u64 {
    if value + n > u64::MAX {
        u64::MAX
    } else {
        (value + n) as u64
    }
}

#[derive(Debug)]
struct Counter {
    family: Family,
    first: String,
    second: String,
    value: u64,
}

/// Counters by name. One that was never touched stands at zero.
#[derive(Debug)]
pub struct Counters {
    entries: Vec<Counter>,
}

spec fn key_of(counter: Counter) -> CounterKey {
    key(counter.family, counter.first@, counter.second@)
}

spec fn value_from(entries: Seq<Counter>, name: CounterKey, i: int) -> u64
    decreases entries.len() - i,
{
    if i < 0 || i >= entries.len() {
        0
    } else if key_of(entries[i]) == name {
        entries[i].value
    } else {
        value_from(entries, name, i + 1)
    }
}

impl View for Counters {
    type V = Map<CounterKey, u64>;

    closed spec fn view(&self) -> Map<CounterKey, u64> {
        Map::total(|name: CounterKey| value_from(self.entries@, name, 0))
    }
}

/// Scanning two lists that agree but for the values at `at` finds the same, but for the name
/// there.
proof fn lemma_value_updated(
    before: Seq<Counter>,
    after: Seq<Counter>,
    at: int,
    name: CounterKey,
    i: int,
)
    requires
        0 <= at < before.len(),
        before.len() == after.len(),
        forall|k: int| 0 <= k < before.len() ==> key_of(before[k]) == key_of(#[trigger] after[k]),
        forall|k: int| 0 <= k < before.len() && k != at ==> before[k] == #[trigger] after[k],
        forall|k: int| 0 <= k < at ==> key_of(#[trigger] before[k]) != key_of(before[at]),
        0 <= i,
    ensures
        name != key_of(before[at]) ==> value_from(after, name, i) == value_from(before, name, i),
        name == key_of(before[at]) && i <= at ==> value_from(after, name, i) == after[at].value,
    decreases before.len() - i,
{
    if i < before.len() {
        lemma_value_updated(before, after, at, name, i + 1);
    }
}

/// Scanning a list with one more counter at its end.
proof fn lemma_value_pushed(entries: Seq<Counter>, counter: Counter, name: CounterKey, i: int)
    requires
        0 <= i <= entries.len(),
        forall|k: int| 0 <= k < entries.len() ==> key_of(#[trigger] entries[k]) != key_of(counter),
    ensures
        name != key_of(counter) ==> value_from(entries.push(counter), name, i) == value_from(
            entries,
            name,
            i,
        ),
        name == key_of(counter) ==> value_from(entries.push(counter), name, i) == counter.value,
        name == key_of(counter) ==> value_from(entries, name, i) == 0,
    decreases entries.len() - i,
{
    if i < entries.len() {
        lemma_value_pushed(entries, counter, name, i + 1);
    } else {
        assert(value_from(entries.push(counter), name, i + 1) == 0);
    }
}

impl Counters {
    /// Counters that all stand at zero.
    pub fn new() -> (counters: Self)
        ensures
            counters@ == Map::total(|name: CounterKey| 0u64),
    {
        let counters = Counters { entries: Vec::new() };
        assert(counters@ =~= Map::total(|name: CounterKey| 0u64));
        counters
    }

    fn find(&self, family: Family, first: &str, second: &str) -> (found: Option<usize>)
        ensures
            match found {
                Some(at) => {
                    &&& at < self.entries@.len()
                    &&& key_of(self.entries@[at as int]) == key(family, first@, second@)
                    &&& forall|k: int|
                        0 <= k < at ==> key_of(#[trigger] self.entries@[k]) != key(
                            family,
                            first@,
                            second@,
                        )
                    &&& value_from(self.entries@, key(family, first@, second@), 0)
                        == self.entries@[at as int].value
                },
                None => {
                    &&& forall|k: int|
                        0 <= k < self.entries@.len() ==> key_of(#[trigger] self.entries@[k]) != key(
                            family,
                            first@,
                            second@,
                        )
                    &&& value_from(self.entries@, key(family, first@, second@), 0) == 0
                },
            },
    {
        let ghost name = key(family, first@, second@);
        let mut i: usize = 0;
        while i < self.entries.len()
            invariant
                i <= self.entries@.len(),
                name == key(family, first@, second@),
                forall|k: int| 0 <= k < i ==> key_of(#[trigger] self.entries@[k]) != name,
                value_from(self.entries@, name, 0) == value_from(self.entries@, name, i as int),
            decreases self.entries@.len() - i,
        {
            let entry = &self.entries[i];
            if entry.family == family && text::same_text(entry.first.as_str(), first)
                && text::same_text(entry.second.as_str(), second) {
                return Some(i);
            }
            i += 1;
        }
        None
    }

    /// The value of a counter.
    pub fn get(&self, family: Family, first: &str, second: &str) -> (value: u64)
        ensures
            value == self@[key(family, first@, second@)],
    {
        match self.find(family, first, second) {
            Some(at) => self.entries[at].value,
            None => 0,
        }
    }

    /// Gives a counter a value.
    pub fn set(&mut self, family: Family, first: &str, second: &str, value: u64)
        ensures
            final(self)@ == old(self)@.insert(key(family, first@, second@), value),
    {
        let ghost before = self.entries@;
        let ghost name = key(family, first@, second@);
        match self.find(family, first, second) {
            Some(at) => {
                self.entries[at].value = value;
                proof {
                    assert forall|other: CounterKey| value_from(self.entries@, other, 0) == (
                    if other == name { value } else { value_from(before, other, 0) }) by {
                        lemma_value_updated(before, self.entries@, at as int, other, 0);
                    }
                }
            },
            None => {
                let counter = Counter {
                    family,
                    first: first.to_owned(),
                    second: second.to_owned(),
                    value,
                };
                self.entries.push(counter);
                proof {
                    assert forall|other: CounterKey| value_from(self.entries@, other, 0) == (
                    if other == name { value } else { value_from(before, other, 0) }) by {
                        lemma_value_pushed(before, counter, other, 0);
                    }
                }
            },
        }
        assert(self@ =~= old(self)@.insert(name, value));
    }

    /// Adds to a counter.
    pub fn add_to(&mut self, family: Family, first: &str, second: &str, n: u64)
        ensures
            final(self)@ == old(self)@.insert(
                key(family, first@, second@),
                counted(old(self)@[key(family, first@, second@)], n),
            ),
    {
        let value = self.get(family, first, second).saturating_add(n);
        self.set(family, first, second, value);
    }
}

/// What is counted of the calls of one tool.
#[derive(Debug, Clone, Copy, PartialEq, Eq, Structural)]
pub struct ToolCallMetric {
    pub count: u64,
    pub errors: u64,
    pub duration_sum_nanos: u64,
}

/// No calls.
pub open spec fn no_calls() -> ToolCallMetric {
    ToolCallMetric { count: 0, errors: 0, duration_sum_nanos: 0 }
}

/// One more call, failed or not.
pub open spec fn one_more_call(metric: ToolCallMetric, nanos: u64, failed: bool) -> ToolCallMetric {
    ToolCallMetric {
        count: counted(metric.count, 1),
        errors: if failed {
            counted(metric.errors, 1)
        } else {
            metric.errors
        },
        duration_sum_nanos: counted(metric.duration_sum_nanos, nanos),
    }
}

/// Everything that is counted.
#[derive(Debug)]
pub struct Metrics {
    pub counters: Counters,
    pub tool_calls: Table<Table<ToolCallMetric>>,
}

/// Everything that is counted, as mathematics.
pub struct MetricsView {
    pub counters: Map<CounterKey, u64>,
    pub tool_calls: Map<Seq<char>, Map<Seq<char>, ToolCallMetric>>,
}

impl View for Metrics {
    type V = MetricsView;

    open spec fn view(&self) -> MetricsView {
        MetricsView {
            counters: self.counters@,
            tool_calls: self.tool_calls.map().map_values(
                |calls: Table<ToolCallMetric>| calls.map(),
            ),
        }
    }
}

impl MetricsView {
    /// A counter gone up by `n`.
    pub open spec fn plus(self, name: CounterKey, n: u64) -> MetricsView {
        MetricsView {
            counters: self.counters.insert(name, counted(self.counters[name], n)),
            ..self
        }
    }

    /// A counter given a value.
    pub open spec fn with(self, name: CounterKey, value: u64) -> MetricsView {
        MetricsView { counters: self.counters.insert(name, value), ..self }
    }

    /// What is counted of the calls of a server's tools.
    pub open spec fn calls_of(self, server: Seq<char>) -> Map<Seq<char>, ToolCallMetric> {
        if self.tool_calls.contains_key(server) {
            self.tool_calls[server]
        } else {
            Map::empty()
        }
    }

    /// What is counted of the calls of a tool.
    pub open spec fn call_metric(self, server: Seq<char>, tool: Seq<char>) -> ToolCallMetric {
        if self.calls_of(server).contains_key(tool) {
            self.calls_of(server)[tool]
        } else {
            no_calls()
        }
    }

    /// One more call of a tool, with the reason why it failed, if it did.
    pub open spec fn with_call(
        self,
        server: Seq<char>,
        tool: Seq<char>,
        nanos: u64,
        reason: Option<Seq<char>>,
    ) -> MetricsView {
        let metric = one_more_call(self.call_metric(server, tool), nanos, reason is Some);
        let counters = match reason {
            Some(why) => {
                let name = key(Family::ToolCallErrorReasons, why, Seq::empty());
                self.counters.insert(name, counted(self.counters[name], 1))
            },
            None => self.counters,
        };
        MetricsView {
            counters,
            tool_calls: self.tool_calls.insert(server, self.calls_of(server).insert(tool, metric)),
        }
    }

    /// One more MCP request.
    pub open spec fn with_request(
        self,
        method: Seq<char>,
        result: Seq<char>,
        nanos: u64,
    ) -> MetricsView {
        self.plus(key(Family::McpRequests, method, result), 1).plus(
            key(Family::McpRequestNanos, method, result),
            nanos,
        )
    }

    /// One more initialization of an upstream.
    pub open spec fn with_initialize(
        self,
        server: Seq<char>,
        result: Seq<char>,
        nanos: u64,
    ) -> MetricsView {
        self.plus(key(Family::UpstreamInitializes, server, result), 1).plus(
            key(Family::UpstreamInitializeNanos, server, result),
            nanos,
        )
    }

    /// One more refresh of an upstream's tools.
    pub open spec fn with_tools_refresh(
        self,
        server: Seq<char>,
        result: Seq<char>,
        nanos: u64,
    ) -> MetricsView {
        self.plus(key(Family::UpstreamToolsRefreshes, server, result), 1).plus(
            key(Family::UpstreamToolsRefreshNanos, server, result),
            nanos,
        )
    }

    /// A wait of `millis` before the next attempt has begun.
    pub open spec fn with_backoff(self, server: Seq<char>, millis: u64) -> MetricsView {
        self.with(key(Family::UpstreamBackoffMillis, server, Seq::empty()), millis)
    }

    /// A wait of `millis` is over.
    pub open spec fn with_backoff_complete(self, server: Seq<char>, millis: u64) -> MetricsView {
        self.with(key(Family::UpstreamBackoffMillis, server, Seq::empty()), 0).plus(
            key(Family::UpstreamBackoffMillisTotal, server, Seq::empty()),
            millis,
        )
    }
}

impl Metrics {
    /// The tables are ones.
    pub open spec fn wf(&self) -> bool {
        &&& self.tool_calls.wf()
        &&& forall|server: Seq<char>|
            self.tool_calls.map().contains_key(server)
                ==> (#[trigger] self.tool_calls.map()[server]).wf()
    }

    /// Nothing has been counted.
    pub fn new() -> (metrics: Self)
        ensures
            metrics.wf(),
            metrics@ == no_metrics(),
    {
        let metrics = Metrics { counters: Counters::new(), tool_calls: Table::new() };
        assert(metrics@.tool_calls =~= Map::empty());
        metrics
    }

    fn count(&mut self, family: Family, first: &str, second: &str, n: u64)
        requires
            old(self).wf(),
        ensures
            final(self).wf(),
            final(self)@ == old(self)@.plus(key(family, first@, second@), n),
    {
        self.counters.add_to(family, first, second, n);
    }

    /// A request was let through.
    pub fn record_auth_success(&mut self)
        requires
            old(self).wf(),
        ensures
            final(self).wf(),
            final(self)@ == old(self)@.plus(
                key(Family::AuthSuccesses, Seq::empty(), Seq::empty()),
                1,
            ),
    {
        proof {
            lemma_no_label();
        }
        self.count(Family::AuthSuccesses, "", "", 1);
    }

    /// A request was refused.
    pub fn record_auth_failure(&mut self, reason: &str)
        requires
            old(self).wf(),
        ensures
            final(self).wf(),
            final(self)@ == old(self)@.plus(key(Family::AuthFailures, reason@, Seq::empty()), 1),
    {
        proof {
            lemma_no_label();
        }
        self.count(Family::AuthFailures, reason, "", 1);
    }

    /// A downstream session was opened.
    pub fn record_session_opened(&mut self)
        requires
            old(self).wf(),
        ensures
            final(self).wf(),
            final(self)@ == old(self)@.plus(
                key(Family::SessionsOpened, Seq::empty(), Seq::empty()),
                1,
            ),
    {
        proof {
            lemma_no_label();
        }
        self.count(Family::SessionsOpened, "", "", 1);
    }

    /// A downstream session was ended.
    pub fn record_session_terminated(&mut self, reason: &str)
        requires
            old(self).wf(),
        ensures
            final(self).wf(),
            final(self)@ == old(self)@.plus(
                key(Family::SessionTerminations, reason@, Seq::empty()),
                1,
            ),
    {
        proof {
            lemma_no_label();
        }
        self.count(Family::SessionTerminations, reason, "", 1);
    }

    /// The configuration was reloaded, or could not be.
    pub fn record_config_reload(&mut self, result: &str)
        requires
            old(self).wf(),
        ensures
            final(self).wf(),
            final(self)@ == old(self)@.plus(key(Family::ConfigReloads, result@, Seq::empty()), 1),
    {
        proof {
            lemma_no_label();
        }
        self.count(Family::ConfigReloads, result, "", 1);
    }

    /// An MCP request was handled.
    pub fn record_mcp_request(&mut self, method: &str, result: &str, nanos: u64)
        requires
            old(self).wf(),
        ensures
            final(self).wf(),
            final(self)@ == old(self)@.with_request(method@, result@, nanos),
    {
        self.count(Family::McpRequests, method, result, 1);
        self.count(Family::McpRequestNanos, method, result, nanos);
    }

    /// An upstream was found healthy, or not.
    pub fn record_upstream_health_check(&mut self, server: &str, result: &str)
        requires
            old(self).wf(),
        ensures
            final(self).wf(),
            final(self)@ == old(self)@.plus(
                key(Family::UpstreamHealthChecks, server@, result@),
                1,
            ),
    {
        self.count(Family::UpstreamHealthChecks, server, result, 1);
    }

    /// An attempt was made to reach an upstream again.
    pub fn record_upstream_reconnect_attempt(&mut self, server: &str, result: &str)
        requires
            old(self).wf(),
        ensures
            final(self).wf(),
            final(self)@ == old(self)@.plus(
                key(Family::UpstreamReconnectAttempts, server@, result@),
                1,
            ),
    {
        self.count(Family::UpstreamReconnectAttempts, server, result, 1);
    }

    /// An upstream was initialized, or could not be.
    pub fn record_upstream_initialize(&mut self, server: &str, result: &str, nanos: u64)
        requires
            old(self).wf(),
        ensures
            final(self).wf(),
            final(self)@ == old(self)@.with_initialize(server@, result@, nanos),
    {
        self.count(Family::UpstreamInitializes, server, result, 1);
        self.count(Family::UpstreamInitializeNanos, server, result, nanos);
    }

    /// An upstream's tools were refreshed, or could not be.
    pub fn record_upstream_tools_refresh(&mut self, server: &str, result: &str, nanos: u64)
        requires
            old(self).wf(),
        ensures
            final(self).wf(),
            final(self)@ == old(self)@.with_tools_refresh(server@, result@, nanos),
    {
        self.count(Family::UpstreamToolsRefreshes, server, result, 1);
        self.count(Family::UpstreamToolsRefreshNanos, server, result, nanos);
    }

    /// Bytes went to an upstream, or came from it.
    pub fn record_upstream_bytes(&mut self, server: &str, direction: &str, bytes: u64)
        requires
            old(self).wf(),
        ensures
            final(self).wf(),
            final(self)@ == old(self)@.plus(
                key(Family::UpstreamBytes, server@, direction@),
                bytes,
            ),
    {
        self.count(Family::UpstreamBytes, server, direction, bytes);
    }

    /// A wait before the next attempt has begun.
    pub fn set_upstream_backoff(&mut self, server: &str, millis: u64)
        requires
            old(self).wf(),
        ensures
            final(self).wf(),
            final(self)@ == old(self)@.with_backoff(server@, millis),
    {
        proof {
            lemma_no_label();
        }
        self.counters.set(Family::UpstreamBackoffMillis, server, "", millis);
    }

    /// A wait before the next attempt is over.
    pub fn record_upstream_backoff_complete(&mut self, server: &str, millis: u64)
        requires
            old(self).wf(),
        ensures
            final(self).wf(),
            final(self)@ == old(self)@.with_backoff_complete(server@, millis),
    {
        proof {
            lemma_no_label();
        }
        self.counters.set(Family::UpstreamBackoffMillis, server, "", 0);
        self.count(Family::UpstreamBackoffMillisTotal, server, "", millis);
    }

    /// A tool was called.
    pub fn record_tool_call(&mut self, server: &str, tool: &str, nanos: u64, reason: Option<&str>)
        requires
            old(self).wf(),
        ensures
            final(self).wf(),
            final(self)@ == old(self)@.with_call(
                server@,
                tool@,
                nanos,
                crate::json::text_option(reason),
            ),
    {
        let ghost before = *self;
        let mut calls = match self.tool_calls.remove(server) {
            Some(calls) => calls,
            None => Table::new(),
        };
        assert(calls.map() == before@.calls_of(server@));
        let metric = match calls.get(tool) {
            Some(metric) => *metric,
            None => ToolCallMetric { count: 0, errors: 0, duration_sum_nanos: 0 },
        };
        let errors = if reason.is_some() {
            metric.errors.saturating_add(1)
        } else {
            metric.errors
        };
        let metric = ToolCallMetric {
            count: metric.count.saturating_add(1),
            errors,
            duration_sum_nanos: metric.duration_sum_nanos.saturating_add(nanos),
        };
        calls.insert(tool.to_owned(), metric);
        self.tool_calls.insert(server.to_owned(), calls);
        assert(self@.tool_calls =~= before@.tool_calls.insert(server@, calls.map()));
        if let Some(why) = reason {
            proof {
                lemma_no_label();
            }
            self.counters.add_to(Family::ToolCallErrorReasons, why, "", 1);
        }
    }
}

/// Nothing has been counted.
pub open spec fn no_metrics() -> MetricsView {
    MetricsView { counters: Map::total(|name: CounterKey| 0u64), tool_calls: Map::empty() }
}

proof fn lemma_no_label()
    ensures
        ""@ == Seq::<char>::empty(),
{
    reveal_strlit("");
    assert(""@ =~= Seq::<char>::empty());
}

/// A character of a label, as the page shows it.
pub open spec fn escape_char(c: char) -> Seq<char> {
    if c == '\\' {
        seq!['\\', '\\']
    } else if c == '"' {
        seq!['\\', '"']
    } else if c == '\n' {
        seq!['\\', 'n']
    } else {
        seq![c]
    }
}

/// A label, as the page shows it.
pub open spec fn escape(label: Seq<char>) -> Seq<char>
    decreases label.len(),
{
    if label.len() == 0 {
        Seq::empty()
    } else {
        escape(label.drop_last()) + escape_char(label.last())
    }
}

/// A label, as the page shows it: backslashes, quotes and line feeds are escaped.
pub fn escape_label(value: &str) -> (escaped: String)
    ensures
        escaped@ == escape(value@),
{
    let chars = text::chars_of(value);
    let mut escaped = String::new();
    let mut i: usize = 0;
    while i < chars.len()
        invariant
            i <= chars@.len(),
            chars@ == value@,
            escaped@ == escape(value@.take(i as int)),
        decreases chars@.len() - i,
    {
        let c = chars[i];
        assert(value@.take(i + 1).drop_last() =~= value@.take(i as int));
        let ghost before = escaped@;
        if c == '\\' {
            escaped.push('\\');
            escaped.push('\\');
        } else if c == '"' {
            escaped.push('\\');
            escaped.push('"');
        } else if c == '\n' {
            escaped.push('\\');
            escaped.push('n');
        } else {
            escaped.push(c);
        }
        assert(escaped@ =~= before + escape_char(c));
        i += 1;
    }
    assert(value@.take(i as int) =~= value@);
    escaped
}

proof fn lemma_escape_front(label: Seq<char>)
    requires
        label.len() > 0,
    ensures
        escape(label) == escape_char(label[0]) + escape(label.skip(1)),
    decreases label.len(),
{
    if label.len() == 1 {
        assert(label.drop_last() =~= Seq::empty());
        assert(label.skip(1) =~= Seq::empty());
        assert(escape(label) =~= escape_char(label[0]) + escape(label.skip(1)));
    } else {
        let shorter = label.drop_last();
        lemma_escape_front(shorter);
        assert(shorter.skip(1) =~= label.skip(1).drop_last());
        assert(escape(label) =~= escape_char(label[0]) + escape(label.skip(1)));
    }
}

/// An escaped label stays on one line.
pub proof fn law_escaped_label_has_no_line_feed(label: Seq<char>)
    ensures
        !escape(label).contains('\n'),
    decreases label.len(),
{
    if label.len() > 0 {
        law_escaped_label_has_no_line_feed(label.drop_last());
        let shorter = escape(label.drop_last());
        let last = escape_char(label.last());
        assert forall|i: int| 0 <= i < escape(label).len() implies escape(label)[i] != '\n' by {
            if i < shorter.len() {
                assert(escape(label)[i] == shorter[i]);
            } else {
                assert(escape(label)[i] == last[i - shorter.len()]);
            }
        }
    }
}

/// Different labels look different on the page.
pub proof fn law_escaped_labels_differ(a: Seq<char>, b: Seq<char>)
    requires
        escape(a) == escape(b),
    ensures
        a == b,
    decreases a.len(),
{
    if a.len() == 0 {
        if b.len() > 0 {
            lemma_escape_front(b);
            assert(escape(b).len() > 0);
        }
        assert(a =~= b);
    } else if b.len() == 0 {
        lemma_escape_front(a);
        assert(escape(a).len() > 0);
    } else {
        lemma_escape_front(a);
        lemma_escape_front(b);
        let left = escape_char(a[0]) + escape(a.skip(1));
        let right = escape_char(b[0]) + escape(b.skip(1));
        assert(left[0] == right[0]);
        assert(left.len() > 1 && right.len() > 1 ==> left[1] == right[1]);
        assert(a[0] == b[0]);
        let n = escape_char(a[0]).len() as int;
        assert(left.skip(n) =~= escape(a.skip(1)));
        assert(right.skip(n) =~= escape(b.skip(1)));
        law_escaped_labels_differ(a.skip(1), b.skip(1));
        assert(a =~= seq![a[0]] + a.skip(1));
        assert(b =~= seq![b[0]] + b.skip(1));
    }
}

/// One more call of a tool is counted for that tool, and for no other.
pub proof fn law_a_call_counts_for_its_tool(
    counted: MetricsView,
    server: Seq<char>,
    tool: Seq<char>,
    nanos: u64,
    reason: Option<Seq<char>>,
    other_server: Seq<char>,
    other_tool: Seq<char>,
)
    ensures
        ({
            let after = counted.with_call(server, tool, nanos, reason);
            after.call_metric(other_server, other_tool) == if other_server == server && other_tool
                == tool {
                one_more_call(counted.call_metric(server, tool), nanos, reason is Some)
            } else {
                counted.call_metric(other_server, other_tool)
            }
        }),
{
}

/// A counter goes up by what is added, and stays at its greatest value rather than begin again.
pub proof fn law_counters_do_not_wrap(value: u64, n: u64)
    ensures
        value + n <= u64::MAX ==> counted(value, n) == value + n,
        value + n > u64::MAX ==> counted(value, n) == u64::MAX,
        counted(value, n) >= value,
{
}

/// Counting touches the counter that is named, and no other; a counter that is given a value has
/// it.
pub proof fn law_counting_touches_one_counter(
    before: MetricsView,
    name: CounterKey,
    other: CounterKey,
    n: u64,
)
    requires
        other != name,
    ensures
        before.plus(name, n).counters[name] == counted(before.counters[name], n),
        before.plus(name, n).counters[other] == before.counters[other],
        before.plus(name, n).tool_calls == before.tool_calls,
        before.with(name, n).counters[name] == n,
        before.with(name, n).counters[other] == before.counters[other],
        before.with(name, n).tool_calls == before.tool_calls,
{
}

/// A call counts one for its tool, one error where it failed, and its time; and where it failed,
/// one for the reason. Nothing else is counted.
pub proof fn law_what_a_call_counts(
    before: MetricsView,
    server: Seq<char>,
    tool: Seq<char>,
    nanos: u64,
    reason: Option<Seq<char>>,
    other: CounterKey,
)
    ensures
        ({
            let after = before.with_call(server, tool, nanos, reason);
            let was = before.call_metric(server, tool);
            let is = after.call_metric(server, tool);
            &&& is.count == counted(was.count, 1)
            &&& is.duration_sum_nanos == counted(was.duration_sum_nanos, nanos)
            &&& reason is Some ==> is.errors == counted(was.errors, 1)
            &&& reason is None ==> is.errors == was.errors && after.counters == before.counters
            &&& reason matches Some(why) ==> {
                let name = key(Family::ToolCallErrorReasons, why, Seq::empty());
                &&& after.counters[name] == counted(before.counters[name], 1)
                &&& other != name ==> after.counters[other] == before.counters[other]
            }
            &&& !before.calls_of(server).contains_key(tool) ==> was.count == 0 && was.errors == 0
                && was.duration_sum_nanos == 0
        }),
{
}

/// A request, an introduction and a refresh of tools each count one and their time, under their
/// labels.
pub proof fn law_timed_things_count_one_and_their_time(
    before: MetricsView,
    label: Seq<char>,
    result: Seq<char>,
    nanos: u64,
)
    ensures
        before.with_request(label, result, nanos).counters == before.counters.insert(
            key(Family::McpRequests, label, result),
            counted(before.counters[key(Family::McpRequests, label, result)], 1),
        ).insert(
            key(Family::McpRequestNanos, label, result),
            counted(before.counters[key(Family::McpRequestNanos, label, result)], nanos),
        ),
        before.with_initialize(label, result, nanos).counters == before.counters.insert(
            key(Family::UpstreamInitializes, label, result),
            counted(before.counters[key(Family::UpstreamInitializes, label, result)], 1),
        ).insert(
            key(Family::UpstreamInitializeNanos, label, result),
            counted(before.counters[key(Family::UpstreamInitializeNanos, label, result)], nanos),
        ),
        before.with_tools_refresh(label, result, nanos).counters == before.counters.insert(
            key(Family::UpstreamToolsRefreshes, label, result),
            counted(before.counters[key(Family::UpstreamToolsRefreshes, label, result)], 1),
        ).insert(
            key(Family::UpstreamToolsRefreshNanos, label, result),
            counted(before.counters[key(Family::UpstreamToolsRefreshNanos, label, result)], nanos),
        ),
{
}

/// While the gateway waits for a server, the wait is shown; when it is over, none is shown, and the
/// wait is added to the time that was waited.
pub proof fn law_waits_are_shown_and_summed(before: MetricsView, server: Seq<char>, millis: u64)
    ensures
        ({
            let showing = key(Family::UpstreamBackoffMillis, server, Seq::empty());
            let total = key(Family::UpstreamBackoffMillisTotal, server, Seq::empty());
            let during = before.with_backoff(server, millis);
            let after = during.with_backoff_complete(server, millis);
            &&& during.counters[showing] == millis
            &&& during.counters[total] == before.counters[total]
            &&& after.counters[showing] == 0
            &&& after.counters[total] == counted(before.counters[total], millis)
            &&& after.tool_calls == before.tool_calls
        }),
{
}

/// A label is shown character by character: backslashes and quotes behind a backslash, a line feed
/// as a backslash and the letter n, and all others as they are.
pub proof fn law_labels_are_escaped_by_character(a: Seq<char>, b: Seq<char>, c: char)
    ensures
        escape(a + b) == escape(a) + escape(b),
        escape(Seq::empty()) == Seq::<char>::empty(),
        escape(seq![c]) == if c == '\\' || c == '"' {
            seq!['\\', c]
        } else if c == '\n' {
            seq!['\\', 'n']
        } else {
            seq![c]
        },
    decreases b.len(),
{
    reveal_with_fuel(escape, 2);
    assert(seq![c].drop_last() =~= Seq::empty());
    assert(escape(seq![c]) =~= escape_char(c));
    if b.len() == 0 {
        assert(a + b =~= a);
        assert(escape(a) + escape(b) =~= escape(a));
    } else {
        law_labels_are_escaped_by_character(a, b.drop_last(), c);
        assert((a + b).drop_last() =~= a + b.drop_last());
        assert(escape(a + b) =~= escape(a) + escape(b));
    }
}

} // verus!
