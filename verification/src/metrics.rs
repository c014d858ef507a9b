//! Metrics: what is exposed, and how the metrics endpoint answers.

use prometheus_client::encoding::text::encode;
use prometheus_client::metrics::counter::Counter;
use prometheus_client::metrics::gauge::Gauge;
use prometheus_client::metrics::histogram::{exponential_buckets, Histogram};
use prometheus_client::registry::Registry;
use vstd::prelude::*;

use crate::raft::node::Role;
use crate::text::{occurs_in, owned};

verus! {

// ---------------------------------------------------------------------------
// Metrics of prometheus-client
// ---------------------------------------------------------------------------

/// `prometheus_client::registry::Registry`: metrics with their names.
#[verifier::external_type_specification]
#[verifier::external_body]
pub struct ExRegistry(prometheus_client::registry::Registry);

/// `prometheus_client::metrics::histogram::Histogram`: a shared distribution of
/// observed values over buckets.
#[verifier::external_type_specification]
#[verifier::external_body]
pub struct ExHistogram(prometheus_client::metrics::histogram::Histogram);

/// `prometheus_client::metrics::counter::Counter`: a shared number that only grows.
#[verifier::external_type_specification]
#[verifier::external_body]
#[verifier::reject_recursive_types(N)]
#[verifier::reject_recursive_types(A)]
pub struct ExCounter<N, A>(prometheus_client::metrics::counter::Counter<N, A>);

/// `prometheus_client::metrics::gauge::Gauge`: a shared number that goes up and down.
#[verifier::external_type_specification]
#[verifier::external_body]
#[verifier::reject_recursive_types(N)]
#[verifier::reject_recursive_types(A)]
pub struct ExGauge<N, A>(prometheus_client::metrics::gauge::Gauge<N, A>);

/// The buckets of a histogram: each upper bound is the one before times a factor.
/// The numbers are decimal texts.
#[verifier::ext_equal]
pub struct Buckets {
    /// Upper bound of the first bucket.
    pub first: Seq<char>,
    /// Ratio of neighbouring bounds.
    pub growth: Seq<char>,
    /// Number of buckets.
    pub count: u16,
}

/// The kind of a metric.
#[verifier::ext_equal]
pub enum MetricKind {
    /// A distribution of observed values.
    Histogram(Buckets),
    /// A number that only grows.
    Counter,
    /// A number that goes up and down.
    Gauge,
}

/// A registered metric.
#[verifier::ext_equal]
pub struct Metric {
    /// The name under which it is registered.
    pub name: Seq<char>,
    /// Description.
    pub help: Seq<char>,
    /// Kind.
    pub kind: MetricKind,
}

/// A metric that is shared between whoever records it and the registry.
pub enum Handle {
    /// A distribution of observed values.
    Histogram(Histogram),
    /// A number that only grows.
    Counter(Counter),
    /// A number that goes up and down.
    Gauge(Gauge),
}

/// The buckets that a histogram was made with.
pub uninterp spec fn buckets_of(h: Histogram) -> Buckets;

/// The metrics of a registry, in the order of their registration.
pub uninterp spec fn registered(r: Registry) -> Seq<Metric>;

/// The metrics whose values a registry exposes, in the order of their registration.
pub uninterp spec fn handles(r: Registry) -> Seq<Handle>;

/// A registry without a common prefix, labels, collectors or registries below it.
pub uninterp spec fn is_plain(r: Registry) -> bool;

/// A decimal number: digits, a point, digits.
pub open spec fn is_decimal_number(s: Seq<char>) -> bool {
    exists|point: int|
        0 < point < s.len() - 1 && #[trigger] s[point] == '.' && forall|i: int|
            0 <= i < s.len() && i != point ==> '0' <= #[trigger] s[i] <= '9'
}

/// `Histogram::new` over `exponential_buckets`: an empty histogram. The bounds of the
/// buckets are fixed when it is made; the decimal texts are read with `str::parse`.
#[verifier::external_body]
fn histogram(first: &str, growth: &str, count: u16) -> (h: Histogram)
    requires
        is_decimal_number(first@),
        is_decimal_number(growth@),
    ensures
        buckets_of(h) == (Buckets { first: first@, growth: growth@, count }),
{
    Histogram::new(exponential_buckets(first.parse().unwrap(), growth.parse().unwrap(), count))
}

/// `Counter::default`: a counter. What it counts to depends on whoever shares it;
/// nothing is claimed of it.
#[verifier::external_body]
fn counter() -> Counter {
    Counter::default()
}

/// `Gauge::default`: a gauge. What it stands at depends on whoever shares it; nothing
/// is claimed of it.
#[verifier::external_body]
fn gauge() -> Gauge {
    Gauge::default()
}

/// `Registry::default`: a plain registry without metrics.
#[verifier::external_body]
fn empty_registry() -> (r: Registry)
    ensures
        registered(r) == Seq::<Metric>::empty(),
        handles(r) == Seq::<Handle>::empty(),
        is_plain(r),
{
    Registry::default()
}

/// `Registry::register` of a histogram that stays shared: it is added at the end, and its
/// values are exposed under the name.
#[verifier::external_body]
fn register_histogram(r: &mut Registry, name: &str, help: &str, h: &Histogram)
    ensures
        registered(*final(r)) == registered(*old(r)).push(
            (Metric { name: name@, help: help@, kind: MetricKind::Histogram(buckets_of(*h)) }),
        ),
        handles(*final(r)) == handles(*old(r)).push(Handle::Histogram(*h)),
        is_plain(*final(r)) == is_plain(*old(r)),
{
    r.register(name, help, h.clone());
}

/// `Registry::register` of a counter that stays shared: it is added at the end, and its
/// values are exposed under the name.
#[verifier::external_body]
fn register_counter(r: &mut Registry, name: &str, help: &str, c: &Counter)
    ensures
        registered(*final(r)) == registered(*old(r)).push(
            (Metric { name: name@, help: help@, kind: MetricKind::Counter }),
        ),
        handles(*final(r)) == handles(*old(r)).push(Handle::Counter(*c)),
        is_plain(*final(r)) == is_plain(*old(r)),
{
    r.register(name, help, c.clone());
}

/// `Registry::register` of a gauge that stays shared: it is added at the end, and its
/// values are exposed under the name.
#[verifier::external_body]
fn register_gauge(r: &mut Registry, name: &str, help: &str, g: &Gauge)
    ensures
        registered(*final(r)) == registered(*old(r)).push(
            (Metric { name: name@, help: help@, kind: MetricKind::Gauge }),
        ),
        handles(*final(r)) == handles(*old(r)).push(Handle::Gauge(*g)),
        is_plain(*final(r)) == is_plain(*old(r)),
{
    r.register(name, help, g.clone());
}

/// `prometheus_client::encoding::text::encode` of a plain registry: a section per
/// metric, in order, and an end marker. The values in the sections are those of the
/// moment; nothing is claimed of them. A `String` can always be written to, and the
/// three kinds of metric fail only where the writer does.
#[verifier::external_body]
fn encode_text(r: &Registry) -> (text: String)
    requires
        is_plain(*r),
    ensures
        exposes(text@, registered(*r)),
{
    let mut text = String::new();
    let _ = encode(&mut text, r);
    text
}

// ---------------------------------------------------------------------------
// The text format
// ---------------------------------------------------------------------------

/// The name of a kind in the text format.
pub open spec fn kind_name(kind: MetricKind) -> Seq<char> {
    match kind {
        MetricKind::Histogram(_) => "histogram"@,
        MetricKind::Counter => "counter"@,
        MetricKind::Gauge => "gauge"@,
    }
}

/// The name of the first sample of a metric: the text format prescribes a suffix for
/// a counter and for the sum of a histogram.
pub open spec fn sample_name(m: Metric) -> Seq<char> {
    match m.kind {
        MetricKind::Histogram(_) => m.name + "_sum"@,
        MetricKind::Counter => m.name + "_total"@,
        MetricKind::Gauge => m.name,
    }
}

/// The lines that describe a metric.
pub open spec fn description(m: Metric) -> Seq<char> {
    "# HELP "@ + m.name + " "@ + m.help + ".\n# TYPE "@ + m.name + " "@ + kind_name(m.kind) + "\n"@
}

/// The beginning of the section of a metric: its description and the name of its
/// first sample.
pub open spec fn section_start(m: Metric) -> Seq<char> {
    description(m) + sample_name(m) + " "@
}

/// A text in the exposition format: a section per metric, in order, and an end
/// marker.
pub open spec fn exposes(text: Seq<char>, metrics: Seq<Metric>) -> bool
    decreases metrics.len(),
{
    if metrics.len() == 0 {
        text == "# EOF\n"@
    } else {
        exists|cut: int|
            0 <= cut <= text.len() && section_start(metrics[0]).is_prefix_of(
                #[trigger] text.take(cut),
            ) && exposes(text.skip(cut), metrics.skip(1))
    }
}

proof fn prefix_occurs(part: Seq<char>, before: Seq<char>, after: Seq<char>, text: Seq<char>)
    requires
        (before + part + after).is_prefix_of(text),
    ensures
        occurs_in(part, text),
{
    let from = before.len() as int;
    let whole = before + part + after;
    assert(text.subrange(0, whole.len() as int) =~= whole);
    assert(text.subrange(from, from + part.len()) =~= part) by {
        assert forall|i: int| 0 <= i < part.len() implies text[from + i] == part[i] by {
            assert(whole[from + i] == part[i]);
            assert(text.subrange(0, whole.len() as int)[from + i] == text[from + i]);
        }
    }
}

proof fn tail_occurs(part: Seq<char>, text: Seq<char>, cut: int)
    requires
        0 <= cut <= text.len(),
        occurs_in(part, text.skip(cut)),
    ensures
        occurs_in(part, text),
{
    let tail = text.skip(cut);
    let i = choose|i: int|
        0 <= i <= tail.len() - part.len() && #[trigger] tail.subrange(i, i + part.len()) == part;
    assert(text.subrange(cut + i, cut + i + part.len()) =~= tail.subrange(i, i + part.len()));
}

/// Every registered metric is exposed: its description and its sample are in the text.
pub proof fn every_metric_is_exposed(text: Seq<char>, metrics: Seq<Metric>, i: int)
    requires
        exposes(text, metrics),
        0 <= i < metrics.len(),
    ensures
        occurs_in(description(metrics[i]), text),
        occurs_in(sample_name(metrics[i]), text),
    decreases metrics.len(),
{
    let cut = choose|cut: int|
        0 <= cut <= text.len() && section_start(metrics[0]).is_prefix_of(
            #[trigger] text.take(cut),
        ) && exposes(text.skip(cut), metrics.skip(1));
    if i == 0 {
        let m = metrics[0];
        let none = Seq::<char>::empty();
        let start = section_start(m);
        assert(start.is_prefix_of(text)) by {
            let head = text.take(cut);
            assert(start =~= head.subrange(0, start.len() as int));
            assert(head.subrange(0, start.len() as int) =~= text.subrange(0, start.len() as int));
        }
        assert(none + description(m) + (sample_name(m) + " "@) =~= start);
        prefix_occurs(description(m), none, sample_name(m) + " "@, text);
        prefix_occurs(sample_name(m), description(m), " "@, text);
    } else {
        every_metric_is_exposed(text.skip(cut), metrics.skip(1), i - 1);
        tail_occurs(description(metrics[i]), text, cut);
        tail_occurs(sample_name(metrics[i]), text, cut);
    }
}

// ---------------------------------------------------------------------------
// The platform's metrics
// ---------------------------------------------------------------------------

/// A latency distribution of twelve buckets that double from a first bound, in
/// seconds.
pub open spec fn latency(first: Seq<char>) -> MetricKind {
    MetricKind::Histogram(Buckets { first, growth: "2.0"@, count: 12 })
}

/// The metrics of the platform.
pub open spec fn platform_metrics() -> Seq<Metric> {
    seq![
        Metric {
            name: "raft_heartbeat_latency_seconds"@,
            help: "Raft leader heartbeat round-trip latency in seconds"@,
            kind: latency("0.001"@),
        },
        Metric {
            name: "container_start_seconds"@,
            help: "Time from scheduling to container running in seconds"@,
            kind: latency("0.01"@),
        },
        Metric {
            name: "scheduler_placement_seconds"@,
            help: "Scheduler placement decision latency in seconds"@,
            kind: latency("0.0001"@),
        },
        Metric {
            name: "cgroup_memory_pressure"@,
            help: "Number of cgroup memory pressure events"@,
            kind: MetricKind::Counter,
        },
        Metric {
            name: "raft_term"@,
            help: "Current Raft consensus term"@,
            kind: MetricKind::Gauge,
        },
        Metric {
            name: "raft_role"@,
            help: "Current Raft role (0=follower, 1=candidate, 2=leader)"@,
            kind: MetricKind::Gauge,
        },
    ]
}

/// The central metrics registry of the platform.
pub struct MetricsRegistry {
    registry: Registry,
    /// Raft heartbeat latency histogram.
    pub raft_heartbeat_latency: Histogram,
    /// Container start time histogram.
    pub container_start_time: Histogram,
    /// Scheduler placement latency histogram.
    pub scheduler_placement_latency: Histogram,
    /// cgroup memory pressure event counter.
    pub cgroup_memory_pressure: Counter,
    /// Current Raft term gauge.
    pub raft_term: Gauge,
    /// Current Raft role gauge (0=follower, 1=candidate, 2=leader).
    pub raft_role: Gauge,
}

impl MetricsRegistry {
    /// What is registered, in order.
    pub closed spec fn contents(&self) -> Seq<Metric> {
        registered(self.registry)
    }

    /// Nothing but the registered metrics is exposed.
    pub closed spec fn wf(&self) -> bool {
        is_plain(self.registry)
    }

    /// The kinds of the heartbeat, container start and placement histograms.
    pub closed spec fn latencies(&self) -> Seq<MetricKind> {
        seq![
            MetricKind::Histogram(buckets_of(self.raft_heartbeat_latency)),
            MetricKind::Histogram(buckets_of(self.container_start_time)),
            MetricKind::Histogram(buckets_of(self.scheduler_placement_latency)),
        ]
    }

    /// The metrics whose values are exposed, in order.
    pub closed spec fn exposed(&self) -> Seq<Handle> {
        handles(self.registry)
    }

    /// The metrics that are recorded: heartbeat latency, container start time,
    /// placement latency, memory pressure, term, role.
    pub closed spec fn recorded(&self) -> Seq<Handle> {
        seq![
            Handle::Histogram(self.raft_heartbeat_latency),
            Handle::Histogram(self.container_start_time),
            Handle::Histogram(self.scheduler_placement_latency),
            Handle::Counter(self.cgroup_memory_pressure),
            Handle::Gauge(self.raft_term),
            Handle::Gauge(self.raft_role),
        ]
    }

    /// Create a new metrics registry with all metrics registered. What is recorded
    /// through a field is exposed under the name that the field is registered by.
    pub fn new() -> (m: Self)
        ensures
            m.wf(),
            m.contents() == platform_metrics(),
            sample_name(m.contents()[3]) == "cgroup_memory_pressure_total"@,
            m.exposed() == m.recorded(),
            m.latencies() == seq![latency("0.001"@), latency("0.01"@), latency("0.0001"@)],
    {
        proof {
            reveal_strlit("0.001");
            reveal_strlit("0.01");
            reveal_strlit("0.0001");
            reveal_strlit("2.0");
            assert("0.001"@[1] == '.');
            assert("0.01"@[1] == '.');
            assert("0.0001"@[1] == '.');
            assert("2.0"@[1] == '.');
        }
        let mut registry = empty_registry();

        let raft_heartbeat_latency = histogram("0.001", "2.0", 12);
        register_histogram(
            &mut registry,
            "raft_heartbeat_latency_seconds",
            "Raft leader heartbeat round-trip latency in seconds",
            &raft_heartbeat_latency,
        );

        let container_start_time = histogram("0.01", "2.0", 12);
        register_histogram(
            &mut registry,
            "container_start_seconds",
            "Time from scheduling to container running in seconds",
            &container_start_time,
        );

        let scheduler_placement_latency = histogram("0.0001", "2.0", 12);
        register_histogram(
            &mut registry,
            "scheduler_placement_seconds",
            "Scheduler placement decision latency in seconds",
            &scheduler_placement_latency,
        );

        let cgroup_memory_pressure = counter();
        register_counter(
            &mut registry,
            "cgroup_memory_pressure",
            "Number of cgroup memory pressure events",
            &cgroup_memory_pressure,
        );

        let raft_term = gauge();
        register_gauge(&mut registry, "raft_term", "Current Raft consensus term", &raft_term);

        let raft_role = gauge();
        register_gauge(
            &mut registry,
            "raft_role",
            "Current Raft role (0=follower, 1=candidate, 2=leader)",
            &raft_role,
        );

        assert(registered(registry) =~= platform_metrics());
        proof {
            reveal_strlit("cgroup_memory_pressure");
            reveal_strlit("_total");
            reveal_strlit("cgroup_memory_pressure_total");
            assert("cgroup_memory_pressure"@ + "_total"@ =~= "cgroup_memory_pressure_total"@);
        }
        let m = MetricsRegistry {
            registry,
            raft_heartbeat_latency,
            container_start_time,
            scheduler_placement_latency,
            cgroup_memory_pressure,
            raft_term,
            raft_role,
        };
        assert(m.exposed() =~= m.recorded());
        m
    }

    /// Encode all metrics in the Prometheus text exposition format.
    pub fn encode(&self) -> (text: String)
        requires
            self.wf(),
        ensures
            exposes(text@, self.contents()),
    {
        encode_text(&self.registry)
    }
}

impl Default for MetricsRegistry {
    fn default() -> (m: Self)
        ensures
            m.wf(),
            m.contents() == platform_metrics(),
            m.exposed() == m.recorded(),
            m.latencies() == seq![latency("0.001"@), latency("0.01"@), latency("0.0001"@)],
    {
        MetricsRegistry::new()
    }
}

/// The value of the role gauge.
pub fn role_value(role: Role) -> (v: i64)
    ensures
        v == (match role {
            Role::Follower => 0i64,
            Role::Candidate => 1i64,
            Role::Leader => 2i64,
        }),
{
    match role {
        Role::Follower => 0,
        Role::Candidate => 1,
        Role::Leader => 2,
    }
}

/// What a request to the metrics server is for.
#[derive(Debug, Clone, Copy, PartialEq, Eq, Structural)]
pub enum Route {
    /// The metrics.
    Metrics,
    /// Whether the server is up.
    Health,
    /// Nothing that is served.
    NotFound,
}

/// The route of a path.
pub open spec fn route_of(path: Seq<char>) -> Route {
    if path == "/metrics"@ {
        Route::Metrics
    } else if path == "/health"@ {
        Route::Health
    } else {
        Route::NotFound
    }
}

/// Find the route of a path.
pub fn route(path: &str) -> (r: Route)
    ensures
        r == route_of(path@),
{
    let path = owned(path);
    if path == owned("/metrics") {
        Route::Metrics
    } else if path == owned("/health") {
        Route::Health
    } else {
        Route::NotFound
    }
}

/// A reply of the metrics server.
#[derive(Debug)]
pub struct HttpReply {
    /// HTTP status code.
    pub status: u16,
    /// Content type, where one is given.
    pub content_type: Option<String>,
    /// Body.
    pub body: String,
}

/// A reply is the one that a route calls for, with a text as the encoded metrics.
pub open spec fn answers(r: HttpReply, route: Route, metrics: Seq<char>) -> bool {
    match route {
        Route::Metrics => {
            &&& r.status == 200
            &&& r.content_type is Some
            &&& r.content_type->Some_0@ == "text/plain; version=0.0.4; charset=utf-8"@
            &&& r.body@ == metrics
        },
        Route::Health => r.status == 200 && r.content_type is None && r.body@ == "ok"@,
        Route::NotFound => r.status == 404 && r.content_type is None && r.body@ == "not found"@,
    }
}

/// Answer a request for a route, given the encoded metrics.
pub fn reply(route: Route, metrics: String) -> (r: HttpReply)
    ensures
        answers(r, route, metrics@),
{
    match route {
        Route::Metrics => HttpReply {
            status: 200,
            content_type: Some(owned("text/plain; version=0.0.4; charset=utf-8")),
            body: metrics,
        },
        Route::Health => HttpReply { status: 200, content_type: None, body: owned("ok") },
        Route::NotFound => HttpReply { status: 404, content_type: None, body: owned("not found") },
    }
}

/// Handle a single HTTP request to the metrics server.
pub fn handle_request(path: &str, registry: &MetricsRegistry) -> (r: HttpReply)
    requires
        registry.wf(),
    ensures
        answers(r, route_of(path@), r.body@),
        route_of(path@) is Metrics ==> exposes(r.body@, registry.contents()),
{
    match route(path) {
        Route::Metrics => reply(Route::Metrics, registry.encode()),
        other => reply(other, String::new()),
    }
}

/// The platform exposes latencies of heartbeats, container starts and placements as
/// histograms in seconds, memory pressure as a count, and term and role as gauges; the
/// counter's sample carries the suffix that the format prescribes for a total.
pub proof fn platform_metrics_are_the_documented_ones()
    ensures
        ({
            let all = platform_metrics();
            &&& all.len() == 6
            &&& all[0].name == "raft_heartbeat_latency_seconds"@ && all[0].kind is Histogram
            &&& all[1].name == "container_start_seconds"@ && all[1].kind is Histogram
            &&& all[2].name == "scheduler_placement_seconds"@ && all[2].kind is Histogram
            &&& all[3].name == "cgroup_memory_pressure"@ && all[3].kind is Counter
            &&& all[4].name == "raft_term"@ && all[4].kind is Gauge
            &&& all[5].name == "raft_role"@ && all[5].kind is Gauge
            &&& all[0].kind->Histogram_0 == (Buckets {
                first: "0.001"@,
                growth: "2.0"@,
                count: 12,
            })
            &&& all[1].kind->Histogram_0 == (Buckets { first: "0.01"@, growth: "2.0"@, count: 12 })
            &&& all[2].kind->Histogram_0 == (Buckets {
                first: "0.0001"@,
                growth: "2.0"@,
                count: 12,
            })
        }),
{
}

/// A metric is described by its name, its help and its kind, and its samples by its name,
/// with the suffix of its kind.
pub proof fn metrics_are_described_by_name(m: Metric)
    ensures
        description(m) == "# HELP "@ + m.name + " "@ + m.help + ".\n# TYPE "@ + m.name + " "@ + (
        match m.kind {
            MetricKind::Histogram(_) => "histogram"@,
            MetricKind::Counter => "counter"@,
            MetricKind::Gauge => "gauge"@,
        }) + "\n"@,
        m.name.is_prefix_of(sample_name(m)),
        m.kind is Gauge ==> sample_name(m) == m.name,
        m.kind is Counter ==> sample_name(m) == m.name + "_total"@,
        m.kind is Histogram ==> sample_name(m) == m.name + "_sum"@,
{
    let s = sample_name(m);
    assert(s.subrange(0, m.name.len() as int) =~= m.name);
}

/// The server answers a request for the metrics with the metrics, one for its health with
/// that it is well, and any other with that nothing is found there.
pub proof fn paths_are_answered_in_kind(path: Seq<char>, r: HttpReply, metrics: Seq<char>)
    requires
        answers(r, route_of(path), metrics),
    ensures
        path == "/metrics"@ ==> r.status == 200 && r.body@ == metrics && r.content_type is Some
            && r.content_type->Some_0@ == "text/plain; version=0.0.4; charset=utf-8"@,
        path == "/health"@ ==> r.status == 200 && r.body@ == "ok"@,
        path != "/metrics"@ && path != "/health"@ ==> r.status == 404 && r.body@ == "not found"@,
{
    reveal_strlit("/metrics");
    reveal_strlit("/health");
    assert("/metrics"@.len() == 8 && "/health"@.len() == 7);
}

/// The metrics server answers its three kinds of request in kind, and its metrics page holds
/// every registered metric.
pub proof fn requests_are_answered_in_kind(
    path: &str,
    registry: &MetricsRegistry,
    r: HttpReply,
    i: int,
)
    requires
        call_ensures(handle_request, (path, registry), r),
        0 <= i < registry.contents().len(),
    ensures
        path@ == "/metrics"@ ==> r.status == 200 && occurs_in(
            sample_name(registry.contents()[i]),
            r.body@,
        ),
        path@ == "/health"@ ==> r.status == 200 && r.body@ == "ok"@,
        path@ != "/metrics"@ && path@ != "/health"@ ==> r.status == 404 && r.body@ == "not found"@,
{
    paths_are_answered_in_kind(path@, r, r.body@);
    if path@ == "/metrics"@ {
        every_metric_is_exposed(r.body@, registry.contents(), i);
    }
}

/// The role gauge tells the three roles apart, in the documented order.
pub proof fn roles_are_numbered(a: i64, b: i64, c: i64)
    requires
        call_ensures(role_value, (Role::Follower,), a),
        call_ensures(role_value, (Role::Candidate,), b),
        call_ensures(role_value, (Role::Leader,), c),
    ensures
        a == 0,
        b == 1,
        c == 2,
{
}

} // verus!
