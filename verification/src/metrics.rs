//! What the server counts and times, and how it reports it.

use vstd::prelude::*;

use crate::args::{durability_name, Durability};
use crate::json::{entries_view, entry, object, text_json, uint_json, uint_view, Json, JsonView};
use crate::latency::{bucket, percentile, Latency};
use crate::mcp::ENDPOINT;
use crate::text::{contains_text, copy, dec, decimal, same, starts_with, text_starts_with};

verus! {

// --------------------------------------------------------------------- classes

/// Which kind of work a request was.
#[derive(Clone, Copy, Debug, PartialEq, Eq, Structural)]
pub enum RouteClass {
    /// Span ingest, native or OTLP.
    Ingest,
    /// A trace, a session, a payload or annotations fetched.
    Lookup,
    /// Filtered span search.
    Search,
    /// Aggregation.
    Stats,
    /// Responses held open for as long as the consumer wants them. Counted,
    /// never timed.
    Stream,
    /// The agent-facing endpoint.
    Mcp,
    /// Everything else.
    Other,
}

/// The class of a request.
pub open spec fn class_of(method: Seq<char>, path: Seq<char>) -> RouteClass {
    if path == ENDPOINT@ {
        RouteClass::Mcp
    } else if method == "POST"@ && (path == "/v1/spans"@ || path == "/v1/traces"@) {
        RouteClass::Ingest
    } else if method != "GET"@ {
        RouteClass::Other
    } else if path == "/v1/spans"@ {
        RouteClass::Search
    } else if path == "/v1/export"@ || path == "/v1/tail"@ {
        RouteClass::Stream
    } else if starts_with(path, "/v1/stats"@) || path == "/v1/sessions"@ {
        RouteClass::Stats
    } else if starts_with(path, "/v1/traces/"@) || starts_with(path, "/v1/sessions/"@)
        || starts_with(path, "/v1/payloads/"@) || path == "/v1/annotations"@ {
        RouteClass::Lookup
    } else {
        RouteClass::Other
    }
}

pub open spec fn class_label(class: RouteClass) -> Seq<char> {
    match class {
        RouteClass::Ingest => "ingest"@,
        RouteClass::Lookup => "lookup"@,
        RouteClass::Search => "search"@,
        RouteClass::Stats => "stats"@,
        RouteClass::Stream => "stream"@,
        RouteClass::Mcp => "mcp"@,
        RouteClass::Other => "other"@,
    }
}

/// The place of a class among the classes.
pub open spec fn class_index(class: RouteClass) -> int {
    match class {
        RouteClass::Ingest => 0,
        RouteClass::Lookup => 1,
        RouteClass::Search => 2,
        RouteClass::Stats => 3,
        RouteClass::Stream => 4,
        RouteClass::Mcp => 5,
        RouteClass::Other => 6,
    }
}

/// The classes in their order.
pub open spec fn class_at(i: int) -> RouteClass {
    if i == 0 {
        RouteClass::Ingest
    } else if i == 1 {
        RouteClass::Lookup
    } else if i == 2 {
        RouteClass::Search
    } else if i == 3 {
        RouteClass::Stats
    } else if i == 4 {
        RouteClass::Stream
    } else if i == 5 {
        RouteClass::Mcp
    } else {
        RouteClass::Other
    }
}

/// How many classes there are.
pub const CLASSES: usize = 7;

impl RouteClass {
    /// Classifies a request by method and path.
    pub fn of(method: &str, path: &str) -> (r: RouteClass)
        ensures
            r == class_of(method@, path@),
    {
        if same(path, ENDPOINT) {
            RouteClass::Mcp
        } else if same(method, "POST") && (same(path, "/v1/spans") || same(path, "/v1/traces")) {
            RouteClass::Ingest
        } else if !same(method, "GET") {
            RouteClass::Other
        } else if same(path, "/v1/spans") {
            RouteClass::Search
        } else if same(path, "/v1/export") || same(path, "/v1/tail") {
            RouteClass::Stream
        } else if text_starts_with(path, "/v1/stats") || same(path, "/v1/sessions") {
            RouteClass::Stats
        } else if text_starts_with(path, "/v1/traces/") || text_starts_with(path, "/v1/sessions/")
            || text_starts_with(path, "/v1/payloads/") || same(path, "/v1/annotations") {
            RouteClass::Lookup
        } else {
            RouteClass::Other
        }
    }

    /// The class's part of a metric's name.
    pub fn label(self) -> (r: &'static str)
        ensures
            r@ == class_label(self),
    {
        match self {
            RouteClass::Ingest => "ingest",
            RouteClass::Lookup => "lookup",
            RouteClass::Search => "search",
            RouteClass::Stats => "stats",
            RouteClass::Stream => "stream",
            RouteClass::Mcp => "mcp",
            RouteClass::Other => "other",
        }
    }

    fn index(self) -> (r: usize)
        ensures
            r == class_index(self),
            r < CLASSES,
    {
        match self {
            RouteClass::Ingest => 0,
            RouteClass::Lookup => 1,
            RouteClass::Search => 2,
            RouteClass::Stats => 3,
            RouteClass::Stream => 4,
            RouteClass::Mcp => 5,
            RouteClass::Other => 6,
        }
    }

    fn at(i: usize) -> (r: RouteClass)
        ensures
            r == class_at(i as int),
    {
        if i == 0 {
            RouteClass::Ingest
        } else if i == 1 {
            RouteClass::Lookup
        } else if i == 2 {
            RouteClass::Search
        } else if i == 3 {
            RouteClass::Stats
        } else if i == 4 {
            RouteClass::Stream
        } else if i == 5 {
            RouteClass::Mcp
        } else {
            RouteClass::Other
        }
    }
}

/// Every class stands at its own place, so that no report drops one.
pub proof fn law_every_class_has_its_place(class: RouteClass)
    ensures
        0 <= class_index(class) < CLASSES,
        class_at(class_index(class)) == class,
{
}

// -------------------------------------------------------------------- counting

/// What the server counts and times.
#[derive(Debug)]
pub struct ServerMetrics {
    pub requests: u64,
    /// From the parsed head to the written response.
    pub request_latency: Latency,
    /// The same by class.
    pub by_class: Vec<Latency>,
    pub status_2xx: u64,
    pub status_4xx: u64,
    pub status_5xx: u64,
    /// Requests refused by the auth gate.
    pub rejected: u64,
    /// Turning a body into spans.
    pub decode: Latency,
    pub decoded_spans: u64,
    pub connections_refused: u64,
    pub connections_accepted: u64,
    pub connections_live: u64,
}

/// What a timing does to the timings of a class: a stream is counted only.
pub open spec fn timed_by(before: Latency, after: Latency, class: RouteClass, elapsed_ns: u64) -> bool {
    if class == RouteClass::Stream {
        after == Latency { count: before.count.wrapping_add(1), ..before }
    } else {
        recorded(before, after, elapsed_ns)
    }
}

/// Whether `after` is `before` with one more timing.
pub open spec fn recorded(before: Latency, after: Latency, elapsed_ns: u64) -> bool {
    &&& after.count == before.count.wrapping_add(1)
    &&& after.total_ns == before.total_ns.wrapping_add(elapsed_ns)
    &&& after.max_ns == if elapsed_ns > before.max_ns {
        elapsed_ns
    } else {
        before.max_ns
    }
    &&& after.counts@ == before.counts@.update(
        bucket(elapsed_ns as nat) as int,
        before.counts@[bucket(elapsed_ns as nat) as int].wrapping_add(1),
    )
}

impl ServerMetrics {
    pub open spec fn wf(&self) -> bool {
        &&& self.request_latency.wf()
        &&& self.decode.wf()
        &&& self.by_class@.len() == CLASSES
        &&& forall|i: int| 0 <= i < CLASSES ==> (#[trigger] self.by_class@[i]).wf()
    }

    /// Nothing counted yet.
    pub fn new() -> (r: ServerMetrics)
        ensures
            r.wf(),
            r.requests == 0 && r.rejected == 0 && r.decoded_spans == 0,
            r.status_2xx == 0 && r.status_4xx == 0 && r.status_5xx == 0,
            r.connections_refused == 0 && r.connections_accepted == 0 && r.connections_live == 0,
            r.request_latency.count == 0 && r.decode.count == 0,
            forall|i: int| 0 <= i < CLASSES ==> (#[trigger] r.by_class@[i]).count == 0,
    {
        let mut by_class: Vec<Latency> = Vec::new();
        while by_class.len() < CLASSES
            invariant
                by_class@.len() <= CLASSES,
                forall|i: int|
                    0 <= i < by_class@.len() ==> (#[trigger] by_class@[i]).wf()
                        && by_class@[i].count == 0,
            decreases CLASSES - by_class@.len(),
        {
            by_class.push(Latency::new());
        }
        ServerMetrics {
            requests: 0,
            request_latency: Latency::new(),
            by_class,
            status_2xx: 0,
            status_4xx: 0,
            status_5xx: 0,
            rejected: 0,
            decode: Latency::new(),
            decoded_spans: 0,
            connections_refused: 0,
            connections_accepted: 0,
            connections_live: 0,
        }
    }

    /// Records one served request against its class.
    pub fn observe(&mut self, class: RouteClass, elapsed_ns: u64, status: u16)
        requires
            old(self).wf(),
        ensures
            final(self).wf(),
            final(self).requests == old(self).requests.wrapping_add(1),
            class == RouteClass::Stream ==> final(self).request_latency
                == old(self).request_latency,
            class != RouteClass::Stream ==> recorded(
                old(self).request_latency,
                final(self).request_latency,
                elapsed_ns,
            ),
            timed_by(
                old(self).by_class@[class_index(class)],
                final(self).by_class@[class_index(class)],
                class,
                elapsed_ns,
            ),
            forall|i: int|
                0 <= i < CLASSES && i != class_index(class) ==> #[trigger] final(self).by_class@[i]
                    == old(self).by_class@[i],
            final(self).status_2xx == (if 200 <= status <= 299 {
                old(self).status_2xx.wrapping_add(1)
            } else {
                old(self).status_2xx
            }),
            final(self).status_4xx == (if 400 <= status <= 499 {
                old(self).status_4xx.wrapping_add(1)
            } else {
                old(self).status_4xx
            }),
            final(self).status_5xx == (if 500 <= status <= 599 {
                old(self).status_5xx.wrapping_add(1)
            } else {
                old(self).status_5xx
            }),
            final(self).rejected == old(self).rejected,
            final(self).decode == old(self).decode,
            final(self).decoded_spans == old(self).decoded_spans,
            final(self).connections_refused == old(self).connections_refused,
            final(self).connections_accepted == old(self).connections_accepted,
            final(self).connections_live == old(self).connections_live,
    {
        let i = class.index();
        if class == RouteClass::Stream {
            self.by_class[i].count_only();
        } else {
            self.request_latency.record(elapsed_ns);
            self.by_class[i].record(elapsed_ns);
        }
        self.requests = self.requests.wrapping_add(1);
        if 200 <= status && status <= 299 {
            self.status_2xx = self.status_2xx.wrapping_add(1);
        } else if 400 <= status && status <= 499 {
            self.status_4xx = self.status_4xx.wrapping_add(1);
        } else if 500 <= status && status <= 599 {
            self.status_5xx = self.status_5xx.wrapping_add(1);
        }
    }
}

// ------------------------------------------------------------------- rendering

/// One sample in the Prometheus text format, under its type.
pub open spec fn sample(name: Seq<char>, kind: Seq<char>, value: nat) -> Seq<char> {
    "# TYPE "@ + name + " "@ + kind + "\n"@ + name + " "@ + dec(value) + "\n"@
}

fn write_sample(into: &mut String, name: &str, kind: &str, value: u64)
    ensures
        final(into)@ == old(into)@ + sample(name@, kind@, value as nat),
{
    let mut text = copy("# TYPE ");
    text.push_str(name);
    text.push_str(" ");
    text.push_str(kind);
    text.push_str("\n");
    text.push_str(name);
    text.push_str(" ");
    let digits = decimal(value);
    text.push_str(digits.as_str());
    text.push_str("\n");
    into.push_str(text.as_str());
}

/// The percentiles of some timings.
pub open spec fn percentile_samples(before: Seq<char>, prefix: Seq<char>, counts: Seq<u64>) -> Seq<
    char,
> {
    before + sample(prefix + "p50"@, "gauge"@, percentile(counts, 50)) + sample(
        prefix + "p95"@,
        "gauge"@,
        percentile(counts, 95),
    ) + sample(prefix + "p99"@, "gauge"@, percentile(counts, 99))
}

fn named(prefix: &str, rest: &str) -> (r: String)
    ensures
        r@ == prefix@ + rest@,
{
    let mut r = copy(prefix);
    r.push_str(rest);
    r
}

fn write_percentiles(into: &mut String, prefix: &str, latency: &Latency)
    requires
        latency.wf(),
    ensures
        final(into)@ == percentile_samples(old(into)@, prefix@, latency.counts@),
{
    let name = named(prefix, "p50");
    write_sample(into, name.as_str(), "gauge", latency.percentile_ns(50));
    let name = named(prefix, "p95");
    write_sample(into, name.as_str(), "gauge", latency.percentile_ns(95));
    let name = named(prefix, "p99");
    write_sample(into, name.as_str(), "gauge", latency.percentile_ns(99));
}

/// What precedes a class's timings in a metric's name.
pub open spec fn class_prefix(class: RouteClass) -> Seq<char> {
    "traza_http_"@ + class_label(class) + "_ns_"@
}

/// The timings of one class.
pub open spec fn class_samples(before: Seq<char>, class: RouteClass, latency: Latency) -> Seq<char> {
    percentile_samples(
        before + sample(class_prefix(class) + "count"@, "counter"@, latency.count as nat) + sample(
            class_prefix(class) + "sum"@,
            "counter"@,
            latency.total_ns as nat,
        ),
        class_prefix(class),
        latency.counts@,
    )
}

/// The timings of the first `n` classes.
pub open spec fn classes_samples(before: Seq<char>, by_class: Seq<Latency>, n: int) -> Seq<char>
    decreases n,
{
    if n <= 0 {
        before
    } else {
        class_samples(classes_samples(before, by_class, n - 1), class_at(n - 1), by_class[n - 1])
    }
}

fn write_class(into: &mut String, class: RouteClass, latency: &Latency)
    requires
        latency.wf(),
    ensures
        final(into)@ == class_samples(old(into)@, class, *latency),
{
    let prefix = named("traza_http_", class.label());
    let prefix = named(prefix.as_str(), "_ns_");
    let name = named(prefix.as_str(), "count");
    write_sample(into, name.as_str(), "counter", latency.count);
    let name = named(prefix.as_str(), "sum");
    write_sample(into, name.as_str(), "counter", latency.total_ns);
    write_percentiles(into, prefix.as_str(), latency);
}

/// The counters that stand before the timings.
pub open spec fn count_samples(before: Seq<char>, m: ServerMetrics, uptime_seconds: u64) -> Seq<char> {
    before + sample("traza_uptime_seconds"@, "gauge"@, uptime_seconds as nat) + sample(
        "traza_http_requests_total"@,
        "counter"@,
        m.requests as nat,
    ) + sample("traza_http_rejected_total"@, "counter"@, m.rejected as nat) + sample(
        "traza_http_connections_refused_total"@,
        "counter"@,
        m.connections_refused as nat,
    ) + sample(
        "traza_http_connections_accepted_total"@,
        "counter"@,
        m.connections_accepted as nat,
    ) + sample("traza_http_connections_live"@, "gauge"@, m.connections_live as nat) + sample(
        "traza_http_decoded_spans_total"@,
        "counter"@,
        m.decoded_spans as nat,
    )
}

/// The timings of decoding and of whole requests.
pub open spec fn timing_samples(before: Seq<char>, m: ServerMetrics) -> Seq<char> {
    percentile_samples(
        before + sample("traza_http_decode_ns_count"@, "counter"@, m.decode.count as nat) + sample(
            "traza_http_decode_ns_sum"@,
            "counter"@,
            m.decode.total_ns as nat,
        ) + sample("traza_http_decode_ns_max"@, "gauge"@, m.decode.max_ns as nat) + sample(
            "traza_http_request_ns_count"@,
            "counter"@,
            m.request_latency.count as nat,
        ) + sample(
            "traza_http_request_ns_sum"@,
            "counter"@,
            m.request_latency.total_ns as nat,
        ) + sample("traza_http_request_ns_max"@, "gauge"@, m.request_latency.max_ns as nat),
        "traza_http_request_ns_"@,
        m.request_latency.counts@,
    )
}

/// The responses by status.
pub open spec fn status_samples(before: Seq<char>, m: ServerMetrics) -> Seq<char> {
    before + sample("traza_http_responses_2xx_total"@, "counter"@, m.status_2xx as nat) + sample(
        "traza_http_responses_4xx_total"@,
        "counter"@,
        m.status_4xx as nat,
    ) + sample("traza_http_responses_5xx_total"@, "counter"@, m.status_5xx as nat)
}

/// The whole report behind what was written before.
pub open spec fn prometheus(before: Seq<char>, m: ServerMetrics, uptime_seconds: u64) -> Seq<char> {
    status_samples(
        classes_samples(
            timing_samples(count_samples(before, m, uptime_seconds), m),
            m.by_class@,
            CLASSES as int,
        ),
        m,
    )
}

impl ServerMetrics {
    fn write_counts(&self, into: &mut String, uptime_seconds: u64)
        ensures
            final(into)@ == count_samples(old(into)@, *self, uptime_seconds),
    {
        write_sample(into, "traza_uptime_seconds", "gauge", uptime_seconds);
        write_sample(into, "traza_http_requests_total", "counter", self.requests);
        write_sample(into, "traza_http_rejected_total", "counter", self.rejected);
        write_sample(
            into,
            "traza_http_connections_refused_total",
            "counter",
            self.connections_refused,
        );
        write_sample(
            into,
            "traza_http_connections_accepted_total",
            "counter",
            self.connections_accepted,
        );
        write_sample(into, "traza_http_connections_live", "gauge", self.connections_live);
        write_sample(into, "traza_http_decoded_spans_total", "counter", self.decoded_spans);
    }

    fn write_timings(&self, into: &mut String)
        requires
            self.wf(),
        ensures
            final(into)@ == timing_samples(old(into)@, *self),
    {
        write_sample(into, "traza_http_decode_ns_count", "counter", self.decode.count);
        write_sample(into, "traza_http_decode_ns_sum", "counter", self.decode.total_ns);
        write_sample(into, "traza_http_decode_ns_max", "gauge", self.decode.max_ns);
        write_sample(into, "traza_http_request_ns_count", "counter", self.request_latency.count);
        write_sample(into, "traza_http_request_ns_sum", "counter", self.request_latency.total_ns);
        write_sample(into, "traza_http_request_ns_max", "gauge", self.request_latency.max_ns);
        write_percentiles(into, "traza_http_request_ns_", &self.request_latency);
    }

    /// Appends the report in the Prometheus text format.
    pub fn render_prometheus(&self, uptime_seconds: u64, into: &mut String)
        requires
            self.wf(),
        ensures
            final(into)@ == prometheus(old(into)@, *self, uptime_seconds),
    {
        self.write_counts(into, uptime_seconds);
        self.write_timings(into);
        let ghost before = into@;
        let mut i: usize = 0;
        while i < CLASSES
            invariant
                i <= CLASSES,
                self.wf(),
                into@ == classes_samples(before, self.by_class@, i as int),
            decreases CLASSES - i,
        {
            write_class(into, RouteClass::at(i), &self.by_class[i]);
            i += 1;
        }
        write_sample(into, "traza_http_responses_2xx_total", "counter", self.status_2xx);
        write_sample(into, "traza_http_responses_4xx_total", "counter", self.status_4xx);
        write_sample(into, "traza_http_responses_5xx_total", "counter", self.status_5xx);
    }
}

// ------------------------------------------------------------------------ JSON

/// What the engine reports beside the server's own counts.
#[derive(Clone, Copy, Debug)]
pub struct EngineReport {
    pub durability: Durability,
    /// The live tail's spans and bytes, and the bounds on both.
    pub tail_ring: Option<(u64, u64, u64, u64)>,
    pub spans_admitted: u64,
    pub batches_admitted: u64,
    pub wal_commits: u64,
    pub wal_fsync_p95_ns: u64,
    pub segment_seal_p95_ns: u64,
    pub segments_examined: u64,
    pub segments_pruned_by_time: u64,
}

/// The mean of some timings.
pub open spec fn mean(l: Latency) -> nat {
    if l.count == 0 {
        0
    } else {
        (l.total_ns / l.count) as nat
    }
}

/// The timings of one class.
pub open spec fn timing_view(l: Latency) -> JsonView {
    JsonView::Object(
        seq![
            ("count"@, uint_view(l.count as nat)),
            ("mean_ns"@, uint_view(mean(l))),
            ("max_ns"@, uint_view(l.max_ns as nat)),
            ("p50_ns"@, uint_view(percentile(l.counts@, 50))),
            ("p95_ns"@, uint_view(percentile(l.counts@, 95))),
            ("p99_ns"@, uint_view(percentile(l.counts@, 99))),
        ],
    )
}

fn timing_json(l: &Latency) -> (r: Json)
    requires
        l.wf(),
    ensures
        r@ == timing_view(*l),
{
    let mut entries: Vec<(String, Json)> = Vec::new();
    entries.push(entry("count", uint_json(l.count)));
    entries.push(entry("mean_ns", uint_json(l.mean_ns())));
    entries.push(entry("max_ns", uint_json(l.max_ns)));
    entries.push(entry("p50_ns", uint_json(l.percentile_ns(50))));
    entries.push(entry("p95_ns", uint_json(l.percentile_ns(95))));
    entries.push(entry("p99_ns", uint_json(l.percentile_ns(99))));
    assert(entries_view(entries@) =~= timing_view(*l)->Object_0);
    object(entries)
}

/// The timings of the first `n` classes.
pub open spec fn classes_view(by_class: Seq<Latency>, n: int) -> Seq<(Seq<char>, JsonView)>
    decreases n,
{
    if n <= 0 {
        seq![]
    } else {
        classes_view(by_class, n - 1).push(
            (class_label(class_at(n - 1)), timing_view(by_class[n - 1])),
        )
    }
}

fn classes_json(m: &ServerMetrics) -> (r: Json)
    requires
        m.wf(),
    ensures
        r@ == JsonView::Object(classes_view(m.by_class@, CLASSES as int)),
{
    let mut entries: Vec<(String, Json)> = Vec::new();
    let mut i: usize = 0;
    assert(entries_view(entries@) =~= classes_view(m.by_class@, 0));
    while i < CLASSES
        invariant
            i <= CLASSES,
            m.wf(),
            entries_view(entries@) == classes_view(m.by_class@, i as int),
        decreases CLASSES - i,
    {
        let ghost before = entries@;
        let class = RouteClass::at(i);
        entries.push(entry(class.label(), timing_json(&m.by_class[i])));
        assert(entries_view(entries@) =~= entries_view(before).push(
            (class_label(class), timing_view(m.by_class@[i as int])),
        ));
        i += 1;
    }
    object(entries)
}

/// The live tail's residency and its bounds; nothing without a tail.
pub open spec fn ring_view(ring: Option<(u64, u64, u64, u64)>) -> JsonView {
    match ring {
        Some((spans, bytes, max_spans, max_bytes)) => JsonView::Object(
            seq![
                ("spans"@, uint_view(spans as nat)),
                ("bytes"@, uint_view(bytes as nat)),
                ("max_spans"@, uint_view(max_spans as nat)),
                ("max_bytes"@, uint_view(max_bytes as nat)),
            ],
        ),
        None => JsonView::Null,
    }
}

fn ring_json(ring: Option<(u64, u64, u64, u64)>) -> (r: Json)
    ensures
        r@ == ring_view(ring),
{
    match ring {
        Some((spans, bytes, max_spans, max_bytes)) => {
            let mut entries: Vec<(String, Json)> = Vec::new();
            entries.push(entry("spans", uint_json(spans)));
            entries.push(entry("bytes", uint_json(bytes)));
            entries.push(entry("max_spans", uint_json(max_spans)));
            entries.push(entry("max_bytes", uint_json(max_bytes)));
            assert(entries_view(entries@) =~= ring_view(ring)->Object_0);
            object(entries)
        },
        None => Json::Null,
    }
}

/// The requests as a whole.
pub open spec fn requests_view(m: ServerMetrics) -> JsonView {
    JsonView::Object(
        seq![
            ("total"@, uint_view(m.requests as nat)),
            ("rejected"@, uint_view(m.rejected as nat)),
            ("responses_2xx"@, uint_view(m.status_2xx as nat)),
            ("responses_4xx"@, uint_view(m.status_4xx as nat)),
            ("responses_5xx"@, uint_view(m.status_5xx as nat)),
            ("mean_ns"@, uint_view(mean(m.request_latency))),
            ("max_ns"@, uint_view(m.request_latency.max_ns as nat)),
            ("p50_ns"@, uint_view(percentile(m.request_latency.counts@, 50))),
            ("p95_ns"@, uint_view(percentile(m.request_latency.counts@, 95))),
            ("p99_ns"@, uint_view(percentile(m.request_latency.counts@, 99))),
        ],
    )
}

fn requests_json(m: &ServerMetrics) -> (r: Json)
    requires
        m.wf(),
    ensures
        r@ == requests_view(*m),
{
    let mut entries: Vec<(String, Json)> = Vec::new();
    entries.push(entry("total", uint_json(m.requests)));
    entries.push(entry("rejected", uint_json(m.rejected)));
    entries.push(entry("responses_2xx", uint_json(m.status_2xx)));
    entries.push(entry("responses_4xx", uint_json(m.status_4xx)));
    entries.push(entry("responses_5xx", uint_json(m.status_5xx)));
    entries.push(entry("mean_ns", uint_json(m.request_latency.mean_ns())));
    entries.push(entry("max_ns", uint_json(m.request_latency.max_ns)));
    entries.push(entry("p50_ns", uint_json(m.request_latency.percentile_ns(50))));
    entries.push(entry("p95_ns", uint_json(m.request_latency.percentile_ns(95))));
    entries.push(entry("p99_ns", uint_json(m.request_latency.percentile_ns(99))));
    assert(entries_view(entries@) =~= requests_view(*m)->Object_0);
    object(entries)
}

/// The connections.
pub open spec fn connections_view(m: ServerMetrics) -> JsonView {
    JsonView::Object(
        seq![
            ("accepted"@, uint_view(m.connections_accepted as nat)),
            ("refused"@, uint_view(m.connections_refused as nat)),
            ("live"@, uint_view(m.connections_live as nat)),
        ],
    )
}

fn connections_json(m: &ServerMetrics) -> (r: Json)
    ensures
        r@ == connections_view(*m),
{
    let mut entries: Vec<(String, Json)> = Vec::new();
    entries.push(entry("accepted", uint_json(m.connections_accepted)));
    entries.push(entry("refused", uint_json(m.connections_refused)));
    entries.push(entry("live", uint_json(m.connections_live)));
    assert(entries_view(entries@) =~= connections_view(*m)->Object_0);
    object(entries)
}

/// The decoding of bodies.
pub open spec fn decode_view(m: ServerMetrics) -> JsonView {
    JsonView::Object(
        seq![
            ("spans"@, uint_view(m.decoded_spans as nat)),
            ("mean_ns"@, uint_view(mean(m.decode))),
            ("p95_ns"@, uint_view(percentile(m.decode.counts@, 95))),
        ],
    )
}

fn decode_json(m: &ServerMetrics) -> (r: Json)
    requires
        m.wf(),
    ensures
        r@ == decode_view(*m),
{
    let mut entries: Vec<(String, Json)> = Vec::new();
    entries.push(entry("spans", uint_json(m.decoded_spans)));
    entries.push(entry("mean_ns", uint_json(m.decode.mean_ns())));
    entries.push(entry("p95_ns", uint_json(m.decode.percentile_ns(95))));
    assert(entries_view(entries@) =~= decode_view(*m)->Object_0);
    object(entries)
}

/// The engine's write path.
pub open spec fn ingest_view(e: EngineReport) -> JsonView {
    JsonView::Object(
        seq![
            ("spans_admitted"@, uint_view(e.spans_admitted as nat)),
            ("batches_admitted"@, uint_view(e.batches_admitted as nat)),
            ("wal_commits"@, uint_view(e.wal_commits as nat)),
            ("wal_fsync_p95_ns"@, uint_view(e.wal_fsync_p95_ns as nat)),
            ("segment_seal_p95_ns"@, uint_view(e.segment_seal_p95_ns as nat)),
        ],
    )
}

fn ingest_json(e: EngineReport) -> (r: Json)
    ensures
        r@ == ingest_view(e),
{
    let mut entries: Vec<(String, Json)> = Vec::new();
    entries.push(entry("spans_admitted", uint_json(e.spans_admitted)));
    entries.push(entry("batches_admitted", uint_json(e.batches_admitted)));
    entries.push(entry("wal_commits", uint_json(e.wal_commits)));
    entries.push(entry("wal_fsync_p95_ns", uint_json(e.wal_fsync_p95_ns)));
    entries.push(entry("segment_seal_p95_ns", uint_json(e.segment_seal_p95_ns)));
    assert(entries_view(entries@) =~= ingest_view(e)->Object_0);
    object(entries)
}

/// What the engine's searches touched.
pub open spec fn pruning_view(e: EngineReport) -> JsonView {
    JsonView::Object(
        seq![
            ("segments_examined"@, uint_view(e.segments_examined as nat)),
            ("segments_pruned_by_time"@, uint_view(e.segments_pruned_by_time as nat)),
        ],
    )
}

fn pruning_json(e: EngineReport) -> (r: Json)
    ensures
        r@ == pruning_view(e),
{
    let mut entries: Vec<(String, Json)> = Vec::new();
    entries.push(entry("segments_examined", uint_json(e.segments_examined)));
    entries.push(entry("segments_pruned_by_time", uint_json(e.segments_pruned_by_time)));
    assert(entries_view(entries@) =~= pruning_view(e)->Object_0);
    object(entries)
}

/// Everything the server reports, for a browser.
pub open spec fn report_view(m: ServerMetrics, e: EngineReport, uptime_ns: u64) -> JsonView {
    JsonView::Object(
        seq![
            ("uptime_ns"@, uint_view(uptime_ns as nat)),
            ("durability"@, JsonView::Text(durability_name(e.durability))),
            ("tail_ring"@, ring_view(e.tail_ring)),
            ("requests"@, requests_view(m)),
            ("by_class"@, JsonView::Object(classes_view(m.by_class@, CLASSES as int))),
            ("connections"@, connections_view(m)),
            ("decode"@, decode_view(m)),
            ("ingest"@, ingest_view(e)),
            ("pruning"@, pruning_view(e)),
            ("percentile_error_bound"@, JsonView::Number("0.0625"@)),
        ],
    )
}

impl ServerMetrics {
    /// Everything the server reports, for a browser.
    pub fn as_json(&self, e: EngineReport, uptime_ns: u64) -> (r: Json)
        requires
            self.wf(),
        ensures
            r@ == report_view(*self, e, uptime_ns),
    {
        let mut entries: Vec<(String, Json)> = Vec::new();
        entries.push(entry("uptime_ns", uint_json(uptime_ns)));
        entries.push(entry("durability", text_json(e.durability.as_str())));
        entries.push(entry("tail_ring", ring_json(e.tail_ring)));
        entries.push(entry("requests", requests_json(self)));
        entries.push(entry("by_class", classes_json(self)));
        entries.push(entry("connections", connections_json(self)));
        entries.push(entry("decode", decode_json(self)));
        entries.push(entry("ingest", ingest_json(e)));
        entries.push(entry("pruning", pruning_json(e)));
        entries.push(entry("percentile_error_bound", Json::Number(copy("0.0625"))));
        assert(entries_view(entries@) =~= report_view(*self, e, uptime_ns)->Object_0);
        object(entries)
    }
}

proof fn lemma_paths()
    ensures
        "/v1/spans"@.len() == 9 && "/v1/spans"@[5] == 'p',
        "/v1/traces"@.len() == 10 && "/v1/traces"@[4] == 't',
        "/v1/export"@.len() == 10 && "/v1/export"@[4] == 'e',
        "/v1/tail"@.len() == 8,
        "/v1/stats"@.len() == 9 && "/v1/stats"@[5] == 't',
        "/v1/sessions"@.len() == 12,
        "/v1/traces/"@.len() == 11,
        "/v1/sessions/"@.len() == 13 && "/v1/sessions/"@[4] == 's',
        "/v1/payloads/"@.len() == 13 && "/v1/payloads/"@[4] == 'p',
        "/v1/annotations"@.len() == 15,
        "/v1/mcp"@.len() == 7,
        "GET"@.len() == 3,
        "POST"@.len() == 4,
{
    reveal_strlit("/v1/spans");
    reveal_strlit("/v1/traces");
    reveal_strlit("/v1/export");
    reveal_strlit("/v1/tail");
    reveal_strlit("/v1/stats");
    reveal_strlit("/v1/sessions");
    reveal_strlit("/v1/traces/");
    reveal_strlit("/v1/sessions/");
    reveal_strlit("/v1/payloads/");
    reveal_strlit("/v1/annotations");
    reveal_strlit("/v1/mcp");
    reveal_strlit("GET");
    reveal_strlit("POST");
}

proof fn lemma_field_names()
    ensures
        "count"@.len() == 5 && "count"@[0] == 'c',
        "mean_ns"@.len() == 7 && "mean_ns"@[0] == 'm',
        "max_ns"@.len() == 6 && "max_ns"@[0] == 'm',
        "p50_ns"@.len() == 6 && "p50_ns"@[0] == 'p' && "p50_ns"@[1] == '5',
        "p95_ns"@.len() == 6 && "p95_ns"@[0] == 'p' && "p95_ns"@[1] == '9' && "p95_ns"@[2] == '5',
        "p99_ns"@.len() == 6 && "p99_ns"@[0] == 'p' && "p99_ns"@[1] == '9' && "p99_ns"@[2] == '9',
        "spans"@.len() == 5 && "spans"@[0] == 's',
        "bytes"@.len() == 5 && "bytes"@[0] == 'b',
        "max_spans"@.len() == 9 && "max_spans"@[0] == 'm' && "max_spans"@[4] == 's',
        "max_bytes"@.len() == 9 && "max_bytes"@[0] == 'm' && "max_bytes"@[4] == 'b',
        "total"@.len() == 5 && "total"@[0] == 't',
        "rejected"@.len() == 8 && "rejected"@[0] == 'r' && "rejected"@[2] == 'j',
        "responses_2xx"@.len() == 13 && "responses_2xx"@[10] == '2',
        "responses_4xx"@.len() == 13 && "responses_4xx"@[10] == '4',
        "responses_5xx"@.len() == 13 && "responses_5xx"@[10] == '5',
        "accepted"@.len() == 8 && "accepted"@[0] == 'a',
        "refused"@.len() == 7 && "refused"@[0] == 'r',
        "live"@.len() == 4,
        "spans_admitted"@.len() == 14,
        "batches_admitted"@.len() == 16 && "batches_admitted"@[0] == 'b',
        "wal_commits"@.len() == 11 && "wal_commits"@[0] == 'w',
        "wal_fsync_p95_ns"@.len() == 16 && "wal_fsync_p95_ns"@[0] == 'w',
        "segment_seal_p95_ns"@.len() == 19,
        "segments_examined"@.len() == 17,
        "segments_pruned_by_time"@.len() == 23,
        "uptime_ns"@.len() == 9 && "uptime_ns"@[0] == 'u',
        "durability"@.len() == 10,
        "tail_ring"@.len() == 9 && "tail_ring"@[0] == 't',
        "requests"@.len() == 8 && "requests"@[0] == 'r' && "requests"@[2] == 'q',
        "by_class"@.len() == 8 && "by_class"@[0] == 'b',
        "connections"@.len() == 11 && "connections"@[0] == 'c',
        "decode"@.len() == 6 && "decode"@[0] == 'd',
        "ingest"@.len() == 6 && "ingest"@[0] == 'i',
        "pruning"@.len() == 7 && "pruning"@[0] == 'p',
        "percentile_error_bound"@.len() == 22,
{
    reveal_strlit("count");
    reveal_strlit("mean_ns");
    reveal_strlit("max_ns");
    reveal_strlit("p50_ns");
    reveal_strlit("p95_ns");
    reveal_strlit("p99_ns");
    reveal_strlit("spans");
    reveal_strlit("bytes");
    reveal_strlit("max_spans");
    reveal_strlit("max_bytes");
    reveal_strlit("total");
    reveal_strlit("rejected");
    reveal_strlit("responses_2xx");
    reveal_strlit("responses_4xx");
    reveal_strlit("responses_5xx");
    reveal_strlit("accepted");
    reveal_strlit("refused");
    reveal_strlit("live");
    reveal_strlit("spans_admitted");
    reveal_strlit("batches_admitted");
    reveal_strlit("wal_commits");
    reveal_strlit("wal_fsync_p95_ns");
    reveal_strlit("segment_seal_p95_ns");
    reveal_strlit("segments_examined");
    reveal_strlit("segments_pruned_by_time");
    reveal_strlit("uptime_ns");
    reveal_strlit("durability");
    reveal_strlit("tail_ring");
    reveal_strlit("requests");
    reveal_strlit("by_class");
    reveal_strlit("connections");
    reveal_strlit("decode");
    reveal_strlit("ingest");
    reveal_strlit("pruning");
    reveal_strlit("percentile_error_bound");
}


proof fn lemma_prefix_char(path: Seq<char>, prefix: Seq<char>, i: int)
    requires
        starts_with(path, prefix),
        0 <= i < prefix.len(),
    ensures
        path.len() >= prefix.len(),
        path[i] == prefix[i],
{
    assert(path.take(prefix.len() as int)[i] == path[i]);
}

/// Which class a request counts under: the ingest of spans and traces, searches,
/// lookups of one thing, statistics, streams, the MCP endpoint, and the rest.
pub proof fn law_classes(method: Seq<char>, path: Seq<char>, id: Seq<char>)
    ensures
        class_of(method, "/v1/mcp"@) is Mcp,
        class_of("POST"@, "/v1/spans"@) is Ingest && class_of("POST"@, "/v1/traces"@) is Ingest,
        class_of("GET"@, "/v1/spans"@) is Search,
        class_of("GET"@, "/v1/export"@) is Stream && class_of("GET"@, "/v1/tail"@) is Stream,
        class_of("GET"@, "/v1/stats"@ + id) is Stats && class_of("GET"@, "/v1/sessions"@) is Stats,
        class_of("GET"@, "/v1/traces/"@ + id) is Lookup,
        class_of("GET"@, "/v1/sessions/"@ + id) is Lookup,
        class_of("GET"@, "/v1/payloads/"@ + id) is Lookup,
        class_of("GET"@, "/v1/annotations"@) is Lookup,
        method != "GET"@ && method != "POST"@ && path != "/v1/mcp"@ ==> class_of(
            method,
            path,
        ) is Other,
        path != "/v1/mcp"@ && path != "/v1/spans"@ && path != "/v1/traces"@ ==> class_of(
            "POST"@,
            path,
        ) is Other,
{
    lemma_paths();
    reveal_strlit("/v1/stats");
    reveal_strlit("/v1/sessions/");
    reveal_strlit("/v1/traces/");
    reveal_strlit("/v1/payloads/");
    reveal_strlit("/v1/annotations");
    reveal_strlit("/v1/sessions");
    reveal_strlit("/v1/spans");
    reveal_strlit("/v1/export");
    reveal_strlit("/v1/tail");
    reveal_strlit("/v1/mcp");
    assert(ENDPOINT@ == "/v1/mcp"@);
    let stats = "/v1/stats"@ + id;
    let trace = "/v1/traces/"@ + id;
    let session = "/v1/sessions/"@ + id;
    let payload = "/v1/payloads/"@ + id;
    crate::text::law_prefixes("/v1/stats"@, id, stats);
    crate::text::law_prefixes("/v1/traces/"@, id, trace);
    crate::text::law_prefixes("/v1/sessions/"@, id, session);
    crate::text::law_prefixes("/v1/payloads/"@, id, payload);
    assert(stats[4] == 's' && stats[5] == 't');
    assert(trace[4] == 't' && session[4] == 's' && session[5] == 'e' && payload[4] == 'p');
    assert(session.len() >= 13 && trace.len() >= 11 && payload.len() >= 13);
    assert("/v1/spans"@[4] == 's' && "/v1/spans"@[5] == 'p' && "/v1/mcp"@[4] == 'm');
    assert("/v1/export"@[4] == 'e' && "/v1/tail"@[4] == 't' && "/v1/annotations"@[4] == 'a');
    assert("/v1/sessions"@[4] == 's' && "/v1/sessions"@[5] == 'e');
    assert("/v1/stats"@[4] == 's' && "/v1/stats"@[5] == 't');
    if starts_with(trace, "/v1/stats"@) {
        lemma_prefix_char(trace, "/v1/stats"@, 4);
    }
    if starts_with(session, "/v1/stats"@) {
        lemma_prefix_char(session, "/v1/stats"@, 5);
    }
    if starts_with(payload, "/v1/stats"@) {
        lemma_prefix_char(payload, "/v1/stats"@, 4);
    }
    if starts_with("/v1/annotations"@, "/v1/stats"@) {
        lemma_prefix_char("/v1/annotations"@, "/v1/stats"@, 4);
    }
}

/// The classes by name.
pub proof fn law_class_labels()
    ensures
        class_label(RouteClass::Ingest) == "ingest"@,
        class_label(RouteClass::Lookup) == "lookup"@,
        class_label(RouteClass::Search) == "search"@,
        class_label(RouteClass::Stats) == "stats"@,
        class_label(RouteClass::Stream) == "stream"@,
        class_label(RouteClass::Mcp) == "mcp"@,
        class_label(RouteClass::Other) == "other"@,
{
}

/// What one recorded request does to a timing: one more, so much longer, the
/// longest so far where it is, and one more in its bucket and no other.
pub proof fn law_a_recorded_request(before: Latency, after: Latency, elapsed_ns: u64, b: int)
    requires
        before.wf(),
        recorded(before, after, elapsed_ns),
        bucket(elapsed_ns as nat) < before.counts@.len(),
        0 <= b < before.counts@.len(),
    ensures
        before.count < u64::MAX ==> after.count == before.count + 1,
        before.total_ns + elapsed_ns <= u64::MAX ==> after.total_ns == before.total_ns + elapsed_ns,
        after.max_ns >= before.max_ns && after.max_ns >= elapsed_ns,
        after.max_ns == before.max_ns || after.max_ns == elapsed_ns,
        b != bucket(elapsed_ns as nat) ==> after.counts@[b] == before.counts@[b],
        b == bucket(elapsed_ns as nat) && before.counts@[b] < u64::MAX ==> after.counts@[b]
            == before.counts@[b] + 1,
{
}

/// A stream is counted, and its time is not; any other request is timed.
pub proof fn law_streams_are_not_timed(
    before: Latency,
    after: Latency,
    class: RouteClass,
    elapsed_ns: u64,
)
    requires
        timed_by(before, after, class, elapsed_ns),
    ensures
        class is Stream ==> after.total_ns == before.total_ns && after.max_ns == before.max_ns
            && after.counts == before.counts && after.count == before.count.wrapping_add(1),
        !(class is Stream) ==> recorded(before, after, elapsed_ns),
{
}

proof fn lemma_within(a: Seq<char>, b: Seq<char>, needle: Seq<char>)
    ensures
        contains_text(a, needle) ==> contains_text(a + b, needle),
        contains_text(b, needle) ==> contains_text(a + b, needle),
        contains_text(needle, needle),
{
    let whole = a + b;
    if contains_text(a, needle) {
        let at = choose|at: int| crate::text::stands_at(a, needle, at);
        assert(whole.subrange(at, at + needle.len()) =~= a.subrange(at, at + needle.len()));
        assert(crate::text::stands_at(whole, needle, at));
    }
    if contains_text(b, needle) {
        let at = choose|at: int| crate::text::stands_at(b, needle, at);
        let there = a.len() + at;
        assert(whole.subrange(there, there + needle.len()) =~= b.subrange(
            at,
            at + needle.len(),
        ));
        assert(crate::text::stands_at(whole, needle, there));
    }
    assert(needle.subrange(0, needle.len() as int) =~= needle);
    assert(crate::text::stands_at(needle, needle, 0));
}

proof fn lemma_classes_keep(before: Seq<char>, by_class: Seq<Latency>, n: int, needle: Seq<char>)
    requires
        contains_text(before, needle),
    ensures
        contains_text(classes_samples(before, by_class, n), needle),
    decreases n,
{
    if n > 0 {
        lemma_classes_keep(before, by_class, n - 1, needle);
        let so_far = classes_samples(before, by_class, n - 1);
        let class = class_at(n - 1);
        let l = by_class[n - 1];
        let p = class_prefix(class);
        let a = sample(p + "count"@, "counter"@, l.count as nat);
        let b = sample(p + "sum"@, "counter"@, l.total_ns as nat);
        lemma_within(so_far, a, needle);
        lemma_within(so_far + a, b, needle);
        lemma_percentiles_keep(so_far + a + b, p, l.counts@, needle);
    }
}

proof fn lemma_percentiles_keep(
    before: Seq<char>,
    prefix: Seq<char>,
    counts: Seq<u64>,
    needle: Seq<char>,
)
    requires
        contains_text(before, needle),
    ensures
        contains_text(percentile_samples(before, prefix, counts), needle),
{
    let a = sample(prefix + "p50"@, "gauge"@, percentile(counts, 50));
    let b = sample(prefix + "p95"@, "gauge"@, percentile(counts, 95));
    let c = sample(prefix + "p99"@, "gauge"@, percentile(counts, 99));
    lemma_within(before, a, needle);
    lemma_within(before + a, b, needle);
    lemma_within(before + a + b, c, needle);
}

proof fn lemma_statuses_keep(before: Seq<char>, m: ServerMetrics, needle: Seq<char>)
    requires
        contains_text(before, needle),
    ensures
        contains_text(status_samples(before, m), needle),
{
    let a = sample("traza_http_responses_2xx_total"@, "counter"@, m.status_2xx as nat);
    let b = sample("traza_http_responses_4xx_total"@, "counter"@, m.status_4xx as nat);
    let c = sample("traza_http_responses_5xx_total"@, "counter"@, m.status_5xx as nat);
    lemma_within(before, a, needle);
    lemma_within(before + a, b, needle);
    lemma_within(before + a + b, c, needle);
}

proof fn lemma_timings_keep(before: Seq<char>, m: ServerMetrics, needle: Seq<char>)
    requires
        contains_text(before, needle),
    ensures
        contains_text(timing_samples(before, m), needle),
{
    let a = sample("traza_http_decode_ns_count"@, "counter"@, m.decode.count as nat);
    let b = sample("traza_http_decode_ns_sum"@, "counter"@, m.decode.total_ns as nat);
    let c = sample("traza_http_decode_ns_max"@, "gauge"@, m.decode.max_ns as nat);
    let d = sample("traza_http_request_ns_count"@, "counter"@, m.request_latency.count as nat);
    let e = sample("traza_http_request_ns_sum"@, "counter"@, m.request_latency.total_ns as nat);
    let f = sample("traza_http_request_ns_max"@, "gauge"@, m.request_latency.max_ns as nat);
    lemma_within(before, a, needle);
    lemma_within(before + a, b, needle);
    lemma_within(before + a + b, c, needle);
    lemma_within(before + a + b + c, d, needle);
    lemma_within(before + a + b + c + d, e, needle);
    lemma_within(before + a + b + c + d + e, f, needle);
    lemma_percentiles_keep(
        before + a + b + c + d + e + f,
        "traza_http_request_ns_"@,
        m.request_latency.counts@,
        needle,
    );
}

proof fn lemma_to_the_end(before: Seq<char>, m: ServerMetrics, needle: Seq<char>)
    requires
        contains_text(before, needle),
    ensures
        contains_text(
            status_samples(
                classes_samples(timing_samples(before, m), m.by_class@, CLASSES as int),
                m,
            ),
            needle,
        ),
{
    lemma_timings_keep(before, m, needle);
    let timed = timing_samples(before, m);
    lemma_classes_keep(timed, m.by_class@, CLASSES as int, needle);
    lemma_statuses_keep(classes_samples(timed, m.by_class@, CLASSES as int), m, needle);
}

/// The exposition holds each of the server's counts under its own name, behind
/// whatever stood before.
pub proof fn law_counts_are_exposed(before: Seq<char>, m: ServerMetrics, uptime: u64)
    ensures
        ({
            let text = prometheus(before, m, uptime);
            &&& contains_text(text, sample("traza_uptime_seconds"@, "gauge"@, uptime as nat))
            &&& contains_text(
                text,
                sample("traza_http_requests_total"@, "counter"@, m.requests as nat),
            )
            &&& contains_text(
                text,
                sample("traza_http_rejected_total"@, "counter"@, m.rejected as nat),
            )
            &&& contains_text(
                text,
                sample(
                    "traza_http_connections_refused_total"@,
                    "counter"@,
                    m.connections_refused as nat,
                ),
            )
            &&& contains_text(
                text,
                sample(
                    "traza_http_connections_accepted_total"@,
                    "counter"@,
                    m.connections_accepted as nat,
                ),
            )
            &&& contains_text(
                text,
                sample("traza_http_connections_live"@, "gauge"@, m.connections_live as nat),
            )
            &&& contains_text(
                text,
                sample("traza_http_decoded_spans_total"@, "counter"@, m.decoded_spans as nat),
            )
        }),
{
    let a = sample("traza_uptime_seconds"@, "gauge"@, uptime as nat);
    let b = sample("traza_http_requests_total"@, "counter"@, m.requests as nat);
    let c = sample("traza_http_rejected_total"@, "counter"@, m.rejected as nat);
    let d = sample(
        "traza_http_connections_refused_total"@,
        "counter"@,
        m.connections_refused as nat,
    );
    let e = sample(
        "traza_http_connections_accepted_total"@,
        "counter"@,
        m.connections_accepted as nat,
    );
    let f = sample("traza_http_connections_live"@, "gauge"@, m.connections_live as nat);
    let g = sample("traza_http_decoded_spans_total"@, "counter"@, m.decoded_spans as nat);
    lemma_seven(before, a, b, c, d, e, f, g);
    let all = before + a + b + c + d + e + f + g;
    assert(all == count_samples(before, m, uptime));
    lemma_to_the_end(all, m, a);
    lemma_to_the_end(all, m, b);
    lemma_to_the_end(all, m, c);
    lemma_to_the_end(all, m, d);
    lemma_to_the_end(all, m, e);
    lemma_to_the_end(all, m, f);
    lemma_to_the_end(all, m, g);
}

proof fn lemma_seven(
    z: Seq<char>,
    a: Seq<char>,
    b: Seq<char>,
    c: Seq<char>,
    d: Seq<char>,
    e: Seq<char>,
    f: Seq<char>,
    g: Seq<char>,
)
    ensures
        ({
            let all = z + a + b + c + d + e + f + g;
            &&& contains_text(all, a) && contains_text(all, b) && contains_text(all, c)
            &&& contains_text(all, d) && contains_text(all, e) && contains_text(all, f)
            &&& contains_text(all, g)
        }),
{
    let z1 = z + a;
    let z2 = z1 + b;
    let z3 = z2 + c;
    let z4 = z3 + d;
    let z5 = z4 + e;
    let z6 = z5 + f;
    lemma_within(z, a, a);
    lemma_within(z1, b, a);
    lemma_within(z2, c, a);
    lemma_within(z3, d, a);
    lemma_within(z4, e, a);
    lemma_within(z5, f, a);
    lemma_within(z6, g, a);
    lemma_within(z1, b, b);
    lemma_within(z2, c, b);
    lemma_within(z3, d, b);
    lemma_within(z4, e, b);
    lemma_within(z5, f, b);
    lemma_within(z6, g, b);
    lemma_within(z2, c, c);
    lemma_within(z3, d, c);
    lemma_within(z4, e, c);
    lemma_within(z5, f, c);
    lemma_within(z6, g, c);
    lemma_within(z3, d, d);
    lemma_within(z4, e, d);
    lemma_within(z5, f, d);
    lemma_within(z6, g, d);
    lemma_within(z4, e, e);
    lemma_within(z5, f, e);
    lemma_within(z6, g, e);
    lemma_within(z5, f, f);
    lemma_within(z6, g, f);
    lemma_within(z6, g, g);
}

/// The exposition holds the responses by their class.
pub proof fn law_responses_are_exposed(before: Seq<char>, m: ServerMetrics, uptime: u64)
    ensures
        ({
            let text = prometheus(before, m, uptime);
            &&& contains_text(
                text,
                sample("traza_http_responses_2xx_total"@, "counter"@, m.status_2xx as nat),
            )
            &&& contains_text(
                text,
                sample("traza_http_responses_4xx_total"@, "counter"@, m.status_4xx as nat),
            )
            &&& contains_text(
                text,
                sample("traza_http_responses_5xx_total"@, "counter"@, m.status_5xx as nat),
            )
        }),
{
    let so_far = classes_samples(
        timing_samples(count_samples(before, m, uptime), m),
        m.by_class@,
        CLASSES as int,
    );
    let a = sample("traza_http_responses_2xx_total"@, "counter"@, m.status_2xx as nat);
    let b = sample("traza_http_responses_4xx_total"@, "counter"@, m.status_4xx as nat);
    let c = sample("traza_http_responses_5xx_total"@, "counter"@, m.status_5xx as nat);
    lemma_within(so_far, a, a);
    lemma_within(so_far + a, b, a);
    lemma_within(so_far + a + b, c, a);
    lemma_within(so_far + a, b, b);
    lemma_within(so_far + a + b, c, b);
    lemma_within(so_far + a + b, c, c);
}

/// A sample is its type and its value, a line each.
pub proof fn law_a_sample(name: Seq<char>, kind: Seq<char>, value: nat)
    ensures
        sample(name, kind, value) == "# TYPE "@ + name + " "@ + kind + "\n"@ + name + " "@ + dec(
            value,
        ) + "\n"@,
{
}

/// What a timing shows: how many, the mean, the longest and the percentiles.
pub proof fn law_what_a_timing_shows(l: Latency)
    ensures
        ({
            let v = timing_view(l);
            &&& v.field("count"@) == Some(JsonView::Number(dec(l.count as nat)))
            &&& l.count > 0 ==> v.field("mean_ns"@) == Some(
                JsonView::Number(dec((l.total_ns / l.count) as nat)),
            )
            &&& l.count == 0 ==> v.field("mean_ns"@) == Some(JsonView::Number(dec(0)))
            &&& v.field("max_ns"@) == Some(JsonView::Number(dec(l.max_ns as nat)))
            &&& v.field("p50_ns"@) == Some(JsonView::Number(dec(percentile(l.counts@, 50))))
            &&& v.field("p95_ns"@) == Some(JsonView::Number(dec(percentile(l.counts@, 95))))
            &&& v.field("p99_ns"@) == Some(JsonView::Number(dec(percentile(l.counts@, 99))))
        }),
{
    lemma_field_names();
    reveal_with_fuel(crate::json::entry_from, 7);
}

/// What the server's report shows, field by field.
pub proof fn law_what_the_report_shows(m: ServerMetrics, e: EngineReport, uptime_ns: u64)
    ensures
        ({
            let v = report_view(m, e, uptime_ns);
            let r = requests_view(m);
            let c = connections_view(m);
            let i = ingest_view(e);
            let p = pruning_view(e);
            &&& v.field("uptime_ns"@) == Some(JsonView::Number(dec(uptime_ns as nat)))
            &&& v.field("durability"@) == Some(JsonView::Text(durability_name(e.durability)))
            &&& v.field("requests"@) == Some(r) && v.field("connections"@) == Some(c)
            &&& v.field("ingest"@) == Some(i) && v.field("pruning"@) == Some(p)
            &&& v.field("decode"@) == Some(decode_view(m))
            &&& r.field("total"@) == Some(JsonView::Number(dec(m.requests as nat)))
            &&& r.field("rejected"@) == Some(JsonView::Number(dec(m.rejected as nat)))
            &&& r.field("responses_2xx"@) == Some(JsonView::Number(dec(m.status_2xx as nat)))
            &&& r.field("responses_4xx"@) == Some(JsonView::Number(dec(m.status_4xx as nat)))
            &&& r.field("responses_5xx"@) == Some(JsonView::Number(dec(m.status_5xx as nat)))
            &&& c.field("accepted"@) == Some(JsonView::Number(dec(m.connections_accepted as nat)))
            &&& c.field("refused"@) == Some(JsonView::Number(dec(m.connections_refused as nat)))
            &&& c.field("live"@) == Some(JsonView::Number(dec(m.connections_live as nat)))
            &&& i.field("spans_admitted"@) == Some(JsonView::Number(dec(e.spans_admitted as nat)))
            &&& i.field("batches_admitted"@) == Some(
                JsonView::Number(dec(e.batches_admitted as nat)),
            )
            &&& i.field("wal_commits"@) == Some(JsonView::Number(dec(e.wal_commits as nat)))
            &&& p.field("segments_examined"@) == Some(
                JsonView::Number(dec(e.segments_examined as nat)),
            )
            &&& p.field("segments_pruned_by_time"@) == Some(
                JsonView::Number(dec(e.segments_pruned_by_time as nat)),
            )
        }),
{
    lemma_field_names();
    reveal_with_fuel(crate::json::entry_from, 11);
}

} // verus!
