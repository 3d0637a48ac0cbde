//! The aggregation benchmark: what it asks, how it checks the answers, how its
//! clients share the corpus, and the record it writes.

use vstd::prelude::*;

use crate::corpus::EPOCH_NS;
use crate::json::{Json, JsonView};
use crate::llm::PROVIDERS;
use crate::measure::BATCH_SIZE;
use crate::text::{chars_of, copy, dec, decimal};

verus! {

/// Warm requests per query.
pub const WARM_SAMPLES: usize = 20;

/// The path that the churn probe asks for.
pub const CHURN_PATH: &'static str = "/v1/stats/llm?group_by=model";

// ---------------------------------------------------------------------- answers

/// What is wrong with the answer to an aggregation.
#[derive(Clone, Copy, Debug, PartialEq, Eq, Structural)]
pub enum RowsDefect {
    /// Neither rows nor sessions.
    NoRows,
    /// Rows, but none: the timing would be meaningless.
    Nothing,
    /// The rows add up to another number of spans.
    Wrong { total: u64, expected: u64 },
}

impl RowsDefect {
    /// What to say about the defect; for an answer without rows, what to say
    /// before the answer itself.
    pub fn message(self) -> (r: String)
        ensures
            r@ == match self {
                RowsDefect::NoRows => "response has no rows or sessions array: "@,
                RowsDefect::Nothing =>
                    "response aggregated nothing; the timing would be meaningless"@,
                RowsDefect::Wrong { total, expected } => "rows sum to "@ + dec(total as nat)
                    + " spans, expected "@ + dec(expected as nat)
                    + " \u{2014} the aggregate is wrong, so its latency is not worth reporting"@,
            },
    {
        match self {
            RowsDefect::NoRows => copy("response has no rows or sessions array: "),
            RowsDefect::Nothing => copy(
                "response aggregated nothing; the timing would be meaningless",
            ),
            RowsDefect::Wrong { total, expected } => {
                let mut r = copy("rows sum to ");
                push_number(&mut r, total);
                r.push_str(" spans, expected ");
                push_number(&mut r, expected);
                r.push_str(
                    " \u{2014} the aggregate is wrong, so its latency is not worth reporting",
                );
                r
            },
        }
    }
}

fn push_number(r: &mut String, n: u64)
    ensures
        final(r)@ == old(r)@ + dec(n as nat),
{
    let digits = decimal(n);
    r.push_str(digits.as_str());
}

/// The rows of an answer: its `rows`, else its `sessions`.
pub open spec fn answer_rows(body: JsonView) -> Option<Seq<JsonView>> {
    let held = match body.field("rows"@) {
        Some(rows) => Some(rows),
        None => body.field("sessions"@),
    };
    match held {
        Some(JsonView::Array(rows)) => Some(rows),
        _ => None,
    }
}

/// The spans that the first `n` rows count, in 64-bit arithmetic; a row
/// without a count counts none.
pub open spec fn rows_total(rows: Seq<JsonView>, n: int) -> u64
    decreases n,
{
    if n <= 0 {
        0
    } else {
        let before = rows_total(rows, n - 1);
        match rows[n - 1].uint_field("spans"@) {
            Some(count) => ((before + count) % 0x1_0000_0000_0000_0000) as u64,
            None => before,
        }
    }
}

/// What is wrong with the answer to an aggregation.
pub open spec fn rows_defect(body: JsonView, expected: Option<u64>) -> Option<RowsDefect> {
    match answer_rows(body) {
        None => Some(RowsDefect::NoRows),
        Some(rows) => if rows.len() == 0 {
            Some(RowsDefect::Nothing)
        } else {
            match expected {
                Some(expected) => if rows_total(rows, rows.len() as int) == expected {
                    None
                } else {
                    Some(
                        RowsDefect::Wrong { total: rows_total(rows, rows.len() as int), expected },
                    )
                },
                None => None,
            }
        },
    }
}

/// Checks that an answer aggregated something and, where the answer can be
/// known, that it aggregated the right amount.
pub fn verify(body: &Json, expected: Option<u64>) -> (r: Result<(), RowsDefect>)
    ensures
        match r {
            Ok(_) => rows_defect(body@, expected).is_none(),
            Err(defect) => rows_defect(body@, expected) == Some(defect),
        },
{
    let held = match body.get("rows") {
        Some(rows) => Some(rows),
        None => body.get("sessions"),
    };
    let rows = match held {
        Some(Json::Array(rows)) => rows,
        _ => {
            return Err(RowsDefect::NoRows);
        },
    };
    let ghost views = answer_rows(body@).unwrap();
    assert(views.len() == rows@.len());
    if rows.len() == 0 {
        return Err(RowsDefect::Nothing);
    }
    let expected = match expected {
        Some(expected) => expected,
        None => {
            return Ok(());
        },
    };
    let mut total: u64 = 0;
    let mut i: usize = 0;
    while i < rows.len()
        invariant
            i <= rows@.len(),
            views.len() == rows@.len(),
            forall|k: int| 0 <= k < rows@.len() ==> views[k] == (#[trigger] rows@[k])@,
            total == rows_total(views, i as int),
        decreases rows@.len() - i,
    {
        assert(views[i as int] == rows@[i as int]@);
        if let Some(count) = rows[i].uint_at("spans") {
            total = total.wrapping_add(count);
        }
        i += 1;
    }
    if total == expected {
        Ok(())
    } else {
        Err(RowsDefect::Wrong { total, expected })
    }
}

// ---------------------------------------------------------------------- windows

/// The time from the first span of the corpus to the last, in nanoseconds.
pub open spec fn corpus_ns(span_count: nat) -> int {
    if span_count == 0 {
        0
    } else {
        (span_count - 1) * 1_000_000
    }
}

/// The time that the corpus covers, in nanoseconds.
pub fn total_ns(span_count: usize) -> (r: u64)
    requires
        EPOCH_NS + corpus_ns(span_count as nat) <= u64::MAX,
    ensures
        r == corpus_ns(span_count as nat),
{
    if span_count == 0 {
        0
    } else {
        (span_count as u64 - 1) * 1_000_000
    }
}

/// The parameters of a window of the given width in the middle of the corpus.
pub open spec fn window_of(total: nat, width: nat) -> Seq<char> {
    let since = (EPOCH_NS + (total - width) / 2) as nat;
    "&since_ns="@ + dec(since) + "&until_ns="@ + dec(since + width)
}

fn window(total: u64, width: u64) -> (r: String)
    requires
        width <= total,
        EPOCH_NS + total <= u64::MAX,
    ensures
        r@ == window_of(total as nat, width as nat),
{
    let since = EPOCH_NS + (total - width) / 2;
    let mut r = copy("&since_ns=");
    push_number(&mut r, since);
    r.push_str("&until_ns=");
    push_number(&mut r, since + width);
    r
}

/// A window lies inside the corpus, and as far from its beginning as from its
/// end, to the nanosecond that an odd difference leaves over.
pub proof fn law_a_window_is_in_the_middle(total: nat, width: nat)
    requires
        width <= total,
    ensures
        ({
            let since = EPOCH_NS + (total - width) / 2;
            let before = since - EPOCH_NS;
            let behind = EPOCH_NS + total - (since + width);
            &&& 0 <= before <= behind <= before + 1
        }),
{
}

/// One measured query.
#[derive(Debug)]
pub struct Query {
    pub label: &'static str,
    pub path: String,
    /// What the query is for.
    pub note: &'static str,
    /// The spans that its rows must add up to, where that can be known.
    pub expected_spans: Option<u64>,
}

/// The view of a query.
pub struct QueryView {
    pub label: Seq<char>,
    pub path: Seq<char>,
    pub note: Seq<char>,
    pub expected_spans: Option<u64>,
}

impl View for Query {
    type V = QueryView;

    open spec fn view(&self) -> QueryView {
        QueryView {
            label: self.label@,
            path: self.path@,
            note: self.note@,
            expected_spans: self.expected_spans,
        }
    }
}

pub open spec fn query_views(queries: Seq<Query>) -> Seq<QueryView> {
    Seq::new(queries.len(), |i: int| queries[i]@)
}

/// What the query over the whole corpus is for.
pub const WHOLE_NOTE: &'static str = "\
    every segment is fully inside the window, so every segment can be answered from its \
    rollup";

/// What the query over a tenth of the time is for.
pub const TENTH_NOTE: &'static str = "\
    the dashboard case: segments straddling the window boundary are decoded rather than \
    rolled up";

/// What the query over a hundredth of the time is for.
pub const HUNDREDTH_NOTE: &'static str = "\
    the narrow dashboard case, where the decoded fraction of each straddling segment \
    matters most";

/// What the query by session is for.
pub const SESSION_NOTE: &'static str = "\
    the highest-cardinality grouping, so the merge rather than the decode dominates";

/// What the list of sessions is for.
pub const LIST_NOTE: &'static str = "\
    the same rollups behind a different projection";

/// The measured queries: over the whole corpus, over a tenth and over a
/// hundredth of its time, by session, and the list of sessions.
pub open spec fn measured_queries(span_count: usize, total: nat, tenth: nat, hundredth: nat) -> Seq<
    QueryView,
> {
    seq![
        QueryView {
            label: "stats/llm group_by=model, whole corpus"@,
            path: "/v1/stats/llm?group_by=model"@,
            note: WHOLE_NOTE@,
            expected_spans: Some(span_count as u64),
        },
        QueryView {
            label: "stats/llm group_by=model, 10% window"@,
            path: "/v1/stats/llm?group_by=model"@ + window_of(total, tenth),
            note: TENTH_NOTE@,
            expected_spans: None,
        },
        QueryView {
            label: "stats/llm group_by=model, 1% window"@,
            path: "/v1/stats/llm?group_by=model"@ + window_of(total, hundredth),
            note: HUNDREDTH_NOTE@,
            expected_spans: None,
        },
        QueryView {
            label: "stats/llm group_by=session"@,
            path: "/v1/stats/llm?group_by=session"@,
            note: SESSION_NOTE@,
            expected_spans: Some(span_count as u64),
        },
        QueryView {
            label: "sessions list"@,
            path: "/v1/sessions?limit=50"@,
            note: LIST_NOTE@,
            expected_spans: None,
        },
    ]
}

/// The measured queries, given how wide a tenth and a hundredth of the
/// corpus's time are.
pub fn queries(span_count: usize, total: u64, tenth: u64, hundredth: u64) -> (r: Vec<Query>)
    requires
        tenth <= total,
        hundredth <= total,
        EPOCH_NS + total <= u64::MAX,
    ensures
        query_views(r@) == measured_queries(
            span_count,
            total as nat,
            tenth as nat,
            hundredth as nat,
        ),
{
    let mut wide = copy("/v1/stats/llm?group_by=model");
    let bounds = window(total, tenth);
    wide.push_str(bounds.as_str());
    let mut narrow = copy("/v1/stats/llm?group_by=model");
    let bounds = window(total, hundredth);
    narrow.push_str(bounds.as_str());
    let mut r: Vec<Query> = Vec::new();
    r.push(
        Query {
            label: "stats/llm group_by=model, whole corpus",
            path: copy("/v1/stats/llm?group_by=model"),
            note: WHOLE_NOTE,
            expected_spans: Some(span_count as u64),
        },
    );
    r.push(
        Query {
            label: "stats/llm group_by=model, 10% window",
            path: wide,
            note: TENTH_NOTE,
            expected_spans: None,
        },
    );
    r.push(
        Query {
            label: "stats/llm group_by=model, 1% window",
            path: narrow,
            note: HUNDREDTH_NOTE,
            expected_spans: None,
        },
    );
    r.push(
        Query {
            label: "stats/llm group_by=session",
            path: copy("/v1/stats/llm?group_by=session"),
            note: SESSION_NOTE,
            expected_spans: Some(span_count as u64),
        },
    );
    r.push(
        Query {
            label: "sessions list",
            path: copy("/v1/sessions?limit=50"),
            note: LIST_NOTE,
            expected_spans: None,
        },
    );
    assert(query_views(r@) =~= measured_queries(
        span_count,
        total as nat,
        tenth as nat,
        hundredth as nat,
    ));
    r
}

// ---------------------------------------------------------------------- clients

/// How many spans a client's next request carries, when its next span is at
/// `index` and it takes every `clients`-th one.
pub open spec fn batch_length(index: int, clients: int, span_count: int) -> int {
    if index >= span_count {
        0
    } else {
        let left = (span_count - index - 1) / clients + 1;
        if left > BATCH_SIZE {
            BATCH_SIZE as int
        } else {
            left
        }
    }
}

/// The spans of a client's next request.
pub open spec fn batch_of(index: int, clients: int, span_count: int) -> Seq<usize> {
    Seq::new(
        batch_length(index, clients, span_count) as nat,
        |k: int| (index + k * clients) as usize,
    )
}

/// The spans of a client's next request: every `clients`-th span from `index`
/// on, so that the times of the clients interleave.
pub fn next_batch(index: usize, clients: usize, span_count: usize) -> (r: Vec<usize>)
    requires
        clients > 0,
        span_count + clients <= usize::MAX,
    ensures
        r@ == batch_of(index as int, clients as int, span_count as int),
{
    let mut r: Vec<usize> = Vec::new();
    let mut at: usize = index;
    proof {
        lemma_batch_step(index as int, clients as int, span_count as int, 0);
    }
    while at < span_count && r.len() < BATCH_SIZE
        invariant
            clients > 0,
            span_count + clients <= usize::MAX,
            at == index + r@.len() * clients,
            r@.len() <= batch_length(index as int, clients as int, span_count as int),
            batch_length(index as int, clients as int, span_count as int) <= BATCH_SIZE,
            forall|k: int| 0 <= k < r@.len() ==> #[trigger] r@[k] == index + k * clients,
            at < span_count && r@.len() < BATCH_SIZE <==> r@.len() < batch_length(
                index as int,
                clients as int,
                span_count as int,
            ),
        decreases BATCH_SIZE - r@.len(),
    {
        let ghost n = r@.len() as int;
        r.push(at);
        at = at + clients;
        proof {
            assert(n * clients + clients == (n + 1) * clients) by (nonlinear_arith);
            lemma_batch_step(index as int, clients as int, span_count as int, n + 1);
        }
    }
    assert(r@ =~= batch_of(index as int, clients as int, span_count as int));
    r
}

/// A client's request has a span in place `k` exactly when that span is in the
/// corpus and the request is not full before it.
pub proof fn lemma_batch_step(index: int, clients: int, span_count: int, k: int)
    requires
        clients > 0,
        0 <= k,
    ensures
        k < batch_length(index, clients, span_count) <==> index + k * clients < span_count && k
            < BATCH_SIZE,
        0 <= batch_length(index, clients, span_count) <= BATCH_SIZE,
{
    if index < span_count {
        let left = (span_count - index - 1) / clients + 1;
        assert(k < left <==> index + k * clients < span_count) by (nonlinear_arith)
            requires
                clients > 0,
                0 <= k,
                index < span_count,
                left == (span_count - index - 1) / clients + 1,
        ;
        assert((span_count - index - 1) / clients >= 0) by (nonlinear_arith)
            requires
                clients > 0,
                index < span_count,
        ;
    } else {
        assert(k * clients >= 0) by (nonlinear_arith)
            requires
                clients > 0,
                0 <= k,
        ;
    }
}

/// Whether a client sends a span, and when in turn.
pub open spec fn sends(client: int, turn: int, span: int, clients: int) -> bool {
    0 <= client < clients && 0 <= turn && span == client + turn * clients
}

/// Every span of the corpus is sent by exactly one of the clients.
pub proof fn law_every_span_has_one_client(span: int, clients: int)
    requires
        clients > 0,
        span >= 0,
    ensures
        ({
            let client = span % clients;
            let turn = span / clients;
            &&& sends(client, turn, span, clients)
            &&& forall|other: int, k: int|
                #[trigger] sends(other, k, span, clients) ==> other == client && k == turn
        }),
{
    vstd::arithmetic::div_mod::lemma_fundamental_div_mod(span, clients);
    vstd::arithmetic::div_mod::lemma_mod_bound(span, clients);
    assert(clients * (span / clients) == (span / clients) * clients) by (nonlinear_arith);
    assert(span / clients >= 0) by (nonlinear_arith)
        requires
            clients > 0,
            span >= 0,
    ;
    assert forall|other: int, k: int| #[trigger] sends(other, k, span, clients) implies other
        == span % clients && k == span / clients by {
        vstd::arithmetic::div_mod::lemma_fundamental_div_mod_converse(span, clients, k, other);
    }
}

// ----------------------------------------------------------------------- report

/// What stands before the rows of the report.
pub const REPORT_HEAD: &'static str = "\
    # Traza Query Benchmarks\n\nThese values were measured by `cargo run --release --bin \
    query-bench`; they are not estimates. The benchmark builds and starts \
    `target/release/traza-server` on a free loopback port with a fresh temporary data \
    directory, ingests a corpus over concurrent HTTP clients, and then **restarts the \
    server before every cold measurement** \u{2014} the rollup cache lives in process memory, \
    so a restart is the only way to observe a genuinely cold query.\n\n## Results\n\n| \
    Query | Cold (first request after restart) | Warm p50 | Warm p95 | Cold/warm \
    |\n|---|---:|---:|---:|---:|\n";

/// Why clients interleave, and how windows are taken.
pub const CONCURRENCY_WORDS: &'static str = "\
    s.\n- **Concurrency is a measured axis, not a detail.** Clients take a strided slice \
    of the corpus, so their timestamps interleave and sealed segments overlap in time. \
    With enough concurrent clients no segment is fully inside any query window, which is \
    exactly when the windowed aggregation path stops being able to use a cached rollup. \
    A single-threaded ingest reports the easy case.\n- Windows are absolute \
    `since_ns`/`until_ns` bounds computed from the corpus's own time range and taken \
    from its MIDDLE, so a 1% window really is one percent of the ingested time and is \
    not partly answered by ruling out whole segments at the ends.\n- Cold: the single \
    first request of that shape after a server restart. Warm: ";

/// How the warm samples are taken.
pub const WARM_WORDS: &'static str = " subsequent identical requests, nearest-rank percentiles over complete request \
    wall-clock durations.\n- Store at measurement time: ";

/// What the state of the store means for the numbers.
pub const STORE_WORDS: &'static str = "\
    -byte segment ceiling. The segment count is polled until it stops moving BEFORE \
    anything is timed, and again after every restart, so all rows describe one store \
    shape. The buffered count matters: buffered spans have no cached rollup and are \
    re-folded on every request, warm or cold.\n- Build: Cargo release profile. \
    Timestamp: Unix ";

/// What the churn table shows.
pub const CHURN_WORDS: &'static str = "\
    \n## Compaction churn\n\nEvery merge drops its input segments' cached rollups and \
    publishes an output segment that has none, so the next query pays to re-establish \
    what the merge just took away. A settled store cannot show this \u{2014} by then every \
    rollup has been rebuilt once and stays warm. These samples are `GET \
    /v1/stats/llm?group_by=model` fired continuously FOR THE WHOLE of ingest, flush and \
    settle, which is the only time compaction has anything to do \u{2014} and the honest shape \
    of the question, since a dashboard queries a store that is still being written to. \
    Merges are counted as decreases in the segment count; seals increase it.\n\n| Metric \
    | Value |\n|---|---:|\n| Queries fired during ingest | ";

/// How to read the churn table.
pub const CHURN_END: &'static str = "\
    x |\n\nA run that observed zero merge events proves nothing about compaction; check \
    the merge count before reading the rest of this table.\n";

/// What stands behind the report.
pub const REPORT_NOTES: &'static str = "\
    \n## Verification Notes\n\n- Every reported result is measured by this benchmark \
    run, never estimated.\n- A non-200 response aborts the run rather than being \
    recorded as a fast query.\n- The cold column cannot be re-measured without another \
    restart; it is one sample by construction, so read it as an order of magnitude and \
    not as a percentile.\n";

/// A row of the report; its numbers are written out.
#[derive(Debug)]
pub struct Measured {
    pub label: String,
    pub path: String,
    pub note: String,
    pub cold: String,
    pub warm_p50: String,
    pub warm_p95: String,
    /// Cold divided by the warm median.
    pub ratio: String,
}

/// What the churn probe saw; its latencies are written out.
#[derive(Debug)]
pub struct Churn {
    pub samples: usize,
    pub merges: u64,
    pub p50: String,
    pub p95: String,
    pub max: String,
    pub settled: String,
    pub penalty: String,
}

/// What the corpus and the store looked like when the timings were taken.
#[derive(Debug)]
pub struct Conditions {
    pub churn: Churn,
    pub span_count: usize,
    /// How many models the corpus calls.
    pub models: usize,
    pub threads: usize,
    pub segments: u64,
    pub buffered: u64,
    /// Seconds of ingest, gigabytes on disk, megabytes of sidecars and their
    /// share, written out.
    pub ingest: String,
    pub disk: String,
    pub sidecar: String,
    pub sidecar_share: String,
    pub fanout: String,
    pub ceiling: String,
    pub measured_at: u64,
    pub context: String,
}

/// One row of the table of results.
pub open spec fn result_row(m: Measured) -> Seq<char> {
    "| "@ + m.label@ + " | "@ + m.cold@ + " ms | "@ + m.warm_p50@ + " ms | "@ + m.warm_p95@
        + " ms | "@ + m.ratio@ + "x |\n"@
}

/// The rows of the table of results, one behind another.
pub open spec fn result_rows(results: Seq<Measured>) -> Seq<char>
    decreases results.len(),
{
    if results.len() == 0 {
        Seq::empty()
    } else {
        result_rows(results.drop_last()) + result_row(results.last())
    }
}

/// A text without a character.
pub open spec fn without_char(s: Seq<char>, c: char) -> Seq<char>
    decreases s.len(),
{
    if s.len() == 0 {
        s
    } else if s.last() == c {
        without_char(s.drop_last(), c)
    } else {
        without_char(s.drop_last(), c).push(s.last())
    }
}

/// What is said of one query path.
pub open spec fn path_row(m: Measured) -> Seq<char> {
    "- `"@ + without_char(m.path@, '`') + "` \u{2014} "@ + m.note@ + "\n"@
}

/// What is said of the query paths, one behind another.
pub open spec fn path_rows(results: Seq<Measured>) -> Seq<char>
    decreases results.len(),
{
    if results.len() == 0 {
        Seq::empty()
    } else {
        path_rows(results.drop_last()) + path_row(results.last())
    }
}

/// How the numbers were taken.
pub open spec fn methodology(c: Conditions) -> Seq<char> {
    "\n## Methodology\n\n- Corpus: "@ + dec(c.span_count as nat) + " LLM spans, "@ + dec(c.models as nat) + " models, "@ + dec(PROVIDERS as nat) + " providers, 8 services, one session per 40 spans, ingested over "@ + dec(c.threads as nat) + " concurrent HTTP client(s) in batches of "@ + dec(BATCH_SIZE as nat) + ". Ingest took "@ + c.ingest@ + CONCURRENCY_WORDS@ + dec(WARM_SAMPLES as nat) + WARM_WORDS@ + dec(c.segments as nat) + " segments, "@ + dec(c.buffered as nat) + " spans still in the write buffer, "@ + c.disk@ + " GB on disk of which "@ + c.sidecar@ + " MB is rollup sidecars ("@ + c.sidecar_share@ + "% overhead, the price of the cold column), compaction fan-out "@ + c.fanout@ + " with a "@ + c.ceiling@ + STORE_WORDS@ + dec(c.measured_at as nat) + ".\n- Machine context: "@ + c.context@ + ".\n\n## Query paths\n\n"@
}

/// The churn table.
pub open spec fn churn_table(c: Churn) -> Seq<char> {
    CHURN_WORDS@ + dec(c.samples as nat) + " |\n| Merge events observed | "@ + dec(c.merges as nat) + " |\n| p50 during compaction | "@ + c.p50@ + " ms |\n| p95 during compaction | "@ + c.p95@ + " ms |\n| Worst single query | "@ + c.max@ + " ms |\n| p50 once settled | "@ + c.settled@ + " ms |\n| Churn penalty (p95 during / p50 settled) | "@ + c.penalty@ + CHURN_END@
}

/// The record of a run.
pub open spec fn report_of(results: Seq<Measured>, c: Conditions) -> Seq<char> {
    REPORT_HEAD@ + result_rows(results) + methodology(c) + churn_table(c.churn) + path_rows(results)
        + REPORT_NOTES@
}

fn methodology_text(c: &Conditions) -> (r: String)
    ensures
        r@ == methodology(*c),
{
    let mut r = copy("\n## Methodology\n\n- Corpus: ");
    push_number(&mut r, c.span_count as u64);
    r.push_str(" LLM spans, ");
    push_number(&mut r, c.models as u64);
    r.push_str(" models, ");
    push_number(&mut r, PROVIDERS as u64);
    r.push_str(" providers, 8 services, one session per 40 spans, ingested over ");
    push_number(&mut r, c.threads as u64);
    r.push_str(" concurrent HTTP client(s) in batches of ");
    push_number(&mut r, BATCH_SIZE as u64);
    r.push_str(". Ingest took ");
    r.push_str(c.ingest.as_str());
    r.push_str(CONCURRENCY_WORDS);
    push_number(&mut r, WARM_SAMPLES as u64);
    r.push_str(WARM_WORDS);
    push_number(&mut r, c.segments as u64);
    r.push_str(" segments, ");
    push_number(&mut r, c.buffered as u64);
    r.push_str(" spans still in the write buffer, ");
    r.push_str(c.disk.as_str());
    r.push_str(" GB on disk of which ");
    r.push_str(c.sidecar.as_str());
    r.push_str(" MB is rollup sidecars (");
    r.push_str(c.sidecar_share.as_str());
    r.push_str("% overhead, the price of the cold column), compaction fan-out ");
    r.push_str(c.fanout.as_str());
    r.push_str(" with a ");
    r.push_str(c.ceiling.as_str());
    r.push_str(STORE_WORDS);
    push_number(&mut r, c.measured_at as u64);
    r.push_str(".\n- Machine context: ");
    r.push_str(c.context.as_str());
    r.push_str(".\n\n## Query paths\n\n");
    r
}

fn churn_text(c: &Churn) -> (r: String)
    ensures
        r@ == churn_table(*c),
{
    let mut r = copy(CHURN_WORDS);
    push_number(&mut r, c.samples as u64);
    r.push_str(" |\n| Merge events observed | ");
    push_number(&mut r, c.merges as u64);
    r.push_str(" |\n| p50 during compaction | ");
    r.push_str(c.p50.as_str());
    r.push_str(" ms |\n| p95 during compaction | ");
    r.push_str(c.p95.as_str());
    r.push_str(" ms |\n| Worst single query | ");
    r.push_str(c.max.as_str());
    r.push_str(" ms |\n| p50 once settled | ");
    r.push_str(c.settled.as_str());
    r.push_str(" ms |\n| Churn penalty (p95 during / p50 settled) | ");
    r.push_str(c.penalty.as_str());
    r.push_str(CHURN_END);
    r
}

fn result_text(m: &Measured) -> (r: String)
    ensures
        r@ == result_row(*m),
{
    let mut r = copy("| ");
    r.push_str(m.label.as_str());
    r.push_str(" | ");
    r.push_str(m.cold.as_str());
    r.push_str(" ms | ");
    r.push_str(m.warm_p50.as_str());
    r.push_str(" ms | ");
    r.push_str(m.warm_p95.as_str());
    r.push_str(" ms | ");
    r.push_str(m.ratio.as_str());
    r.push_str("x |\n");
    r
}

fn drop_char(text: &str, c: char) -> (r: String)
    ensures
        r@ == without_char(text@, c),
{
    let chars = chars_of(text);
    let mut r = String::new();
    let mut i: usize = 0;
    while i < chars.len()
        invariant
            i <= chars@.len(),
            chars@ == text@,
            r@ == without_char(text@.take(i as int), c),
        decreases chars@.len() - i,
    {
        assert(text@.take(i + 1).drop_last() =~= text@.take(i as int));
        if chars[i] != c {
            r.push(chars[i]);
        }
        i += 1;
    }
    assert(text@.take(text@.len() as int) =~= text@);
    r
}

fn path_text(m: &Measured) -> (r: String)
    ensures
        r@ == path_row(*m),
{
    let path = drop_char(m.path.as_str(), '`');
    let mut r = copy("- `");
    r.push_str(path.as_str());
    r.push_str("` \u{2014} ");
    r.push_str(m.note.as_str());
    r.push_str("\n");
    r
}

/// Writes the record of a run.
pub fn render(results: &Vec<Measured>, conditions: &Conditions) -> (r: String)
    ensures
        r@ == report_of(results@, *conditions),
{
    let mut rows = String::new();
    let mut paths = String::new();
    let mut i: usize = 0;
    while i < results.len()
        invariant
            i <= results@.len(),
            rows@ == result_rows(results@.take(i as int)),
            paths@ == path_rows(results@.take(i as int)),
        decreases results@.len() - i,
    {
        assert(results@.take(i + 1).drop_last() =~= results@.take(i as int));
        let row = result_text(&results[i]);
        rows.push_str(row.as_str());
        let path = path_text(&results[i]);
        paths.push_str(path.as_str());
        i += 1;
    }
    assert(results@.take(results@.len() as int) =~= results@);
    let how = methodology_text(conditions);
    let churn = churn_text(&conditions.churn);
    let mut r = copy(REPORT_HEAD);
    r.push_str(rows.as_str());
    r.push_str(how.as_str());
    r.push_str(churn.as_str());
    r.push_str(paths.as_str());
    r.push_str(REPORT_NOTES);
    r
}

proof fn lemma_row_names()
    ensures
        "rows"@.len() == 4,
        "sessions"@.len() == 8,
        "spans"@.len() == 5,
{
    reveal_strlit("rows");
    reveal_strlit("sessions");
    reveal_strlit("spans");
}

/// The rows of an answer are under `rows`, and else under `sessions`.
pub proof fn law_the_rows_of_an_answer(body: JsonView, rows: Seq<JsonView>)
    ensures
        body.field("rows"@) == Some(JsonView::Array(rows)) ==> answer_rows(body) == Some(rows),
        body.field("rows"@).is_none() && body.field("sessions"@) == Some(JsonView::Array(rows))
            ==> answer_rows(body) == Some(rows),
        body.field("rows"@).is_none() && body.field("sessions"@).is_none() ==> answer_rows(
            body,
        ).is_none(),
        body.field("rows"@) is Some && !(body.field("rows"@)->0 is Array) ==> answer_rows(
            body,
        ).is_none(),
{
}

/// The spans of rows, counted without a bound.
pub open spec fn spans_of_rows(rows: Seq<JsonView>) -> nat
    decreases rows.len(),
{
    if rows.len() == 0 {
        0
    } else {
        spans_of_rows(rows.drop_last()) + match rows.last().uint_field("spans"@) {
            Some(count) => count,
            None => 0,
        }
    }
}

proof fn lemma_rows_total(rows: Seq<JsonView>, n: int)
    requires
        0 <= n <= rows.len(),
    ensures
        rows_total(rows, n) as int == spans_of_rows(rows.take(n)) as int % 0x1_0000_0000_0000_0000,
    decreases n,
{
    if n == 0 {
        assert(rows.take(0).len() == 0);
    } else {
        lemma_rows_total(rows, n - 1);
        let now = rows.take(n);
        assert(now.drop_last() =~= rows.take(n - 1));
        assert(now.last() == rows[n - 1]);
        let whole = spans_of_rows(rows.take(n - 1)) as int;
        let m = 0x1_0000_0000_0000_0000int;
        match rows[n - 1].uint_field("spans"@) {
            Some(count) => {
                vstd::arithmetic::div_mod::lemma_add_mod_noop(whole, count as int, m);
                vstd::arithmetic::div_mod::lemma_add_mod_noop(whole % m, count as int, m);
                vstd::arithmetic::div_mod::lemma_mod_twice(whole, m);
            },
            None => {},
        }
    }
}

/// An answer passes when it has rows whose spans sum to what is expected, where
/// something is; and it is a defect to have none, or to sum to something else.
pub proof fn law_answers_that_pass(body: JsonView, expected: Option<u64>)
    ensures
        answer_rows(body).is_none() ==> rows_defect(body, expected) == Some(RowsDefect::NoRows),
        answer_rows(body) matches Some(rows) ==> {
            &&& rows.len() == 0 ==> rows_defect(body, expected) == Some(RowsDefect::Nothing)
            &&& rows.len() > 0 && expected is None ==> rows_defect(body, expected).is_none()
            &&& rows.len() > 0 && expected is Some && spans_of_rows(rows) <= u64::MAX ==> (
            rows_defect(body, expected).is_none() <==> spans_of_rows(rows) == expected->0)
            &&& rows_defect(body, expected) matches Some(RowsDefect::Wrong { total, expected: e })
                ==> Some(e) == expected && total != e
        },
{
    if let Some(rows) = answer_rows(body) {
        lemma_rows_total(rows, rows.len() as int);
        assert(rows.take(rows.len() as int) =~= rows);
    }
}

/// A corpus lasts from its first start to its last, a millisecond a span.
pub proof fn law_how_long_a_corpus_lasts(span_count: nat)
    ensures
        corpus_ns(0) == 0 && corpus_ns(1) == 0,
        span_count > 0 ==> corpus_ns(span_count + 1) == corpus_ns(span_count) + 1_000_000,
{
}

/// What is measured: grouped by model over everything, a tenth and a hundredth,
/// grouped by session, and the list of sessions. The whole corpus is expected
/// where nothing bounds the time.
pub proof fn law_what_is_measured(span_count: usize, total: nat, tenth: nat, hundredth: nat)
    ensures
        ({
            let all = measured_queries(span_count, total, tenth, hundredth);
            let by_model = "/v1/stats/llm?group_by=model"@;
            &&& all.len() == 5
            &&& all[0].path == by_model
            &&& all[1].path == by_model + window_of(total, tenth)
            &&& all[2].path == by_model + window_of(total, hundredth)
            &&& all[3].path == "/v1/stats/llm?group_by=session"@
            &&& all[4].path == "/v1/sessions?limit=50"@
            &&& all[0].expected_spans == Some(span_count as u64)
            &&& all[3].expected_spans == Some(span_count as u64)
            &&& all[1].expected_spans.is_none() && all[2].expected_spans.is_none()
                && all[4].expected_spans.is_none()
        }),
        window_of(total, total) == "&since_ns="@ + dec(1_700_000_000_000_000_000) + "&until_ns="@
            + dec(1_700_000_000_000_000_000 + total),
{
}

/// A batch is a thousand spans at most, each `clients` behind the last, all of the
/// corpus, and as many as there are: a shorter batch is the last.
pub proof fn law_batches(index: int, clients: int, span_count: int, k: int)
    requires
        0 <= index,
        0 < clients,
        span_count + clients <= usize::MAX,
    ensures
        ({
            let batch = batch_of(index, clients, span_count);
            &&& batch.len() <= 1_000
            &&& index < span_count <==> batch.len() > 0
            &&& 0 <= k < batch.len() ==> batch[k] == index + k * clients && batch[k] < span_count
            &&& 0 < batch.len() < 1_000 ==> index + batch.len() * clients >= span_count
        }),
{
    if index < span_count {
        let left = (span_count - index - 1) / clients + 1;
        let n = batch_length(index, clients, span_count);
        vstd::arithmetic::div_mod::lemma_fundamental_div_mod(span_count - index - 1, clients);
        vstd::arithmetic::div_mod::lemma_mod_bound(span_count - index - 1, clients);
        vstd::arithmetic::div_mod::lemma_div_pos_is_pos(span_count - index - 1, clients);
        assert(clients * (left - 1) <= span_count - index - 1);
        assert(clients * left > span_count - index - 1) by (nonlinear_arith)
            requires
                span_count - index - 1 == clients * (left - 1) + (span_count - index - 1) % clients,
                (span_count - index - 1) % clients < clients,
        ;
        assert(left * clients == clients * left) by (nonlinear_arith);
        if 0 <= k < n {
            assert(k * clients <= (left - 1) * clients) by (nonlinear_arith)
                requires
                    0 <= k <= left - 1,
                    0 < clients,
            ;
            assert((left - 1) * clients == clients * (left - 1)) by (nonlinear_arith);
            assert(k * clients >= 0) by (nonlinear_arith)
                requires
                    0 <= k,
                    0 < clients,
            ;
        }
    }
}

/// What is left of a text without a character is the rest of it in its order.
pub proof fn law_what_is_left_out(s: Seq<char>, c: char)
    ensures
        without_char(s, c) == s.filter(|d: char| d != c),
    decreases s.len(),
{
    reveal(Seq::filter);
    if s.len() > 0 {
        law_what_is_left_out(s.drop_last(), c);
    }
}

/// A row shows what was measured of its query, and rows stand in order.
pub proof fn law_measured_rows(results: Seq<Measured>, m: Measured)
    ensures
        result_rows(results.push(m)) == result_rows(results) + ("| "@ + m.label@ + " | "@ + m.cold@
            + " ms | "@ + m.warm_p50@ + " ms | "@ + m.warm_p95@ + " ms | "@ + m.ratio@ + "x |\n"@),
        result_rows(seq![]) == Seq::<char>::empty(),
        path_rows(results.push(m)) == path_rows(results) + ("- `"@ + without_char(m.path@, '`')
            + "` \u{2014} "@ + m.note@ + "\n"@),
        path_rows(seq![]) == Seq::<char>::empty(),
{
    let more = results.push(m);
    assert(more.drop_last() =~= results);
    assert(more.last() == m);
}

} // verus!
