//! The record that the canonical benchmark writes.

use vstd::prelude::*;

use crate::measure::{pass, BATCH_SIZE, CANONICAL_SPANS};
use crate::text::{copy, dec, decimal};

verus! {

/// The latency below which the 95th percentile of trace lookups is to stay.
pub const TRACE_TARGET_NS: u64 = 50_000_000;

/// The latency below which the 95th percentile of filtered searches is to stay.
pub const FILTER_TARGET_NS: u64 = 300_000_000;

/// How one kind of query did; latencies in milliseconds are texts.
#[derive(Debug)]
pub struct Percentiles {
    pub p50: String,
    pub p95: String,
    pub p99: String,
    pub p95_ns: u64,
    pub samples: usize,
}

/// What a canonical run measured.
#[derive(Debug)]
pub struct CanonicalRun {
    pub fanout: String,
    pub ceiling: String,
    /// Spans per second.
    pub rate: String,
    /// Whether the rate met its target.
    pub rate_met: bool,
    pub trace: Percentiles,
    pub filter: Percentiles,
    /// How many spans a filtered search asks for.
    pub limit: usize,
    pub measured_at: u64,
    pub context: String,
    pub load: String,
    pub stats: String,
    /// The tripwires, in milliseconds.
    pub trace_gate: String,
    pub filter_gate: String,
}

pub open spec fn trace_met(f: CanonicalRun) -> bool {
    f.trace.p95_ns < TRACE_TARGET_NS
}

pub open spec fn filter_met(f: CanonicalRun) -> bool {
    f.filter.p95_ns < FILTER_TARGET_NS
}

/// The word for a target that was met or missed.
pub open spec fn verdict_of(met: bool) -> Seq<char> {
    if met {
        "PASS"@
    } else {
        "MISS"@
    }
}

pub const RECORD_HEAD: &'static str =
    "# Traza Benchmarks\n\nThese values were measured by `cargo run --release --bin bench`; they are not estimates. The benchmark builds and starts `target/release/traza-server` on a free loopback port with a fresh temporary data directory.\n\n## Results\n\n| Metric | Measured | Target | Result |\n|---|---:|---:|---|\n";

pub const CORPUS_WORDS: &'static str =
    " spans, 100,000 traces with 10 spans each, 20 services, 100 indexed `benchmark.group` attribute values, and occasional events.\n- Ingest: HTTP `POST /v1/spans`, ";

pub const INGEST_WORDS: &'static str =
    " spans per request, timed from the first request through the final successful response. JSON generation is intentionally inside the timed loop, so the reported rate includes client serialization and loopback HTTP overhead.\n- Trace sampling: ";

pub const TRACE_WORDS: &'static str =
    " deterministic trace IDs spread through the corpus; each response is parsed and checked for 10 spans.\n- Filter sampling: ";

pub const FILTER_WORDS: &'static str =
    "`; each response is verified against the corpus construction \u{2014} exact span count, the requested group value on every span, and the exact expected span ids \u{2014} before its latency is recorded. A wrong answer aborts the run without writing this file.\n- Percentiles: nearest-rank selection over complete request wall-clock durations measured with `std::time::Instant`; no warm-up samples are discarded.\n- Build: Cargo release profile. Timestamp: Unix ";

pub const LOAD_WORDS: &'static str =
    " at the end of the run \u{2014} ambient desktop load, not an idle host (the house rule is [ingest.md's](ingest.md#load-conditions)). An idle rerun will likely improve the tails; the tripwires, not these point estimates, are the contract.\n- Final server stats: `";

pub const MISS_WORDS: &'static str =
    ". Any miss remains visible in the table rather than being substituted or estimated.\n";

pub const NOTE_WORDS: &'static str =
    "\n## Verification Notes\n\n- Corpus declaration: `1000000` spans (1,000,000 spans).\n- Every reported result is measured by this benchmark run, never estimated.\n- Unsuccessful lookups are reported as misses.\n- **This file exists only because the run passed acceptance gate 6's tripwires** ([segment format](../segment-format.md#acceptance-gates), as amended to absolute bounds): trace-lookup p50 <= ";

pub const WRITE_WORDS: &'static str =
    " ms on this canonical corpus. The benchmark asserts them after measuring and before writing; a run that misses either exits non-zero and writes nothing.\n";

/// The tables of a record.
pub open spec fn results_of(f: CanonicalRun) -> Seq<char> {
    "| Sustained batched HTTP ingest (durability=wal, compaction fanout="@
        + f.fanout@
        + ", max segment bytes="@
        + f.ceiling@
        + ") | "@
        + f.rate@
        + " spans/s | >= 50,000 spans/s | "@
        + verdict_of(f.rate_met)
        + " |\n| Trace-by-id p95 | "@
        + f.trace.p95@
        + " ms | < 50 ms | "@
        + verdict_of(trace_met(f))
        + " |\n| Attribute-filtered query p95 | "@
        + f.filter.p95@
        + " ms | < 300 ms | "@
        + verdict_of(filter_met(f))
        + " |\n\nAdditional percentiles:\n\n| Query | p50 | p95 | p99 | samples |\n|---|---:|---:|---:|---:|\n| Trace by ID | "@
        + f.trace.p50@
        + " ms | "@
        + f.trace.p95@
        + " ms | "@
        + f.trace.p99@
        + " ms | "@
        + dec(f.trace.samples as nat)
        + " |\n| Attribute filter | "@
        + f.filter.p50@
        + " ms | "@
        + f.filter.p95@
        + " ms | "@
        + f.filter.p99@
        + " ms | "@
        + dec(f.filter.samples as nat)
        + " |\n\n"@
}

/// How a record was measured.
pub open spec fn method_of(f: CanonicalRun) -> Seq<char> {
    "## Methodology\n\n- Corpus: "@
        + dec(CANONICAL_SPANS as nat)
        + CORPUS_WORDS@
        + dec(BATCH_SIZE as nat)
        + INGEST_WORDS@
        + dec(f.trace.samples as nat)
        + TRACE_WORDS@
        + dec(f.filter.samples as nat)
        + " deterministic `attr.benchmark.group` queries with `limit="@
        + dec(f.limit as nat)
        + FILTER_WORDS@
        + dec(f.measured_at as nat)
        + ".\n- Machine context: "@
        + f.context@
        + ".\n- Load conditions: 1-minute load average "@
        + f.load@
        + LOAD_WORDS@
        + f.stats@
        + "`.\n\nThe ingest threshold is "@
        + verdict_of(f.rate_met)
        + ". The trace p95 threshold is "@
        + verdict_of(trace_met(f))
        + ". The filtered-query p95 threshold is "@
        + verdict_of(filter_met(f))
        + MISS_WORDS@
}

/// What a record vouches for.
pub open spec fn notes_of(f: CanonicalRun) -> Seq<char> {
    NOTE_WORDS@
        + f.trace_gate@
        + " ms and attribute-filter p50 <= "@
        + f.filter_gate@
        + WRITE_WORDS@
}

/// The record of a canonical run.
pub open spec fn record_of(f: CanonicalRun) -> Seq<char> {
    RECORD_HEAD@ + results_of(f) + method_of(f) + notes_of(f)
}

fn push_number(out: &mut String, n: u64)
    ensures
        final(out)@ == old(out)@ + dec(n as nat),
{
    let digits = decimal(n);
    out.push_str(digits.as_str());
}

fn results(f: &CanonicalRun) -> (r: String)
    ensures
        r@ == results_of(*f),
{
    let mut r = copy("| Sustained batched HTTP ingest (durability=wal, compaction fanout=");
    r.push_str(f.fanout.as_str());
    r.push_str(", max segment bytes=");
    r.push_str(f.ceiling.as_str());
    r.push_str(") | ");
    r.push_str(f.rate.as_str());
    r.push_str(" spans/s | >= 50,000 spans/s | ");
    r.push_str(pass(f.rate_met));
    r.push_str(" |\n| Trace-by-id p95 | ");
    r.push_str(f.trace.p95.as_str());
    r.push_str(" ms | < 50 ms | ");
    r.push_str(pass(f.trace.p95_ns < TRACE_TARGET_NS));
    r.push_str(" |\n| Attribute-filtered query p95 | ");
    r.push_str(f.filter.p95.as_str());
    r.push_str(" ms | < 300 ms | ");
    r.push_str(pass(f.filter.p95_ns < FILTER_TARGET_NS));
    r.push_str(" |\n\nAdditional percentiles:\n\n| Query | p50 | p95 | p99 | samples |\n|---|---:|---:|---:|---:|\n| Trace by ID | ");
    r.push_str(f.trace.p50.as_str());
    r.push_str(" ms | ");
    r.push_str(f.trace.p95.as_str());
    r.push_str(" ms | ");
    r.push_str(f.trace.p99.as_str());
    r.push_str(" ms | ");
    push_number(&mut r, f.trace.samples as u64);
    r.push_str(" |\n| Attribute filter | ");
    r.push_str(f.filter.p50.as_str());
    r.push_str(" ms | ");
    r.push_str(f.filter.p95.as_str());
    r.push_str(" ms | ");
    r.push_str(f.filter.p99.as_str());
    r.push_str(" ms | ");
    push_number(&mut r, f.filter.samples as u64);
    r.push_str(" |\n\n");
    r
}

fn method(f: &CanonicalRun) -> (r: String)
    ensures
        r@ == method_of(*f),
{
    let mut r = copy("## Methodology\n\n- Corpus: ");
    push_number(&mut r, CANONICAL_SPANS as u64);
    r.push_str(CORPUS_WORDS);
    push_number(&mut r, BATCH_SIZE as u64);
    r.push_str(INGEST_WORDS);
    push_number(&mut r, f.trace.samples as u64);
    r.push_str(TRACE_WORDS);
    push_number(&mut r, f.filter.samples as u64);
    r.push_str(" deterministic `attr.benchmark.group` queries with `limit=");
    push_number(&mut r, f.limit as u64);
    r.push_str(FILTER_WORDS);
    push_number(&mut r, f.measured_at as u64);
    r.push_str(".\n- Machine context: ");
    r.push_str(f.context.as_str());
    r.push_str(".\n- Load conditions: 1-minute load average ");
    r.push_str(f.load.as_str());
    r.push_str(LOAD_WORDS);
    r.push_str(f.stats.as_str());
    r.push_str("`.\n\nThe ingest threshold is ");
    r.push_str(pass(f.rate_met));
    r.push_str(". The trace p95 threshold is ");
    r.push_str(pass(f.trace.p95_ns < TRACE_TARGET_NS));
    r.push_str(". The filtered-query p95 threshold is ");
    r.push_str(pass(f.filter.p95_ns < FILTER_TARGET_NS));
    r.push_str(MISS_WORDS);
    r
}

fn notes(f: &CanonicalRun) -> (r: String)
    ensures
        r@ == notes_of(*f),
{
    let mut r = copy(NOTE_WORDS);
    r.push_str(f.trace_gate.as_str());
    r.push_str(" ms and attribute-filter p50 <= ");
    r.push_str(f.filter_gate.as_str());
    r.push_str(WRITE_WORDS);
    r
}

/// Writes the record of a canonical run.
pub fn record(f: &CanonicalRun) -> (r: String)
    ensures
        r@ == record_of(*f),
{
    let mut r = copy(RECORD_HEAD);
    let tables = results(f);
    let measured = method(f);
    let vouched = notes(f);
    r.push_str(tables.as_str());
    r.push_str(measured.as_str());
    r.push_str(vouched.as_str());
    r
}

/// A run meets its targets under 50 ms for traces and 300 ms for filters, at the
/// 95th percentile, and the record says so or says that it missed.
pub proof fn law_verdicts(f: CanonicalRun)
    ensures
        trace_met(f) <==> f.trace.p95_ns < 50_000_000,
        filter_met(f) <==> f.filter.p95_ns < 300_000_000,
        verdict_of(true) == "PASS"@ && verdict_of(false) == "MISS"@,
{
}

} // verus!
