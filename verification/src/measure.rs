//! What a benchmark decides about its own numbers: percentiles, whether a run
//! may be published, and when a store has come to rest.

use vstd::prelude::*;

use crate::args::{default_compaction, CompactionConfig};
use crate::corpus::{hex_padded, padded_hex};
use crate::json::{json_document, read_json, Json, JsonView};
use crate::queries::{read_usize, usize_of};
use crate::sort::{law_sorted_is_in_order, law_sorted_keeps_the_items, sort, sorted, Ranked};
use crate::text::{
    chars_of, copy, debug_text, dec, decimal, digit_char, is_digit, opt_view, quoted, same,
    split_words, texts, words,
};

verus! {

// ------------------------------------------------------------------ percentiles

/// The place of a percentile among `n` sorted values, by nearest rank: the
/// first place that at least `percent` of every hundred values are at or
/// before.
pub open spec fn rank_place(n: nat, percent: nat) -> int
    recommends
        n > 0,
{
    let rank = (percent * n + 99) / 100;
    if rank == 0 {
        0
    } else if rank > n {
        n - 1
    } else {
        rank - 1
    }
}

/// The nearest-rank percentile of the values.
pub open spec fn nearest_rank(values: Seq<u64>, percent: nat) -> u64 {
    sorted(values)[rank_place(values.len(), percent)]
}

/// The nearest-rank percentile of the values.
pub fn percentile(values: &Vec<u64>, percent: u32) -> (r: u64)
    requires
        values@.len() > 0,
    ensures
        r == nearest_rank(values@, percent as nat),
{
    let n = values.len();
    let mut items: Vec<u64> = Vec::new();
    let mut i: usize = 0;
    while i < n
        invariant
            n == values@.len(),
            i <= n,
            items@ == values@.take(i as int),
        decreases n - i,
    {
        items.push(values[i]);
        i += 1;
        assert(values@.take(i as int) =~= values@.take(i - 1).push(values@[i - 1]));
    }
    assert(values@.take(n as int) =~= values@);
    let items = sort(items);
    proof {
        law_sorted_keeps_the_items(values@);
        values@.to_multiset_ensures();
        sorted(values@).to_multiset_ensures();
        assert(items@.len() == n);
    }
    assert(percent * n <= u32::MAX * u64::MAX) by (nonlinear_arith)
        requires
            percent <= u32::MAX,
            n <= u64::MAX,
    ;
    let rank: u128 = (percent as u128 * n as u128 + 99) / 100;
    let place: usize = if rank == 0 {
        0
    } else if rank > n as u128 {
        n - 1
    } else {
        (rank - 1) as usize
    };
    items[place]
}

/// A percentile is one of the measurements.
pub proof fn law_a_percentile_was_measured(values: Seq<u64>, percent: nat)
    requires
        values.len() > 0,
    ensures
        values.contains(nearest_rank(values, percent)),
{
    law_sorted_keeps_the_items(values);
    values.to_multiset_ensures();
    sorted(values).to_multiset_ensures();
    let place = rank_place(values.len(), percent);
    assert(0 <= place < values.len());
    assert(sorted(values).contains(sorted(values)[place]));
    assert(sorted(values).to_multiset().count(sorted(values)[place]) > 0);
}

/// A higher percentile is never a lower value.
pub proof fn law_percentiles_ascend(values: Seq<u64>, lower: nat, higher: nat)
    requires
        values.len() > 0,
        lower <= higher,
    ensures
        nearest_rank(values, lower) <= nearest_rank(values, higher),
{
    law_sorted_is_in_order(values);
    law_sorted_keeps_the_items(values);
    values.to_multiset_ensures();
    sorted(values).to_multiset_ensures();
    let n = values.len();
    assert(lower * n <= higher * n) by (nonlinear_arith)
        requires
            lower <= higher,
    ;
    let (p, q) = (rank_place(n, lower), rank_place(n, higher));
    assert(0 <= p <= q < n);
    if p < q {
        assert(sorted(values)[p].ranks(&sorted(values)[q]));
    }
}

/// At least `percent` of every hundred measurements are at or below the
/// percentile.
pub proof fn law_a_percentile_covers_its_share(values: Seq<u64>, percent: nat)
    requires
        values.len() > 0,
        percent <= 100,
    ensures
        ({
            let place = rank_place(values.len(), percent);
            &&& percent * values.len() <= 100 * (place + 1)
            &&& forall|i: int|
                0 <= i <= place ==> #[trigger] sorted(values)[i] <= nearest_rank(values, percent)
        }),
{
    law_sorted_is_in_order(values);
    law_sorted_keeps_the_items(values);
    values.to_multiset_ensures();
    sorted(values).to_multiset_ensures();
    let n = values.len();
    let place = rank_place(n, percent);
    assert(percent * n <= 100 * n) by (nonlinear_arith)
        requires
            percent <= 100,
    ;
    assert forall|i: int| 0 <= i <= place implies #[trigger] sorted(values)[i] <= nearest_rank(
        values,
        percent,
    ) by {
        if i < place {
            assert(sorted(values)[i].ranks(&sorted(values)[place]));
        }
    }
}

// -------------------------------------------------------------------- settings

/// The number of spans of the published record.
pub const CANONICAL_SPANS: usize = 1_000_000;

/// The compaction fan-out of the published record.
pub const CANONICAL_FANOUT: &'static str = "4";

/// The number of clients of the published query record.
pub const CANONICAL_CLIENTS: usize = 8;

/// Spans in one ingest request.
pub const BATCH_SIZE: usize = 1_000;

/// The text of the default segment ceiling.
pub open spec fn default_ceiling() -> Seq<char> {
    dec(default_compaction().max_segment_bytes as nat)
}

/// Writes the default segment ceiling.
pub fn default_max_segment_bytes() -> (r: String)
    ensures
        r@ == default_ceiling(),
{
    let config = CompactionConfig::default();
    decimal(config.max_segment_bytes)
}

/// The corpus size that a setting asks for. A setting that is no number is
/// refused: falling back would run the canonical corpus, and rewrite the
/// record, under a configuration that was meant to change it.
pub fn span_count(setting: Option<&str>) -> (r: Result<usize, String>)
    ensures
        match setting {
            Some(value) => match usize_of(value@) {
                Some(n) => r == Ok::<usize, String>(n),
                None => r is Err && r->Err_0@ == "TRAZA_BENCH_SPANS is set to "@ + debug_text(
                    value@,
                ) + ", which is not a span count"@,
            },
            None => r == Ok::<usize, String>(CANONICAL_SPANS),
        },
{
    match setting {
        Some(value) => match read_usize(value) {
            Some(n) => Ok(n),
            None => {
                let mut message = copy("TRAZA_BENCH_SPANS is set to ");
                let given = quoted(value);
                message.push_str(given.as_str());
                message.push_str(", which is not a span count");
                Err(message)
            },
        },
        None => Ok(CANONICAL_SPANS),
    }
}

/// What a setting says, where it says a number above zero.
pub open spec fn setting_of(setting: Option<Seq<char>>, default: usize) -> usize {
    match setting {
        Some(value) => match usize_of(value) {
            Some(n) => if n > 0 {
                n
            } else {
                default
            },
            None => default,
        },
        None => default,
    }
}

/// A number above zero from a setting, else the default.
pub fn positive_setting(setting: Option<&str>, default: usize) -> (r: usize)
    ensures
        r == setting_of(
            match setting {
                Some(value) => Some(value@),
                None => None,
            },
            default,
        ),
{
    match setting {
        Some(value) => match read_usize(value) {
            Some(n) => if n > 0 {
                n
            } else {
                default
            },
            None => default,
        },
        None => default,
    }
}

/// The configuration that the published record is defined on.
pub open spec fn is_canonical(span_count: usize, fanout: Seq<char>, ceiling: Seq<char>) -> bool {
    span_count == CANONICAL_SPANS && fanout == CANONICAL_FANOUT@ && ceiling == default_ceiling()
}

/// Whether a run has the configuration that the published record is defined
/// on: the canonical corpus at the default compaction settings.
pub fn canonical_configuration(span_count: usize, fanout: &str, ceiling: &str) -> (r: bool)
    ensures
        r == is_canonical(span_count, fanout@, ceiling@),
{
    let default = default_max_segment_bytes();
    span_count == CANONICAL_SPANS && same(fanout, CANONICAL_FANOUT) && same(
        ceiling,
        default.as_str(),
    )
}

/// The same for the query record, which also fixes the number of clients.
pub fn canonical_query_run(span_count: usize, clients: usize, fanout: &str, ceiling: &str) -> (r:
    bool)
    ensures
        r == (is_canonical(span_count, fanout@, ceiling@) && clients == CANONICAL_CLIENTS),
{
    canonical_configuration(span_count, fanout, ceiling) && clients == CANONICAL_CLIENTS
}

// ----------------------------------------------------------------------- gates

/// The median trace lookup, in nanoseconds, past which a canonical run fails.
pub const GATE_TRACE_P50_NS: u64 = 750_000;

/// The median filtered search, in nanoseconds, past which a canonical run
/// fails.
pub const GATE_FILTER_P50_NS: u64 = 6_000_000;

/// What becomes of a run's record.
#[derive(Clone, Copy, Debug, PartialEq, Eq, Structural)]
pub enum Publication {
    /// The record is written.
    Written,
    /// An experiment: its numbers are printed, the record stands.
    Experiment,
    /// A canonical run past a tripwire: nothing is written.
    Refused { trace: bool, filter: bool },
}

/// What becomes of a run's record.
pub open spec fn publication_of(canonical: bool, trace_p50_ns: u64, filter_p50_ns: u64) -> Publication {
    if !canonical {
        Publication::Experiment
    } else if trace_p50_ns > GATE_TRACE_P50_NS || filter_p50_ns > GATE_FILTER_P50_NS {
        Publication::Refused {
            trace: trace_p50_ns > GATE_TRACE_P50_NS,
            filter: filter_p50_ns > GATE_FILTER_P50_NS,
        }
    } else {
        Publication::Written
    }
}

/// Decides whether a run may be published.
pub fn publication(canonical: bool, trace_p50_ns: u64, filter_p50_ns: u64) -> (r: Publication)
    ensures
        r == publication_of(canonical, trace_p50_ns, filter_p50_ns),
{
    if !canonical {
        return Publication::Experiment;
    }
    let trace = trace_p50_ns > GATE_TRACE_P50_NS;
    let filter = filter_p50_ns > GATE_FILTER_P50_NS;
    if trace || filter {
        Publication::Refused { trace, filter }
    } else {
        Publication::Written
    }
}

/// A record is written only by a canonical run that passed both gates.
pub proof fn law_a_record_passed_the_gates(canonical: bool, trace_p50_ns: u64, filter_p50_ns: u64)
    ensures
        publication_of(canonical, trace_p50_ns, filter_p50_ns) == Publication::Written <==> canonical
            && trace_p50_ns <= GATE_TRACE_P50_NS && filter_p50_ns <= GATE_FILTER_P50_NS,
{
}

/// The word for a target that was met or missed.
pub fn pass(value: bool) -> (r: &'static str)
    ensures
        r@ == if value {
            "PASS"@
        } else {
            "MISS"@
        },
{
    if value {
        "PASS"
    } else {
        "MISS"
    }
}

// --------------------------------------------------------------------- samples

/// The trace that a lookup sample asks for.
pub open spec fn sampled_trace(sample: nat, span_count: nat) -> nat {
    (sample * 499 + 17) % (span_count / 10)
}

/// The path of a lookup sample.
pub fn trace_path(sample: usize, span_count: usize) -> (r: String)
    requires
        span_count >= 10,
        sample * 499 + 17 <= usize::MAX,
    ensures
        r@ == "/v1/traces/"@ + padded_hex(sampled_trace(sample as nat, span_count as nat), 32),
{
    let number: usize = (sample * 499 + 17) % (span_count / 10);
    let mut r = copy("/v1/traces/");
    let id = hex_padded(number as u64, 32);
    r.push_str(id.as_str());
    r
}

/// The path of a filter sample.
pub fn filter_path(group: usize, limit: usize) -> (r: String)
    ensures
        r@ == "/v1/spans?attr.benchmark.group=group-"@ + dec(group as nat) + "&limit="@ + dec(
            limit as nat,
        ),
{
    let mut r = copy("/v1/spans?attr.benchmark.group=group-");
    let group = decimal(group as u64);
    r.push_str(group.as_str());
    r.push_str("&limit=");
    let limit = decimal(limit as u64);
    r.push_str(limit.as_str());
    r
}

/// How many spans an answer carries.
pub open spec fn answered_spans(document: JsonView) -> nat {
    match document.field("spans"@) {
        Some(JsonView::Array(spans)) => spans.len(),
        _ => 0,
    }
}

/// What is wrong with the answer to a trace lookup.
pub open spec fn trace_fault(document: Result<JsonView, Seq<char>>) -> Option<Seq<char>> {
    match document {
        Ok(document) => if answered_spans(document) == 10 {
            None
        } else {
            Some("trace query returned "@ + dec(answered_spans(document)) + " spans, expected 10"@)
        },
        Err(message) => Some(message),
    }
}

/// Checks the answer to a trace lookup: every trace of the corpus has ten
/// spans.
pub fn verify_trace_response(body: &[u8]) -> (r: Result<(), String>)
    ensures
        match r {
            Ok(_) => trace_fault(json_document(body@)).is_none(),
            Err(message) => trace_fault(json_document(body@)) == Some(message@),
        },
{
    let document = match read_json(body) {
        Ok(document) => document,
        Err(message) => {
            return Err(message);
        },
    };
    let count: usize = match document.get("spans") {
        Some(Json::Array(spans)) => spans.len(),
        _ => 0,
    };
    assert(count == answered_spans(document@));
    if count == 10 {
        return Ok(());
    }
    let mut message = copy("trace query returned ");
    let digits = decimal(count as u64);
    message.push_str(digits.as_str());
    message.push_str(" spans, expected 10");
    Err(message)
}

// -------------------------------------------------------------------- the host

/// The first word of a text.
pub open spec fn first_word_of(s: Seq<char>) -> Option<Seq<char>> {
    if words(s).len() > 0 {
        Some(words(s)[0])
    } else {
        None
    }
}

/// The first word of a text, such as the load average of the last minute in
/// the kernel's list of averages.
pub fn first_word(text: &str) -> (r: Option<String>)
    ensures
        opt_view(r) == first_word_of(text@),
{
    let parts = split_words(text);
    assert(texts(parts@).len() == parts@.len());
    if parts.len() == 0 {
        return None;
    }
    assert(texts(parts@)[0] == parts@[0]@);
    Some(copy(parts[0].as_str()))
}

/// What a measurement was taken on.
pub fn machine_context(os: &str, arch: &str, threads: usize) -> (r: String)
    ensures
        r@ == os@ + "/"@ + arch@ + ", "@ + dec(threads as nat) + " available hardware threads"@,
{
    let mut r = copy(os);
    r.push_str("/");
    r.push_str(arch);
    r.push_str(", ");
    let digits = decimal(threads as u64);
    r.push_str(digits.as_str());
    r.push_str(" available hardware threads");
    r
}

/// What a measurement was taken on, with the name of its processor.
pub fn machine(os: &str, arch: &str, threads: usize, model: &str) -> (r: String)
    ensures
        r@ == os@ + "/"@ + arch@ + ", "@ + dec(threads as nat) + " hardware threads, "@ + model@,
{
    let mut r = copy(os);
    r.push_str("/");
    r.push_str(arch);
    r.push_str(", ");
    let digits = decimal(threads as u64);
    r.push_str(digits.as_str());
    r.push_str(" hardware threads, ");
    r.push_str(model);
    r
}

/// The first word from `i` on that begins with a digit.
pub open spec fn numeric_from(parts: Seq<Seq<char>>, i: int) -> Option<Seq<char>>
    decreases parts.len() - i,
{
    if i < 0 || i >= parts.len() {
        None
    } else if parts[i].len() > 0 && is_digit(parts[i][0]) {
        Some(parts[i])
    } else {
        numeric_from(parts, i + 1)
    }
}

/// The first word of a text that begins with a digit.
pub fn first_number(text: &str) -> (r: Option<String>)
    ensures
        opt_view(r) == numeric_from(words(text@), 0),
{
    let parts = split_words(text);
    let ghost views = words(text@);
    let mut i: usize = 0;
    while i < parts.len()
        invariant
            i <= parts@.len(),
            views == texts(parts@),
            views == words(text@),
            numeric_from(views, i as int) == numeric_from(views, 0),
        decreases parts@.len() - i,
    {
        assert(views[i as int] == parts@[i as int]@);
        let chars = chars_of(parts[i].as_str());
        if chars.len() > 0 && digit_char(chars[0]) {
            return Some(copy(parts[i].as_str()));
        }
        i += 1;
    }
    None
}

// ------------------------------------------------------------------ quiescence

/// What a store looked like: its segments, and the merges it has counted.
#[derive(Clone, Copy, Debug, PartialEq, Eq, Structural)]
pub struct Shape {
    pub segments: u64,
    pub merges: u64,
}

/// How long, in milliseconds, a store must not move to be at rest: longer than
/// the server's compaction tick.
pub const QUIET_MS: u64 = 13_000;

/// How long, in milliseconds, to wait for a store to come to rest.
pub const SETTLE_DEADLINE_MS: u64 = 600_000;

/// Watches a store come to rest.
#[derive(Clone, Copy, Debug, PartialEq, Eq, Structural)]
pub struct Settling {
    pub last: Shape,
    /// When the store was first seen in this shape, in milliseconds since the
    /// watch began.
    pub quiet_since_ms: u64,
}

/// What an observation means.
#[derive(Clone, Copy, Debug, PartialEq, Eq, Structural)]
pub enum Settled {
    /// At rest, with this many segments.
    At { segments: u64 },
    /// Look again.
    NotYet,
    /// It never came to rest.
    Never,
}

impl Settling {
    /// Starts watching.
    pub fn new(shape: Shape) -> (r: Settling)
        ensures
            r == (Settling { last: shape, quiet_since_ms: 0 }),
    {
        Settling { last: shape, quiet_since_ms: 0 }
    }

    /// Looks at the store, `now_ms` milliseconds into the watch: it is at rest
    /// once neither its segments nor its merges have moved for long enough.
    pub fn observe(&mut self, shape: Shape, now_ms: u64) -> (r: Settled)
        requires
            old(self).quiet_since_ms <= now_ms,
        ensures
            *final(self) == if shape == old(self).last {
                *old(self)
            } else {
                Settling { last: shape, quiet_since_ms: now_ms }
            },
            r == if shape == old(self).last && now_ms - old(self).quiet_since_ms >= QUIET_MS {
                Settled::At { segments: shape.segments }
            } else if now_ms >= SETTLE_DEADLINE_MS {
                Settled::Never
            } else {
                Settled::NotYet
            },
            *final(self) == watched(*old(self), seq![(shape, now_ms)]),
            final(self).quiet_since_ms <= now_ms,
    {
        proof {
            let seen = seq![(shape, now_ms)];
            assert(seen.drop_last() =~= Seq::<(Shape, u64)>::empty());
            reveal_with_fuel(watched, 2);
        }
        if shape == self.last {
            if now_ms - self.quiet_since_ms >= QUIET_MS {
                return Settled::At { segments: shape.segments };
            }
        } else {
            self.quiet_since_ms = now_ms;
            self.last = shape;
        }
        if now_ms >= SETTLE_DEADLINE_MS {
            Settled::Never
        } else {
            Settled::NotYet
        }
    }
}

/// The watch after some observations, each a shape and its time.
pub open spec fn watched(from: Settling, seen: Seq<(Shape, u64)>) -> Settling
    decreases seen.len(),
{
    if seen.len() == 0 {
        from
    } else {
        let before = watched(from, seen.drop_last());
        let (shape, now_ms) = seen.last();
        if shape == before.last {
            before
        } else {
            Settling { last: shape, quiet_since_ms: now_ms }
        }
    }
}

/// Observations in the order of their times.
pub open spec fn in_sequence(from: Settling, seen: Seq<(Shape, u64)>) -> bool {
    forall|i: int, j: int|
        #![trigger seen[i], seen[j]]
        0 <= i <= j < seen.len() ==> from.quiet_since_ms <= seen[i].1 <= seen[j].1
}

/// Every observation since the quiet time began showed the same segments and
/// the same count of merges.
pub proof fn law_rest_is_not_a_pause(from: Settling, seen: Seq<(Shape, u64)>)
    requires
        in_sequence(from, seen),
    ensures
        ({
            let after = watched(from, seen);
            forall|i: int|
                0 <= i < seen.len() && after.quiet_since_ms < (#[trigger] seen[i]).1 ==> seen[i].0
                    == after.last
        }),
        seen.len() > 0 ==> watched(from, seen).quiet_since_ms <= seen.last().1,
    decreases seen.len(),
{
    if seen.len() > 0 {
        let front = seen.drop_last();
        assert forall|i: int, j: int|
            #![trigger front[i], front[j]]
            0 <= i <= j < front.len() implies from.quiet_since_ms <= front[i].1 <= front[j].1 by {
            assert(front[i] == seen[i] && front[j] == seen[j]);
        }
        law_rest_is_not_a_pause(from, front);
        let after = watched(from, seen);
        let before = watched(from, front);
        assert(seen[seen.len() - 1] == seen.last());
        assert forall|i: int|
            0 <= i < seen.len() && after.quiet_since_ms < (#[trigger] seen[i]).1 implies seen[i].0
            == after.last by {
            if i < front.len() {
                assert(front[i] == seen[i]);
                assert(seen[i].1 <= seen[seen.len() - 1].1);
            }
        }
        if front.len() > 0 {
            assert(front.last() == seen[seen.len() - 2]);
            assert(seen[seen.len() - 2].1 <= seen[seen.len() - 1].1);
        } else {
            assert(before == from);
            assert(from.quiet_since_ms <= seen[0].1);
        }
    }
}

/// The place of a percentile is the first that covers its share.
pub proof fn law_no_lower_place_would_do(n: nat, percent: nat)
    requires
        n > 0,
        percent <= 100,
    ensures
        0 <= rank_place(n, percent) < n,
        100 * rank_place(n, percent) < percent * n || rank_place(n, percent) == 0,
        percent * n <= 100 * (rank_place(n, percent) + 1),
        rank_place(n, 100) == n - 1,
{
    assert(percent * n <= 100 * n) by (nonlinear_arith)
        requires
            percent <= 100,
    ;
}

/// A setting counts when it is a positive number; else the default does.
pub proof fn law_settings(value: Seq<char>, default: usize)
    ensures
        setting_of(None, default) == default,
        usize_of(value).is_none() || usize_of(value) == Some(0usize) ==> setting_of(
            Some(value),
            default,
        ) == default,
        usize_of(value) is Some && usize_of(value)->0 != 0 ==> setting_of(Some(value), default)
            == usize_of(value)->0,
{
}

/// A run is the canonical one at a million spans, a fanout of four and a ceiling
/// of 256 MiB, and at no other.
pub proof fn law_the_canonical_run(span_count: usize, fanout: Seq<char>, ceiling: Seq<char>)
    ensures
        is_canonical(span_count, fanout, ceiling) <==> span_count == 1_000_000 && fanout == "4"@
            && ceiling == dec(268_435_456),
        CANONICAL_CLIENTS == 8,
{
}

/// A record is written within 750 microseconds and 6 milliseconds; what is over is named.
pub proof fn law_what_a_miss_names(trace_p50_ns: u64, filter_p50_ns: u64)
    ensures
        publication_of(false, trace_p50_ns, filter_p50_ns) is Experiment,
        publication_of(true, trace_p50_ns, filter_p50_ns) is Written <==> trace_p50_ns <= 750_000
            && filter_p50_ns <= 6_000_000,
        publication_of(true, trace_p50_ns, filter_p50_ns) matches Publication::Refused {
            trace,
            filter,
        } ==> trace == (trace_p50_ns > 750_000) && filter == (filter_p50_ns > 6_000_000),
        !(publication_of(true, trace_p50_ns, filter_p50_ns) is Experiment),
{
}

/// Samples stay among the traces there are, and step through them by 499 from the
/// eighteenth.
pub proof fn law_sampling(sample: nat, span_count: nat)
    requires
        span_count >= 10,
    ensures
        sampled_trace(sample, span_count) < span_count / 10,
        sampled_trace(0, span_count) == 17nat % (span_count / 10),
        sampled_trace(sample + 1, span_count) == (sampled_trace(sample, span_count) + 499) % (
        span_count / 10),
{
    let m = (span_count / 10) as int;
    let x = (sample * 499 + 17) as int;
    vstd::arithmetic::div_mod::lemma_add_mod_noop(x, 499, m);
    vstd::arithmetic::div_mod::lemma_add_mod_noop(x % m, 499, m);
    vstd::arithmetic::div_mod::lemma_mod_twice(x, m);
    vstd::arithmetic::div_mod::lemma_mod_bound(x, m);
    assert((sample + 1) * 499 + 17 == x + 499);
}

/// A trace answer passes when it is a document that lists ten spans.
pub proof fn law_which_traces_pass(document: JsonView, message: Seq<char>)
    ensures
        trace_fault(Ok(document)).is_none() <==> document.field("spans"@) is Some
            && document.field("spans"@)->0 is Array && document.field(
            "spans"@,
        )->0->Array_0.len() == 10,
        trace_fault(Err(message)) == Some(message),
{
}

/// The first number is the first word that begins with a digit.
pub proof fn law_the_first_number(parts: Seq<Seq<char>>, i: int)
    requires
        0 <= i <= parts.len(),
    ensures
        numeric_from(parts, i) is None <==> forall|j: int|
            i <= j < parts.len() ==> !((#[trigger] parts[j]).len() > 0 && '0' <= parts[j][0]
                && parts[j][0] <= '9'),
        numeric_from(parts, i) matches Some(word) ==> exists|k: int|
            {
                &&& i <= k < parts.len()
                &&& #[trigger] parts[k] == word
                &&& word.len() > 0 && '0' <= word[0] && word[0] <= '9'
                &&& forall|j: int|
                    i <= j < k ==> !((#[trigger] parts[j]).len() > 0 && '0' <= parts[j][0]
                        && parts[j][0] <= '9')
            },
    decreases parts.len() - i,
{
    if i < parts.len() {
        law_the_first_number(parts, i + 1);
        if parts[i].len() > 0 && is_digit(parts[i][0]) {
            assert(parts[i] == numeric_from(parts, i)->0);
        } else if numeric_from(parts, i + 1) is Some {
            let word = numeric_from(parts, i + 1)->0;
            let k = choose|k: int|
                {
                    &&& i + 1 <= k < parts.len()
                    &&& #[trigger] parts[k] == word
                    &&& word.len() > 0 && '0' <= word[0] && word[0] <= '9'
                    &&& forall|j: int|
                        i + 1 <= j < k ==> !((#[trigger] parts[j]).len() > 0 && '0'
                            <= parts[j][0] && parts[j][0] <= '9')
                };
            assert(parts[k] == word);
        }
    }
}

/// What is watched is the shape seen last, and the moment it was first seen.
pub proof fn law_what_is_watched(from: Settling, seen: Seq<(Shape, u64)>)
    requires
        seen.len() > 0,
    ensures
        watched(from, seen).last == seen.last().0,
        watched(from, seen.drop_last()).last == seen.last().0 ==> watched(from, seen) == watched(
            from,
            seen.drop_last(),
        ),
        watched(from, seen.drop_last()).last != seen.last().0 ==> watched(
            from,
            seen,
        ).quiet_since_ms == seen.last().1,
{
}

} // verus!
