//! Sessions: the ranked list of them, and one with its traces.

use vstd::prelude::*;

use crate::analytics::{
    all_well_formed, fold_analytics, lemma_buffer_part, lemma_segment_part, live, mask_view,
    survivors, visit_views, visited, Segment, SessionOrder, Visit, Window,
};
use crate::json::{digits_only, Json, JsonView};
use crate::ranking::{
    in_strict_order, law_a_ranking_is_determined, lists_position, rank_rows, ranks_rows, Weighed,
};
use crate::rollup::{
    counted, describes, lemma_describes_merged, lemma_describes_with, lemma_rollup_sessions,
    merge_sessions, merged_sessions, rollup_of, Amount, Counters, RollupView, SessionCounters,
    SessionView,
};
use crate::sets::{adjoin_all, capped, keys, picked, Distinct};
use crate::sort::{text_le, Ranked};
use crate::span::Span;
use crate::table::{keys_differ, table_of, Table};
use crate::text::{
    all_digits, copy, dec, decimal, digits_value, is_digit, number_to, opt_view, parse_number, same,
    strip_prefix, text_after,
};
use crate::tombstones::{Mask, MaskView};

verus! {

// ------------------------------------------------------------------- sessions

/// One session's aggregate view.
#[derive(Debug)]
pub struct SessionSummary<C> {
    /// The session identifier shared by the session's spans.
    pub session_id: String,
    /// The attribute key that grouped this session.
    pub session_attribute: String,
    /// Earliest span start in the session.
    pub first_start_ns: u64,
    /// Latest span end in the session.
    pub last_end_ns: u64,
    /// Number of distinct traces containing session spans.
    pub trace_count: usize,
    /// Total spans carrying this session id.
    pub span_count: usize,
    /// Spans recognized as LLM calls.
    pub llm_calls: usize,
    /// Summed prompt tokens.
    pub prompt_tokens: u64,
    /// Summed completion tokens.
    pub completion_tokens: u64,
    /// Summed total tokens.
    pub total_tokens: u64,
    /// Summed cost.
    pub cost: C,
    /// Spans with status `error`.
    pub error_count: usize,
}

pub struct SummaryView<C> {
    pub session_id: Seq<char>,
    pub session_attribute: Seq<char>,
    pub first_start_ns: u64,
    pub last_end_ns: u64,
    pub trace_count: nat,
    pub counters: Counters<C>,
}

/// A session's summary.
pub open spec fn summary_of<C: Amount>(id: Seq<char>, session: SessionView<C>) -> SummaryView<C> {
    SummaryView {
        session_id: id,
        session_attribute: session.reported_key(),
        first_start_ns: session.first_start_ns,
        last_end_ns: session.last_end_ns,
        trace_count: session.traces.len(),
        counters: session.counters,
    }
}

/// Whether a summary says what a view does; the time spent in calls is no part
/// of it.
pub open spec fn summarizes<C>(summary: SessionSummary<C>, view: SummaryView<C>) -> bool {
    &&& summary.session_id@ == view.session_id
    &&& summary.session_attribute@ == view.session_attribute
    &&& summary.first_start_ns == view.first_start_ns
    &&& summary.last_end_ns == view.last_end_ns
    &&& summary.trace_count == view.trace_count
    &&& summary.span_count == view.counters.spans
    &&& summary.llm_calls == view.counters.llm_calls
    &&& summary.prompt_tokens == view.counters.prompt_tokens
    &&& summary.completion_tokens == view.counters.completion_tokens
    &&& summary.total_tokens == view.counters.total_tokens
    &&& summary.cost == view.counters.cost
    &&& summary.error_count == view.counters.errors
}

/// The sessions of several rollups together.
pub open spec fn sessions_in<C: Amount>(rollups: Seq<RollupView<C>>) -> Map<
    Seq<char>,
    SessionView<C>,
>
    decreases rollups.len(),
{
    if rollups.len() == 0 {
        Map::empty()
    } else {
        merged_sessions(sessions_in(rollups.drop_last()), rollups.last().sessions)
    }
}

/// What a session is ranked by, the larger the earlier.
pub open spec fn weight_of<C: Amount>(view: SummaryView<C>, order: SessionOrder) -> int {
    match order {
        SessionOrder::Recent => view.last_end_ns as int,
        SessionOrder::Cost => view.counters.cost.weight() as int,
        SessionOrder::Errors => view.counters.errors as int,
        SessionOrder::Tokens => view.counters.total_tokens as int,
    }
}

/// The larger weight first; the session id breaks every tie.
pub open spec fn ranked_before<C: Amount>(order: SessionOrder) -> spec_fn(
    SummaryView<C>,
    SummaryView<C>,
) -> bool {
    |a: SummaryView<C>, b: SummaryView<C>|
        weight_of(a, order) > weight_of(b, order) || (weight_of(a, order) == weight_of(b, order)
            && text_le(a.session_id, b.session_id) && a.session_id != b.session_id)
}

/// Whether rows are the complete ranking of the sessions.
pub open spec fn ranks_sessions<C: Amount>(
    rows: Seq<SummaryView<C>>,
    sessions: Map<Seq<char>, SessionView<C>>,
    order: SessionOrder,
) -> bool {
    &&& forall|i: int|
        0 <= i < rows.len() ==> sessions.contains_key((#[trigger] rows[i]).session_id) && rows[i]
            == summary_of(rows[i].session_id, sessions[rows[i].session_id])
    &&& forall|id: Seq<char>| #[trigger]
        sessions.contains_key(id) ==> exists|i: int|
            0 <= i < rows.len() && (#[trigger] rows[i]).session_id == id
    &&& in_strict_order(rows, ranked_before::<C>(order))
}

fn summarize<C: Amount>(id: &str, session: &SessionCounters<C>) -> (r: SessionSummary<C>)
    ensures
        summarizes(r, summary_of(id@, session@)),
{
    SessionSummary {
        session_id: copy(id),
        session_attribute: session.attribute(),
        first_start_ns: session.first_start_ns,
        last_end_ns: session.last_end_ns,
        trace_count: session.traces.len(),
        span_count: session.counters.spans,
        llm_calls: session.counters.llm_calls,
        prompt_tokens: session.counters.prompt_tokens,
        completion_tokens: session.counters.completion_tokens,
        total_tokens: session.counters.total_tokens,
        cost: session.counters.cost,
        error_count: session.counters.errors,
    }
}

fn weigh<C: Amount>(session: &SessionCounters<C>, order: SessionOrder) -> (r: i128)
    ensures
        forall|id: Seq<char>| #[trigger] weight_of(summary_of(id, session@), order) == r,
{
    match order {
        SessionOrder::Recent => session.last_end_ns as i128,
        SessionOrder::Cost => session.counters.cost.rank() as i128,
        SessionOrder::Errors => session.counters.errors as i128,
        SessionOrder::Tokens => session.counters.total_tokens as i128,
    }
}

fn merge_all_sessions<C: Amount>(visits: &Vec<Visit<C>>) -> (r: Table<SessionCounters<C>>)
    ensures
        r@ == sessions_in(visit_views(visits@)),
{
    let ghost all = visit_views(visits@);
    let mut merged: Table<SessionCounters<C>> = Table::new();
    let mut i: usize = 0;
    assert(all.take(0) =~= seq![]);
    while i < visits.len()
        invariant
            i <= visits@.len(),
            all == visit_views(visits@),
            merged@ == sessions_in(all.take(i as int)),
        decreases visits@.len() - i,
    {
        assert(all.take(i + 1).drop_last() =~= all.take(i as int));
        assert(all.take(i + 1).last() == visits@[i as int]@);
        merge_sessions(&mut merged, &visits[i].rollup().sessions);
        i += 1;
    }
    assert(all.take(i as int) =~= all);
    merged
}

/// Lists the sessions active in the window, ranked by `order` over the whole
/// population and only then cut to `limit`.
pub fn sessions<C: Amount>(
    buffer: &[Span],
    segments: &[Segment<C>],
    window: &Window,
    mask: Option<&Mask>,
    limit: usize,
    order: SessionOrder,
) -> (r: Vec<SessionSummary<C>>)
    requires
        all_well_formed(segments@),
    ensures
        ({
            let population = sessions_in(
                visited(buffer@, segments@, 0, *window, mask_view(mask)),
            );
            exists|rows: Seq<SummaryView<C>>| #[trigger]
                ranks_sessions(rows, population, order) && r@.len() == capped(rows, Some(limit)).len()
                    && forall|i: int|
                    0 <= i < r@.len() ==> summarizes(#[trigger] r@[i], rows[i])
        }),
{
    let folded = fold_analytics(buffer, segments, window, mask);
    let merged = merge_all_sessions(&folded.visits);
    rank_sessions(&merged, limit, order)
}

/// Ranks sessions and cuts the list.
pub fn rank_sessions<C: Amount>(
    population: &Table<SessionCounters<C>>,
    limit: usize,
    order: SessionOrder,
) -> (r: Vec<SessionSummary<C>>)
    ensures
        exists|rows: Seq<SummaryView<C>>| #[trigger]
            ranks_sessions(rows, population@, order) && r@.len() == capped(rows, Some(limit)).len()
                && forall|i: int| 0 <= i < r@.len() ==> summarizes(#[trigger] r@[i], rows[i]),
{
    let list = population.entries();
    let mut rows: Vec<Weighed> = Vec::new();
    let mut i: usize = 0;
    while i < list.len()
        invariant
            i <= list@.len(),
            rows@.len() == i,
            forall|k: int| 0 <= k < i ==> weighs_session(#[trigger] rows@[k], list@[k], k, order),
        decreases list@.len() - i,
    {
        let first = weigh(&list[i].1, order);
        assert(weight_of(summary_of(list@[i as int].0@, list@[i as int].1@), order) == first);
        rows.push(Weighed { first, second: 0, key: copy(list[i].0.as_str()), at: i });
        i += 1;
    }
    let ghost weighed = rows@;
    assert forall|i: int| 0 <= i < rows@.len() implies (#[trigger] rows@[i]).at == i by {
        assert(weighs_session(rows@[i], list@[i], i, order));
    }
    let positions = rank_rows(rows);
    let ghost ranking = Seq::new(
        positions@.len(),
        |i: int| summary_of(list@[positions@[i] as int].0@, list@[positions@[i] as int].1@),
    );
    proof {
        lemma_session_ranking(list@, weighed, positions@, order);
    }
    let mut out: Vec<SessionSummary<C>> = Vec::new();
    let mut i: usize = 0;
    while i < positions.len() && i < limit
        invariant
            i <= positions@.len(),
            i <= limit,
            out@.len() == i,
            positions@.len() == list@.len(),
            forall|k: int| 0 <= k < positions@.len() ==> (#[trigger] positions@[k]) < list@.len(),
            ranking == Seq::new(
                positions@.len(),
                |i: int| summary_of(list@[positions@[i] as int].0@, list@[positions@[i] as int].1@),
            ),
            forall|k: int| 0 <= k < i ==> summarizes(#[trigger] out@[k], ranking[k]),
        decreases positions@.len() - i,
    {
        let at: usize = positions[i];
        assert(positions@[i as int] < list@.len());
        out.push(summarize(list[at].0.as_str(), &list[at].1));
        i += 1;
    }
    assert(ranks_sessions(ranking, population@, order));
    out
}

/// Whether a row weighs the session at `k`.
pub open spec fn weighs_session<C: Amount>(
    row: Weighed,
    entry: (String, SessionCounters<C>),
    k: int,
    order: SessionOrder,
) -> bool {
    &&& row.key@ == entry.0@
    &&& row.at == k
    &&& row.first == weight_of(summary_of(entry.0@, entry.1@), order)
    &&& row.second == 0
}

proof fn lemma_session_ranking<C: Amount>(
    list: Seq<(String, SessionCounters<C>)>,
    rows: Seq<Weighed>,
    positions: Seq<usize>,
    order: SessionOrder,
)
    requires
        keys_differ(list),
        rows.len() == list.len(),
        forall|k: int|
            0 <= k < list.len() ==> weighs_session(#[trigger] rows[k], list[k], k, order),
        ranks_rows(positions, rows),
    ensures
        ranks_sessions(
            Seq::new(
                positions.len(),
                |i: int| summary_of(list[positions[i] as int].0@, list[positions[i] as int].1@),
            ),
            table_of(list),
            order,
        ),
{
    let all = table_of(list);
    let ranking = Seq::new(
        positions.len(),
        |i: int| summary_of(list[positions[i] as int].0@, list[positions[i] as int].1@),
    );
    assert forall|i: int| 0 <= i < ranking.len() implies all.contains_key(
        (#[trigger] ranking[i]).session_id,
    ) && ranking[i] == summary_of(ranking[i].session_id, all[ranking[i].session_id]) by {
        assert(positions[i] < rows.len());
        crate::table::lemma_table_at(list, positions[i] as int);
    }
    assert forall|id: Seq<char>| #[trigger] all.contains_key(id) implies exists|i: int|
        0 <= i < ranking.len() && (#[trigger] ranking[i]).session_id == id by {
        let k = choose|k: int| crate::table::key_stands_at(list, id, k);
        assert(crate::table::key_stands_at(list, id, k));
        assert(lists_position(positions, k));
        let i = choose|i: int| 0 <= i < positions.len() && #[trigger] positions[i] == k;
        assert(ranking[i].session_id == id);
    }
    let before = ranked_before::<C>(order);
    assert forall|i: int, j: int|
        #![trigger ranking[i], ranking[j]]
        0 <= i < j < ranking.len() implies before(ranking[i], ranking[j]) by {
        let a = positions[i] as int;
        let b = positions[j] as int;
        assert(positions[i] < rows.len() && positions[j] < rows.len());
        assert(rows[a].ranks(&rows[b]) && a != b);
        assert(weighs_session(rows[a], list[a], a, order));
        assert(weighs_session(rows[b], list[b], b, order));
        if a < b {
            assert(list[a].0@ != list[b].0@);
        } else {
            assert(list[b].0@ != list[a].0@);
        }
    }
}

/// The ranking of a population is determined, however it was put together.
pub proof fn law_a_session_ranking_is_determined<C: Amount>(
    a: Seq<SummaryView<C>>,
    b: Seq<SummaryView<C>>,
    sessions: Map<Seq<char>, SessionView<C>>,
    order: SessionOrder,
)
    requires
        ranks_sessions(a, sessions, order),
        ranks_sessions(b, sessions, order),
    ensures
        a == b,
{
    let before = ranked_before::<C>(order);
    assert forall|x: SummaryView<C>, y: SummaryView<C>| !(#[trigger] before(x, y) && before(
        y,
        x,
    )) by {
        if before(x, y) && before(y, x) {
            crate::sort::lemma_text_le_antisymmetric(x.session_id, y.session_id);
        }
    }
    assert forall|x: SummaryView<C>| a.contains(x) == b.contains(x) by {
        if a.contains(x) {
            let i = choose|i: int| 0 <= i < a.len() && a[i] == x;
            assert(sessions.contains_key(a[i].session_id));
            let j = choose|j: int| 0 <= j < b.len() && (#[trigger] b[j]).session_id == x.session_id;
            assert(b[j] == x);
        }
        if b.contains(x) {
            let i = choose|i: int| 0 <= i < b.len() && b[i] == x;
            assert(sessions.contains_key(b[i].session_id));
            let j = choose|j: int| 0 <= j < a.len() && (#[trigger] a[j]).session_id == x.session_id;
            assert(a[j] == x);
        }
    }
    law_a_ranking_is_determined(a, b, before);
}

// ---------------------------------------------------------------- one session

/// One trace inside a session detail view.
#[derive(Debug)]
pub struct SessionTrace<C> {
    /// Trace identifier.
    pub trace_id: String,
    /// Name of the trace's earliest span.
    pub root_name: String,
    /// Earliest span start in the trace.
    pub first_start_ns: u64,
    /// Latest span end in the trace.
    pub last_end_ns: u64,
    /// What the session's spans in this trace add up to.
    pub counters: Counters<C>,
}

pub struct TraceView<C> {
    pub trace_id: Seq<char>,
    pub root_name: Seq<char>,
    pub first_start_ns: u64,
    pub last_end_ns: u64,
    pub counters: Counters<C>,
}

impl<C> View for SessionTrace<C> {
    type V = TraceView<C>;

    open spec fn view(&self) -> TraceView<C> {
        TraceView {
            trace_id: self.trace_id@,
            root_name: self.root_name@,
            first_start_ns: self.first_start_ns,
            last_end_ns: self.last_end_ns,
            counters: self.counters,
        }
    }
}

/// A session plus its per-trace breakdown.
#[derive(Debug)]
pub struct SessionDetail<C> {
    /// The aggregate view.
    pub summary: SessionSummary<C>,
    /// Traces ordered by first activity.
    pub traces: Vec<SessionTrace<C>>,
}

/// What the spans of one session add up to.
pub open spec fn session_of<C: Amount>(spans: Seq<Span>) -> SessionView<C>
    decreases spans.len(),
{
    if spans.len() == 0 {
        SessionView::none()
    } else {
        session_of::<C>(spans.drop_last()).with(spans.last())
    }
}

/// The span that started first; of equals the first.
pub open spec fn first_started(spans: Seq<Span>) -> Span
    decreases spans.len(),
{
    if spans.len() <= 1 {
        spans[0]
    } else {
        let before = first_started(spans.drop_last());
        if spans.last().start_time_ns < before.start_time_ns {
            spans.last()
        } else {
            before
        }
    }
}

pub open spec fn last_ended(spans: Seq<Span>) -> u64
    decreases spans.len(),
{
    if spans.len() == 0 {
        0
    } else {
        let before = last_ended(spans.drop_last());
        if spans.last().end_time_ns > before {
            spans.last().end_time_ns
        } else {
            before
        }
    }
}

pub open spec fn of_trace(trace: Seq<char>) -> spec_fn(Span) -> bool {
    |s: Span| s.trace_id@ == trace
}

/// One trace's row.
pub open spec fn trace_row<C: Amount>(spans: Seq<Span>, trace: Seq<char>) -> TraceView<C> {
    let members = picked(spans, of_trace(trace));
    TraceView {
        trace_id: trace,
        root_name: first_started(members).name@,
        first_start_ns: first_started(members).start_time_ns,
        last_end_ns: last_ended(members),
        counters: counted::<C>(members),
    }
}

/// By first activity, then by trace.
pub open spec fn active_before<C>() -> spec_fn(TraceView<C>, TraceView<C>) -> bool {
    |a: TraceView<C>, b: TraceView<C>|
        a.first_start_ns < b.first_start_ns || (a.first_start_ns == b.first_start_ns && text_le(
            a.trace_id,
            b.trace_id,
        ) && a.trace_id != b.trace_id)
}

/// Whether rows are the traces of a session, each once, in their order.
pub open spec fn lists_traces<C: Amount>(rows: Seq<TraceView<C>>, spans: Seq<Span>) -> bool {
    &&& forall|i: int|
        0 <= i < rows.len() ==> (#[trigger] rows[i]) == trace_row::<C>(spans, rows[i].trace_id)
            && exists|s: int| 0 <= s < spans.len() && (#[trigger] spans[s]).trace_id@
            == rows[i].trace_id
    &&& forall|s: int|
        0 <= s < spans.len() ==> exists|i: int|
            0 <= i < rows.len() && (#[trigger] rows[i]).trace_id == (#[trigger] spans[s]).trace_id@
    &&& in_strict_order(rows, active_before::<C>())
}

pub open spec fn trace_views<C>(rows: Seq<SessionTrace<C>>) -> Seq<TraceView<C>> {
    Seq::new(rows.len(), |i: int| rows[i]@)
}

fn one_trace<C: Amount>(spans: &[Span], trace: &str) -> (r: SessionTrace<C>)
    requires
        exists|s: int| 0 <= s < spans@.len() && (#[trigger] spans@[s]).trace_id@ == trace@,
    ensures
        r@ == trace_row::<C>(spans@, trace@),
{
    let ghost p = of_trace(trace@);
    let mut root: Option<usize> = None;
    let mut last_end_ns: u64 = 0;
    let mut counters: Counters<C> = Counters::zero();
    let mut i: usize = 0;
    assert(spans@.take(0) =~= seq![]);
    while i < spans.len()
        invariant
            i <= spans@.len(),
            p == of_trace(trace@),
            match root {
                Some(b) => b < i && picked(spans@.take(i as int), p).len() > 0 && first_started(
                    picked(spans@.take(i as int), p),
                ) == spans@[b as int],
                None => picked(spans@.take(i as int), p).len() == 0,
            },
            last_end_ns == last_ended(picked(spans@.take(i as int), p)),
            counters == counted::<C>(picked(spans@.take(i as int), p)),
        decreases spans@.len() - i,
    {
        let ghost before = picked(spans@.take(i as int), p);
        assert(spans@.take(i + 1).drop_last() =~= spans@.take(i as int));
        if same(spans[i].trace_id.as_str(), trace) {
            let ghost after = before.push(spans@[i as int]);
            assert(picked(spans@.take(i + 1), p) =~= after);
            assert(after.drop_last() =~= before);
            counters.absorb(&spans[i]);
            if spans[i].end_time_ns > last_end_ns {
                last_end_ns = spans[i].end_time_ns;
            }
            match root {
                Some(b) => {
                    if spans[i].start_time_ns < spans[b].start_time_ns {
                        root = Some(i);
                    }
                },
                None => {
                    root = Some(i);
                },
            }
        }
        i += 1;
    }
    assert(spans@.take(i as int) =~= spans@);
    proof {
        crate::sets::lemma_picked(spans@, p);
        let s = choose|s: int| 0 <= s < spans@.len() && (#[trigger] spans@[s]).trace_id@ == trace@;
        assert(spans@.contains(spans@[s]));
        assert(picked(spans@, p).contains(spans@[s]));
    }
    let (root_name, first_start_ns) = match root {
        Some(b) => (copy(spans[b].name.as_str()), spans[b].start_time_ns),
        None => (String::new(), 0),
    };
    SessionTrace { trace_id: copy(trace), root_name, first_start_ns, last_end_ns, counters }
}

fn list_traces(spans: &[Span]) -> (r: Distinct<String>)
    ensures
        r@ == adjoin_all(seq![], Seq::new(spans@.len(), |i: int| spans@[i].trace_id@)),
{
    let ghost all = Seq::new(spans@.len(), |i: int| spans@[i].trace_id@);
    let mut r: Distinct<String> = Distinct::new();
    let mut i: usize = 0;
    assert(all.take(0) =~= seq![]);
    while i < spans.len()
        invariant
            i <= spans@.len(),
            all == Seq::new(spans@.len(), |i: int| spans@[i].trace_id@),
            r@ == adjoin_all(seq![], all.take(i as int)),
        decreases spans@.len() - i,
    {
        assert(all.take(i + 1).drop_last() =~= all.take(i as int));
        r.insert(copy(spans[i].trace_id.as_str()));
        i += 1;
    }
    assert(all.take(i as int) =~= all);
    r
}

/// Whether a row weighs a trace: what started later weighs less.
pub open spec fn weighs_trace<C>(row: Weighed, trace: SessionTrace<C>, k: int) -> bool {
    &&& row.key@ == trace.trace_id@
    &&& row.at == k
    &&& row.first == -(trace.first_start_ns as int)
    &&& row.second == 0
}

/// The traces of a session, in the order of their first activity.
fn order_traces<C: Amount>(spans: &[Span]) -> (r: Vec<SessionTrace<C>>)
    ensures
        lists_traces(trace_views(r@), spans@),
{
    let traces = list_traces(spans);
    let list = traces.items();
    let ghost all = Seq::new(spans@.len(), |i: int| spans@[i].trace_id@);
    proof {
        crate::sets::lemma_adjoin_all(Seq::<Seq<char>>::empty(), all);
    }
    let mut made: Vec<SessionTrace<C>> = Vec::new();
    let mut rows: Vec<Weighed> = Vec::new();
    let mut i: usize = 0;
    while i < list.len()
        invariant
            i <= list@.len(),
            keys(list@) == traces@,
            all == Seq::new(spans@.len(), |i: int| spans@[i].trace_id@),
            forall|t: Seq<char>| #[trigger] traces@.contains(t) ==> all.contains(t),
            made@.len() == i,
            rows@.len() == i,
            forall|k: int|
                0 <= k < i ==> (#[trigger] made@[k])@ == trace_row::<C>(spans@, list@[k]@),
            forall|k: int| 0 <= k < i ==> weighs_trace(#[trigger] rows@[k], made@[k], k),
        decreases list@.len() - i,
    {
        proof {
            assert(traces@[i as int] == list@[i as int]@);
            assert(traces@.contains(list@[i as int]@));
            let s = choose|s: int| 0 <= s < all.len() && all[s] == list@[i as int]@;
            assert(spans@[s].trace_id@ == list@[i as int]@);
        }
        let row: SessionTrace<C> = one_trace(spans, list[i].as_str());
        let first: i128 = -(row.first_start_ns as i128);
        rows.push(Weighed { first, second: 0, key: copy(row.trace_id.as_str()), at: i });
        made.push(row);
        assert forall|k: int| 0 <= k < i + 1 implies weighs_trace(
            #[trigger] rows@[k],
            made@[k],
            k,
        ) by {}
        i += 1;
    }
    let ghost weighed = rows@;
    assert forall|i: int| 0 <= i < rows@.len() implies (#[trigger] rows@[i]).at == i by {
        assert(weighs_trace(rows@[i], made@[i], i));
    }
    let positions = rank_rows(rows);
    let mut out: Vec<SessionTrace<C>> = Vec::new();
    let mut i: usize = 0;
    while i < positions.len()
        invariant
            i <= positions@.len(),
            out@.len() == i,
            positions@.len() == made@.len(),
            forall|k: int| 0 <= k < positions@.len() ==> (#[trigger] positions@[k]) < made@.len(),
            forall|k: int| 0 <= k < i ==> (#[trigger] out@[k])@ == made@[positions@[k] as int]@,
        decreases positions@.len() - i,
    {
        let at: usize = positions[i];
        assert(positions@[i as int] < made@.len());
        out.push(
            SessionTrace {
                trace_id: copy(made[at].trace_id.as_str()),
                root_name: copy(made[at].root_name.as_str()),
                first_start_ns: made[at].first_start_ns,
                last_end_ns: made[at].last_end_ns,
                counters: made[at].counters,
            },
        );
        i += 1;
    }
    proof {
        let views = trace_views(out@);
        assert forall|i: int| 0 <= i < views.len() implies (#[trigger] views[i]) == trace_row::<C>(
            spans@,
            views[i].trace_id,
        ) && exists|s: int| 0 <= s < spans@.len() && (#[trigger] spans@[s]).trace_id@
            == views[i].trace_id by {
            let k = positions@[i] as int;
            assert(positions@[i] < made@.len());
            assert(made@[k]@ == trace_row::<C>(spans@, list@[k]@));
            assert(traces@[k] == list@[k]@);
            assert(traces@.contains(list@[k]@));
            let s = choose|s: int| 0 <= s < all.len() && all[s] == list@[k]@;
            assert(spans@[s].trace_id@ == list@[k]@);
        }
        assert forall|s: int| 0 <= s < spans@.len() implies exists|i: int|
            0 <= i < views.len() && (#[trigger] views[i]).trace_id == (
            #[trigger] spans@[s]).trace_id@ by {
            assert(all[s] == spans@[s].trace_id@);
            assert(all.contains(spans@[s].trace_id@));
            assert(traces@.contains(spans@[s].trace_id@));
            let k = choose|k: int| 0 <= k < traces@.len() && traces@[k] == spans@[s].trace_id@;
            assert(list@[k]@ == traces@[k]);
            assert(lists_position(positions@, k));
            let i = choose|i: int| 0 <= i < positions@.len() && #[trigger] positions@[i] == k;
            assert(made@[k]@ == trace_row::<C>(spans@, list@[k]@));
            assert(views[i].trace_id == spans@[s].trace_id@);
        }
        let before = active_before::<C>();
        assert forall|i: int, j: int|
            #![trigger views[i], views[j]]
            0 <= i < j < views.len() implies before(views[i], views[j]) by {
            let a = positions@[i] as int;
            let b = positions@[j] as int;
            assert(positions@[i] < made@.len() && positions@[j] < made@.len());
            assert(weighed[a].ranks(&weighed[b]) && a != b);
            assert(weighs_trace(weighed[a], made@[a], a));
            assert(weighs_trace(weighed[b], made@[b], b));
            assert(made@[a]@ == trace_row::<C>(spans@, list@[a]@));
            assert(made@[b]@ == trace_row::<C>(spans@, list@[b]@));
            assert(traces@[a] != traces@[b]);
            assert(traces@[a] == list@[a]@ && traces@[b] == list@[b]@);
        }
    }
    out
}

/// One session with its per-trace breakdown, or `None` when no span carries
/// the id. `spans` are the session's own.
pub fn session<C: Amount>(spans: &[Span], session_id: &str) -> (r: Option<SessionDetail<C>>)
    ensures
        match r {
            Some(detail) => spans@.len() > 0 && summarizes(
                detail.summary,
                summary_of(session_id@, session_of::<C>(spans@)),
            ) && lists_traces(trace_views(detail.traces@), spans@),
            None => spans@.len() == 0,
        },
{
    if spans.len() == 0 {
        return None;
    }
    let mut session: SessionCounters<C> = SessionCounters::zero();
    let mut i: usize = 0;
    assert(spans@.take(0) =~= seq![]);
    while i < spans.len()
        invariant
            i <= spans@.len(),
            session@ == session_of::<C>(spans@.take(i as int)),
        decreases spans@.len() - i,
    {
        assert(spans@.take(i + 1).drop_last() =~= spans@.take(i as int));
        session.absorb(&spans[i]);
        i += 1;
    }
    assert(spans@.take(i as int) =~= spans@);
    Some(SessionDetail { summary: summarize(session_id, &session), traces: order_traces(spans) })
}

/// The spans whose resolved session is the given one.
pub open spec fn of_session(session: Seq<char>) -> spec_fn(Span) -> bool {
    |s: Span| s.in_session(session)
}

/// Narrows candidates to the spans of a session: one may carry a matching
/// value under a lower-precedence key while its resolved session is another.
pub fn narrow_to_session(candidates: Vec<Span>, session_id: &str) -> (r: Vec<Span>)
    ensures
        r@ == picked(candidates@, of_session(session_id@)),
{
    let ghost all = candidates@;
    let ghost p = of_session(session_id@);
    let mut r: Vec<Span> = Vec::new();
    assert(all.take(0) =~= seq![]);
    for span in iter: candidates
        invariant
            iter.seq() == all,
            p == of_session(session_id@),
            r@ == picked(all.take(iter.index()), p),
    {
        assert(all.take(iter.index() + 1).drop_last() =~= all.take(iter.index()));
        let belongs = match &span.facts.session {
            Some(held) => same(held.as_str(), session_id),
            None => false,
        };
        if belongs {
            r.push(span);
        }
    }
    assert(all.take(all.len() as int) =~= all);
    r
}

// -------------------------------------------------------------------- lookups

/// The number that a text spells behind a minus sign, where it is one that a
/// signed 64-bit number can hold.
pub open spec fn negative(text: Seq<char>) -> Option<nat> {
    match strip_prefix(text, "-"@) {
        Some(digits) => if digits.len() > 0 && all_digits(digits) && digits_value(digits)
            <= 0x8000_0000_0000_0000 {
            Some(digits_value(digits))
        } else {
            None
        },
        None => None,
    }
}

/// The numeric encoding of a session id, where it has one. `float` is how a
/// number with a fraction or an exponent would be written.
pub open spec fn numeric_session(id: Seq<char>, float: Option<Seq<char>>) -> Option<Seq<char>> {
    match number_to(id, u64::MAX as nat) {
        Some(n) => Some(dec(n)),
        None => match negative(id) {
            Some(n) => Some(
                if n == 0 {
                    "0"@
                } else {
                    "-"@ + dec(n)
                },
            ),
            None => float,
        },
    }
}

/// Every JSON encoding that normalizes to a session id: the text, and the
/// number where the text is one. `float` is how the id is written as a number
/// with a fraction or an exponent, where it is a finite one.
pub fn session_values(session_id: &str, float: Option<String>) -> (r: Vec<Json>)
    ensures
        r@.len() >= 1,
        r@[0]@ == JsonView::Text(session_id@),
        match numeric_session(session_id@, opt_view(float)) {
            Some(number) => r@.len() == 2 && r@[1]@ == JsonView::Number(number),
            None => r@.len() == 1,
        },
{
    let mut values: Vec<Json> = Vec::new();
    values.push(Json::Text(copy(session_id)));
    if let Some(n) = parse_number(session_id, u64::MAX) {
        values.push(Json::Number(decimal(n)));
        return values;
    }
    if let Some(digits) = text_after(session_id, "-") {
        if digits_only(digits.as_str()) {
            assert(digits@[0] != '+' && is_digit(digits@[0]));
            if let Some(n) = parse_number(digits.as_str(), 0x8000_0000_0000_0000) {
                if n == 0 {
                    values.push(Json::Number(copy("0")));
                } else {
                    let mut text = copy("-");
                    text.push_str(decimal(n).as_str());
                    values.push(Json::Number(text));
                }
                return values;
            }
        }
    }
    if let Some(text) = float {
        values.push(Json::Number(text));
    }
    values
}

// ----------------------------------------------------------------------- laws

/// A session opened from its spans describes them: it counts them all, begins
/// with the earliest start, ends with the latest end, and lists each of their
/// traces once.
pub proof fn law_a_session_describes_its_spans<C: Amount>(spans: Seq<Span>)
    requires
        spans.len() > 0,
    ensures
        describes(session_of::<C>(spans), spans),
    decreases spans.len(),
{
    let init = spans.drop_last();
    if init.len() > 0 {
        law_a_session_describes_its_spans::<C>(init);
    }
    lemma_describes_with(session_of::<C>(init), init, spans.last());
    assert(init.push(spans.last()) =~= spans);
}

/// A summary shows the session it is of, field by field.
pub proof fn law_a_summary_shows_its_session<C: Amount>(
    summary: SessionSummary<C>,
    id: Seq<char>,
    session: SessionView<C>,
)
    requires
        summarizes(summary, summary_of(id, session)),
    ensures
        summary.session_id@ == id,
        session.session_key matches Some((name, _)) ==> summary.session_attribute@ == name,
        session.session_key is None ==> summary.session_attribute@ == "session.id"@,
        summary.first_start_ns == session.first_start_ns,
        summary.last_end_ns == session.last_end_ns,
        summary.trace_count == session.traces.len(),
        summary.span_count == session.counters.spans,
        summary.llm_calls == session.counters.llm_calls,
        summary.prompt_tokens == session.counters.prompt_tokens,
        summary.completion_tokens == session.counters.completion_tokens,
        summary.total_tokens == session.counters.total_tokens,
        summary.cost == session.counters.cost,
        summary.error_count == session.counters.errors,
{
}

proof fn lemma_sessions_in<C: Amount>(
    buffer: Seq<Span>,
    segments: Seq<Segment<C>>,
    p: int,
    window: Window,
    mask: Option<MaskView>,
    id: Seq<char>,
)
    requires
        0 <= p <= segments.len(),
    ensures
        ({
            let m = sessions_in(visited(buffer, segments, p, window, mask));
            let spans = live(buffer, segments, p, window, mask).filter(
                |s: Span| s.facts.session is Some && s.facts.session->0@ == id,
            );
            &&& m.contains_key(id) == (spans.len() > 0)
            &&& spans.len() > 0 ==> describes(m[id], spans)
        }),
    decreases segments.len() - p,
{
    let q = |s: Span| s.facts.session is Some && s.facts.session->0@ == id;
    let rollups = visited(buffer, segments, p, window, mask);
    if p == segments.len() {
        lemma_buffer_part(buffer, window, mask);
        let part = live(buffer, segments, p, window, mask);
        lemma_rollup_sessions::<C>(part, id);
        reveal_with_fuel(sessions_in, 2);
        if part.len() > 0 {
            assert(rollups.drop_last() =~= seq![]);
            let m = rollup_of::<C>(part).sessions;
            if m.contains_key(id) {
                lemma_describes_merged(
                    SessionView::<C>::none(),
                    Seq::empty(),
                    m[id],
                    part.filter(q),
                );
                assert(Seq::<Span>::empty() + part.filter(q) =~= part.filter(q));
            }
        } else {
            assert(part =~= seq![]);
            assert(part.filter(q).len() == 0) by {
                reveal(Seq::filter);
            }
        }
    } else {
        lemma_sessions_in(buffer, segments, p + 1, window, mask, id);
        lemma_segment_part(buffer, segments, p, window, mask);
        let above = live(buffer, segments, p + 1, window, mask);
        let part = survivors(buffer, segments, p, window, mask);
        Seq::filter_distributes_over_add(above, part, q);
        lemma_rollup_sessions::<C>(part, id);
        let left = above.filter(q);
        let right = part.filter(q);
        if part.len() > 0 {
            let before = visited(buffer, segments, p + 1, window, mask);
            assert(rollups.drop_last() =~= before);
            let a = sessions_in(before);
            let b = rollup_of::<C>(part).sessions;
            if right.len() > 0 {
                lemma_describes_merged(crate::rollup::session_at(a, id), left, b[id], right);
            } else {
                assert(left + right =~= left);
            }
        } else {
            assert(part =~= seq![]);
            assert(right.len() == 0) by {
                reveal(Seq::filter);
            }
            assert(left + right =~= left);
        }
    }
}

/// A listed session describes exactly its spans: of all that count in the
/// window, in their newest version, those whose resolved session it is. Every
/// session with such a span is listed before the list is cut.
pub proof fn law_a_listed_session_describes_its_spans<C: Amount>(
    buffer: Seq<Span>,
    segments: Seq<Segment<C>>,
    window: Window,
    mask: Option<MaskView>,
    order: SessionOrder,
    rows: Seq<SummaryView<C>>,
    id: Seq<char>,
)
    requires
        ranks_sessions(rows, sessions_in(visited(buffer, segments, 0, window, mask)), order),
    ensures
        ({
            let spans = live(buffer, segments, 0, window, mask).filter(
                |s: Span| s.facts.session is Some && s.facts.session->0@ == id,
            );
            &&& (exists|i: int| 0 <= i < rows.len() && (#[trigger] rows[i]).session_id == id)
                <==> spans.len() > 0
            &&& forall|i: int|
                0 <= i < rows.len() && (#[trigger] rows[i]).session_id == id ==> exists|
                    session: SessionView<C>,
                | #[trigger]
                    describes(session, spans) && rows[i] == summary_of(id, session)
        }),
{
    lemma_sessions_in(buffer, segments, 0, window, mask, id);
    let m = sessions_in(visited(buffer, segments, 0, window, mask));
    let spans = live(buffer, segments, 0, window, mask).filter(
        |s: Span| s.facts.session is Some && s.facts.session->0@ == id,
    );
    assert forall|i: int| 0 <= i < rows.len() && (#[trigger] rows[i]).session_id == id implies exists|
        session: SessionView<C>,
    | #[trigger] describes(session, spans) && rows[i] == summary_of(id, session) by {
        assert(describes(m[id], spans) && rows[i] == summary_of(id, m[id]));
    }
}

/// Sessions stand by what they are ranked by, the larger first: the latest end,
/// the cost, the errors or the tokens. Of equals the smaller id stands first,
/// and no id stands twice.
pub proof fn law_sessions_are_in_order<C: Amount>(
    rows: Seq<SummaryView<C>>,
    sessions: Map<Seq<char>, SessionView<C>>,
    order: SessionOrder,
    i: int,
    j: int,
)
    requires
        ranks_sessions(rows, sessions, order),
        0 <= i < j < rows.len(),
    ensures
        ({
            let a = rows[i];
            let b = rows[j];
            &&& a.session_id != b.session_id
            &&& order is Recent ==> a.last_end_ns >= b.last_end_ns && (a.last_end_ns
                == b.last_end_ns ==> text_le(a.session_id, b.session_id))
            &&& order is Cost ==> a.counters.cost.weight() >= b.counters.cost.weight() && (
            a.counters.cost.weight() == b.counters.cost.weight() ==> text_le(
                a.session_id,
                b.session_id,
            ))
            &&& order is Errors ==> a.counters.errors >= b.counters.errors && (a.counters.errors
                == b.counters.errors ==> text_le(a.session_id, b.session_id))
            &&& order is Tokens ==> a.counters.total_tokens >= b.counters.total_tokens && (
            a.counters.total_tokens == b.counters.total_tokens ==> text_le(
                a.session_id,
                b.session_id,
            ))
        }),
{
    assert(ranked_before::<C>(order)(rows[i], rows[j]));
    if rows[i].session_id == rows[j].session_id {
        assert(rows[i] == rows[j]);
    }
}

proof fn lemma_first_started(spans: Seq<Span>)
    requires
        spans.len() > 0,
    ensures
        exists|i: int|
            {
                &&& 0 <= i < spans.len() && #[trigger] spans[i] == first_started(spans)
                &&& forall|j: int|
                    0 <= j < spans.len() ==> spans[i].start_time_ns <= (
                    #[trigger] spans[j]).start_time_ns
                &&& forall|j: int|
                    0 <= j < i ==> spans[i].start_time_ns < (#[trigger] spans[j]).start_time_ns
            },
    decreases spans.len(),
{
    let init = spans.drop_last();
    let n = spans.len() - 1;
    assert forall|j: int| 0 <= j < n implies #[trigger] init[j] == spans[j] by {}
    if n == 0 {
        assert(spans[0] == first_started(spans));
    } else {
        lemma_first_started(init);
        let k = choose|i: int|
            {
                &&& 0 <= i < init.len() && #[trigger] init[i] == first_started(init)
                &&& forall|j: int|
                    0 <= j < init.len() ==> init[i].start_time_ns <= (
                    #[trigger] init[j]).start_time_ns
                &&& forall|j: int|
                    0 <= j < i ==> init[i].start_time_ns < (#[trigger] init[j]).start_time_ns
            };
        let i = if spans.last().start_time_ns < init[k].start_time_ns {
            n
        } else {
            k
        };
        assert(spans[i] == first_started(spans));
        assert forall|j: int| 0 <= j < spans.len() implies spans[i].start_time_ns <= (
        #[trigger] spans[j]).start_time_ns by {
            if j < n {
                assert(init[j] == spans[j]);
            }
        }
        assert forall|j: int| 0 <= j < i implies spans[i].start_time_ns < (
        #[trigger] spans[j]).start_time_ns by {
            assert(init[j] == spans[j]);
            assert(init[k].start_time_ns <= init[j].start_time_ns);
        }
    }
}

proof fn lemma_last_ended(spans: Seq<Span>)
    requires
        spans.len() > 0,
    ensures
        forall|i: int| 0 <= i < spans.len() ==> (#[trigger] spans[i]).end_time_ns <= last_ended(spans),
        exists|i: int| 0 <= i < spans.len() && (#[trigger] spans[i]).end_time_ns == last_ended(spans),
    decreases spans.len(),
{
    let init = spans.drop_last();
    let n = spans.len() - 1;
    assert(spans[n] == spans.last());
    assert forall|j: int| 0 <= j < n implies #[trigger] init[j] == spans[j] by {}
    if n > 0 {
        lemma_last_ended(init);
        let k = choose|i: int|
            0 <= i < init.len() && (#[trigger] init[i]).end_time_ns == last_ended(init);
        assert(spans[k].end_time_ns == last_ended(init));
        assert forall|i: int| 0 <= i < spans.len() implies (#[trigger] spans[i]).end_time_ns
            <= last_ended(spans) by {
            if i < n {
                assert(init[i] == spans[i]);
            }
        }
    } else {
        assert(init =~= seq![]);
    }
}

proof fn lemma_trace_row<C: Amount>(spans: Seq<Span>, trace: Seq<char>, s: int)
    requires
        0 <= s < spans.len(),
        spans[s].trace_id@ == trace,
    ensures
        ({
            let row = trace_row::<C>(spans, trace);
            let members = spans.filter(|s: Span| s.trace_id@ == row.trace_id);
            &&& members.len() > 0
            &&& row.counters == counted::<C>(members)
            &&& forall|i: int|
                0 <= i < spans.len() && (#[trigger] spans[i]).trace_id@ == row.trace_id
                    ==> row.first_start_ns <= spans[i].start_time_ns && spans[i].end_time_ns
                    <= row.last_end_ns
            &&& exists|i: int|
                0 <= i < spans.len() && (#[trigger] spans[i]).trace_id@ == row.trace_id
                    && spans[i].end_time_ns == row.last_end_ns
            &&& exists|i: int|
                0 <= i < members.len() && (#[trigger] members[i]).start_time_ns
                    == row.first_start_ns && members[i].name@ == row.root_name && forall|j: int|
                    0 <= j < i ==> row.first_start_ns < (#[trigger] members[j]).start_time_ns
        }),
{
    let row = trace_row::<C>(spans, trace);
    let p = of_trace(trace);
    let q = |s: Span| s.trace_id@ == row.trace_id;
    assert(p =~= q);
    let members = picked(spans, p);
    crate::sets::law_picking_is_filtering(spans, p);
    crate::sets::lemma_picked(spans, p);
    assert(spans.contains(spans[s]));
    assert(members.contains(spans[s]));
    lemma_first_started(members);
    lemma_last_ended(members);
    let f = choose|i: int|
        {
            &&& 0 <= i < members.len() && #[trigger] members[i] == first_started(members)
            &&& forall|j: int|
                0 <= j < members.len() ==> members[i].start_time_ns <= (
                #[trigger] members[j]).start_time_ns
            &&& forall|j: int|
                0 <= j < i ==> members[i].start_time_ns < (#[trigger] members[j]).start_time_ns
        };
    assert forall|i: int|
        0 <= i < spans.len() && (#[trigger] spans[i]).trace_id@ == row.trace_id implies row.first_start_ns
        <= spans[i].start_time_ns && spans[i].end_time_ns <= row.last_end_ns by {
        assert(spans.contains(spans[i]));
        assert(members.contains(spans[i]));
        let k = choose|k: int| 0 <= k < members.len() && members[k] == spans[i];
        assert(members[k].end_time_ns <= row.last_end_ns);
        assert(members[f].start_time_ns <= members[k].start_time_ns);
    }
    let e = choose|i: int|
        0 <= i < members.len() && (#[trigger] members[i]).end_time_ns == last_ended(members);
    assert(members.contains(members[e]));
    let w = choose|w: int| 0 <= w < spans.len() && spans[w] == members[e];
    assert(spans[w].end_time_ns == row.last_end_ns);
    assert(members[f].start_time_ns == row.first_start_ns);
}

/// The row of a trace in an opened session: it begins with the earliest start
/// of the session's spans in that trace and bears the name of the first span
/// that started then, it ends with the latest end, and counts them all.
pub proof fn law_a_trace_row_describes_its_spans<C: Amount>(
    rows: Seq<TraceView<C>>,
    spans: Seq<Span>,
    r: int,
)
    requires
        lists_traces(rows, spans),
        0 <= r < rows.len(),
    ensures
        ({
            let row = rows[r];
            let members = spans.filter(|s: Span| s.trace_id@ == row.trace_id);
            &&& members.len() > 0
            &&& row.counters == counted::<C>(members)
            &&& forall|i: int|
                0 <= i < spans.len() && (#[trigger] spans[i]).trace_id@ == row.trace_id
                    ==> row.first_start_ns <= spans[i].start_time_ns && spans[i].end_time_ns
                    <= row.last_end_ns
            &&& exists|i: int|
                0 <= i < spans.len() && (#[trigger] spans[i]).trace_id@ == row.trace_id
                    && spans[i].end_time_ns == row.last_end_ns
            &&& exists|i: int|
                0 <= i < members.len() && (#[trigger] members[i]).start_time_ns
                    == row.first_start_ns && members[i].name@ == row.root_name && forall|j: int|
                    0 <= j < i ==> row.first_start_ns < (#[trigger] members[j]).start_time_ns
        }),
{
    let row = rows[r];
    assert(row == trace_row::<C>(spans, row.trace_id));
    let s = choose|s: int| 0 <= s < spans.len() && (#[trigger] spans[s]).trace_id@ == row.trace_id;
    lemma_trace_row::<C>(spans, row.trace_id, s);
}

/// The rows of an opened session: one for each trace, by first activity and
/// then by trace id.
pub proof fn law_trace_rows_are_in_order<C: Amount>(
    rows: Seq<TraceView<C>>,
    spans: Seq<Span>,
    i: int,
    j: int,
    s: int,
)
    requires
        lists_traces(rows, spans),
        0 <= i < j < rows.len(),
        0 <= s < spans.len(),
    ensures
        rows[i].first_start_ns <= rows[j].first_start_ns,
        rows[i].first_start_ns == rows[j].first_start_ns ==> text_le(
            rows[i].trace_id,
            rows[j].trace_id,
        ),
        rows[i].trace_id != rows[j].trace_id,
        exists|r: int| 0 <= r < rows.len() && (#[trigger] rows[r]).trace_id == spans[s].trace_id@,
{
    assert(active_before::<C>()(rows[i], rows[j]));
    assert(spans[s].trace_id@ == spans[s].trace_id@);
    if rows[i].trace_id == rows[j].trace_id {
        assert(rows[i] == rows[j]);
    }
}

/// A trace's row shows its own fields.
pub proof fn law_a_trace_row_shows_its_fields<C>(row: SessionTrace<C>)
    ensures
        row@.trace_id == row.trace_id@,
        row@.root_name == row.root_name@,
        row@.first_start_ns == row.first_start_ns,
        row@.last_end_ns == row.last_end_ns,
        row@.counters == row.counters,
{
}

/// Narrowing keeps the spans whose resolved session is the one asked for, all
/// of them and no others, in their order.
pub proof fn law_narrowing_keeps_the_session(spans: Seq<Span>, id: Seq<char>)
    ensures
        picked(spans, of_session(id)) == spans.filter(
            |s: Span| s.facts.session is Some && s.facts.session->0@ == id,
        ),
{
    let p = of_session(id);
    let q = |s: Span| s.facts.session is Some && s.facts.session->0@ == id;
    crate::sets::law_picking_is_filtering(spans, p);
    assert forall|s: Span| #[trigger] p(s) == q(s) by {}
    assert(p =~= q);
}

/// A session id that is a number, written the way it is printed, is looked up
/// as that number; one that no number is spelled by is looked up as text alone.
pub proof fn law_numeric_ids(n: nat, id: Seq<char>)
    ensures
        n <= u64::MAX ==> numeric_session(dec(n), None) == Some(dec(n)),
        0 < n <= 0x8000_0000_0000_0000 ==> numeric_session("-"@ + dec(n), None) == Some(
            "-"@ + dec(n),
        ),
        id.len() > 0 && id[0] != '-' && id[0] != '+' && !is_digit(id[0]) ==> numeric_session(
            id,
            None,
        ) is None,
{
    crate::text::law_decimal_reads_back(n);
    crate::text::lemma_dec(n);
    reveal_strlit("-");
    let minus = "-"@ + dec(n);
    assert(minus.skip(1) =~= dec(n));
    assert(minus.take(1) =~= "-"@);
    assert(minus[0] == '-');
    if id.len() > 0 && id[0] != '-' && id[0] != '+' && !is_digit(id[0]) {
        if crate::text::starts_with(id, "-"@) {
            assert(id.take(1)[0] == "-"@[0]);
        }
    }
}

} // verus!
