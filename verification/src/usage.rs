//! Usage aggregated by model, provider, service, session or day.

use vstd::prelude::*;

use crate::analytics::{
    all_well_formed, fold_analytics, lemma_buffer_part, lemma_segment_part, live, mask_view,
    survivors, visit_views, visited, LlmGroupBy, Segment, Visit, Window,
};
use crate::ranking::{in_strict_order, lists_position, rank_rows, ranks_rows, Weighed};
use crate::rollup::{
    counted, counts_alike, merge_groups, merged_groups, rollup_of, Amount, Counters, RollupView,
};
use crate::sort::{text_le, Ranked};
use crate::span::Span;
use crate::table::{keys_differ, table_of, Table};
use crate::text::copy;
use crate::tombstones::{Mask, MaskView};

verus! {

// ----------------------------------------------------------------- aggregates

/// One row of an LLM aggregation.
#[derive(Debug)]
pub struct LlmAggregateRow<C> {
    /// The group key.
    pub key: String,
    /// What the group's spans add up to.
    pub counters: Counters<C>,
}

pub struct RowView<C> {
    pub key: Seq<char>,
    pub counters: Counters<C>,
}

impl<C> View for LlmAggregateRow<C> {
    type V = RowView<C>;

    open spec fn view(&self) -> RowView<C> {
        RowView { key: self.key@, counters: self.counters }
    }
}

/// The groups of a rollup by one dimension.
pub open spec fn groups_by<C: Amount>(rollup: RollupView<C>, by: LlmGroupBy) -> Map<
    Seq<char>,
    Counters<C>,
> {
    match by {
        LlmGroupBy::Model => rollup.by_model,
        LlmGroupBy::Provider => rollup.by_provider,
        LlmGroupBy::Service => rollup.by_service,
        LlmGroupBy::Session => rollup.by_session_key,
        LlmGroupBy::Day => rollup.by_day,
    }
}

/// The groups of several rollups together.
pub open spec fn groups_in<C: Amount>(rollups: Seq<RollupView<C>>, by: LlmGroupBy) -> Map<
    Seq<char>,
    Counters<C>,
>
    decreases rollups.len(),
{
    if rollups.len() == 0 {
        Map::empty()
    } else {
        merged_groups(groups_in(rollups.drop_last(), by), groups_by(rollups.last(), by))
    }
}

/// By cost, then tokens, the larger first, then by key.
pub open spec fn costlier<C: Amount>() -> spec_fn(RowView<C>, RowView<C>) -> bool {
    |a: RowView<C>, b: RowView<C>|
        if a.counters.cost.weight() != b.counters.cost.weight() {
            a.counters.cost.weight() > b.counters.cost.weight()
        } else if a.counters.total_tokens != b.counters.total_tokens {
            a.counters.total_tokens > b.counters.total_tokens
        } else {
            text_le(a.key, b.key) && a.key != b.key
        }
}

/// Whether rows are the ranking of groups.
pub open spec fn ranks_groups<C: Amount>(
    rows: Seq<RowView<C>>,
    groups: Map<Seq<char>, Counters<C>>,
) -> bool {
    &&& forall|i: int|
        0 <= i < rows.len() ==> groups.contains_key((#[trigger] rows[i]).key) && rows[i].counters
            == groups[rows[i].key]
    &&& forall|key: Seq<char>| #[trigger]
        groups.contains_key(key) ==> exists|i: int|
            0 <= i < rows.len() && (#[trigger] rows[i]).key == key
    &&& in_strict_order(rows, costlier::<C>())
}

pub open spec fn row_views<C>(rows: Seq<LlmAggregateRow<C>>) -> Seq<RowView<C>> {
    Seq::new(rows.len(), |i: int| rows[i]@)
}

fn merge_all_groups<C: Amount>(visits: &Vec<Visit<C>>, by: LlmGroupBy) -> (r: Table<Counters<C>>)
    ensures
        r@ == groups_in(visit_views(visits@), by),
{
    let ghost all = visit_views(visits@);
    let mut merged: Table<Counters<C>> = Table::new();
    let mut i: usize = 0;
    assert(all.take(0) =~= seq![]);
    while i < visits.len()
        invariant
            i <= visits@.len(),
            all == visit_views(visits@),
            merged@ == groups_in(all.take(i as int), by),
        decreases visits@.len() - i,
    {
        assert(all.take(i + 1).drop_last() =~= all.take(i as int));
        assert(all.take(i + 1).last() == visits@[i as int]@);
        let rollup = visits[i].rollup();
        let groups = match by {
            LlmGroupBy::Model => &rollup.by_model,
            LlmGroupBy::Provider => &rollup.by_provider,
            LlmGroupBy::Service => &rollup.by_service,
            LlmGroupBy::Session => &rollup.by_session_key,
            LlmGroupBy::Day => &rollup.by_day,
        };
        merge_groups(&mut merged, groups);
        i += 1;
    }
    assert(all.take(i as int) =~= all);
    merged
}

/// Whether a row weighs the group at `k`.
pub open spec fn weighs_group<C: Amount>(
    row: Weighed,
    entry: (String, Counters<C>),
    k: int,
) -> bool {
    &&& row.key@ == entry.0@
    &&& row.at == k
    &&& row.first == entry.1.cost.weight()
    &&& row.second == entry.1.total_tokens
}

/// Ranks groups.
pub fn rank_groups<C: Amount>(groups: &Table<Counters<C>>) -> (r: Vec<LlmAggregateRow<C>>)
    ensures
        ranks_groups(row_views(r@), groups@),
{
    let list = groups.entries();
    let mut rows: Vec<Weighed> = Vec::new();
    let mut i: usize = 0;
    while i < list.len()
        invariant
            i <= list@.len(),
            rows@.len() == i,
            forall|k: int| 0 <= k < i ==> weighs_group(#[trigger] rows@[k], list@[k], k),
        decreases list@.len() - i,
    {
        let first = list[i].1.cost.rank() as i128;
        let second = list[i].1.total_tokens as i128;
        rows.push(Weighed { first, second, key: copy(list[i].0.as_str()), at: i });
        i += 1;
    }
    let ghost weighed = rows@;
    assert forall|i: int| 0 <= i < rows@.len() implies (#[trigger] rows@[i]).at == i by {
        assert(weighs_group(rows@[i], list@[i], i));
    }
    let positions = rank_rows(rows);
    let mut out: Vec<LlmAggregateRow<C>> = Vec::new();
    let mut i: usize = 0;
    while i < positions.len()
        invariant
            i <= positions@.len(),
            out@.len() == i,
            positions@.len() == list@.len(),
            forall|k: int| 0 <= k < positions@.len() ==> (#[trigger] positions@[k]) < list@.len(),
            forall|k: int|
                0 <= k < i ==> (#[trigger] out@[k])@ == (RowView {
                    key: list@[positions@[k] as int].0@,
                    counters: list@[positions@[k] as int].1,
                }),
        decreases positions@.len() - i,
    {
        let at: usize = positions[i];
        assert(positions@[i as int] < list@.len());
        out.push(LlmAggregateRow { key: copy(list[at].0.as_str()), counters: list[at].1 });
        i += 1;
    }
    proof {
        lemma_group_ranking(list@, weighed, positions@, row_views(out@));
    }
    out
}

proof fn lemma_group_ranking<C: Amount>(
    list: Seq<(String, Counters<C>)>,
    rows: Seq<Weighed>,
    positions: Seq<usize>,
    ranking: Seq<RowView<C>>,
)
    requires
        keys_differ(list),
        rows.len() == list.len(),
        forall|k: int| 0 <= k < list.len() ==> weighs_group(#[trigger] rows[k], list[k], k),
        ranks_rows(positions, rows),
        ranking.len() == positions.len(),
        forall|k: int|
            0 <= k < ranking.len() ==> (#[trigger] ranking[k]) == (RowView {
                key: list[positions[k] as int].0@,
                counters: list[positions[k] as int].1,
            }),
    ensures
        ranks_groups(ranking, table_of(list)),
{
    let all = table_of(list);
    assert forall|i: int| 0 <= i < ranking.len() implies all.contains_key((#[trigger] ranking[i]).key)
        && ranking[i].counters == all[ranking[i].key] by {
        assert(positions[i] < rows.len());
        crate::table::lemma_table_at(list, positions[i] as int);
    }
    assert forall|key: Seq<char>| #[trigger] all.contains_key(key) implies exists|i: int|
        0 <= i < ranking.len() && (#[trigger] ranking[i]).key == key by {
        let k = choose|k: int| crate::table::key_stands_at(list, key, k);
        assert(crate::table::key_stands_at(list, key, k));
        assert(lists_position(positions, k));
        let i = choose|i: int| 0 <= i < positions.len() && #[trigger] positions[i] == k;
        assert(ranking[i].key == key);
    }
    let before = costlier::<C>();
    assert forall|i: int, j: int|
        #![trigger ranking[i], ranking[j]]
        0 <= i < j < ranking.len() implies before(ranking[i], ranking[j]) by {
        let a = positions[i] as int;
        let b = positions[j] as int;
        assert(positions[i] < rows.len() && positions[j] < rows.len());
        assert(rows[a].ranks(&rows[b]) && a != b);
        assert(weighs_group(rows[a], list[a], a));
        assert(weighs_group(rows[b], list[b], b));
        if a < b {
            assert(list[a].0@ != list[b].0@);
        } else {
            assert(list[b].0@ != list[a].0@);
        }
    }
}

/// Aggregates usage over the window, grouped by one dimension, sorted by cost,
/// then tokens, then key.
pub fn llm_aggregate<C: Amount>(
    buffer: &[Span],
    segments: &[Segment<C>],
    window: &Window,
    mask: Option<&Mask>,
    group_by: LlmGroupBy,
) -> (r: Vec<LlmAggregateRow<C>>)
    requires
        all_well_formed(segments@),
    ensures
        ranks_groups(
            row_views(r@),
            groups_in(visited(buffer@, segments@, 0, *window, mask_view(mask)), group_by),
        ),
{
    let folded = fold_analytics(buffer, segments, window, mask);
    let merged = merge_all_groups(&folded.visits, group_by);
    rank_groups(&merged)
}

// ----------------------------------------------------------------------- laws

/// What a span is grouped by: its model, its provider, its service, its session
/// or the day on which it started.
pub open spec fn group_of(span: Span, by: LlmGroupBy) -> Option<Seq<char>> {
    match by {
        LlmGroupBy::Model => if span.facts.model is Some {
            Some(span.facts.model->0@)
        } else {
            None
        },
        LlmGroupBy::Provider => if span.facts.provider is Some {
            Some(span.facts.provider->0@)
        } else {
            None
        },
        LlmGroupBy::Service => Some(span.service@),
        LlmGroupBy::Session => if span.facts.session is Some {
            Some(span.facts.session->0@)
        } else {
            None
        },
        LlmGroupBy::Day => Some(crate::days::day_of(span.start_time_ns)),
    }
}

proof fn lemma_rollup_groups<C: Amount>(spans: Seq<Span>, by: LlmGroupBy, k: Seq<char>)
    ensures
        ({
            let group = spans.filter(|s: Span| group_of(s, by) == Some(k));
            let m = groups_by(rollup_of::<C>(spans), by);
            &&& m.contains_key(k) == (group.len() > 0)
            &&& group.len() > 0 ==> m[k] == counted::<C>(group)
        }),
{
    let key = |s: Span| group_of(s, by);
    let pick = |r: RollupView<C>| groups_by(r, by);
    let none = RollupView::<C>::none(crate::rollup::Bounds::none());
    assert(pick(none) == Map::<Seq<char>, Counters<C>>::empty());
    assert forall|r: RollupView<C>, s: Span| #[trigger] pick(r.with(s)) == crate::rollup::grouped(
        pick(r),
        key(s),
        s,
    ) by {}
    crate::rollup::lemma_groups::<C>(spans, key, pick, k);
    let p = |s: Span| key(s) == Some(k);
    let q = |s: Span| group_of(s, by) == Some(k);
    assert(p =~= q);
}

proof fn lemma_groups_in<C: Amount>(
    buffer: Seq<Span>,
    segments: Seq<Segment<C>>,
    p: int,
    window: Window,
    mask: Option<MaskView>,
    by: LlmGroupBy,
    k: Seq<char>,
)
    requires
        0 <= p <= segments.len(),
    ensures
        ({
            let m = groups_in(visited(buffer, segments, p, window, mask), by);
            let spans = live(buffer, segments, p, window, mask).filter(
                |s: Span| group_of(s, by) == Some(k),
            );
            &&& m.contains_key(k) == (spans.len() > 0)
            &&& spans.len() > 0 ==> counts_alike(m[k], counted::<C>(spans))
        }),
    decreases segments.len() - p,
{
    let q = |s: Span| group_of(s, by) == Some(k);
    let rollups = visited(buffer, segments, p, window, mask);
    if p == segments.len() {
        lemma_buffer_part(buffer, window, mask);
        let part = live(buffer, segments, p, window, mask);
        lemma_rollup_groups::<C>(part, by, k);
        reveal_with_fuel(groups_in, 2);
        if part.len() > 0 {
            assert(rollups.drop_last() =~= seq![]);
            let m = groups_by(rollup_of::<C>(part), by);
            if m.contains_key(k) {
                crate::rollup::law_merging_is_counting_together::<C>(
                    Seq::empty(),
                    part.filter(q),
                );
                assert(Seq::<Span>::empty() + part.filter(q) =~= part.filter(q));
            }
        } else {
            assert(part =~= seq![]);
            assert(part.filter(q).len() == 0) by {
                reveal(Seq::filter);
            }
        }
    } else {
        lemma_groups_in(buffer, segments, p + 1, window, mask, by, k);
        lemma_segment_part(buffer, segments, p, window, mask);
        let above = live(buffer, segments, p + 1, window, mask);
        let part = survivors(buffer, segments, p, window, mask);
        Seq::filter_distributes_over_add(above, part, q);
        lemma_rollup_groups::<C>(part, by, k);
        let left = above.filter(q);
        let right = part.filter(q);
        if part.len() > 0 {
            let before = visited(buffer, segments, p + 1, window, mask);
            assert(rollups.drop_last() =~= before);
            let a = groups_in(before, by);
            let b = groups_by(rollup_of::<C>(part), by);
            crate::rollup::law_merging_is_counting_together::<C>(left, right);
            if left.len() == 0 {
                assert(left =~= seq![]);
            }
            if right.len() == 0 {
                assert(left + right =~= left);
            }
            assert(crate::rollup::group_at(a, k) == if left.len() > 0 {
                a[k]
            } else {
                Counters::none()
            });
        } else {
            assert(part =~= seq![]);
            assert(right.len() == 0) by {
                reveal(Seq::filter);
            }
            assert(left + right =~= left);
        }
    }
}

/// An aggregate row counts exactly the spans of its group: of all that count in
/// the window, in their newest version, those with the row's model, provider,
/// service, session or day. Every group with such a span has its row.
pub proof fn law_a_row_counts_its_group<C: Amount>(
    buffer: Seq<Span>,
    segments: Seq<Segment<C>>,
    window: Window,
    mask: Option<MaskView>,
    by: LlmGroupBy,
    rows: Seq<RowView<C>>,
    k: Seq<char>,
)
    requires
        ranks_groups(rows, groups_in(visited(buffer, segments, 0, window, mask), by)),
    ensures
        ({
            let spans = live(buffer, segments, 0, window, mask).filter(
                |s: Span| group_of(s, by) == Some(k),
            );
            &&& (exists|i: int| 0 <= i < rows.len() && (#[trigger] rows[i]).key == k)
                <==> spans.len() > 0
            &&& forall|i: int|
                0 <= i < rows.len() && (#[trigger] rows[i]).key == k ==> counts_alike(
                    rows[i].counters,
                    counted::<C>(spans),
                )
        }),
{
    lemma_groups_in(buffer, segments, 0, window, mask, by, k);
}

/// Rows stand by cost, the larger first, then by tokens, the larger first, and
/// then by key; no key has two.
pub proof fn law_rows_are_in_order<C: Amount>(
    rows: Seq<RowView<C>>,
    groups: Map<Seq<char>, Counters<C>>,
    i: int,
    j: int,
)
    requires
        ranks_groups(rows, groups),
        0 <= i < j < rows.len(),
    ensures
        ({
            let a = rows[i];
            let b = rows[j];
            let same_cost = a.counters.cost.weight() == b.counters.cost.weight();
            let same_tokens = a.counters.total_tokens == b.counters.total_tokens;
            &&& a.counters.cost.weight() >= b.counters.cost.weight()
            &&& same_cost ==> a.counters.total_tokens >= b.counters.total_tokens
            &&& same_cost && same_tokens ==> text_le(a.key, b.key)
            &&& same_cost && same_tokens ==> a.key != b.key
        }),
{
    assert(costlier::<C>()(rows[i], rows[j]));
}

/// A row shows its own key and counters.
pub proof fn law_a_row_shows_its_fields<C>(row: LlmAggregateRow<C>)
    ensures
        row@.key == row.key@,
        row@.counters == row.counters,
{
}

} // verus!
