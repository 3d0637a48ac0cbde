//! What maintenance reads off rollups: which to keep at hand, which segments
//! to merge, and which payloads are still referred to.

use vstd::prelude::*;

use crate::erasure::{collect_refs, span_refs};
use crate::rollup::{add_all, plus, rollup_of, Amount, RollupView, SegmentRollup};
use crate::sets::{adjoin_all, Distinct};
use crate::span::Span;
use crate::table::{keys_differ, table_of, Hashes, Table};
use crate::text::{copy, texts};

verus! {

// ---------------------------------------------------------------------- cache

/// What identifies the segment that a rollup was built from. A path does not:
/// expiry rewrites a segment in place.
#[derive(Clone, Copy, Debug, PartialEq, Eq, Structural)]
pub struct Binding {
    pub segment_bytes: u64,
    pub record_count: u64,
    pub min_start_ns: u64,
    pub max_start_ns: u64,
}

/// A rollup with the identity of its segment.
#[derive(Debug)]
pub struct CachedRollup<C: Amount> {
    pub binding: Binding,
    pub rollup: SegmentRollup<C>,
}

impl<C: Amount> View for CachedRollup<C> {
    type V = (Binding, RollupView<C>);

    open spec fn view(&self) -> (Binding, RollupView<C>) {
        (self.binding, self.rollup@)
    }
}

/// Rollups by segment path.
#[derive(Debug)]
pub struct RollupCache<C: Amount> {
    entries: Table<CachedRollup<C>>,
}

impl<C: Amount> View for RollupCache<C> {
    type V = Map<Seq<char>, (Binding, RollupView<C>)>;

    closed spec fn view(&self) -> Map<Seq<char>, (Binding, RollupView<C>)> {
        self.entries@
    }
}

/// Whether a cache has the rollup of the segment that a binding identifies.
pub open spec fn is_cached<C: Amount>(
    cache: Map<Seq<char>, (Binding, RollupView<C>)>,
    path: Seq<char>,
    binding: Binding,
) -> bool {
    cache.contains_key(path) && cache[path].0 == binding
}

impl<C: Amount> RollupCache<C> {
    pub fn new() -> (r: Self)
        ensures
            r@ == Map::<Seq<char>, (Binding, RollupView<C>)>::empty(),
    {
        RollupCache { entries: Table::new() }
    }

    /// Keeps a rollup; the last one for a path stands.
    pub fn insert(&mut self, path: &str, binding: Binding, rollup: SegmentRollup<C>)
        ensures
            final(self)@ == old(self)@.insert(path@, (binding, rollup@)),
    {
        self.entries.put(path, CachedRollup { binding, rollup });
    }

    /// The cached rollup for a path, but only if it was built from the segment
    /// that `binding` identifies.
    pub fn cached_rollup(&self, path: &str, binding: Binding) -> (r: Option<&SegmentRollup<C>>)
        ensures
            match r {
                Some(rollup) => self@.contains_key(path@) && self@[path@] == (binding, rollup@),
                None => !self@.contains_key(path@) || self@[path@].0 != binding,
            },
    {
        match self.entries.get(path) {
            Some(cached) => if cached.binding == binding {
                Some(&cached.rollup)
            } else {
                None
            },
            None => None,
        }
    }

    /// Looks for a segment's rollup: in the cache, else in its sidecar, whose
    /// rollup is then kept. Says whether the cache now has it; where it does
    /// not, the segment has to be decoded.
    pub fn find_rollup(
        &mut self,
        path: &str,
        binding: Binding,
        sidecar: Option<SegmentRollup<C>>,
    ) -> (r: bool)
        ensures
            r == (is_cached(old(self)@, path@, binding) || sidecar.is_some()),
            final(self)@ == (match sidecar {
                Some(rollup) => if is_cached(old(self)@, path@, binding) {
                    old(self)@
                } else {
                    old(self)@.insert(path@, (binding, rollup@))
                },
                None => old(self)@,
            }),
    {
        if self.cached_rollup(path, binding).is_some() {
            return true;
        }
        match sidecar {
            Some(rollup) => {
                self.insert(path, binding, rollup);
                true
            },
            None => false,
        }
    }

    /// Builds a segment's rollup from its spans, and keeps it.
    pub fn build_rollup(&mut self, path: &str, binding: Binding, spans: &[Span])
        ensures
            final(self)@ == old(self)@.insert(path@, (binding, rollup_of::<C>(spans@))),
    {
        let rollup = SegmentRollup::<C>::build(spans);
        self.insert(path, binding, rollup);
    }

    /// Drops what was cached for segments that are no longer live.
    pub fn retain(&mut self, live: &Distinct<String>)
        ensures
            final(self)@ == old(self)@.restrict(live@.to_set()),
    {
        let ghost before = self@;
        let mut gone: Vec<String> = Vec::new();
        let list = self.entries.entries();
        let mut i: usize = 0;
        while i < list.len()
            invariant
                i <= list@.len(),
                keys_differ(list@),
                before == table_of(list@),
                forall|k: int|
                    0 <= k < i && !live@.contains(#[trigger] list@[k].0@) ==> texts(gone@).contains(
                        list@[k].0@,
                    ),
                forall|t: Seq<char>| #[trigger] texts(gone@).contains(t) ==> !live@.contains(t),
            decreases list@.len() - i,
        {
            let ghost so_far = gone@;
            if !live.contains(&list[i].0) {
                let path = copy(list[i].0.as_str());
                gone.push(path);
                proof {
                    crate::text::lemma_texts_push(so_far, path);
                    assert forall|t: Seq<char>| #[trigger]
                        texts(gone@).contains(t) implies !live@.contains(t) by {
                        let w = choose|w: int| 0 <= w < texts(gone@).len() && texts(gone@)[w] == t;
                        if w < so_far.len() {
                            assert(texts(so_far)[w] == t);
                            assert(texts(so_far).contains(t));
                        }
                    }
                    assert forall|k: int|
                        0 <= k < i + 1 && !live@.contains(#[trigger] list@[k].0@) implies texts(
                        gone@,
                    ).contains(list@[k].0@) by {
                        if k < i {
                            let w = choose|w: int|
                                0 <= w < texts(so_far).len() && texts(so_far)[w] == list@[k].0@;
                            assert(texts(gone@)[w] == list@[k].0@);
                        } else {
                            assert(texts(gone@)[so_far.len() as int] == list@[k].0@);
                        }
                    }
                }
            }
            i += 1;
        }
        proof {
            assert forall|t: Seq<char>| before.contains_key(t) && !live@.contains(t) implies texts(
                gone@,
            ).contains(t) by {
                let k = choose|k: int| crate::table::key_stands_at(list@, t, k);
                assert(crate::table::key_stands_at(list@, t, k));
                assert(list@[k].0@ == t);
            }
        }
        let ghost dropped = texts(gone@);
        let mut i: usize = 0;
        while i < gone.len()
            invariant
                i <= gone@.len(),
                dropped == texts(gone@),
                forall|t: Seq<char>| #[trigger]
                    self.entries@.contains_key(t) == (before.contains_key(t) && !dropped.take(
                        i as int,
                    ).contains(t)),
                forall|t: Seq<char>|
                    self.entries@.contains_key(t) ==> #[trigger] self.entries@[t] == before[t],
            decreases gone@.len() - i,
        {
            let ghost held = self.entries@;
            self.entries.remove(gone[i].as_str());
            proof {
                let a = dropped.take(i as int);
                let b = dropped.take(i + 1);
                assert(b =~= a.push(dropped[i as int]));
                assert forall|t: Seq<char>| b.contains(t) == (a.contains(t) || t
                    == dropped[i as int]) by {
                    if a.contains(t) {
                        let w = choose|w: int| 0 <= w < a.len() && a[w] == t;
                        assert(b[w] == t);
                    }
                    if t == dropped[i as int] {
                        assert(b[i as int] == t);
                    }
                    if b.contains(t) {
                        let w = choose|w: int| 0 <= w < b.len() && b[w] == t;
                        if w < i {
                            assert(a[w] == t);
                        }
                    }
                }
            }
            i += 1;
        }
        assert(dropped.take(i as int) =~= dropped);
        assert(self.entries@ =~= before.restrict(live@.to_set()));
    }
}

// ----------------------------------------------------------------------- tail

/// A segment as the shadow scan sees it: its size, and its key hashes where
/// they are at hand.
pub struct TailSegment<'a> {
    pub bytes: u64,
    pub hashes: Option<&'a Hashes>,
}

/// The scan from the segment before `p` on down: where the suffix of segments
/// that share keys begins so far, given what newer segments hold.
pub open spec fn suffix_from(
    segments: Seq<TailSegment>,
    p: int,
    budget: u64,
    bytes: u64,
    seen: Set<u64>,
    start: Option<int>,
) -> Option<int>
    decreases p,
{
    if p <= 0 {
        start
    } else {
        let segment = segments[p - 1];
        let total = plus(bytes, segment.bytes);
        if total > budget {
            start
        } else {
            match segment.hashes {
                None => start,
                Some(hashes) => suffix_from(
                    segments,
                    p - 1,
                    budget,
                    total,
                    seen.union(hashes@),
                    if exists|h: u64| #[trigger] hashes@.contains(h) && seen.contains(h) {
                        Some(p - 1)
                    } else {
                        start
                    },
                ),
            }
        }
    }
}

/// Where the tail suffix of segments begins that provably share keys, or
/// `None` when no collision is visible within the byte budget of the tail.
/// Newest segments stand last. A segment without hashes at hand ends the scan.
pub fn shadowed_tail_suffix(segments: &Vec<TailSegment>, budget_bytes: u64) -> (r: Option<usize>)
    ensures
        match r {
            Some(start) => start < segments@.len() && suffix_from(
                segments@,
                segments@.len() as int,
                budget_bytes,
                0,
                Set::empty(),
                None,
            ) == Some(start as int),
            None => suffix_from(
                segments@,
                segments@.len() as int,
                budget_bytes,
                0,
                Set::empty(),
                None,
            ).is_none(),
        },
{
    let mut seen = Hashes::new();
    let mut bytes: u64 = 0;
    let mut start: Option<usize> = None;
    let mut p: usize = segments.len();
    let ghost whole = suffix_from(
        segments@,
        segments@.len() as int,
        budget_bytes,
        0,
        Set::empty(),
        None,
    );
    while p > 0
        invariant
            p <= segments@.len(),
            start matches Some(s) ==> s < segments@.len(),
            whole == suffix_from(
                segments@,
                segments@.len() as int,
                budget_bytes,
                0,
                Set::empty(),
                None,
            ),
            whole == suffix_from(
                segments@,
                p as int,
                budget_bytes,
                bytes,
                seen@,
                match start {
                    Some(s) => Some(s as int),
                    None => None,
                },
            ),
        decreases p,
    {
        let segment = &segments[p - 1];
        bytes = bytes.saturating_add(segment.bytes);
        if bytes > budget_bytes {
            return start;
        }
        match segment.hashes {
            None => {
                return start;
            },
            Some(hashes) => {
                if hashes.meets(&seen) {
                    start = Some(p - 1);
                }
                seen.extend(hashes);
            },
        }
        p -= 1;
    }
    start
}

// ----------------------------------------------------------------- references

/// The payload references of several rollups, added to those held.
pub open spec fn refs_in<C: Amount>(held: Seq<Seq<char>>, rollups: Seq<RollupView<C>>) -> Seq<
    Seq<char>,
>
    decreases rollups.len(),
{
    if rollups.len() == 0 {
        held
    } else {
        adjoin_all(refs_in(held, rollups.drop_last()), rollups.last().payload_refs)
    }
}

pub open spec fn refs_in_spans(spans: Seq<Span>) -> Seq<Seq<char>>
    decreases spans.len(),
{
    if spans.len() == 0 {
        seq![]
    } else {
        adjoin_all(refs_in_spans(spans.drop_last()), span_refs(&spans.last(), false))
    }
}

pub open spec fn rollup_views<C: Amount>(s: Seq<&SegmentRollup<C>>) -> Seq<RollupView<C>> {
    Seq::new(s.len(), |i: int| s[i]@)
}

/// Every payload reference held by a live span: those of the buffer and of all
/// segments. Superseded versions may contribute; that only delays deletion.
pub fn live_payload_refs<C: Amount>(buffer: &[Span], rollups: &Vec<&SegmentRollup<C>>) -> (r:
    Distinct<String>)
    ensures
        r@ == refs_in(refs_in_spans(buffer@), rollup_views(rollups@)),
{
    let mut refs: Distinct<String> = Distinct::new();
    let mut i: usize = 0;
    assert(buffer@.take(0) =~= seq![]);
    while i < buffer.len()
        invariant
            i <= buffer@.len(),
            refs@ == refs_in_spans(buffer@.take(i as int)),
        decreases buffer@.len() - i,
    {
        assert(buffer@.take(i + 1).drop_last() =~= buffer@.take(i as int));
        collect_refs(&buffer[i], false, &mut refs);
        i += 1;
    }
    assert(buffer@.take(i as int) =~= buffer@);
    let ghost held = refs@;
    let ghost all = rollup_views(rollups@);
    let mut i: usize = 0;
    assert(all.take(0) =~= seq![]);
    while i < rollups.len()
        invariant
            i <= rollups@.len(),
            all == rollup_views(rollups@),
            refs@ == refs_in(held, all.take(i as int)),
        decreases rollups@.len() - i,
    {
        assert(all.take(i + 1).drop_last() =~= all.take(i as int));
        assert(all.take(i + 1).last() == rollups@[i as int]@);
        add_all(&mut refs, &rollups[i].payload_refs);
        i += 1;
    }
    assert(all.take(i as int) =~= all);
    refs
}

// ----------------------------------------------------------------------- laws

/// How many bytes the segments from `p` on hold.
pub open spec fn bytes_from(segments: Seq<TailSegment>, p: int) -> nat
    decreases segments.len() - p,
{
    if p < 0 || p >= segments.len() {
        0
    } else {
        bytes_from(segments, p + 1) + segments[p].bytes as nat
    }
}

/// Whether the walk from the newest segment reaches the one at `p`: all from
/// there on can be looked into, and they stay within the budget.
pub open spec fn reached(segments: Seq<TailSegment>, p: int, budget: u64) -> bool {
    &&& bytes_from(segments, p) <= budget
    &&& forall|q: int| p <= q < segments.len() ==> (#[trigger] segments[q]).hashes is Some
}

/// Whether the segment at `p` shares a key with a newer one.
pub open spec fn shares_key(segments: Seq<TailSegment>, p: int) -> bool {
    exists|q: int, h: u64|
        #![trigger segments[q], segments[p].hashes->0@.contains(h)]
        p < q < segments.len() && segments[p].hashes is Some && segments[q].hashes is Some
            && segments[p].hashes->0@.contains(h) && segments[q].hashes->0@.contains(h)
}

/// Whether a set holds the keys of the segments from `p` on, and no others.
spec fn sees(segments: Seq<TailSegment>, p: int, seen: Set<u64>) -> bool {
    forall|h: u64| #[trigger]
        seen.contains(h) == exists|q: int|
            p <= q < segments.len() && (#[trigger] segments[q]).hashes is Some
                && segments[q].hashes->0@.contains(h)
}

proof fn lemma_suffix(
    segments: Seq<TailSegment>,
    p: int,
    budget: u64,
    bytes: u64,
    seen: Set<u64>,
    start: Option<int>,
)
    requires
        0 <= p <= segments.len(),
        budget < u64::MAX,
        reached(segments, p, budget),
        bytes == bytes_from(segments, p),
        sees(segments, p, seen),
        start is Some ==> p <= start->0 < segments.len() && shares_key(segments, start->0),
        forall|k: int|
            p <= k < segments.len() && #[trigger] shares_key(segments, k) ==> start is Some
                && start->0 <= k,
    ensures
        ({
            let r = suffix_from(segments, p, budget, bytes, seen, start);
            &&& r is Some ==> 0 <= r->0 < segments.len() && shares_key(segments, r->0) && reached(
                segments,
                r->0,
                budget,
            )
            &&& forall|k: int|
                0 <= k < segments.len() && #[trigger] shares_key(segments, k) && reached(
                    segments,
                    k,
                    budget,
                ) ==> r is Some && r->0 <= k
        }),
    decreases p,
{
    if p > 0 {
        let segment = segments[p - 1];
        let total = plus(bytes, segment.bytes);
        let before = bytes_from(segments, p - 1);
        assert(before == bytes_from(segments, p) + segment.bytes);
        if total > budget || segment.hashes is None {
            assert forall|k: int|
                0 <= k < segments.len() && #[trigger] shares_key(segments, k) && reached(
                    segments,
                    k,
                    budget,
                ) implies start is Some && start->0 <= k by {
                if k < p {
                    lemma_bytes_grow(segments, k, p - 1);
                    assert(segments[p - 1].hashes is Some);
                }
            }
            if start is Some {
                lemma_reached(segments, p, start->0, budget);
            }
        } else {
            let hashes = segment.hashes->0;
            let more = seen.union(hashes@);
            let meets = exists|h: u64| #[trigger] hashes@.contains(h) && seen.contains(h);
            let next = if meets {
                Some(p - 1)
            } else {
                start
            };
            assert(sees(segments, p - 1, more)) by {
                assert forall|h: u64| #[trigger] more.contains(h) == exists|q: int|
                    p - 1 <= q < segments.len() && (#[trigger] segments[q]).hashes is Some
                        && segments[q].hashes->0@.contains(h) by {
                    if seen.contains(h) {
                        let q = choose|q: int|
                            p <= q < segments.len() && (#[trigger] segments[q]).hashes is Some
                                && segments[q].hashes->0@.contains(h);
                        assert(segments[q].hashes is Some);
                    }
                    if hashes@.contains(h) {
                        assert(segments[p - 1].hashes is Some);
                    }
                    if exists|q: int|
                        p - 1 <= q < segments.len() && (#[trigger] segments[q]).hashes is Some
                            && segments[q].hashes->0@.contains(h) {
                        let q = choose|q: int|
                            p - 1 <= q < segments.len() && (#[trigger] segments[q]).hashes is Some
                                && segments[q].hashes->0@.contains(h);
                        if q >= p {
                            assert(seen.contains(h));
                        }
                    }
                }
            }
            if meets {
                let h = choose|h: u64| #[trigger] hashes@.contains(h) && seen.contains(h);
                let q = choose|q: int|
                    p <= q < segments.len() && (#[trigger] segments[q]).hashes is Some
                        && segments[q].hashes->0@.contains(h);
                assert(segments[p - 1].hashes->0@.contains(h));
                assert(shares_key(segments, p - 1));
            } else if shares_key(segments, p - 1) {
                let (q, h) = choose|q: int, h: u64|
                    #![trigger segments[q], segments[p - 1].hashes->0@.contains(h)]
                    p - 1 < q < segments.len() && segments[p - 1].hashes is Some
                        && segments[q].hashes is Some && segments[p - 1].hashes->0@.contains(h)
                        && segments[q].hashes->0@.contains(h);
                assert(segments[q].hashes is Some);
                assert(seen.contains(h));
                assert(hashes@.contains(h));
            }
            assert forall|k: int|
                p - 1 <= k < segments.len() && #[trigger] shares_key(
                    segments,
                    k,
                ) implies next is Some && next->0 <= k by {}
            lemma_suffix(segments, p - 1, budget, total, more, next);
        }
    } else if start is Some {
        lemma_reached(segments, p, start->0, budget);
    }
}

proof fn lemma_bytes_grow(segments: Seq<TailSegment>, a: int, b: int)
    requires
        0 <= a <= b <= segments.len(),
    ensures
        bytes_from(segments, b) <= bytes_from(segments, a),
    decreases b - a,
{
    if a < b {
        lemma_bytes_grow(segments, a + 1, b);
    }
}

proof fn lemma_reached(segments: Seq<TailSegment>, a: int, b: int, budget: u64)
    requires
        0 <= a <= b <= segments.len(),
        reached(segments, a, budget),
    ensures
        reached(segments, b, budget),
{
    lemma_bytes_grow(segments, a, b);
}

/// The suffix worth merging begins with the oldest segment within the budget
/// that shares a key with a newer one, where the walk from the newest reaches
/// it; where there is none, there is nothing to merge.
pub proof fn law_the_suffix_worth_merging(segments: Seq<TailSegment>, budget: u64)
    requires
        budget < u64::MAX,
    ensures
        ({
            let r = suffix_from(segments, segments.len() as int, budget, 0, Set::empty(), None);
            &&& r is Some ==> 0 <= r->0 < segments.len() && shares_key(segments, r->0) && reached(
                segments,
                r->0,
                budget,
            )
            &&& forall|k: int|
                0 <= k < segments.len() && #[trigger] shares_key(segments, k) && reached(
                    segments,
                    k,
                    budget,
                ) ==> r is Some && r->0 <= k
        }),
{
    lemma_suffix(segments, segments.len() as int, budget, 0, Set::empty(), None);
}

/// A rollup is found in the cache where it is held for that very segment, and a
/// path held for another generation is a miss.
pub proof fn law_a_cached_rollup_is_of_its_segment<C: Amount>(
    cache: Map<Seq<char>, (Binding, RollupView<C>)>,
    path: Seq<char>,
    held: Binding,
    asked: Binding,
    rollup: RollupView<C>,
)
    ensures
        is_cached(cache.insert(path, (held, rollup)), path, asked) <==> held.segment_bytes
            == asked.segment_bytes && held.record_count == asked.record_count && held.min_start_ns
            == asked.min_start_ns && held.max_start_ns == asked.max_start_ns,
        !cache.contains_key(path) ==> !is_cached(cache, path, asked),
{
}

/// The live references are those of the buffered spans and those of every
/// segment, and no others.
pub proof fn law_live_references<C: Amount>(
    buffer: Seq<Span>,
    rollups: Seq<RollupView<C>>,
    r: Seq<char>,
)
    ensures
        refs_in(refs_in_spans(buffer), rollups).contains(r) <==> (exists|i: int|
            0 <= i < buffer.len() && span_refs(&(#[trigger] buffer[i]), false).contains(r))
            || exists|i: int|
            0 <= i < rollups.len() && (#[trigger] rollups[i]).payload_refs.contains(r),
{
    lemma_refs_in_spans(buffer, r);
    lemma_refs_in(refs_in_spans(buffer), rollups, r);
}

proof fn lemma_refs_in_spans(spans: Seq<Span>, r: Seq<char>)
    ensures
        refs_in_spans(spans).contains(r) == exists|i: int|
            0 <= i < spans.len() && span_refs(&(#[trigger] spans[i]), false).contains(r),
    decreases spans.len(),
{
    if spans.len() > 0 {
        let init = spans.drop_last();
        let n = spans.len() - 1;
        lemma_refs_in_spans(init, r);
        crate::sets::lemma_adjoin_all(refs_in_spans(init), span_refs(&spans.last(), false));
        assert(spans[n] == spans.last());
        assert forall|i: int| 0 <= i < n implies #[trigger] init[i] == spans[i] by {}
        assert forall|i: int| 0 <= i < n implies #[trigger] spans[i] == init[i] by {}
        if span_refs(&spans.last(), false).contains(r) {
            assert(span_refs(&spans[n], false).contains(r));
        }
    }
}

proof fn lemma_refs_in<C: Amount>(held: Seq<Seq<char>>, rollups: Seq<RollupView<C>>, r: Seq<char>)
    ensures
        refs_in(held, rollups).contains(r) == (held.contains(r) || exists|i: int|
            0 <= i < rollups.len() && (#[trigger] rollups[i]).payload_refs.contains(r)),
    decreases rollups.len(),
{
    if rollups.len() > 0 {
        let init = rollups.drop_last();
        let n = rollups.len() - 1;
        lemma_refs_in(held, init, r);
        crate::sets::lemma_adjoin_all(refs_in(held, init), rollups.last().payload_refs);
        assert(rollups[n] == rollups.last());
        assert forall|i: int| 0 <= i < n implies #[trigger] init[i] == rollups[i] by {}
        assert forall|i: int| 0 <= i < n implies #[trigger] rollups[i] == init[i] by {}
        if rollups.last().payload_refs.contains(r) {
            assert(rollups[n].payload_refs.contains(r));
        }
    }
}

} // verus!
