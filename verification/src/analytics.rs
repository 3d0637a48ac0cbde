//! Session grouping and usage aggregation over the buffer and the segments.
//!
//! A span that was ingested again exists only in its newest version: the
//! buffer wins over every segment, a newer segment over an older one. A rollup
//! is used as it is only where the window covers it, nothing newer may have
//! replaced one of its spans, and no erasure is pending; everywhere else the
//! spans are looked at one by one. Results are exact either way.

use vstd::prelude::*;

use crate::rollup::{key_hash, key_hash_of, rollup_of, Amount, Bounds, RollupView, SegmentRollup};
use crate::sets::picked;
use crate::span::{spans_of, Span};
use crate::table::Hashes;
use crate::text::same;
use crate::tombstones::{Mask, MaskView};

verus! {

/// How sessions are ranked before the list is cut.
#[derive(Clone, Copy, Debug, Default, PartialEq, Eq, Structural)]
pub enum SessionOrder {
    /// Most recent activity first.
    #[default]
    Recent,
    /// Highest summed cost first.
    Cost,
    /// Most error spans first.
    Errors,
    /// Most tokens first.
    Tokens,
}

impl SessionOrder {
    pub open spec fn named(name: Seq<char>) -> Option<SessionOrder> {
        if name == "recent"@ {
            Some(SessionOrder::Recent)
        } else if name == "cost"@ {
            Some(SessionOrder::Cost)
        } else if name == "errors"@ {
            Some(SessionOrder::Errors)
        } else if name == "tokens"@ {
            Some(SessionOrder::Tokens)
        } else {
            None
        }
    }

    pub open spec fn name(self) -> Seq<char> {
        match self {
            SessionOrder::Recent => "recent"@,
            SessionOrder::Cost => "cost"@,
            SessionOrder::Errors => "errors"@,
            SessionOrder::Tokens => "tokens"@,
        }
    }

    /// Parses the wire name; `None` for an unrecognized one.
    pub fn parse(name: &str) -> (r: Option<Self>)
        ensures
            r == Self::named(name@),
    {
        if same(name, "recent") {
            Some(SessionOrder::Recent)
        } else if same(name, "cost") {
            Some(SessionOrder::Cost)
        } else if same(name, "errors") {
            Some(SessionOrder::Errors)
        } else if same(name, "tokens") {
            Some(SessionOrder::Tokens)
        } else {
            None
        }
    }

    /// The wire name.
    pub fn as_str(self) -> (r: &'static str)
        ensures
            r@ == self.name(),
    {
        match self {
            SessionOrder::Recent => "recent",
            SessionOrder::Cost => "cost",
            SessionOrder::Errors => "errors",
            SessionOrder::Tokens => "tokens",
        }
    }
}

/// Aggregation dimension for [`llm_aggregate`].
#[derive(Clone, Copy, Debug, PartialEq, Eq, Structural)]
pub enum LlmGroupBy {
    /// Group by the recognized model.
    Model,
    /// Group by the provider.
    Provider,
    /// Group by the emitting service.
    Service,
    /// Group by the recognized session identifier.
    Session,
    /// Group by UTC calendar day of the span start.
    Day,
}

impl LlmGroupBy {
    pub open spec fn named(name: Seq<char>) -> Option<LlmGroupBy> {
        if name == "model"@ {
            Some(LlmGroupBy::Model)
        } else if name == "provider"@ {
            Some(LlmGroupBy::Provider)
        } else if name == "service"@ {
            Some(LlmGroupBy::Service)
        } else if name == "session"@ {
            Some(LlmGroupBy::Session)
        } else if name == "day"@ {
            Some(LlmGroupBy::Day)
        } else {
            None
        }
    }

    /// Parses the wire name; `None` for an unrecognized one.
    pub fn parse(name: &str) -> (r: Option<Self>)
        ensures
            r == Self::named(name@),
    {
        if same(name, "model") {
            Some(LlmGroupBy::Model)
        } else if same(name, "provider") {
            Some(LlmGroupBy::Provider)
        } else if same(name, "service") {
            Some(LlmGroupBy::Service)
        } else if same(name, "session") {
            Some(LlmGroupBy::Session)
        } else if same(name, "day") {
            Some(LlmGroupBy::Day)
        } else {
            None
        }
    }
}

/// A range of start times; an end left open has no bound.
#[derive(Clone, Copy, Debug, PartialEq, Eq)]
pub struct Window {
    pub since_ns: Option<u64>,
    pub until_ns: Option<u64>,
}

impl Window {
    pub open spec fn holds(self, start_ns: u64) -> bool {
        &&& self.since_ns matches Some(bound) ==> start_ns >= bound
        &&& self.until_ns matches Some(bound) ==> start_ns <= bound
    }

    pub fn in_window(&self, start_ns: u64) -> (r: bool)
        ensures
            r == self.holds(start_ns),
    {
        (match self.since_ns {
            Some(bound) => start_ns >= bound,
            None => true,
        }) && (match self.until_ns {
            Some(bound) => start_ns <= bound,
            None => true,
        })
    }

    /// Whether some start time between two bounds may lie in the window.
    pub open spec fn touches(self, range: Bounds) -> bool {
        &&& self.since_ns matches Some(bound) ==> range.max_start_ns >= bound
        &&& self.until_ns matches Some(bound) ==> range.min_start_ns <= bound
    }

    pub fn overlaps(&self, range: &Bounds) -> (r: bool)
        ensures
            r == self.touches(*range),
    {
        (match self.since_ns {
            Some(bound) => range.max_start_ns >= bound,
            None => true,
        }) && (match self.until_ns {
            Some(bound) => range.min_start_ns <= bound,
            None => true,
        })
    }
}

// ----------------------------------------------------------------------- fold

/// A sealed segment: its spans and what they roll up to.
#[derive(Debug)]
pub struct Segment<C: Amount> {
    pub spans: Vec<Span>,
    pub rollup: SegmentRollup<C>,
}

impl<C: Amount> Segment<C> {
    pub open spec fn well_formed(&self) -> bool {
        self.rollup@ == rollup_of::<C>(self.spans@)
    }

    /// Seals spans into a segment.
    pub fn seal(spans: Vec<Span>) -> (r: Self)
        ensures
            r.well_formed(),
            r.spans == spans,
    {
        let rollup = SegmentRollup::build(spans.as_slice());
        Segment { spans, rollup }
    }
}

/// Whether two spans are versions of one.
pub open spec fn same_key(a: Span, b: Span) -> bool {
    a.trace_id@ == b.trace_id@ && a.span_id@ == b.span_id@
}

pub open spec fn holds_key(spans: Seq<Span>, span: Span) -> bool {
    exists|i: int| 0 <= i < spans.len() && same_key(#[trigger] spans[i], span)
}

/// Whether a segment from position `from` on holds a version of a span.
pub open spec fn held_from<C: Amount>(segments: Seq<Segment<C>>, from: int, span: Span) -> bool {
    exists|q: int| from <= q < segments.len() && holds_key((#[trigger] segments[q]).spans@, span)
}

/// Whether a pending erasure withholds a span.
pub open spec fn masked(mask: Option<MaskView>, span: Span) -> bool {
    match mask {
        Some(mask) => mask.hides(&span),
        None => false,
    }
}

pub open spec fn mask_view(mask: Option<&Mask>) -> Option<MaskView> {
    match mask {
        Some(mask) => Some(mask@),
        None => None,
    }
}

/// The buffered spans that count.
pub open spec fn counted_in_buffer(window: Window, mask: Option<MaskView>) -> spec_fn(Span) -> bool {
    |s: Span| window.holds(s.start_time_ns) && !masked(mask, s)
}

/// The spans of the segment at `p` that count: in the window, not withheld,
/// and of no newer version anywhere.
pub open spec fn counted_in_segment<C: Amount>(
    buffer: Seq<Span>,
    segments: Seq<Segment<C>>,
    p: int,
    window: Window,
    mask: Option<MaskView>,
) -> spec_fn(Span) -> bool {
    |s: Span|
        window.holds(s.start_time_ns) && !masked(mask, s) && !holds_key(buffer, s) && !held_from(
            segments,
            p + 1,
            s,
        )
}

pub open spec fn survivors<C: Amount>(
    buffer: Seq<Span>,
    segments: Seq<Segment<C>>,
    p: int,
    window: Window,
    mask: Option<MaskView>,
) -> Seq<Span> {
    picked(segments[p].spans@, counted_in_segment(buffer, segments, p, window, mask))
}

/// What a fold visits from the buffer down to the segment at `p`: a rollup of
/// the spans that count, for every source that has any.
pub open spec fn visited<C: Amount>(
    buffer: Seq<Span>,
    segments: Seq<Segment<C>>,
    p: int,
    window: Window,
    mask: Option<MaskView>,
) -> Seq<RollupView<C>>
    decreases segments.len() - p,
{
    if p < 0 || p >= segments.len() {
        let buffered = picked(buffer, counted_in_buffer(window, mask));
        if buffered.len() > 0 {
            seq![rollup_of::<C>(buffered)]
        } else {
            seq![]
        }
    } else {
        let before = visited(buffer, segments, p + 1, window, mask);
        let left = survivors(buffer, segments, p, window, mask);
        if left.len() > 0 {
            before.push(rollup_of::<C>(left))
        } else {
            before
        }
    }
}

/// The key hashes of the segments from position `p` on.
pub open spec fn hashes_from<C: Amount>(segments: Seq<Segment<C>>, p: int) -> Set<u64>
    decreases segments.len() - p,
{
    if p < 0 || p >= segments.len() {
        Set::empty()
    } else {
        hashes_from(segments, p + 1).union(segments[p].rollup@.key_hashes)
    }
}

/// Whether the segment at `p` may share a key with a newer one.
pub open spec fn shadowed_at<C: Amount>(segments: Seq<Segment<C>>, p: int) -> bool {
    exists|h: u64| #[trigger]
        segments[p].rollup@.key_hashes.contains(h) && hashes_from(segments, p + 1).contains(h)
}

/// Whether a fold met, from position `p` on, a segment in its window that may
/// share a key with a newer one: what a merge would mend.
pub open spec fn shadowing_from<C: Amount>(
    segments: Seq<Segment<C>>,
    p: int,
    window: Window,
) -> bool {
    exists|q: int|
        p <= q < segments.len() && window.touches((#[trigger] segments[q]).rollup@.range)
            && shadowed_at(segments, q)
}

/// A rollup that a fold visited: a segment's own, or one made for the fold.
#[derive(Debug)]
pub enum Visit<'a, C: Amount> {
    Whole(&'a SegmentRollup<C>),
    Part(SegmentRollup<C>),
}

impl<'a, C: Amount> View for Visit<'a, C> {
    type V = RollupView<C>;

    open spec fn view(&self) -> RollupView<C> {
        match self {
            Visit::Whole(rollup) => rollup@,
            Visit::Part(rollup) => rollup@,
        }
    }
}

impl<'a, C: Amount> Visit<'a, C> {
    pub fn rollup(&self) -> (r: &SegmentRollup<C>)
        ensures
            r@ == self@,
    {
        match self {
            Visit::Whole(rollup) => rollup,
            Visit::Part(rollup) => rollup,
        }
    }
}

pub open spec fn visit_views<C: Amount>(s: Seq<Visit<C>>) -> Seq<RollupView<C>> {
    Seq::new(s.len(), |i: int| s[i]@)
}

/// The rollups a fold visited, newest source first, and whether it met
/// segments that share keys.
#[derive(Debug)]
pub struct Folded<'a, C: Amount> {
    pub visits: Vec<Visit<'a, C>>,
    pub shadowing: bool,
}

fn any_version(spans: &[Span], span: &Span) -> (r: bool)
    ensures
        r == holds_key(spans@, *span),
{
    let mut i: usize = 0;
    while i < spans.len()
        invariant
            i <= spans@.len(),
            forall|k: int| 0 <= k < i ==> !same_key(#[trigger] spans@[k], *span),
        decreases spans@.len() - i,
    {
        if same(spans[i].span_id.as_str(), span.span_id.as_str()) && same(
            spans[i].trace_id.as_str(),
            span.trace_id.as_str(),
        ) {
            assert(same_key(spans@[i as int], *span));
            return true;
        }
        i += 1;
    }
    false
}

fn newer_version<C: Amount>(segments: &[Segment<C>], from: usize, span: &Span) -> (r: bool)
    ensures
        r == held_from(segments@, from as int, *span),
{
    let mut q: usize = from;
    while q < segments.len()
        invariant
            from <= q,
            q <= segments@.len() || q == from,
            forall|k: int|
                from <= k < q && k < segments@.len() ==> !holds_key(
                    (#[trigger] segments@[k]).spans@,
                    *span,
                ),
        decreases segments@.len() - q,
    {
        if any_version(segments[q].spans.as_slice(), span) {
            assert(holds_key(segments@[q as int].spans@, *span));
            return true;
        }
        q += 1;
    }
    false
}

fn withheld(mask: Option<&Mask>, span: &Span) -> (r: bool)
    ensures
        r == masked(mask_view(mask), *span),
{
    match mask {
        Some(mask) => mask.covers(span),
        None => false,
    }
}

/// Whether a span has the given key hash.
pub open spec fn hash_among(spans: Seq<Span>, h: u64) -> bool {
    exists|i: int|
        0 <= i < spans.len() && #[trigger] key_hash_of(spans[i].trace_id@, spans[i].span_id@) == h
}

/// Whether a set holds the key hashes of spans and nothing else.
#[verifier::opaque]
pub open spec fn hashes_spans(set: Set<u64>, spans: Seq<Span>) -> bool {
    forall|h: u64| #[trigger] set.contains(h) == hash_among(spans, h)
}

fn hashes_of(spans: &[Span]) -> (r: Hashes)
    ensures
        hashes_spans(r@, spans@),
{
    let mut r = Hashes::new();
    let mut i: usize = 0;
    while i < spans.len()
        invariant
            i <= spans@.len(),
            forall|h: u64| #[trigger]
                r@.contains(h) == exists|k: int|
                    0 <= k < i && #[trigger] key_hash_of(spans@[k].trace_id@, spans@[k].span_id@)
                        == h,
        decreases spans@.len() - i,
    {
        let ghost before = r@;
        let hash = key_hash(spans[i].trace_id.as_str(), spans[i].span_id.as_str());
        r.insert(hash);
        assert forall|h: u64| #[trigger] r@.contains(h) == exists|k: int|
            0 <= k < i + 1 && #[trigger] key_hash_of(spans@[k].trace_id@, spans@[k].span_id@)
                == h by {
            if before.contains(h) {
                let k = choose|k: int|
                    0 <= k < i && #[trigger] key_hash_of(spans@[k].trace_id@, spans@[k].span_id@)
                        == h;
                assert(key_hash_of(spans@[k].trace_id@, spans@[k].span_id@) == h);
            }
            if exists|k: int|
                0 <= k < i + 1 && #[trigger] key_hash_of(spans@[k].trace_id@, spans@[k].span_id@)
                    == h {
                let k = choose|k: int|
                    0 <= k < i + 1 && #[trigger] key_hash_of(
                        spans@[k].trace_id@,
                        spans@[k].span_id@,
                    ) == h;
                if k < i {
                    assert(before.contains(h));
                }
            }
        }
        i += 1;
    }
    proof {
        reveal(hashes_spans);
    }
    r
}

/// A key held by a segment is among the hashes from its position on.
proof fn lemma_held_is_hashed<C: Amount>(segments: Seq<Segment<C>>, p: int, span: Span)
    requires
        0 <= p <= segments.len(),
        all_well_formed(segments),
        held_from(segments, p, span),
    ensures
        hashes_from(segments, p).contains(key_hash_of(span.trace_id@, span.span_id@)),
    decreases segments.len() - p,
{
    let q = choose|q: int|
        p <= q < segments.len() && holds_key((#[trigger] segments[q]).spans@, span);
    if q == p {
        let spans = segments[p].spans@;
        let i = choose|i: int| 0 <= i < spans.len() && same_key(#[trigger] spans[i], span);
        assert(key_hash_of(spans[i].trace_id@, spans[i].span_id@) == key_hash_of(
            span.trace_id@,
            span.span_id@,
        ));
        crate::rollup::lemma_key_hashes::<C>(
            spans,
            key_hash_of(span.trace_id@, span.span_id@),
        );
        assert(segments[p].well_formed()) by {
            reveal(all_well_formed);
        }
    } else {
        assert(holds_key(segments[q].spans@, span));
        lemma_held_is_hashed(segments, p + 1, span);
    }
}

/// The buffered spans that count.
fn gather_buffered<'a>(buffer: &'a [Span], window: &Window, mask: Option<&Mask>) -> (r: Vec<
    &'a Span,
>)
    ensures
        spans_of(r@) == picked(buffer@, counted_in_buffer(*window, mask_view(mask))),
{
    let ghost p = counted_in_buffer(*window, mask_view(mask));
    let mut r: Vec<&'a Span> = Vec::new();
    let mut i: usize = 0;
    assert(buffer@.take(0) =~= seq![]);
    assert(spans_of(r@) =~= seq![]);
    while i < buffer.len()
        invariant
            i <= buffer@.len(),
            p == counted_in_buffer(*window, mask_view(mask)),
            spans_of(r@) == picked(buffer@.take(i as int), p),
        decreases buffer@.len() - i,
    {
        let ghost before = r@;
        let span: &'a Span = &buffer[i];
        assert(buffer@.take(i + 1).drop_last() =~= buffer@.take(i as int));
        if window.in_window(span.start_time_ns) && !withheld(mask, span) {
            r.push(span);
            assert(spans_of(r@) =~= spans_of(before).push(*span));
        }
        i += 1;
    }
    assert(buffer@.take(i as int) =~= buffer@);
    r
}

/// Every segment's rollup is what its spans roll up to.
#[verifier::opaque]
pub open spec fn all_well_formed<C: Amount>(segments: Seq<Segment<C>>) -> bool {
    forall|q: int| 0 <= q < segments.len() ==> (#[trigger] segments[q]).well_formed()
}

/// Whether a span has a newer version. The hashes are only a prefilter: a miss
/// proves that the span was never replaced.
fn superseded<C: Amount>(
    buffer: &[Span],
    buffer_hashes: &Hashes,
    segments: &[Segment<C>],
    p: usize,
    newer: &Hashes,
    span: &Span,
) -> (r: bool)
    requires
        p < segments@.len(),
        all_well_formed(segments@),
        hashes_spans(buffer_hashes@, buffer@),
        newer@ == hashes_from(segments@, p + 1),
    ensures
        r == (holds_key(buffer@, *span) || held_from(segments@, p + 1, *span)),
{
    let count: usize = segments.len();
    assert(p < count);
    let hash = key_hash(span.trace_id.as_str(), span.span_id.as_str());
    proof {
        if holds_key(buffer@, *span) {
            reveal(hashes_spans);
            let j = choose|j: int|
                0 <= j < buffer@.len() && same_key(#[trigger] buffer@[j], *span);
            assert(key_hash_of(buffer@[j].trace_id@, buffer@[j].span_id@) == hash);
            assert(hash_among(buffer@, hash));
            assert(buffer_hashes@.contains(hash));
        }
        if held_from(segments@, p + 1, *span) {
            lemma_held_is_hashed(segments@, p + 1, *span);
        }
    }
    if buffer_hashes.contains(hash) && any_version(buffer, span) {
        return true;
    }
    newer.contains(hash) && newer_version(segments, p + 1, span)
}

/// The spans of one segment that count, looked at one by one.
fn gather_survivors<'a, C: Amount>(
    buffer: &[Span],
    buffer_hashes: &Hashes,
    segments: &'a [Segment<C>],
    p: usize,
    newer: &Hashes,
    window: &Window,
    mask: Option<&Mask>,
) -> (r: Vec<&'a Span>)
    requires
        p < segments@.len(),
        all_well_formed(segments@),
        hashes_spans(buffer_hashes@, buffer@),
        newer@ == hashes_from(segments@, p + 1),
    ensures
        spans_of(r@) == survivors(buffer@, segments@, p as int, *window, mask_view(mask)),
{
    let ghost keep = counted_in_segment(buffer@, segments@, p as int, *window, mask_view(mask));
    let ghost all = segments@[p as int].spans@;
    let spans = segments[p].spans.as_slice();
    let mut r: Vec<&'a Span> = Vec::new();
    let mut i: usize = 0;
    assert(all.take(0) =~= seq![]);
    assert(spans_of(r@) =~= seq![]);
    while i < spans.len()
        invariant
            i <= spans@.len(),
            p < segments@.len(),
            all == spans@,
            keep == counted_in_segment(
                buffer@,
                segments@,
                p as int,
                *window,
                mask_view(mask),
            ),
            all_well_formed(segments@),
            hashes_spans(buffer_hashes@, buffer@),
            newer@ == hashes_from(segments@, p + 1),
            spans_of(r@) == picked(all.take(i as int), keep),
        decreases spans@.len() - i,
    {
        let ghost before = r@;
        let span: &'a Span = &spans[i];
        assert(all.take(i + 1).drop_last() =~= all.take(i as int));
        let counts = window.in_window(span.start_time_ns) && !withheld(mask, span) && !superseded(
            buffer,
            buffer_hashes,
            segments,
            p,
            newer,
            span,
        );
        assert(counts == keep(*span));
        if counts {
            r.push(span);
            assert(spans_of(r@) =~= spans_of(before).push(*span));
        }
        i += 1;
    }
    assert(all.take(i as int) =~= all);
    r
}

/// Where the window covers a segment whole, nothing newer may have replaced a
/// span and no erasure is pending, every span counts.
proof fn lemma_whole<C: Amount>(
    buffer: Seq<Span>,
    segments: Seq<Segment<C>>,
    p: int,
    window: Window,
)
    requires
        0 <= p < segments.len(),
        all_well_formed(segments),
        window.holds(segments[p].rollup@.range.min_start_ns),
        window.holds(segments[p].rollup@.range.max_start_ns),
        !shadowed_at(segments, p),
        forall|h: u64| #[trigger]
            segments[p].rollup@.key_hashes.contains(h) ==> !hash_among(buffer, h),
    ensures
        survivors(buffer, segments, p, window, None) == segments[p].spans@,
{
    let spans = segments[p].spans@;
    let keep = counted_in_segment(buffer, segments, p, window, None);
    assert(segments[p].well_formed()) by {
        reveal(all_well_formed);
    }
    assert forall|i: int| 0 <= i < spans.len() implies keep(#[trigger] spans[i]) by {
        let span = spans[i];
        let h = key_hash_of(span.trace_id@, span.span_id@);
        crate::rollup::law_ranges_cover::<C>(spans, i);
        crate::rollup::lemma_key_hashes::<C>(spans, h);
        assert(key_hash_of(spans[i].trace_id@, spans[i].span_id@) == h);
        assert(segments[p].rollup@.key_hashes.contains(h));
        if holds_key(buffer, span) {
            let j = choose|j: int| 0 <= j < buffer.len() && same_key(#[trigger] buffer[j], span);
            assert(key_hash_of(buffer[j].trace_id@, buffer[j].span_id@) == h);
            assert(hash_among(buffer, h));
        }
        if held_from(segments, p + 1, span) {
            lemma_held_is_hashed(segments, p + 1, span);
            assert(shadowed_at(segments, p));
        }
    }
    crate::sets::lemma_picked(spans, keep);
}

/// Where the window misses a segment's range, no span counts.
proof fn lemma_missed<C: Amount>(
    buffer: Seq<Span>,
    segments: Seq<Segment<C>>,
    p: int,
    window: Window,
    mask: Option<MaskView>,
)
    requires
        0 <= p < segments.len(),
        segments[p].well_formed(),
        !window.touches(segments[p].rollup@.range),
    ensures
        survivors(buffer, segments, p, window, mask).len() == 0,
{
    let spans = segments[p].spans@;
    let keep = counted_in_segment(buffer, segments, p, window, mask);
    crate::sets::lemma_picked(spans, keep);
    if picked(spans, keep).len() > 0 {
        let s = picked(spans, keep)[0];
        assert(picked(spans, keep).contains(s));
        let i = choose|i: int| 0 <= i < spans.len() && spans[i] == s;
        crate::rollup::law_ranges_cover::<C>(spans, i);
    }
}

/// What a fold does with one segment.
pub struct SegmentVisit<'a, C: Amount> {
    /// The rollup of the spans that count, where there are any.
    pub visit: Option<Visit<'a, C>>,
    /// Whether the segment is in the window and may share a key with a newer
    /// one.
    pub shadowed: bool,
}

/// The rollup of a segment's spans that count: the segment's own where that is
/// exact, one made span by span where it is not.
fn visit_segment<'a, C: Amount>(
    buffer: &[Span],
    buffer_hashes: &Hashes,
    segments: &'a [Segment<C>],
    p: usize,
    newer: &Hashes,
    window: &Window,
    mask: Option<&Mask>,
) -> (r: SegmentVisit<'a, C>)
    requires
        p < segments@.len(),
        all_well_formed(segments@),
        hashes_spans(buffer_hashes@, buffer@),
        newer@ == hashes_from(segments@, p + 1),
    ensures
        ({
            let left = survivors(buffer@, segments@, p as int, *window, mask_view(mask));
            match r.visit {
                Some(visit) => left.len() > 0 && visit@ == rollup_of::<C>(left),
                None => left.len() == 0,
            }
        }),
        r.shadowed == (window.touches(segments@[p as int].rollup@.range) && shadowed_at(
            segments@,
            p as int,
        )),
{
    let rollup = &segments[p].rollup;
    let range = rollup.bounds();
    proof {
        assert(segments@[p as int].well_formed()) by {
            reveal(all_well_formed);
        }
    }
    if !window.overlaps(&range) {
        proof {
            lemma_missed(buffer@, segments@, p as int, *window, mask_view(mask));
        }
        return SegmentVisit { visit: None, shadowed: false };
    }
    let fully_inside = window.in_window(range.min_start_ns) && window.in_window(range.max_start_ns);
    let shadowed_by_segment = rollup.key_hashes.meets(newer);
    let shadowed_by_buffer = !shadowed_by_segment && rollup.key_hashes.meets(buffer_hashes);
    assert(shadowed_by_segment == shadowed_at(segments@, p as int));
    if fully_inside && !shadowed_by_segment && !shadowed_by_buffer && mask.is_none() {
        proof {
            reveal(hashes_spans);
            lemma_whole(buffer@, segments@, p as int, *window);
        }
        if segments[p].spans.len() > 0 {
            return SegmentVisit { visit: Some(Visit::Whole(rollup)), shadowed: false };
        }
        return SegmentVisit { visit: None, shadowed: false };
    }
    let left = gather_survivors(buffer, buffer_hashes, segments, p, newer, window, mask);
    assert(spans_of(left@).len() == left@.len());
    let visit = if left.len() > 0 {
        Some(Visit::Part(SegmentRollup::build_from(&left)))
    } else {
        None
    };
    SegmentVisit { visit, shadowed: shadowed_by_segment }
}

/// Visits every group of spans that count, buffer first and then the segments
/// newest first. `segments` stand oldest first.
pub fn fold_analytics<'a, C: Amount>(
    buffer: &[Span],
    segments: &'a [Segment<C>],
    window: &Window,
    mask: Option<&Mask>,
) -> (r: Folded<'a, C>)
    requires
        all_well_formed(segments@),
    ensures
        visit_views(r.visits@) == visited(buffer@, segments@, 0, *window, mask_view(mask)),
        r.shadowing == shadowing_from(segments@, 0, *window),
{
    let mut visits: Vec<Visit<'a, C>> = Vec::new();
    let buffered = gather_buffered(buffer, window, mask);
    assert(spans_of(buffered@).len() == buffered@.len());
    if buffered.len() > 0 {
        visits.push(Visit::Part(SegmentRollup::build_from(&buffered)));
    }
    assert(visit_views(visits@) =~= visited(
        buffer@,
        segments@,
        segments@.len() as int,
        *window,
        mask_view(mask),
    ));
    let buffer_hashes = hashes_of(buffer);
    let mut newer = Hashes::new();
    let mut shadowing = false;
    let mut p: usize = segments.len();
    while p > 0
        invariant
            p <= segments@.len(),
            all_well_formed(segments@),
            hashes_spans(buffer_hashes@, buffer@),
            newer@ == hashes_from(segments@, p as int),
            visit_views(visits@) == visited(
                buffer@,
                segments@,
                p as int,
                *window,
                mask_view(mask),
            ),
            shadowing == shadowing_from(segments@, p as int, *window),
        decreases p,
    {
        let ghost before = visits@;
        p -= 1;
        let done = visit_segment(buffer, &buffer_hashes, segments, p, &newer, window, mask);
        if let Some(visit) = done.visit {
            visits.push(visit);
            assert(visit_views(visits@) =~= visit_views(before).push(visit@));
        }
        if done.shadowed {
            shadowing = true;
        }
        proof {
            lemma_shadowing_step(segments@, p as int, *window);
        }
        newer.extend(&segments[p].rollup.key_hashes);
    }
    Folded { visits, shadowing }
}

proof fn lemma_shadowing_step<C: Amount>(segments: Seq<Segment<C>>, p: int, window: Window)
    requires
        0 <= p < segments.len(),
    ensures
        shadowing_from(segments, p, window) == (shadowing_from(segments, p + 1, window) || (
        window.touches(segments[p].rollup@.range) && shadowed_at(segments, p))),
{
    if shadowing_from(segments, p + 1, window) {
        let q = choose|q: int|
            p + 1 <= q < segments.len() && window.touches((#[trigger] segments[q]).rollup@.range)
                && shadowed_at(segments, q);
        assert(window.touches(segments[q].rollup@.range));
    }
    if shadowing_from(segments, p, window) {
        let q = choose|q: int|
            p <= q < segments.len() && window.touches((#[trigger] segments[q]).rollup@.range)
                && shadowed_at(segments, q);
        if q > p {
            assert(window.touches(segments[q].rollup@.range));
        }
    }
}

// ----------------------------------------------------------------------- laws

/// Only the newest version of a span counts: what a segment contributes has no
/// version in the buffer or in a newer segment.
pub proof fn law_only_the_newest_version_counts<C: Amount>(
    buffer: Seq<Span>,
    segments: Seq<Segment<C>>,
    p: int,
    window: Window,
    mask: Option<MaskView>,
    span: Span,
)
    requires
        0 <= p < segments.len(),
        survivors(buffer, segments, p, window, mask).contains(span),
    ensures
        segments[p].spans@.contains(span),
        window.holds(span.start_time_ns),
        !masked(mask, span),
        !holds_key(buffer, span),
        forall|q: int|
            p < q < segments.len() ==> !holds_key((#[trigger] segments[q]).spans@, span),
{
    let keep = counted_in_segment(buffer, segments, p, window, mask);
    crate::sets::lemma_picked(segments[p].spans@, keep);
    assert(keep(span));
    assert forall|q: int| p < q < segments.len() implies !holds_key(
        (#[trigger] segments[q]).spans@,
        span,
    ) by {
        if holds_key(segments[q].spans@, span) {
            assert(held_from(segments, p + 1, span));
        }
    }
}

/// No span is lost: the newest version of every span in the window that no
/// erasure withholds counts.
pub proof fn law_every_newest_version_counts<C: Amount>(
    buffer: Seq<Span>,
    segments: Seq<Segment<C>>,
    p: int,
    window: Window,
    mask: Option<MaskView>,
    span: Span,
)
    requires
        0 <= p < segments.len(),
        segments[p].spans@.contains(span),
        window.holds(span.start_time_ns),
        !masked(mask, span),
        !holds_key(buffer, span),
        !held_from(segments, p + 1, span),
    ensures
        survivors(buffer, segments, p, window, mask).contains(span),
{
    let keep = counted_in_segment(buffer, segments, p, window, mask);
    crate::sets::lemma_picked(segments[p].spans@, keep);
    assert(keep(span));
}

/// A pending erasure is not counted, in the buffer or in a segment.
pub proof fn law_a_pending_erasure_is_not_counted<C: Amount>(
    buffer: Seq<Span>,
    segments: Seq<Segment<C>>,
    p: int,
    window: Window,
    mask: MaskView,
    span: Span,
)
    requires
        0 <= p < segments.len(),
        mask.hides(&span),
    ensures
        !survivors(buffer, segments, p, window, Some(mask)).contains(span),
        !picked(buffer, counted_in_buffer(window, Some(mask))).contains(span),
{
    crate::sets::lemma_picked(
        segments[p].spans@,
        counted_in_segment(buffer, segments, p, window, Some(mask)),
    );
    crate::sets::lemma_picked(buffer, counted_in_buffer(window, Some(mask)));
}

/// The wire names of session orders read back.
pub proof fn law_order_names_read_back(order: SessionOrder)
    ensures
        SessionOrder::named(order.name()) == Some(order),
{
    reveal_strlit("recent");
    reveal_strlit("cost");
    reveal_strlit("errors");
    reveal_strlit("tokens");
    assert("recent"@[0] == 'r' && "cost"@[0] == 'c' && "errors"@[0] == 'e' && "tokens"@[0] == 't');
}

/// The wire names of session orders, and no others.
pub proof fn law_order_names(name: Seq<char>)
    ensures
        name == "recent"@ <==> SessionOrder::named(name) == Some(SessionOrder::Recent),
        name == "cost"@ <==> SessionOrder::named(name) == Some(SessionOrder::Cost),
        name == "errors"@ <==> SessionOrder::named(name) == Some(SessionOrder::Errors),
        name == "tokens"@ <==> SessionOrder::named(name) == Some(SessionOrder::Tokens),
{
    reveal_strlit("recent");
    reveal_strlit("cost");
    reveal_strlit("errors");
    reveal_strlit("tokens");
    assert("recent"@[0] == 'r' && "cost"@[0] == 'c' && "errors"@[0] == 'e' && "tokens"@[0] == 't');
}

/// The wire names of dimensions, and no others.
pub proof fn law_dimension_names(name: Seq<char>)
    ensures
        name == "model"@ <==> LlmGroupBy::named(name) == Some(LlmGroupBy::Model),
        name == "provider"@ <==> LlmGroupBy::named(name) == Some(LlmGroupBy::Provider),
        name == "service"@ <==> LlmGroupBy::named(name) == Some(LlmGroupBy::Service),
        name == "session"@ <==> LlmGroupBy::named(name) == Some(LlmGroupBy::Session),
        name == "day"@ <==> LlmGroupBy::named(name) == Some(LlmGroupBy::Day),
{
    reveal_strlit("model");
    reveal_strlit("provider");
    reveal_strlit("service");
    reveal_strlit("session");
    reveal_strlit("day");
    assert("model"@[0] == 'm' && "provider"@[0] == 'p' && "day"@[0] == 'd');
    assert("service"@[2] == 'r' && "session"@[2] == 's');
    assert("service"@[0] == 's' && "session"@[0] == 's');
}

/// A window holds the times from its first to its last, both among them; an end
/// left open holds everything on that side.
pub proof fn law_a_window_holds_its_bounds(a: u64, b: u64, t: u64, range: Bounds)
    requires
        range.min_start_ns <= t <= range.max_start_ns,
    ensures
        ({
            let whole = Window { since_ns: None, until_ns: None };
            let from = Window { since_ns: Some(a), until_ns: None };
            let to = Window { since_ns: None, until_ns: Some(b) };
            let between = Window { since_ns: Some(a), until_ns: Some(b) };
            &&& whole.holds(t)
            &&& from.holds(t) == (a <= t)
            &&& to.holds(t) == (t <= b)
            &&& between.holds(t) == (a <= t <= b)
            &&& between.holds(t) ==> between.touches(range)
            &&& from.touches(range) == (a <= range.max_start_ns)
            &&& to.touches(range) == (range.min_start_ns <= b)
        }),
{
}

/// Whether a span counts: it started in the window and no erasure withholds it.
pub open spec fn counts(span: Span, window: Window, mask: Option<MaskView>) -> bool {
    &&& window.since_ns is Some ==> window.since_ns->0 <= span.start_time_ns
    &&& window.until_ns is Some ==> span.start_time_ns <= window.until_ns->0
    &&& mask is Some ==> !(mask->0).hides(&span)
}

/// Whether a list of spans holds one under the same trace and span id.
pub open spec fn versioned(spans: Seq<Span>, span: Span) -> bool {
    exists|i: int|
        0 <= i < spans.len() && (#[trigger] spans[i]).trace_id@ == span.trace_id@
            && spans[i].span_id@ == span.span_id@
}

/// The spans that count, from the buffer and from the segments at `p` and
/// above: of every span the newest version, the buffer's before any segment's
/// and a later segment's before an earlier one's.
pub open spec fn live<C: Amount>(
    buffer: Seq<Span>,
    segments: Seq<Segment<C>>,
    p: int,
    window: Window,
    mask: Option<MaskView>,
) -> Seq<Span>
    decreases segments.len() - p,
{
    if p < 0 || p >= segments.len() {
        buffer.filter(|s: Span| counts(s, window, mask))
    } else {
        live(buffer, segments, p + 1, window, mask) + segments[p].spans@.filter(
            |s: Span|
                counts(s, window, mask) && !versioned(buffer, s) && forall|q: int|
                    p < q < segments.len() ==> !versioned((#[trigger] segments[q]).spans@, s),
        )
    }
}

proof fn lemma_filter_alike(s: Seq<Span>, p: spec_fn(Span) -> bool, q: spec_fn(Span) -> bool)
    requires
        forall|a: Span| #[trigger] p(a) == q(a),
    ensures
        s.filter(p) == s.filter(q),
    decreases s.len(),
{
    reveal(Seq::filter);
    if s.len() > 0 {
        lemma_filter_alike(s.drop_last(), p, q);
        assert(p(s.last()) == q(s.last()));
    }
}

proof fn lemma_versioned(spans: Seq<Span>, span: Span)
    ensures
        holds_key(spans, span) == versioned(spans, span),
{
    if holds_key(spans, span) {
        let i = choose|i: int| 0 <= i < spans.len() && same_key(#[trigger] spans[i], span);
        assert(spans[i].trace_id@ == span.trace_id@);
    }
    if versioned(spans, span) {
        let i = choose|i: int|
            0 <= i < spans.len() && (#[trigger] spans[i]).trace_id@ == span.trace_id@
                && spans[i].span_id@ == span.span_id@;
        assert(same_key(spans[i], span));
    }
}

/// The buffer's part of what counts.
pub proof fn lemma_buffer_part(buffer: Seq<Span>, window: Window, mask: Option<MaskView>)
    ensures
        picked(buffer, counted_in_buffer(window, mask)) == buffer.filter(
            |s: Span| counts(s, window, mask),
        ),
{
    let p = counted_in_buffer(window, mask);
    let q = |s: Span| counts(s, window, mask);
    crate::sets::law_picking_is_filtering(buffer, p);
    assert forall|a: Span| #[trigger] p(a) == q(a) by {}
    lemma_filter_alike(buffer, p, q);
}

/// A segment's part of what counts.
pub proof fn lemma_segment_part<C: Amount>(
    buffer: Seq<Span>,
    segments: Seq<Segment<C>>,
    p: int,
    window: Window,
    mask: Option<MaskView>,
)
    requires
        0 <= p < segments.len(),
    ensures
        live(buffer, segments, p, window, mask) == live(buffer, segments, p + 1, window, mask)
            + survivors(buffer, segments, p, window, mask),
{
    let keep = counted_in_segment(buffer, segments, p, window, mask);
    let q = |s: Span|
        counts(s, window, mask) && !versioned(buffer, s) && forall|q: int|
            p < q < segments.len() ==> !versioned((#[trigger] segments[q]).spans@, s);
    crate::sets::law_picking_is_filtering(segments[p].spans@, keep);
    assert forall|a: Span| #[trigger] keep(a) == q(a) by {
        lemma_versioned(buffer, a);
        if held_from(segments, p + 1, a) {
            let w = choose|w: int|
                p + 1 <= w < segments.len() && holds_key((#[trigger] segments[w]).spans@, a);
            lemma_versioned(segments[w].spans@, a);
            assert(versioned(segments[w].spans@, a));
        } else {
            assert forall|w: int| p < w < segments.len() implies !versioned(
                (#[trigger] segments[w]).spans@,
                a,
            ) by {
                lemma_versioned(segments[w].spans@, a);
                assert(!holds_key(segments[w].spans@, a));
            }
        }
    }
    lemma_filter_alike(segments[p].spans@, keep, q);
}

} // verus!