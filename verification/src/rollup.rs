//! What the spans of a segment add up to, by model, provider, service, day and
//! session.
//!
//! Segments are immutable, so a rollup is valid for as long as its segment
//! exists. Sums stop at the largest number they can hold.

use vstd::prelude::*;
use vstd::utf8::encode_utf8;

use crate::days::{day_bucket, day_of};
use crate::erasure::{collect_refs, span_refs};
use crate::hash::{fnv, fnv_over, fnv_step, FNV_BASIS, FNV_PRIME};
use crate::sets::{adjoin, adjoin_all, Distinct};
use crate::span::{spans_of, SessionKey, Span};
use crate::table::{keys_differ, table_of, Hashes, Table};
use crate::text::{copy, opt_view, same};

verus! {

/// The native attribute carrying a session identifier.
pub const SESSION_ATTRIBUTE: &'static str = "session.id";

/// Amounts of money: read from the bits they were recorded in, summed, and
/// ranked.
pub trait Amount: Copy {
    /// The amount that recorded bits stand for.
    spec fn recorded(bits: u64) -> Self;

    /// No amount at all.
    spec fn nothing() -> Self;

    spec fn sum(self, other: Self) -> Self;

    /// Where the amount stands among amounts: the larger, the higher.
    spec fn weight(self) -> i64;

    fn read(bits: u64) -> (r: Self)
        ensures
            r == Self::recorded(bits),
    ;

    fn zero() -> (r: Self)
        ensures
            r == Self::nothing(),
    ;

    fn plus(self, other: Self) -> (r: Self)
        ensures
            r == self.sum(other),
    ;

    fn rank(self) -> (r: i64)
        ensures
            r == self.weight(),
    ;
}

/// Whole millionths of a currency unit.
#[derive(Clone, Copy, Debug, PartialEq, Eq, Structural)]
pub struct Micros {
    pub millionths: u64,
}

impl Amount for Micros {
    open spec fn recorded(bits: u64) -> Self {
        Micros { millionths: bits }
    }

    open spec fn nothing() -> Self {
        Micros { millionths: 0 }
    }

    open spec fn sum(self, other: Self) -> Self {
        Micros { millionths: plus(self.millionths, other.millionths) }
    }

    open spec fn weight(self) -> i64 {
        if self.millionths <= i64::MAX {
            self.millionths as i64
        } else {
            i64::MAX
        }
    }

    fn read(bits: u64) -> (r: Self) {
        Micros { millionths: bits }
    }

    fn zero() -> (r: Self) {
        Micros { millionths: 0 }
    }

    fn plus(self, other: Self) -> (r: Self) {
        Micros { millionths: self.millionths.saturating_add(other.millionths) }
    }

    fn rank(self) -> (r: i64) {
        if self.millionths <= 0x7fff_ffff_ffff_ffff {
            self.millionths as i64
        } else {
            i64::MAX
        }
    }
}

/// A sum, as far as numbers go.
pub open spec fn plus(a: u64, b: u64) -> u64 {
    if a + b <= u64::MAX {
        (a + b) as u64
    } else {
        u64::MAX
    }
}

/// A count, as far as numbers go.
pub open spec fn plus_count(a: usize, b: usize) -> usize {
    if a + b <= usize::MAX {
        (a + b) as usize
    } else {
        usize::MAX
    }
}

// ------------------------------------------------------------------- counters

/// What a group of spans adds up to.
#[derive(Clone, Copy, Debug)]
pub struct Counters<C> {
    pub spans: usize,
    pub llm_calls: usize,
    pub prompt_tokens: u64,
    pub completion_tokens: u64,
    pub total_tokens: u64,
    pub cost: C,
    pub errors: usize,
    pub llm_duration_ns: u64,
}

impl<C> View for Counters<C> {
    type V = Counters<C>;

    open spec fn view(&self) -> Counters<C> {
        *self
    }
}

pub open spec fn or_zero(n: Option<u64>) -> u64 {
    match n {
        Some(n) => n,
        None => 0,
    }
}

/// How long a span took.
pub open spec fn duration(span: Span) -> u64 {
    if span.end_time_ns > span.start_time_ns {
        (span.end_time_ns - span.start_time_ns) as u64
    } else {
        0
    }
}

pub open spec fn has_error(span: Span) -> bool {
    span.status@ == "error"@
}

impl<C: Amount> Counters<C> {
    pub open spec fn none() -> Self {
        Counters {
            spans: 0,
            llm_calls: 0,
            prompt_tokens: 0,
            completion_tokens: 0,
            total_tokens: 0,
            cost: C::nothing(),
            errors: 0,
            llm_duration_ns: 0,
        }
    }

    /// The counters with one more span.
    pub open spec fn with(self, span: Span) -> Self {
        Counters {
            spans: plus_count(self.spans, 1),
            llm_calls: if span.facts.is_llm {
                plus_count(self.llm_calls, 1)
            } else {
                self.llm_calls
            },
            prompt_tokens: plus(self.prompt_tokens, or_zero(span.facts.prompt_tokens)),
            completion_tokens: plus(self.completion_tokens, or_zero(span.facts.completion_tokens)),
            total_tokens: plus(self.total_tokens, span.facts.total_tokens),
            cost: self.cost.sum(
                match span.facts.cost_bits {
                    Some(bits) => C::recorded(bits),
                    None => C::nothing(),
                },
            ),
            errors: if has_error(span) {
                plus_count(self.errors, 1)
            } else {
                self.errors
            },
            llm_duration_ns: if span.facts.is_llm {
                plus(self.llm_duration_ns, duration(span))
            } else {
                self.llm_duration_ns
            },
        }
    }

    /// Two groups together.
    pub open spec fn merged(self, other: Self) -> Self {
        Counters {
            spans: plus_count(self.spans, other.spans),
            llm_calls: plus_count(self.llm_calls, other.llm_calls),
            prompt_tokens: plus(self.prompt_tokens, other.prompt_tokens),
            completion_tokens: plus(self.completion_tokens, other.completion_tokens),
            total_tokens: plus(self.total_tokens, other.total_tokens),
            cost: self.cost.sum(other.cost),
            errors: plus_count(self.errors, other.errors),
            llm_duration_ns: plus(self.llm_duration_ns, other.llm_duration_ns),
        }
    }

    pub fn zero() -> (r: Self)
        ensures
            r == Self::none(),
    {
        Counters {
            spans: 0,
            llm_calls: 0,
            prompt_tokens: 0,
            completion_tokens: 0,
            total_tokens: 0,
            cost: C::zero(),
            errors: 0,
            llm_duration_ns: 0,
        }
    }

    /// Folds one span in.
    pub fn absorb(&mut self, span: &Span)
        ensures
            *final(self) == old(self).with(*span),
    {
        self.spans = self.spans.saturating_add(1);
        if same(span.status.as_str(), "error") {
            self.errors = self.errors.saturating_add(1);
        }
        if span.facts.is_llm {
            self.llm_calls = self.llm_calls.saturating_add(1);
            let took: u64 = if span.end_time_ns > span.start_time_ns {
                span.end_time_ns - span.start_time_ns
            } else {
                0
            };
            self.llm_duration_ns = self.llm_duration_ns.saturating_add(took);
        }
        let prompt: u64 = match span.facts.prompt_tokens {
            Some(n) => n,
            None => 0,
        };
        self.prompt_tokens = self.prompt_tokens.saturating_add(prompt);
        let completion: u64 = match span.facts.completion_tokens {
            Some(n) => n,
            None => 0,
        };
        self.completion_tokens = self.completion_tokens.saturating_add(completion);
        self.total_tokens = self.total_tokens.saturating_add(span.facts.total_tokens);
        let cost = match span.facts.cost_bits {
            Some(bits) => C::read(bits),
            None => C::zero(),
        };
        self.cost = self.cost.plus(cost);
    }

    /// Folds another group in.
    pub fn merge(&mut self, other: &Self)
        ensures
            *final(self) == old(self).merged(*other),
    {
        self.spans = self.spans.saturating_add(other.spans);
        self.llm_calls = self.llm_calls.saturating_add(other.llm_calls);
        self.prompt_tokens = self.prompt_tokens.saturating_add(other.prompt_tokens);
        self.completion_tokens = self.completion_tokens.saturating_add(other.completion_tokens);
        self.total_tokens = self.total_tokens.saturating_add(other.total_tokens);
        self.cost = self.cost.plus(other.cost);
        self.errors = self.errors.saturating_add(other.errors);
        self.llm_duration_ns = self.llm_duration_ns.saturating_add(other.llm_duration_ns);
    }
}

/// What a sequence of spans adds up to.
pub open spec fn counted<C: Amount>(spans: Seq<Span>) -> Counters<C>
    decreases spans.len(),
{
    if spans.len() == 0 {
        Counters::none()
    } else {
        counted::<C>(spans.drop_last()).with(spans.last())
    }
}

// ------------------------------------------------------------------- sessions

/// A session key's name and its place in the recognized order.
pub type KeyName = (Seq<char>, usize);

pub open spec fn key_name(key: Option<SessionKey>) -> Option<KeyName> {
    match key {
        Some(key) => Some((key.name@, key.rank)),
        None => None,
    }
}

/// The higher-precedence session key: the one earlier in the recognized order;
/// of equals the one held.
pub open spec fn preferred(current: Option<KeyName>, candidate: Option<KeyName>) -> Option<KeyName> {
    match (current, candidate) {
        (None, other) => other,
        (other, None) => other,
        (Some(held), Some(new)) => if new.1 < held.1 {
            Some(new)
        } else {
            Some(held)
        },
    }
}

fn copy_key(key: &Option<SessionKey>) -> (r: Option<SessionKey>)
    ensures
        key_name(r) == key_name(*key),
{
    match key {
        Some(key) => Some(SessionKey { name: copy(key.name.as_str()), rank: key.rank }),
        None => None,
    }
}

/// Keeps the higher-precedence session key.
pub fn prefer_key(current: &Option<SessionKey>, candidate: &Option<SessionKey>) -> (r: Option<
    SessionKey,
>)
    ensures
        key_name(r) == preferred(key_name(*current), key_name(*candidate)),
{
    match (current, candidate) {
        (None, _) => copy_key(candidate),
        (_, None) => copy_key(current),
        (Some(held), Some(new)) => if new.rank < held.rank {
            copy_key(candidate)
        } else {
            copy_key(current)
        },
    }
}

/// What the spans of one session add up to.
#[derive(Debug)]
pub struct SessionCounters<C> {
    pub counters: Counters<C>,
    pub first_start_ns: u64,
    pub last_end_ns: u64,
    pub traces: Distinct<String>,
    /// The highest-precedence key seen.
    pub session_key: Option<SessionKey>,
}

pub struct SessionView<C> {
    pub counters: Counters<C>,
    pub first_start_ns: u64,
    pub last_end_ns: u64,
    pub traces: Seq<Seq<char>>,
    pub session_key: Option<KeyName>,
}

impl<C> View for SessionCounters<C> {
    type V = SessionView<C>;

    open spec fn view(&self) -> SessionView<C> {
        SessionView {
            counters: self.counters,
            first_start_ns: self.first_start_ns,
            last_end_ns: self.last_end_ns,
            traces: self.traces@,
            session_key: key_name(self.session_key),
        }
    }
}

impl<C: Amount> SessionView<C> {
    pub open spec fn none() -> Self {
        SessionView {
            counters: Counters::none(),
            first_start_ns: 0,
            last_end_ns: 0,
            traces: seq![],
            session_key: None,
        }
    }

    /// The session with one more span.
    pub open spec fn with(self, span: Span) -> Self {
        SessionView {
            counters: self.counters.with(span),
            first_start_ns: if self.counters.spans == 0 || span.start_time_ns
                < self.first_start_ns {
                span.start_time_ns
            } else {
                self.first_start_ns
            },
            last_end_ns: if span.end_time_ns > self.last_end_ns {
                span.end_time_ns
            } else {
                self.last_end_ns
            },
            traces: adjoin(self.traces, span.trace_id@),
            session_key: preferred(self.session_key, key_name(span.facts.session_key)),
        }
    }

    /// Two parts of a session together.
    pub open spec fn merged(self, other: Self) -> Self {
        SessionView {
            counters: self.counters.merged(other.counters),
            first_start_ns: if self.counters.spans == 0 || other.first_start_ns
                < self.first_start_ns {
                other.first_start_ns
            } else {
                self.first_start_ns
            },
            last_end_ns: if other.last_end_ns > self.last_end_ns {
                other.last_end_ns
            } else {
                self.last_end_ns
            },
            traces: adjoin_all(self.traces, other.traces),
            session_key: preferred(self.session_key, other.session_key),
        }
    }

    /// The session key to report.
    pub open spec fn reported_key(self) -> Seq<char> {
        match self.session_key {
            Some((name, _)) => name,
            None => SESSION_ATTRIBUTE@,
        }
    }
}

impl<C: Amount> SessionCounters<C> {
    pub fn zero() -> (r: Self)
        ensures
            r@ == SessionView::<C>::none(),
    {
        let r = SessionCounters {
            counters: Counters::zero(),
            first_start_ns: 0,
            last_end_ns: 0,
            traces: Distinct::new(),
            session_key: None,
        };
        assert(r@.traces =~= seq![]);
        r
    }

    pub fn absorb(&mut self, span: &Span)
        ensures
            final(self)@ == old(self)@.with(*span),
    {
        if self.counters.spans == 0 || span.start_time_ns < self.first_start_ns {
            self.first_start_ns = span.start_time_ns;
        }
        if span.end_time_ns > self.last_end_ns {
            self.last_end_ns = span.end_time_ns;
        }
        self.traces.insert(copy(span.trace_id.as_str()));
        self.session_key = prefer_key(&self.session_key, &span.facts.session_key);
        self.counters.absorb(span);
    }

    pub fn merge(&mut self, other: &Self)
        ensures
            final(self)@ == old(self)@.merged(other@),
    {
        if self.counters.spans == 0 || other.first_start_ns < self.first_start_ns {
            self.first_start_ns = other.first_start_ns;
        }
        if other.last_end_ns > self.last_end_ns {
            self.last_end_ns = other.last_end_ns;
        }
        add_all(&mut self.traces, &other.traces);
        self.session_key = prefer_key(&self.session_key, &other.session_key);
        self.counters.merge(&other.counters);
    }

    /// The session key to report, defaulting to the native one.
    pub fn attribute(&self) -> (r: String)
        ensures
            r@ == self@.reported_key(),
    {
        match &self.session_key {
            Some(key) => copy(key.name.as_str()),
            None => copy(SESSION_ATTRIBUTE),
        }
    }
}

/// Adds every text of one set to another.
pub fn add_all(into: &mut Distinct<String>, more: &Distinct<String>)
    ensures
        final(into)@ == adjoin_all(old(into)@, more@),
{
    let ghost start = into@;
    let list = more.items();
    let ghost all = more@;
    let mut i: usize = 0;
    assert(all.take(0) =~= seq![]);
    while i < list.len()
        invariant
            i <= list@.len(),
            crate::sets::keys(list@) == all,
            into@ == adjoin_all(start, all.take(i as int)),
        decreases list@.len() - i,
    {
        assert(all.take(i + 1).drop_last() =~= all.take(i as int));
        assert(all[i as int] == list@[i as int]@);
        into.insert(copy(list[i].as_str()));
        i += 1;
    }
    assert(all.take(i as int) =~= all);
}

// -------------------------------------------------------------------- rollups

/// The hash of a span's trace and id.
pub open spec fn key_hash_of(trace: Seq<char>, span: Seq<char>) -> u64 {
    fnv(FNV_BASIS, encode_utf8(trace) + seq![0u8] + encode_utf8(span))
}

proof fn lemma_fnv_concat(hash: u64, a: Seq<u8>, b: Seq<u8>)
    ensures
        fnv(hash, a + b) == fnv(fnv(hash, a), b),
    decreases b.len(),
{
    if b.len() == 0 {
        assert(a + b =~= a);
    } else {
        lemma_fnv_concat(hash, a, b.drop_last());
        assert((a + b).drop_last() =~= a + b.drop_last());
    }
}

/// FNV-1a over the trace and the span id. Only a prefilter: a collision can
/// force an exact look, never a wrong count.
pub fn key_hash(trace_id: &str, span_id: &str) -> (r: u64)
    ensures
        r == key_hash_of(trace_id@, span_id@),
{
    let trace = trace_id.as_bytes();
    let span = span_id.as_bytes();
    let first = fnv_over(FNV_BASIS, trace);
    let second: u64 = (first ^ 0u64).wrapping_mul(FNV_PRIME);
    proof {
        let mark = seq![0u8];
        assert(fnv(first, mark) == fnv_step(first, 0)) by {
            reveal_with_fuel(fnv, 2);
            assert(mark.drop_last() =~= seq![]);
        }
        lemma_fnv_concat(FNV_BASIS, trace@, mark);
        lemma_fnv_concat(FNV_BASIS, trace@ + mark, span@);
    }
    fnv_over(second, span)
}

/// The inclusive ranges of a rollup's start and end times.
#[derive(Clone, Copy, Debug, PartialEq, Eq, Structural)]
pub struct Bounds {
    pub min_start_ns: u64,
    pub max_start_ns: u64,
    pub min_end_ns: u64,
    pub max_end_ns: u64,
}

impl Bounds {
    /// The bounds before the first span.
    pub open spec fn none() -> Bounds {
        Bounds { min_start_ns: u64::MAX, max_start_ns: 0, min_end_ns: u64::MAX, max_end_ns: 0 }
    }

    pub open spec fn with(self, span: Span) -> Bounds {
        Bounds {
            min_start_ns: if span.start_time_ns < self.min_start_ns {
                span.start_time_ns
            } else {
                self.min_start_ns
            },
            max_start_ns: if span.start_time_ns > self.max_start_ns {
                span.start_time_ns
            } else {
                self.max_start_ns
            },
            min_end_ns: if span.end_time_ns < self.min_end_ns {
                span.end_time_ns
            } else {
                self.min_end_ns
            },
            max_end_ns: if span.end_time_ns > self.max_end_ns {
                span.end_time_ns
            } else {
                self.max_end_ns
            },
        }
    }

    /// A minimum that nothing lowered is zero.
    pub open spec fn settled(self) -> Bounds {
        Bounds {
            min_start_ns: if self.min_start_ns == u64::MAX {
                0
            } else {
                self.min_start_ns
            },
            min_end_ns: if self.min_end_ns == u64::MAX {
                0
            } else {
                self.min_end_ns
            },
            ..self
        }
    }

    fn widen(&mut self, span: &Span)
        ensures
            *final(self) == old(self).with(*span),
    {
        if span.start_time_ns < self.min_start_ns {
            self.min_start_ns = span.start_time_ns;
        }
        if span.start_time_ns > self.max_start_ns {
            self.max_start_ns = span.start_time_ns;
        }
        if span.end_time_ns < self.min_end_ns {
            self.min_end_ns = span.end_time_ns;
        }
        if span.end_time_ns > self.max_end_ns {
            self.max_end_ns = span.end_time_ns;
        }
    }

    fn settle(&mut self)
        ensures
            *final(self) == old(self).settled(),
    {
        if self.min_start_ns == u64::MAX {
            self.min_start_ns = 0;
        }
        if self.min_end_ns == u64::MAX {
            self.min_end_ns = 0;
        }
    }
}

/// What the spans of a segment add up to.
#[derive(Debug)]
pub struct SegmentRollup<C: Amount> {
    /// The ranges of start times and of end times. A span may end well after
    /// the last span of its segment started.
    pub range: Bounds,
    pub by_model: Table<Counters<C>>,
    pub by_provider: Table<Counters<C>>,
    pub by_service: Table<Counters<C>>,
    pub by_day: Table<Counters<C>>,
    pub by_session_key: Table<Counters<C>>,
    pub sessions: Table<SessionCounters<C>>,
    /// The hashes of every span's key: the prefilter for superseded spans.
    pub key_hashes: Hashes,
    /// The payload references held by any span.
    pub payload_refs: Distinct<String>,
}

pub struct RollupView<C> {
    pub range: Bounds,
    pub by_model: Map<Seq<char>, Counters<C>>,
    pub by_provider: Map<Seq<char>, Counters<C>>,
    pub by_service: Map<Seq<char>, Counters<C>>,
    pub by_day: Map<Seq<char>, Counters<C>>,
    pub by_session_key: Map<Seq<char>, Counters<C>>,
    pub sessions: Map<Seq<char>, SessionView<C>>,
    pub key_hashes: Set<u64>,
    pub payload_refs: Seq<Seq<char>>,
}

impl<C: Amount> View for SegmentRollup<C> {
    type V = RollupView<C>;

    open spec fn view(&self) -> RollupView<C> {
        RollupView {
            range: self.range,
            by_model: self.by_model@,
            by_provider: self.by_provider@,
            by_service: self.by_service@,
            by_day: self.by_day@,
            by_session_key: self.by_session_key@,
            sessions: self.sessions@,
            key_hashes: self.key_hashes@,
            payload_refs: self.payload_refs@,
        }
    }
}

/// What a table holds under a key; nothing held is nothing counted.
pub open spec fn group_at<C: Amount>(m: Map<Seq<char>, Counters<C>>, k: Seq<char>) -> Counters<C> {
    if m.contains_key(k) {
        m[k]
    } else {
        Counters::none()
    }
}

pub open spec fn session_at<C: Amount>(
    m: Map<Seq<char>, SessionView<C>>,
    k: Seq<char>,
) -> SessionView<C> {
    if m.contains_key(k) {
        m[k]
    } else {
        SessionView::none()
    }
}

/// The groups with one more span, where the span belongs to one.
pub open spec fn grouped<C: Amount>(
    m: Map<Seq<char>, Counters<C>>,
    k: Option<Seq<char>>,
    span: Span,
) -> Map<Seq<char>, Counters<C>> {
    match k {
        Some(k) => m.insert(k, group_at(m, k).with(span)),
        None => m,
    }
}

pub open spec fn in_sessions<C: Amount>(
    m: Map<Seq<char>, SessionView<C>>,
    k: Option<Seq<char>>,
    span: Span,
) -> Map<Seq<char>, SessionView<C>> {
    match k {
        Some(k) => m.insert(k, session_at(m, k).with(span)),
        None => m,
    }
}

impl<C: Amount> RollupView<C> {
    pub open spec fn none(range: Bounds) -> Self {
        RollupView {
            range,
            by_model: Map::empty(),
            by_provider: Map::empty(),
            by_service: Map::empty(),
            by_day: Map::empty(),
            by_session_key: Map::empty(),
            sessions: Map::empty(),
            key_hashes: Set::empty(),
            payload_refs: seq![],
        }
    }

    /// The rollup with one more span.
    pub open spec fn with(self, span: Span) -> Self {
        RollupView {
            range: self.range.with(span),
            by_model: grouped(self.by_model, opt_view(span.facts.model), span),
            by_provider: grouped(self.by_provider, opt_view(span.facts.provider), span),
            by_service: grouped(self.by_service, Some(span.service@), span),
            by_day: grouped(self.by_day, Some(day_of(span.start_time_ns)), span),
            by_session_key: grouped(self.by_session_key, opt_view(span.facts.session), span),
            sessions: in_sessions(self.sessions, opt_view(span.facts.session), span),
            key_hashes: self.key_hashes.insert(key_hash_of(span.trace_id@, span.span_id@)),
            payload_refs: adjoin_all(self.payload_refs, span_refs(&span, false)),
        }
    }
}

/// The spans absorbed one by one.
pub open spec fn absorbed<C: Amount>(spans: Seq<Span>) -> RollupView<C>
    decreases spans.len(),
{
    if spans.len() == 0 {
        RollupView::none(Bounds::none())
    } else {
        absorbed::<C>(spans.drop_last()).with(spans.last())
    }
}

/// What a sequence of spans rolls up to.
pub open spec fn rollup_of<C: Amount>(spans: Seq<Span>) -> RollupView<C> {
    let all = absorbed::<C>(spans);
    RollupView { range: all.range.settled(), ..all }
}

fn absorb_group<C: Amount>(table: &mut Table<Counters<C>>, key: &str, span: &Span)
    ensures
        final(table)@ == grouped(old(table)@, Some(key@), *span),
{
    let ghost before = table@;
    let mut counters = match table.remove(key) {
        Some(counters) => counters,
        None => Counters::zero(),
    };
    counters.absorb(span);
    table.put(key, counters);
    assert(table@ =~= grouped(before, Some(key@), *span));
}

fn absorb_session<C: Amount>(table: &mut Table<SessionCounters<C>>, key: &str, span: &Span)
    ensures
        final(table)@ == in_sessions(old(table)@, Some(key@), *span),
{
    let ghost before = table@;
    let mut counters = match table.remove(key) {
        Some(counters) => counters,
        None => SessionCounters::zero(),
    };
    counters.absorb(span);
    table.put(key, counters);
    assert(table@ =~= in_sessions(before, Some(key@), *span));
}

impl<C: Amount> SegmentRollup<C> {
    /// A rollup of nothing, over known ranges.
    pub fn empty(range: Bounds) -> (r: Self)
        ensures
            r@ == RollupView::<C>::none(range),
    {
        SegmentRollup {
            range,
            by_model: Table::new(),
            by_provider: Table::new(),
            by_service: Table::new(),
            by_day: Table::new(),
            by_session_key: Table::new(),
            sessions: Table::new(),
            key_hashes: Hashes::new(),
            payload_refs: Distinct::new(),
        }
    }

    /// The timestamp ranges this rollup covers.
    pub fn bounds(&self) -> (r: Bounds)
        ensures
            r == self@.range,
    {
        self.range
    }

    fn absorb(&mut self, span: &Span)
        ensures
            final(self)@ == old(self)@.with(*span),
    {
        self.range.widen(span);
        self.key_hashes.insert(key_hash(span.trace_id.as_str(), span.span_id.as_str()));
        collect_refs(span, false, &mut self.payload_refs);
        if let Some(model) = &span.facts.model {
            absorb_group(&mut self.by_model, model.as_str(), span);
        }
        if let Some(provider) = &span.facts.provider {
            absorb_group(&mut self.by_provider, provider.as_str(), span);
        }
        absorb_group(&mut self.by_service, span.service.as_str(), span);
        let day = day_bucket(span.start_time_ns);
        absorb_group(&mut self.by_day, day.as_str(), span);
        if let Some(session) = &span.facts.session {
            absorb_group(&mut self.by_session_key, session.as_str(), span);
            absorb_session(&mut self.sessions, session.as_str(), span);
        }
    }

    /// What the given spans roll up to.
    pub fn build(spans: &[Span]) -> (r: Self)
        ensures
            r@ == rollup_of::<C>(spans@),
    {
        let mut rollup = SegmentRollup::empty(
            Bounds { min_start_ns: u64::MAX, max_start_ns: 0, min_end_ns: u64::MAX, max_end_ns: 0 },
        );
        let mut i: usize = 0;
        assert(spans@.take(0) =~= seq![]);
        while i < spans.len()
            invariant
                i <= spans@.len(),
                rollup@ == absorbed::<C>(spans@.take(i as int)),
            decreases spans@.len() - i,
        {
            assert(spans@.take(i + 1).drop_last() =~= spans@.take(i as int));
            rollup.absorb(&spans[i]);
            i += 1;
        }
        assert(spans@.take(i as int) =~= spans@);
        rollup.range.settle();
        rollup
    }

    /// What the given spans roll up to, the spans being elsewhere.
    pub fn build_from(spans: &Vec<&Span>) -> (r: Self)
        ensures
            r@ == rollup_of::<C>(spans_of(spans@)),
    {
        let ghost all = spans_of(spans@);
        let mut rollup = SegmentRollup::empty(
            Bounds { min_start_ns: u64::MAX, max_start_ns: 0, min_end_ns: u64::MAX, max_end_ns: 0 },
        );
        let mut i: usize = 0;
        assert(all.take(0) =~= seq![]);
        while i < spans.len()
            invariant
                i <= spans@.len(),
                all == spans_of(spans@),
                rollup@ == absorbed::<C>(all.take(i as int)),
            decreases spans@.len() - i,
        {
            assert(all.take(i + 1).drop_last() =~= all.take(i as int));
            rollup.absorb(spans[i]);
            i += 1;
        }
        assert(all.take(i as int) =~= all);
        rollup.range.settle();
        rollup
    }
}

// -------------------------------------------------------------------- merging

/// Groups of two rollups together.
pub open spec fn merged_groups<C: Amount>(
    a: Map<Seq<char>, Counters<C>>,
    b: Map<Seq<char>, Counters<C>>,
) -> Map<Seq<char>, Counters<C>> {
    Map::new(
        |k: Seq<char>| a.contains_key(k) || b.contains_key(k),
        |k: Seq<char>|
            if b.contains_key(k) {
                group_at(a, k).merged(b[k])
            } else {
                a[k]
            },
    )
}

/// Sessions of two rollups together.
pub open spec fn merged_sessions<C: Amount>(
    a: Map<Seq<char>, SessionView<C>>,
    b: Map<Seq<char>, SessionView<C>>,
) -> Map<Seq<char>, SessionView<C>> {
    Map::new(
        |k: Seq<char>| a.contains_key(k) || b.contains_key(k),
        |k: Seq<char>|
            if b.contains_key(k) {
                session_at(a, k).merged(b[k])
            } else {
                a[k]
            },
    )
}

/// Folds the groups of one table into another.
pub fn merge_groups<C: Amount>(into: &mut Table<Counters<C>>, more: &Table<Counters<C>>)
    ensures
        final(into)@ == merged_groups(old(into)@, more@),
{
    let ghost start = into@;
    let list = more.entries();
    let mut i: usize = 0;
    proof {
        assert(list@.take(0) =~= seq![]);
        lemma_empty_table::<Counters<C>>();
        assert(start =~= merged_groups(start, table_of(list@.take(0))));
    }
    while i < list.len()
        invariant
            i <= list@.len(),
            keys_differ(list@),
            into@ == merged_groups(start, table_of(list@.take(i as int))),
        decreases list@.len() - i,
    {
        let ghost before = table_of(list@.take(i as int));
        let ghost k = list@[i as int].0@;
        proof {
            lemma_next_entry(list@, i as int);
        }
        let mut counters = match into.remove(list[i].0.as_str()) {
            Some(counters) => counters,
            None => Counters::zero(),
        };
        counters.merge(&list[i].1);
        into.put(list[i].0.as_str(), counters);
        assert(into@ =~= merged_groups(start, before.insert(k, list@[i as int].1@)));
        i += 1;
    }
    assert(list@.take(i as int) =~= list@);
}

/// Folds the sessions of one table into another.
pub fn merge_sessions<C: Amount>(
    into: &mut Table<SessionCounters<C>>,
    more: &Table<SessionCounters<C>>,
)
    ensures
        final(into)@ == merged_sessions(old(into)@, more@),
{
    let ghost start = into@;
    let list = more.entries();
    let mut i: usize = 0;
    proof {
        assert(list@.take(0) =~= seq![]);
        lemma_empty_table::<SessionCounters<C>>();
        assert(start =~= merged_sessions(start, table_of(list@.take(0))));
    }
    while i < list.len()
        invariant
            i <= list@.len(),
            keys_differ(list@),
            into@ == merged_sessions(start, table_of(list@.take(i as int))),
        decreases list@.len() - i,
    {
        let ghost before = table_of(list@.take(i as int));
        let ghost k = list@[i as int].0@;
        proof {
            lemma_next_entry(list@, i as int);
        }
        let mut counters = match into.remove(list[i].0.as_str()) {
            Some(counters) => counters,
            None => SessionCounters::zero(),
        };
        counters.merge(&list[i].1);
        into.put(list[i].0.as_str(), counters);
        assert(into@ =~= merged_sessions(start, before.insert(k, list@[i as int].1@)));
        i += 1;
    }
    assert(list@.take(i as int) =~= list@);
}

proof fn lemma_empty_table<V: View>()
    ensures
        table_of(Seq::<(String, V)>::empty()) == Map::<Seq<char>, V::V>::empty(),
{
    let none = Seq::<(String, V)>::empty();
    assert forall|k: Seq<char>| !table_of(none).contains_key(k) by {
        if exists|i: int| crate::table::key_stands_at(none, k, i) {
            let i = choose|i: int| crate::table::key_stands_at(none, k, i);
            assert(crate::table::key_stands_at(none, k, i));
        }
    }
    assert(table_of(none) =~= Map::<Seq<char>, V::V>::empty());
}

proof fn lemma_next_entry<V: View>(list: Seq<(String, V)>, i: int)
    requires
        keys_differ(list),
        0 <= i < list.len(),
    ensures
        keys_differ(list.take(i)),
        !table_of(list.take(i)).contains_key(list[i].0@),
        table_of(list.take(i + 1)) == table_of(list.take(i)).insert(list[i].0@, list[i].1@),
{
    let before = list.take(i);
    let after = list.take(i + 1);
    assert(after.drop_last() =~= before);
    assert forall|a: int, b: int|
        #![trigger before[a], before[b]]
        0 <= a < b < before.len() implies before[a].0@ != before[b].0@ by {
        assert(list[a].0@ != list[b].0@);
    }
    assert(!table_of(before).contains_key(list[i].0@)) by {
        if exists|j: int| crate::table::key_stands_at(before, list[i].0@, j) {
            let j = choose|j: int| crate::table::key_stands_at(before, list[i].0@, j);
            assert(crate::table::key_stands_at(before, list[i].0@, j));
            assert(list[j].0@ != list[i].0@);
        }
    }
    crate::table::lemma_pushed(before, after);
}

// ----------------------------------------------------------------------- laws

/// Whether two groups count the same, whatever their amounts.
pub open spec fn counts_alike<C>(a: Counters<C>, b: Counters<C>) -> bool {
    &&& a.spans == b.spans && a.llm_calls == b.llm_calls && a.errors == b.errors
    &&& a.prompt_tokens == b.prompt_tokens && a.completion_tokens == b.completion_tokens
    &&& a.total_tokens == b.total_tokens && a.llm_duration_ns == b.llm_duration_ns
}

/// Counting is exact however the spans are cut: what two runs of spans count
/// separately, merged, is what they count together.
pub proof fn law_merging_is_counting_together<C: Amount>(a: Seq<Span>, b: Seq<Span>)
    ensures
        counts_alike(counted::<C>(a + b), counted::<C>(a).merged(counted::<C>(b))),
    decreases b.len(),
{
    if b.len() == 0 {
        assert(a + b =~= a);
    } else {
        law_merging_is_counting_together::<C>(a, b.drop_last());
        assert((a + b).drop_last() =~= a + b.drop_last());
        assert((a + b).last() == b.last());
    }
}

/// The keys of a rollup's spans are all among its hashes, and nothing else is.
pub proof fn lemma_key_hashes<C: Amount>(spans: Seq<Span>, h: u64)
    ensures
        rollup_of::<C>(spans).key_hashes.contains(h) == exists|i: int|
            0 <= i < spans.len() && #[trigger] key_hash_of(spans[i].trace_id@, spans[i].span_id@)
                == h,
    decreases spans.len(),
{
    if spans.len() > 0 {
        let init = spans.drop_last();
        lemma_key_hashes::<C>(init, h);
        let n = spans.len() - 1;
        assert(spans[n] == spans.last());
        if exists|i: int|
            0 <= i < init.len() && #[trigger] key_hash_of(init[i].trace_id@, init[i].span_id@)
                == h {
            let i = choose|i: int|
                0 <= i < init.len() && #[trigger] key_hash_of(init[i].trace_id@, init[i].span_id@)
                    == h;
            assert(key_hash_of(spans[i].trace_id@, spans[i].span_id@) == h);
        }
        if exists|i: int|
            0 <= i < spans.len() && #[trigger] key_hash_of(spans[i].trace_id@, spans[i].span_id@)
                == h {
            let i = choose|i: int|
                0 <= i < spans.len() && #[trigger] key_hash_of(
                    spans[i].trace_id@,
                    spans[i].span_id@,
                ) == h;
            if i < n {
                assert(key_hash_of(init[i].trace_id@, init[i].span_id@) == h);
            }
        }
        assert(key_hash_of(spans[n].trace_id@, spans[n].span_id@) == key_hash_of(
            spans.last().trace_id@,
            spans.last().span_id@,
        ));
    }
}

/// Every span of a rollup started and ended within its ranges.
pub proof fn law_ranges_cover<C: Amount>(spans: Seq<Span>, i: int)
    requires
        0 <= i < spans.len(),
    ensures
        ({
            let range = rollup_of::<C>(spans).range;
            &&& range.min_start_ns <= spans[i].start_time_ns <= range.max_start_ns
            &&& range.min_end_ns <= spans[i].end_time_ns <= range.max_end_ns
        }),
{
    lemma_ranges::<C>(spans, i);
}

proof fn lemma_ranges<C: Amount>(spans: Seq<Span>, i: int)
    requires
        0 <= i < spans.len(),
    ensures
        ({
            let range = absorbed::<C>(spans).range;
            &&& range.min_start_ns <= spans[i].start_time_ns <= range.max_start_ns
            &&& range.min_end_ns <= spans[i].end_time_ns <= range.max_end_ns
        }),
    decreases spans.len(),
{
    if i < spans.len() - 1 {
        lemma_ranges::<C>(spans.drop_last(), i);
    }
}

/// What a quantity adds up to over spans.
pub open spec fn sum_over(spans: Seq<Span>, f: spec_fn(Span) -> nat) -> nat
    decreases spans.len(),
{
    if spans.len() == 0 {
        0
    } else {
        sum_over(spans.drop_last(), f) + f(spans.last())
    }
}

/// A number, or the largest that fits.
pub open spec fn at_most(n: nat, largest: nat) -> nat {
    if n <= largest {
        n
    } else {
        largest
    }
}

/// Each counter is the sum, over the spans, of its own quantity: spans and
/// errors and calls one by one, tokens as each span reports them and nothing
/// where it reports none, the time of calls from start to end. A sum that no
/// number holds is the largest number.
pub proof fn law_counters_are_sums<C: Amount>(spans: Seq<Span>)
    ensures
        ({
            let c = counted::<C>(spans);
            let number = u64::MAX as nat;
            let count = usize::MAX as nat;
            &&& c.spans == at_most(spans.len(), count)
            &&& c.llm_calls == at_most(spans.filter(|s: Span| s.facts.is_llm).len(), count)
            &&& c.errors == at_most(spans.filter(|s: Span| s.status@ == "error"@).len(), count)
            &&& c.prompt_tokens == at_most(
                sum_over(
                    spans,
                    |s: Span|
                        match s.facts.prompt_tokens {
                            Some(n) => n as nat,
                            None => 0,
                        },
                ),
                number,
            )
            &&& c.completion_tokens == at_most(
                sum_over(
                    spans,
                    |s: Span|
                        match s.facts.completion_tokens {
                            Some(n) => n as nat,
                            None => 0,
                        },
                ),
                number,
            )
            &&& c.total_tokens == at_most(
                sum_over(spans, |s: Span| s.facts.total_tokens as nat),
                number,
            )
            &&& c.llm_duration_ns == at_most(
                sum_over(
                    spans,
                    |s: Span|
                        if s.facts.is_llm && s.start_time_ns < s.end_time_ns {
                            (s.end_time_ns - s.start_time_ns) as nat
                        } else {
                            0
                        },
                ),
                number,
            )
        }),
    decreases spans.len(),
{
    reveal(Seq::filter);
    if spans.len() > 0 {
        law_counters_are_sums::<C>(spans.drop_last());
    }
}

/// The cost of spans is what each of them cost, added up one after the other;
/// a span without a cost adds nothing, and no spans cost nothing.
pub proof fn law_costs_add_up<C: Amount>(spans: Seq<Span>, span: Span)
    ensures
        counted::<C>(Seq::empty()).cost == C::nothing(),
        span.facts.cost_bits matches Some(bits) ==> counted::<C>(spans.push(span)).cost == counted::<
            C,
        >(spans).cost.sum(C::recorded(bits)),
        span.facts.cost_bits is None ==> counted::<C>(spans.push(span)).cost == counted::<C>(
            spans,
        ).cost.sum(C::nothing()),
{
    assert(spans.push(span).drop_last() =~= spans);
}

/// In millionths the cost of spans is the sum of their costs, or the largest
/// number; the larger cost weighs more.
pub proof fn law_millionths_add_up(spans: Seq<Span>, a: Micros, b: Micros)
    ensures
        counted::<Micros>(spans).cost.millionths == at_most(
            sum_over(
                spans,
                |s: Span|
                    match s.facts.cost_bits {
                        Some(bits) => bits as nat,
                        None => 0,
                    },
            ),
            u64::MAX as nat,
        ),
        a.sum(b).millionths == at_most(
            (a.millionths + b.millionths) as nat,
            u64::MAX as nat,
        ),
        a.millionths <= i64::MAX && b.millionths <= i64::MAX ==> (a.weight() < b.weight()
            <==> a.millionths < b.millionths),
        a.millionths <= b.millionths ==> a.weight() <= b.weight(),
    decreases spans.len(),
{
    if spans.len() > 0 {
        law_millionths_add_up(spans.drop_last(), a, b);
    }
}

/// Merging groups adds their counters up, each to its own.
pub proof fn law_merging_adds_up<C: Amount>(a: Counters<C>, b: Counters<C>)
    ensures
        ({
            let m = a.merged(b);
            let number = u64::MAX as nat;
            let count = usize::MAX as nat;
            &&& m.spans == at_most((a.spans + b.spans) as nat, count)
            &&& m.llm_calls == at_most((a.llm_calls + b.llm_calls) as nat, count)
            &&& m.errors == at_most((a.errors + b.errors) as nat, count)
            &&& m.prompt_tokens == at_most((a.prompt_tokens + b.prompt_tokens) as nat, number)
            &&& m.completion_tokens == at_most(
                (a.completion_tokens + b.completion_tokens) as nat,
                number,
            )
            &&& m.total_tokens == at_most((a.total_tokens + b.total_tokens) as nat, number)
            &&& m.llm_duration_ns == at_most((a.llm_duration_ns + b.llm_duration_ns) as nat, number)
            &&& m.cost == a.cost.sum(b.cost)
        }),
{
}

/// Of two session keys the one earlier in the recognized order stands, and the
/// one held where they are equal; a key stands against none.
pub proof fn law_the_earlier_key_stands(held: KeyName, new: KeyName)
    ensures
        new.1 < held.1 ==> preferred(Some(held), Some(new)) == Some(new),
        new.1 >= held.1 ==> preferred(Some(held), Some(new)) == Some(held),
        preferred(None, Some(new)) == Some(new),
        preferred(Some(held), None) == Some(held),
        preferred(None, None) is None,
{
}

/// What holds of a session put together from spans: it counts them all, begins
/// with the earliest start and ends with the latest end, lists each of their
/// traces once, and is known by the key that comes first in the recognized
/// order.
pub open spec fn describes<C: Amount>(session: SessionView<C>, spans: Seq<Span>) -> bool {
    &&& counts_alike(session.counters, counted::<C>(spans))
    &&& forall|i: int|
        0 <= i < spans.len() ==> session.first_start_ns <= (#[trigger] spans[i]).start_time_ns
            && spans[i].end_time_ns <= session.last_end_ns
    &&& exists|i: int|
        0 <= i < spans.len() && (#[trigger] spans[i]).start_time_ns == session.first_start_ns
    &&& exists|i: int|
        0 <= i < spans.len() && (#[trigger] spans[i]).end_time_ns == session.last_end_ns
    &&& session.traces.no_duplicates()
    &&& forall|t: Seq<char>| #[trigger]
        session.traces.contains(t) == exists|i: int|
            0 <= i < spans.len() && (#[trigger] spans[i]).trace_id@ == t
    &&& match session.session_key {
        Some((name, rank)) => {
            &&& exists|i: int|
                0 <= i < spans.len() && (#[trigger] spans[i]).facts.session_key is Some
                    && spans[i].facts.session_key->0.name@ == name
                    && spans[i].facts.session_key->0.rank == rank
            &&& forall|i: int|
                0 <= i < spans.len() && (#[trigger] spans[i]).facts.session_key is Some ==> rank
                    <= spans[i].facts.session_key->0.rank
        },
        None => forall|i: int|
            0 <= i < spans.len() ==> (#[trigger] spans[i]).facts.session_key is None,
    }
}

/// One span makes a session of itself.
pub proof fn lemma_describes_one<C: Amount>(span: Span)
    ensures
        describes(SessionView::<C>::none().with(span), seq![span]),
{
    let one = seq![span];
    reveal_with_fuel(counted, 2);
    assert(one.drop_last() =~= seq![]);
    let session = SessionView::<C>::none().with(span);
    assert(one[0] == span);
    assert(session.traces =~= seq![span.trace_id@]);
    assert forall|t: Seq<char>| #[trigger] session.traces.contains(t) == exists|i: int|
        0 <= i < one.len() && (#[trigger] one[i]).trace_id@ == t by {
        if t == span.trace_id@ {
            assert(session.traces[0] == t);
            assert(one[0].trace_id@ == t);
        }
    }
    assert(one[0].start_time_ns == session.first_start_ns);
    assert(one[0].end_time_ns == session.last_end_ns);
    if span.facts.session_key is Some {
        assert(one[0].facts.session_key is Some);
    }
}

/// Counts do not depend on amounts.
proof fn lemma_counts_alike<C: Amount>(a: Counters<C>, x: Counters<C>, b: Counters<C>, y: Counters<C>)
    requires
        counts_alike(a, x),
        counts_alike(b, y),
    ensures
        counts_alike(a.merged(b), x.merged(y)),
{
}

/// Two parts of a session, merged, describe all their spans.
pub proof fn lemma_describes_merged<C: Amount>(
    a: SessionView<C>,
    left: Seq<Span>,
    b: SessionView<C>,
    right: Seq<Span>,
)
    requires
        describes(a, left) || (left.len() == 0 && a == SessionView::<C>::none()),
        describes(b, right),
    ensures
        describes(a.merged(b), left + right),
{
    let m = a.merged(b);
    let all = left + right;
    law_merging_is_counting_together::<C>(left, right);
    law_counters_are_sums::<C>(left);
    law_counters_are_sums::<C>(right);
    lemma_counts_alike(a.counters, counted::<C>(left), b.counters, counted::<C>(right));
    assert forall|i: int| 0 <= i < left.len() implies #[trigger] left[i] == all[i] by {}
    assert forall|i: int| 0 <= i < right.len() implies #[trigger] right[i] == all[left.len()
        + i] by {}
    assert(left.len() == 0 <==> a.counters.spans == 0);
    assert forall|i: int| 0 <= i < all.len() implies m.first_start_ns <= (
    #[trigger] all[i]).start_time_ns && all[i].end_time_ns <= m.last_end_ns by {
        if i < left.len() {
            assert(left[i] == all[i]);
        } else {
            assert(right[i - left.len()] == all[i]);
        }
    }
    let rs = choose|i: int|
        0 <= i < right.len() && (#[trigger] right[i]).start_time_ns == b.first_start_ns;
    let re = choose|i: int|
        0 <= i < right.len() && (#[trigger] right[i]).end_time_ns == b.last_end_ns;
    assert(all[left.len() + rs].start_time_ns == b.first_start_ns);
    assert(all[left.len() + re].end_time_ns == b.last_end_ns);
    if left.len() > 0 {
        let ls = choose|i: int|
            0 <= i < left.len() && (#[trigger] left[i]).start_time_ns == a.first_start_ns;
        let le = choose|i: int|
            0 <= i < left.len() && (#[trigger] left[i]).end_time_ns == a.last_end_ns;
        assert(all[ls].start_time_ns == a.first_start_ns);
        assert(all[le].end_time_ns == a.last_end_ns);
    }
    crate::sets::lemma_adjoin_all(a.traces, b.traces);
    assert forall|t: Seq<char>| #[trigger] m.traces.contains(t) == exists|i: int|
        0 <= i < all.len() && (#[trigger] all[i]).trace_id@ == t by {
        if a.traces.contains(t) {
            let i = choose|i: int| 0 <= i < left.len() && (#[trigger] left[i]).trace_id@ == t;
            assert(all[i].trace_id@ == t);
        }
        if b.traces.contains(t) {
            let i = choose|i: int| 0 <= i < right.len() && (#[trigger] right[i]).trace_id@ == t;
            assert(all[left.len() + i].trace_id@ == t);
        }
        if exists|i: int| 0 <= i < all.len() && (#[trigger] all[i]).trace_id@ == t {
            let i = choose|i: int| 0 <= i < all.len() && (#[trigger] all[i]).trace_id@ == t;
            if i < left.len() {
                assert(left[i].trace_id@ == t);
                assert(a.traces.contains(t));
            } else {
                assert(right[i - left.len()].trace_id@ == t);
                assert(b.traces.contains(t));
            }
        }
    }
    if let Some((name, rank)) = a.session_key {
        let i = choose|i: int|
            0 <= i < left.len() && (#[trigger] left[i]).facts.session_key is Some
                && left[i].facts.session_key->0.name@ == name
                && left[i].facts.session_key->0.rank == rank;
        assert(all[i].facts.session_key is Some);
    }
    if let Some((name, rank)) = b.session_key {
        let i = choose|i: int|
            0 <= i < right.len() && (#[trigger] right[i]).facts.session_key is Some
                && right[i].facts.session_key->0.name@ == name
                && right[i].facts.session_key->0.rank == rank;
        assert(all[left.len() + i].facts.session_key is Some);
    }
    assert forall|i: int| 0 <= i < all.len() && (#[trigger] all[i]).facts.session_key is Some
        implies m.session_key is Some && (m.session_key->0).1
        <= all[i].facts.session_key->0.rank by {
        if i < left.len() {
            assert(left[i].facts.session_key is Some);
        } else {
            assert(right[i - left.len()].facts.session_key is Some);
        }
    }
}

/// One more span is one more part.
pub proof fn lemma_describes_with<C: Amount>(a: SessionView<C>, left: Seq<Span>, span: Span)
    requires
        describes(a, left) || (left.len() == 0 && a == SessionView::<C>::none()),
    ensures
        describes(a.with(span), left.push(span)),
{
    let one = SessionView::<C>::none().with(span);
    lemma_describes_one::<C>(span);
    lemma_describes_merged(a, left, one, seq![span]);
    assert(left + seq![span] =~= left.push(span));
    let m = a.merged(one);
    let w = a.with(span);
    assert(m.traces =~= w.traces) by {
        reveal_with_fuel(adjoin_all, 2);
        assert(one.traces =~= seq![span.trace_id@]);
        assert(one.traces.drop_last() =~= seq![]);
    }
    law_counters_are_sums::<C>(left);
    assert(counts_alike(m.counters, w.counters));
}

/// A rollup's groups: the spans whose key is `k` are those that the group `k`
/// counts, and there is a group where there is such a span.
pub proof fn lemma_groups<C: Amount>(
    spans: Seq<Span>,
    key: spec_fn(Span) -> Option<Seq<char>>,
    pick: spec_fn(RollupView<C>) -> Map<Seq<char>, Counters<C>>,
    k: Seq<char>,
)
    requires
        pick(RollupView::<C>::none(Bounds::none())) == Map::<Seq<char>, Counters<C>>::empty(),
        forall|r: RollupView<C>, s: Span| #[trigger]
            pick(r.with(s)) == grouped(pick(r), key(s), s),
    ensures
        ({
            let group = spans.filter(|s: Span| key(s) == Some(k));
            &&& pick(absorbed::<C>(spans)).contains_key(k) == (group.len() > 0)
            &&& group.len() > 0 ==> pick(absorbed::<C>(spans))[k] == counted::<C>(group)
        }),
    decreases spans.len(),
{
    reveal(Seq::filter);
    if spans.len() > 0 {
        let init = spans.drop_last();
        lemma_groups::<C>(init, key, pick, k);
        let r = absorbed::<C>(init);
        assert(pick(r.with(spans.last())) == grouped(pick(r), key(spans.last()), spans.last()));
        let p = |s: Span| key(s) == Some(k);
        let before = init.filter(p);
        if p(spans.last()) {
            let group = spans.filter(p);
            assert(group == before.push(spans.last()));
            assert(group.drop_last() =~= before);
            assert(counted::<C>(group) == counted::<C>(before).with(spans.last()));
            assert(counted::<C>(before) == group_at(pick(r), k));
        } else {
            assert(spans.filter(p) == before);
            assert(pick(r.with(spans.last())).contains_key(k) == pick(r).contains_key(k));
        }
    }
}

/// A rollup's sessions describe their spans.
pub proof fn lemma_rollup_sessions<C: Amount>(spans: Seq<Span>, k: Seq<char>)
    ensures
        ({
            let members = spans.filter(
                |s: Span| s.facts.session is Some && s.facts.session->0@ == k,
            );
            let m = rollup_of::<C>(spans).sessions;
            &&& m.contains_key(k) == (members.len() > 0)
            &&& members.len() > 0 ==> describes(m[k], members)
        }),
    decreases spans.len(),
{
    reveal(Seq::filter);
    if spans.len() > 0 {
        let init = spans.drop_last();
        lemma_rollup_sessions::<C>(init, k);
        let p = |s: Span| s.facts.session is Some && s.facts.session->0@ == k;
        let before = init.filter(p);
        let m = rollup_of::<C>(init).sessions;
        if p(spans.last()) {
            lemma_describes_with(session_at(m, k), before, spans.last());
        }
    }
}

/// The ranges of a rollup are tight: an end of each is the time of a span,
/// unless that time is the last one there is.
pub proof fn law_ranges_are_tight<C: Amount>(spans: Seq<Span>)
    requires
        spans.len() > 0,
    ensures
        ({
            let range = rollup_of::<C>(spans).range;
            &&& exists|i: int|
                0 <= i < spans.len() && (#[trigger] spans[i]).start_time_ns == range.max_start_ns
            &&& exists|i: int|
                0 <= i < spans.len() && (#[trigger] spans[i]).end_time_ns == range.max_end_ns
            &&& range.min_start_ns == 0 || exists|i: int|
                0 <= i < spans.len() && (#[trigger] spans[i]).start_time_ns == range.min_start_ns
            &&& range.min_end_ns == 0 || exists|i: int|
                0 <= i < spans.len() && (#[trigger] spans[i]).end_time_ns == range.min_end_ns
            &&& range.min_start_ns == 0 ==> exists|i: int|
                0 <= i < spans.len() && ((#[trigger] spans[i]).start_time_ns == 0
                    || spans[i].start_time_ns == u64::MAX)
            &&& range.min_end_ns == 0 ==> exists|i: int|
                0 <= i < spans.len() && ((#[trigger] spans[i]).end_time_ns == 0
                    || spans[i].end_time_ns == u64::MAX)
        }),
{
    lemma_tight::<C>(spans);
}

proof fn lemma_tight<C: Amount>(spans: Seq<Span>)
    requires
        spans.len() > 0,
    ensures
        ({
            let range = absorbed::<C>(spans).range;
            &&& exists|i: int|
                0 <= i < spans.len() && (#[trigger] spans[i]).start_time_ns == range.max_start_ns
            &&& exists|i: int|
                0 <= i < spans.len() && (#[trigger] spans[i]).end_time_ns == range.max_end_ns
            &&& exists|i: int|
                0 <= i < spans.len() && (#[trigger] spans[i]).start_time_ns == range.min_start_ns
            &&& exists|i: int|
                0 <= i < spans.len() && (#[trigger] spans[i]).end_time_ns == range.min_end_ns
        }),
    decreases spans.len(),
{
    let n = spans.len() - 1;
    assert(spans[n] == spans.last());
    let init = spans.drop_last();
    assert forall|i: int| 0 <= i < init.len() implies #[trigger] init[i] == spans[i] by {}
    if init.len() > 0 {
        lemma_tight::<C>(init);
        let before = absorbed::<C>(init).range;
        let a = choose|i: int|
            0 <= i < init.len() && (#[trigger] init[i]).start_time_ns == before.max_start_ns;
        let b = choose|i: int|
            0 <= i < init.len() && (#[trigger] init[i]).end_time_ns == before.max_end_ns;
        let c = choose|i: int|
            0 <= i < init.len() && (#[trigger] init[i]).start_time_ns == before.min_start_ns;
        let d = choose|i: int|
            0 <= i < init.len() && (#[trigger] init[i]).end_time_ns == before.min_end_ns;
        assert(spans[a] == init[a] && spans[b] == init[b] && spans[c] == init[c] && spans[d]
            == init[d]);
    } else {
        reveal_with_fuel(absorbed, 2);
        assert(init =~= seq![]);
    }
}

/// A rollup holds the key hash of every span and no other, and the payload
/// references of every span and no other.
pub proof fn law_a_rollup_knows_its_keys<C: Amount>(spans: Seq<Span>, i: int)
    requires
        0 <= i < spans.len(),
    ensures
        rollup_of::<C>(spans).key_hashes.contains(
            fnv(
                FNV_BASIS,
                encode_utf8(spans[i].trace_id@) + seq![0u8] + encode_utf8(spans[i].span_id@),
            ),
        ),
        forall|r: Seq<char>|
            span_refs(&spans[i], false).contains(r) ==> rollup_of::<C>(
                spans,
            ).payload_refs.contains(r),
        forall|r: Seq<char>|
            rollup_of::<C>(spans).payload_refs.contains(r) ==> exists|j: int|
                0 <= j < spans.len() && span_refs(&(#[trigger] spans[j]), false).contains(r),
{
    let h = key_hash_of(spans[i].trace_id@, spans[i].span_id@);
    lemma_key_hashes::<C>(spans, h);
    assert(key_hash_of(spans[i].trace_id@, spans[i].span_id@) == h);
    lemma_refs::<C>(spans);
}

proof fn lemma_refs<C: Amount>(spans: Seq<Span>)
    ensures
        forall|i: int, r: Seq<char>|
            0 <= i < spans.len() && #[trigger] span_refs(&spans[i], false).contains(r)
                ==> absorbed::<C>(spans).payload_refs.contains(r),
        forall|r: Seq<char>| #[trigger]
            absorbed::<C>(spans).payload_refs.contains(r) ==> exists|j: int|
                0 <= j < spans.len() && span_refs(&(#[trigger] spans[j]), false).contains(r),
    decreases spans.len(),
{
    if spans.len() > 0 {
        let init = spans.drop_last();
        lemma_refs::<C>(init);
        let before = absorbed::<C>(init).payload_refs;
        let more = span_refs(&spans.last(), false);
        crate::sets::lemma_adjoin_all(before, more);
        let after = absorbed::<C>(spans).payload_refs;
        let n = spans.len() - 1;
        assert(spans[n] == spans.last());
        assert forall|i: int, r: Seq<char>|
            0 <= i < spans.len() && #[trigger] span_refs(&spans[i], false).contains(
                r,
            ) implies after.contains(r) by {
            if i < n {
                assert(init[i] == spans[i]);
                assert(span_refs(&init[i], false).contains(r));
                assert(before.contains(r));
            }
        }
        assert forall|r: Seq<char>| #[trigger] after.contains(r) implies exists|j: int|
            0 <= j < spans.len() && span_refs(&(#[trigger] spans[j]), false).contains(r) by {
            if before.contains(r) {
                let j = choose|j: int|
                    0 <= j < init.len() && span_refs(&(#[trigger] init[j]), false).contains(r);
                assert(spans[j] == init[j]);
            } else {
                assert(span_refs(&spans[n], false).contains(r));
            }
        }
    }
}

} // verus!
