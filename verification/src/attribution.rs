//! Attribution: what a run did, and which step broke it.
//!
//! Every rule fires on telemetry that already exists; a declared convention
//! may raise confidence, it is never a precondition. Repetition alone is no
//! evidence: a shape is classified only when a discriminator agrees, and
//! otherwise it is reported as [`Shape::Inconclusive`] with what was missing.
//!
//! | Signal | Read from |
//! |---|---|
//! | error density | a span's status |
//! | serial fraction | span timestamps |
//! | context growth | reported context tokens |
//! | self-similar depth | parent span ids |
//! | declared retry | a `retry-of` link |
//!
//! Fractions are kept as the two counts they are made of and compared by cross
//! multiplication.

use vstd::prelude::*;

use crate::json::{entries_view, entry_from, JsonView};
use crate::sets::{adjoin_all, keys, picked, Distinct, Same};
use crate::sort::{lex_at_most, lex_le, sort, sorted, str_views, text_le, Ranked, Sortable};
use crate::span::{spans_of, KeyView, Link, Span};
use crate::text::{copy, dec, decimal, lowered, opt_view, same, same_ignoring_case, to_lower};

verus! {

/// Repeats of one step within one trace before repetition is worth a look.
pub const MIN_REPEATS: usize = 5;

/// Ancestors sharing a step's identity before the nesting itself is the
/// finding.
pub const MIN_SELF_DEPTH: usize = 5;

/// Context growth, as a multiple of the first call, that reads as runaway.
pub const GROWTH_FACTOR: u64 = 2;

/// Context growth, in tokens, that reads as runaway however small the
/// multiple.
pub const GROWTH_ABSOLUTE: u64 = 20_000;

/// Tolerance, in percent of the first value, within which context reads flat.
pub const FLAT_TOLERANCE_PERCENT: u64 = 10;

/// Members that must report context before a trend is claimed at all.
pub const MIN_TREND_SAMPLES: usize = 3;

/// Ancestors walked per span before the walk gives up.
pub const MAX_ANCESTOR_WALK: usize = 64;

/// Spans shown as evidence of a repetition.
pub const EVIDENCE: usize = 5;

/// How a session ended.
#[derive(Clone, Copy, Debug, PartialEq, Eq, Structural)]
pub enum Outcome {
    /// The run reached a successful terminal state.
    Success,
    /// The run ended on a failure.
    Failure,
    /// The run stopped without resolving.
    Abandoned,
    /// Nothing can be told. Never counted as success.
    Unknown,
}

/// Where an [`Outcome`] came from, which decides how much it is worth.
#[derive(Clone, Copy, Debug, PartialEq, Eq, Structural)]
pub enum OutcomeSource {
    /// A span declared it.
    Declared,
    /// Derived from ordinary telemetry, because nobody declared anything.
    Derived,
    /// Not determinable.
    Unknown,
}

/// A session's terminal state, with its grounds.
#[derive(Debug)]
pub struct SessionOutcome {
    /// What happened.
    pub outcome: Outcome,
    /// How that was decided.
    pub source: OutcomeSource,
    /// Why, in one word: `declared`, `last_span_failed`,
    /// `last_span_succeeded`, `still_active`, or `no_spans`.
    pub reason: &'static str,
    /// The declared outcome text, verbatim, when a span declared one.
    pub declared: Option<String>,
    /// The declared goal, when a span carried one.
    pub goal: Option<String>,
    /// Spans that failed, whatever the outcome.
    pub error_count: usize,
    /// Spans considered.
    pub span_count: usize,
}

pub struct OutcomeView {
    pub outcome: Outcome,
    pub source: OutcomeSource,
    pub reason: Seq<char>,
    pub declared: Option<Seq<char>>,
    pub goal: Option<Seq<char>>,
    pub error_count: nat,
    pub span_count: nat,
}

impl View for SessionOutcome {
    type V = OutcomeView;

    open spec fn view(&self) -> OutcomeView {
        OutcomeView {
            outcome: self.outcome,
            source: self.source,
            reason: self.reason@,
            declared: opt_view(self.declared),
            goal: opt_view(self.goal),
            error_count: self.error_count as nat,
            span_count: self.span_count as nat,
        }
    }
}

/// How a repeated step's context size moved across its attempts.
#[derive(Clone, Copy, Debug, PartialEq, Eq, Structural)]
pub enum TokenTrend {
    /// Non-decreasing, and materially larger by the end.
    Growing,
    /// Within [`FLAT_TOLERANCE_PERCENT`] end to end.
    Flat,
    /// Moving, but not monotonically upward.
    Varying,
    /// Too few members reported usage to say. Not a synonym for flat.
    Absent,
    /// Usage was reported under a caching convention whose arithmetic is not
    /// known, so any trend read off it would be a guess.
    Unknown,
}

/// What a repeated step turned out to be.
#[derive(Clone, Copy, Debug, PartialEq, Eq, Structural)]
pub enum Shape {
    /// Serial repeats, mostly failing.
    RetryStorm,
    /// Repeats whose context grows every attempt.
    ContextRunaway,
    /// A step nested inside itself past [`MIN_SELF_DEPTH`].
    SelfSimilarChain,
    /// Repeats the producer itself labelled retries.
    DeclaredRetry,
    /// Repetition that looks like ordinary work.
    Iteration,
    /// Repetition no discriminator could explain.
    Inconclusive,
}

impl Shape {
    pub open spec fn fault(self) -> bool {
        !(self is Iteration) && !(self is Inconclusive)
    }

    /// Whether this shape may be named as a run's cause.
    pub fn is_fault(self) -> (r: bool)
        ensures
            r == self.fault(),
    {
        match self {
            Shape::Iteration => false,
            Shape::Inconclusive => false,
            _ => true,
        }
    }
}

/// One span, named the way a caller can open it.
#[derive(Debug)]
pub struct SpanRef {
    /// Trace holding the span.
    pub trace_id: String,
    /// The span.
    pub span_id: String,
}

impl Same for SpanRef {
    type S = (Seq<char>, Seq<char>);

    open spec fn key(&self) -> (Seq<char>, Seq<char>) {
        (self.trace_id@, self.span_id@)
    }

    fn same_as(&self, other: &Self) -> (r: bool) {
        same(self.trace_id.as_str(), other.trace_id.as_str()) && same(
            self.span_id.as_str(),
            other.span_id.as_str(),
        )
    }
}

/// A repeated step, with the evidence for calling it what it is called.
#[derive(Debug)]
pub struct Finding {
    /// What the repetition turned out to be.
    pub shape: Shape,
    /// Emitting service.
    pub service: String,
    /// Operation name.
    pub name: String,
    /// The trace the repetition happened in.
    pub trace_id: String,
    /// Repeats observed.
    pub count: usize,
    /// How many failed.
    pub error_count: usize,
    /// Deepest nesting of this step inside itself.
    pub self_depth: usize,
    /// Consecutive attempts of which the later waited for the earlier.
    pub serial: usize,
    /// Consecutive attempts in all.
    pub pairs: usize,
    /// How the context moved.
    pub token_trend: TokenTrend,
    /// Context tokens on the first attempt, when known.
    pub context_first: Option<u64>,
    /// Context tokens on the last attempt, when known.
    pub context_last: Option<u64>,
    /// A few spans that show it: the first ones and the last.
    pub spans: Vec<SpanRef>,
    /// For [`Shape::Inconclusive`], the signals that would have decided it.
    pub missing: Vec<&'static str>,
}

pub struct FindingView {
    pub shape: Shape,
    pub service: Seq<char>,
    pub name: Seq<char>,
    pub trace_id: Seq<char>,
    pub count: nat,
    pub error_count: nat,
    pub self_depth: nat,
    pub serial: nat,
    pub pairs: nat,
    pub token_trend: TokenTrend,
    pub context_first: Option<u64>,
    pub context_last: Option<u64>,
    pub spans: Seq<(Seq<char>, Seq<char>)>,
    pub missing: Seq<Seq<char>>,
}

impl FindingView {
    /// The step that a finding is about: its trace, service and name.
    pub open spec fn step(self) -> KeyView {
        (self.trace_id, self.service, self.name)
    }
}

impl View for Finding {
    type V = FindingView;

    open spec fn view(&self) -> FindingView {
        FindingView {
            shape: self.shape,
            service: self.service@,
            name: self.name@,
            trace_id: self.trace_id@,
            count: self.count as nat,
            error_count: self.error_count as nat,
            self_depth: self.self_depth as nat,
            serial: self.serial as nat,
            pairs: self.pairs as nat,
            token_trend: self.token_trend,
            context_first: self.context_first,
            context_last: self.context_last,
            spans: keys(self.spans@),
            missing: str_views(self.missing@),
        }
    }
}

pub open spec fn viewing() -> spec_fn(Finding) -> FindingView {
    |f: Finding| f@
}

pub open spec fn finding_views(s: Seq<Finding>) -> Seq<FindingView> {
    s.map_values(viewing())
}

/// The step a run's failure is attributed to, and why that one.
#[derive(Debug)]
pub struct Cause {
    /// The rule that named it: `leaf_error` or `repeated_fault`.
    pub rule: &'static str,
    /// How strong the grounds are: `structural` or `statistical`.
    pub confidence: &'static str,
    /// The step.
    pub span: SpanRef,
    /// Its operation name.
    pub name: String,
    /// Its service.
    pub service: String,
    /// Its status.
    pub status: String,
    /// One sentence a reader can check against the evidence beside it.
    pub because: String,
}

pub struct CauseView {
    pub rule: Seq<char>,
    pub confidence: Seq<char>,
    pub span: (Seq<char>, Seq<char>),
    pub name: Seq<char>,
    pub service: Seq<char>,
    pub status: Seq<char>,
    pub because: Seq<char>,
}

impl View for Cause {
    type V = CauseView;

    open spec fn view(&self) -> CauseView {
        CauseView {
            rule: self.rule@,
            confidence: self.confidence@,
            span: self.span.key(),
            name: self.name@,
            service: self.service@,
            status: self.status@,
            because: self.because@,
        }
    }
}

/// Everything that can be said about one run, in one document.
#[derive(Debug)]
pub struct Diagnosis {
    /// How the run ended.
    pub outcome: SessionOutcome,
    /// The step the failure is attributed to, when one can be.
    pub cause: Option<Cause>,
    /// Repeated steps, faults first.
    pub findings: Vec<Finding>,
    /// Spans examined.
    pub examined: usize,
    /// Whether a cap stopped the analysis short.
    pub truncated: bool,
}

// --------------------------------------------------------------------- spans

pub open spec fn failed(span: Span) -> bool {
    lowered(span.status@) == lowered("error"@)
}

fn is_error(span: &Span) -> (r: bool)
    ensures
        r == failed(*span),
{
    same_ignoring_case(span.status.as_str(), "error")
}

/// What makes two spans the same thing again.
pub open spec fn signature(span: Span) -> (Seq<char>, Seq<char>) {
    (span.service@, span.name@)
}

pub open spec fn failures(spans: Seq<Span>) -> nat
    decreases spans.len(),
{
    if spans.len() == 0 {
        0
    } else {
        failures(spans.drop_last()) + if failed(spans.last()) {
            1nat
        } else {
            0nat
        }
    }
}

/// A point in time, with what settles the order at one instant.
pub struct Moment {
    pub at: u64,
    pub ids: Seq<Seq<char>>,
}

impl Ranked for Moment {
    open spec fn ranks(&self, other: &Self) -> bool {
        self.at < other.at || (self.at == other.at && lex_le(self.ids, other.ids))
    }

    proof fn total(a: &Self, b: &Self) {
        crate::sort::lemma_lex_le_total(a.ids, b.ids);
    }

    proof fn transitive(a: &Self, b: &Self, c: &Self) {
        if a.at == b.at && b.at == c.at {
            crate::sort::lemma_lex_le_transitive(a.ids, b.ids, c.ids);
        }
    }
}

/// When a span ended.
pub open spec fn ended(span: Span) -> Moment {
    Moment { at: span.end_time_ns, ids: seq![span.trace_id@, span.span_id@] }
}

/// When a span started.
pub open spec fn started(span: Span) -> Moment {
    Moment { at: span.start_time_ns, ids: seq![span.trace_id@, span.span_id@] }
}

fn moment_at_most(at: u64, span: &Span, other_at: u64, other: &Span) -> (r: bool)
    ensures
        r == (Moment { at, ids: seq![span.trace_id@, span.span_id@] }).ranks(
            &(Moment { at: other_at, ids: seq![other.trace_id@, other.span_id@] }),
        ),
{
    if at != other_at {
        return at < other_at;
    }
    let left = [span.trace_id.as_str(), span.span_id.as_str()];
    let right = [other.trace_id.as_str(), other.span_id.as_str()];
    assert(str_views(left@) =~= seq![span.trace_id@, span.span_id@]);
    assert(str_views(right@) =~= seq![other.trace_id@, other.span_id@]);
    lex_at_most(&left, &right)
}

/// Among the first `n` spans and the positions admitted, the one that ended
/// last; of equals the one furthest back.
pub open spec fn latest(spans: Seq<Span>, n: int, p: spec_fn(int) -> bool) -> Option<int>
    decreases n,
{
    if n <= 0 {
        None
    } else {
        let before = latest(spans, n - 1, p);
        if !p(n - 1) {
            before
        } else {
            match before {
                Some(i) => if ended(spans[i]).ranks(&ended(spans[n - 1])) {
                    Some(n - 1)
                } else {
                    before
                },
                None => Some(n - 1),
            }
        }
    }
}

/// Among the first `n` spans and the positions admitted, the one that started
/// first; of equals the one furthest front.
pub open spec fn earliest(spans: Seq<Span>, n: int, p: spec_fn(int) -> bool) -> Option<int>
    decreases n,
{
    if n <= 0 {
        None
    } else {
        let before = earliest(spans, n - 1, p);
        if !p(n - 1) {
            before
        } else {
            match before {
                Some(i) => if started(spans[i]).ranks(&started(spans[n - 1])) {
                    before
                } else {
                    Some(n - 1)
                },
                None => Some(n - 1),
            }
        }
    }
}

proof fn lemma_latest(spans: Seq<Span>, n: int, p: spec_fn(int) -> bool)
    requires
        0 <= n <= spans.len(),
    ensures
        match latest(spans, n, p) {
            Some(i) => {
                &&& 0 <= i < n && p(i)
                &&& forall|j: int|
                    0 <= j < n && #[trigger] p(j) ==> ended(spans[j]).ranks(&ended(spans[i]))
                &&& forall|j: int|
                    i < j < n && #[trigger] p(j) ==> !ended(spans[i]).ranks(&ended(spans[j]))
            },
            None => forall|j: int| 0 <= j < n ==> !#[trigger] p(j),
        },
    decreases n,
{
    if n > 0 {
        lemma_latest(spans, n - 1, p);
        Moment::total(&ended(spans[n - 1]), &ended(spans[n - 1]));
        if let Some(i) = latest(spans, n - 1, p) {
            Moment::total(&ended(spans[i]), &ended(spans[n - 1]));
            if p(n - 1) && ended(spans[i]).ranks(&ended(spans[n - 1])) {
                assert forall|j: int| 0 <= j < n && #[trigger] p(j) implies ended(spans[j]).ranks(
                    &ended(spans[n - 1]),
                ) by {
                    if j < n - 1 {
                        Moment::transitive(&ended(spans[j]), &ended(spans[i]), &ended(spans[n - 1]));
                    }
                }
            }
        }
    }
}

proof fn lemma_earliest(spans: Seq<Span>, n: int, p: spec_fn(int) -> bool)
    requires
        0 <= n <= spans.len(),
    ensures
        match earliest(spans, n, p) {
            Some(i) => {
                &&& 0 <= i < n && p(i)
                &&& forall|j: int|
                    0 <= j < n && #[trigger] p(j) ==> started(spans[i]).ranks(&started(spans[j]))
                &&& forall|j: int|
                    0 <= j < i && #[trigger] p(j) ==> !started(spans[j]).ranks(&started(spans[i]))
            },
            None => forall|j: int| 0 <= j < n ==> !#[trigger] p(j),
        },
    decreases n,
{
    if n > 0 {
        lemma_earliest(spans, n - 1, p);
        Moment::total(&started(spans[n - 1]), &started(spans[n - 1]));
        if let Some(i) = earliest(spans, n - 1, p) {
            Moment::total(&started(spans[i]), &started(spans[n - 1]));
            if p(n - 1) && !started(spans[i]).ranks(&started(spans[n - 1])) {
                assert forall|j: int| 0 <= j < n - 1 && #[trigger] p(j) implies !started(
                    spans[j],
                ).ranks(&started(spans[n - 1])) by {
                    if started(spans[j]).ranks(&started(spans[n - 1])) {
                        Moment::transitive(
                            &started(spans[i]),
                            &started(spans[j]),
                            &started(spans[n - 1]),
                        );
                    }
                }
                assert forall|j: int| 0 <= j < n && #[trigger] p(j) implies started(
                    spans[n - 1],
                ).ranks(&started(spans[j])) by {
                    if j < n - 1 {
                        Moment::transitive(
                            &started(spans[n - 1]),
                            &started(spans[i]),
                            &started(spans[j]),
                        );
                    }
                }
            }
        }
    }
}

// ------------------------------------------------------------------- outcome

pub open spec fn any_position() -> spec_fn(int) -> bool {
    |i: int| true
}

/// The positions of spans that declare an outcome.
pub open spec fn declaring(spans: Seq<Span>) -> spec_fn(int) -> bool {
    |i: int| spans[i].facts.outcome.is_some()
}

/// What a declared outcome's text means.
pub open spec fn declared_outcome(text: Seq<char>) -> Outcome {
    let t = lowered(text);
    if t == "success"@ || t == "succeeded"@ || t == "ok"@ || t == "resolved"@ {
        Outcome::Success
    } else if t == "failure"@ || t == "failed"@ || t == "error"@ {
        Outcome::Failure
    } else if t == "abandoned"@ || t == "cancelled"@ || t == "canceled"@ || t == "timeout"@ {
        Outcome::Abandoned
    } else {
        Outcome::Unknown
    }
}

/// The first declared goal, from position `i` on.
pub open spec fn goal_from(spans: Seq<Span>, i: int) -> Option<Seq<char>>
    decreases spans.len() - i,
{
    if i < 0 || i >= spans.len() {
        None
    } else if spans[i].facts.goal.is_some() {
        opt_view(spans[i].facts.goal)
    } else {
        goal_from(spans, i + 1)
    }
}

/// Whether the last span ended less than `idle` before `now`.
pub open spec fn still_active(end: u64, now_ns: u64, idle_ns: u64) -> bool {
    (if now_ns > end {
        now_ns - end
    } else {
        0
    }) < idle_ns
}

/// A session's terminal state. The newest declaration stands; without one, the
/// last span to end decides, unless the session is still active.
pub open spec fn outcome_of(spans: Seq<Span>, now_ns: u64, idle_ns: u64) -> OutcomeView {
    let base = OutcomeView {
        outcome: Outcome::Unknown,
        source: OutcomeSource::Unknown,
        reason: "no_spans"@,
        declared: None,
        goal: goal_from(spans, 0),
        error_count: failures(spans),
        span_count: spans.len(),
    };
    match (
        latest(spans, spans.len() as int, any_position()),
        latest(spans, spans.len() as int, declaring(spans)),
    ) {
        (None, _) => base,
        (Some(_), Some(i)) => {
            let text = opt_view(spans[i].facts.outcome);
            OutcomeView {
                outcome: declared_outcome(text.unwrap()),
                source: OutcomeSource::Declared,
                reason: "declared"@,
                declared: text,
                ..base
            }
        },
        (Some(last), None) => if still_active(spans[last].end_time_ns, now_ns, idle_ns) {
            OutcomeView { source: OutcomeSource::Derived, reason: "still_active"@, ..base }
        } else if failed(spans[last]) {
            OutcomeView {
                outcome: Outcome::Failure,
                source: OutcomeSource::Derived,
                reason: "last_span_failed"@,
                ..base
            }
        } else {
            OutcomeView {
                outcome: Outcome::Success,
                source: OutcomeSource::Derived,
                reason: "last_span_succeeded"@,
                ..base
            }
        },
    }
}

fn read_outcome(text: &str) -> (r: Outcome)
    ensures
        r == declared_outcome(text@),
{
    let lower = to_lower(text);
    let t = lower.as_str();
    if same(t, "success") || same(t, "succeeded") || same(t, "ok") || same(t, "resolved") {
        Outcome::Success
    } else if same(t, "failure") || same(t, "failed") || same(t, "error") {
        Outcome::Failure
    } else if same(t, "abandoned") || same(t, "cancelled") || same(t, "canceled") || same(
        t,
        "timeout",
    ) {
        Outcome::Abandoned
    } else {
        Outcome::Unknown
    }
}

fn find_latest(spans: &[Span], declared_only: bool) -> (r: Option<usize>)
    ensures
        match r {
            Some(i) => i < spans@.len() && latest(
                spans@,
                spans@.len() as int,
                if declared_only {
                    declaring(spans@)
                } else {
                    any_position()
                },
            ) == Some(i as int) && (declared_only ==> spans@[i as int].facts.outcome.is_some()),
            None => latest(
                spans@,
                spans@.len() as int,
                if declared_only {
                    declaring(spans@)
                } else {
                    any_position()
                },
            ).is_none(),
        },
{
    let ghost p = if declared_only {
        declaring(spans@)
    } else {
        any_position()
    };
    let mut best: Option<usize> = None;
    let mut i: usize = 0;
    while i < spans.len()
        invariant
            i <= spans@.len(),
            p == if declared_only {
                declaring(spans@)
            } else {
                any_position()
            },
            match best {
                Some(b) => b < i && latest(spans@, i as int, p) == Some(b as int) && (declared_only
                    ==> spans@[b as int].facts.outcome.is_some()),
                None => latest(spans@, i as int, p).is_none(),
            },
        decreases spans@.len() - i,
    {
        if !declared_only || spans[i].facts.outcome.is_some() {
            assert(p(i as int));
            match best {
                Some(b) => {
                    if moment_at_most(
                        spans[b].end_time_ns,
                        &spans[b],
                        spans[i].end_time_ns,
                        &spans[i],
                    ) {
                        best = Some(i);
                    }
                },
                None => {
                    best = Some(i);
                },
            }
        } else {
            assert(!p(i as int));
        }
        i += 1;
    }
    best
}

fn count_failures(spans: &[Span]) -> (r: usize)
    ensures
        r == failures(spans@),
{
    let mut count: usize = 0;
    let mut i: usize = 0;
    assert(spans@.take(0) =~= seq![]);
    while i < spans.len()
        invariant
            i <= spans@.len(),
            count <= i,
            count == failures(spans@.take(i as int)),
        decreases spans@.len() - i,
    {
        assert(spans@.take(i + 1).drop_last() =~= spans@.take(i as int));
        if is_error(&spans[i]) {
            count += 1;
        }
        i += 1;
    }
    assert(spans@.take(i as int) =~= spans@);
    count
}

fn first_goal(spans: &[Span]) -> (r: Option<String>)
    ensures
        opt_view(r) == goal_from(spans@, 0),
{
    let mut i: usize = 0;
    while i < spans.len()
        invariant
            i <= spans@.len(),
            goal_from(spans@, i as int) == goal_from(spans@, 0),
        decreases spans@.len() - i,
    {
        match &spans[i].facts.goal {
            Some(goal) => {
                return Some(copy(goal.as_str()));
            },
            None => {},
        }
        i += 1;
    }
    None
}

/// A session's terminal state.
///
/// Declared beats derived, and the newest declaration is the one that stands.
/// The derived rule reads the last span to end and nothing else: a run that
/// failed a call, retried it and finished is a success with an error in it.
pub fn session_outcome(spans: &[Span], now_ns: u64, idle_ns: u64) -> (r: SessionOutcome)
    ensures
        r@ == outcome_of(spans@, now_ns, idle_ns),
{
    let error_count = count_failures(spans);
    let span_count = spans.len();
    let goal = first_goal(spans);
    proof {
        lemma_latest(spans@, spans@.len() as int, any_position());
    }
    let last = match find_latest(spans, false) {
        Some(last) => last,
        None => {
            return SessionOutcome {
                outcome: Outcome::Unknown,
                source: OutcomeSource::Unknown,
                reason: "no_spans",
                declared: None,
                goal,
                error_count,
                span_count,
            };
        },
    };
    if let Some(i) = find_latest(spans, true) {
        if let Some(text) = &spans[i].facts.outcome {
            return SessionOutcome {
                outcome: read_outcome(text.as_str()),
                source: OutcomeSource::Declared,
                reason: "declared",
                declared: Some(copy(text.as_str())),
                goal,
                error_count,
                span_count,
            };
        }
    }
    let end: u64 = spans[last].end_time_ns;
    let since: u64 = if now_ns > end {
        now_ns - end
    } else {
        0
    };
    if since < idle_ns {
        return SessionOutcome {
            outcome: Outcome::Unknown,
            source: OutcomeSource::Derived,
            reason: "still_active",
            declared: None,
            goal,
            error_count,
            span_count,
        };
    }
    if is_error(&spans[last]) {
        SessionOutcome {
            outcome: Outcome::Failure,
            source: OutcomeSource::Derived,
            reason: "last_span_failed",
            declared: None,
            goal,
            error_count,
            span_count,
        }
    } else {
        SessionOutcome {
            outcome: Outcome::Success,
            source: OutcomeSource::Derived,
            reason: "last_span_succeeded",
            declared: None,
            goal,
            error_count,
            span_count,
        }
    }
}

// --------------------------------------------------------------------- trends

/// The contexts that were reported, in order.
pub open spec fn reported(contexts: Seq<Option<u64>>) -> Seq<u64>
    decreases contexts.len(),
{
    if contexts.len() == 0 {
        seq![]
    } else {
        let before = reported(contexts.drop_last());
        match contexts.last() {
            Some(n) => before.push(n),
            None => before,
        }
    }
}

pub open spec fn non_decreasing(s: Seq<u64>) -> bool {
    forall|i: int, j: int| #![trigger s[i], s[j]] 0 <= i < j < s.len() ==> s[i] <= s[j]
}

/// Materially larger by the end: twice as large, as far as numbers go, or
/// larger by a fixed amount. What did not grow at all is neither.
pub open spec fn grown(first: u64, last: u64) -> bool {
    let doubled = if first * GROWTH_FACTOR <= u64::MAX {
        first * GROWTH_FACTOR
    } else {
        u64::MAX as int
    };
    last > first && (last >= doubled || last - first >= GROWTH_ABSOLUTE)
}

/// Within the tolerance, in percent of the first value.
pub open spec fn flat(first: u64, last: u64) -> bool {
    let spread = if last >= first {
        last - first
    } else {
        first - last
    };
    spread * 100 <= first * FLAT_TOLERANCE_PERCENT
}

/// How a group's context size moved.
pub open spec fn trend_of(contexts: Seq<Option<u64>>) -> (TokenTrend, Option<u64>, Option<u64>) {
    let values = reported(contexts);
    if values.len() < MIN_TREND_SAMPLES {
        (TokenTrend::Absent, None, None)
    } else {
        let first = values[0];
        let last = values.last();
        let trend = if non_decreasing(values) && grown(first, last) {
            TokenTrend::Growing
        } else if flat(first, last) {
            TokenTrend::Flat
        } else {
            TokenTrend::Varying
        };
        (trend, Some(first), Some(last))
    }
}

fn collect_reported(contexts: &Vec<Option<u64>>) -> (r: Vec<u64>)
    ensures
        r@ == reported(contexts@),
{
    let mut r: Vec<u64> = Vec::new();
    let mut i: usize = 0;
    assert(contexts@.take(0) =~= seq![]);
    while i < contexts.len()
        invariant
            i <= contexts@.len(),
            r@ == reported(contexts@.take(i as int)),
        decreases contexts@.len() - i,
    {
        assert(contexts@.take(i + 1).drop_last() =~= contexts@.take(i as int));
        if let Some(n) = contexts[i] {
            r.push(n);
        }
        i += 1;
    }
    assert(contexts@.take(i as int) =~= contexts@);
    r
}

fn rises(values: &Vec<u64>) -> (r: bool)
    ensures
        r == non_decreasing(values@),
{
    let mut i: usize = 1;
    while i < values.len()
        invariant
            1 <= i,
            i <= values@.len() || values@.len() == 0,
            forall|a: int, b: int|
                #![trigger values@[a], values@[b]]
                0 <= a < b < i && b < values@.len() ==> values@[a] <= values@[b],
        decreases values@.len() - i,
    {
        if values[i] < values[i - 1] {
            assert(values@[i - 1] > values@[i as int]);
            return false;
        }
        assert forall|a: int, b: int|
            #![trigger values@[a], values@[b]]
            0 <= a < b < i + 1 implies values@[a] <= values@[b] by {
            if b == i && a < i - 1 {
                assert(values@[a] <= values@[i - 1]);
            }
        }
        i += 1;
    }
    true
}

/// How a group's context size moved, or why that cannot be said.
pub fn token_trend(contexts: &Vec<Option<u64>>) -> (r: (TokenTrend, Option<u64>, Option<u64>))
    ensures
        r == trend_of(contexts@),
{
    let values = collect_reported(contexts);
    if values.len() < MIN_TREND_SAMPLES {
        return (TokenTrend::Absent, None, None);
    }
    let first: u64 = values[0];
    let last: u64 = values[values.len() - 1];
    let doubled: u64 = if first <= u64::MAX / GROWTH_FACTOR {
        first * GROWTH_FACTOR
    } else {
        u64::MAX
    };
    if rises(&values) && last > first && (last >= doubled || last - first >= GROWTH_ABSOLUTE) {
        return (TokenTrend::Growing, Some(first), Some(last));
    }
    let spread: u64 = if last >= first {
        last - first
    } else {
        first - last
    };
    if spread as u128 * 100 <= first as u128 * FLAT_TOLERANCE_PERCENT as u128 {
        (TokenTrend::Flat, Some(first), Some(last))
    } else {
        (TokenTrend::Varying, Some(first), Some(last))
    }
}

// ---------------------------------------------------------------------- depth

/// The last of the first `n` spans with the given address.
pub open spec fn last_at(spans: Seq<Span>, n: int, trace: Seq<char>, id: Seq<char>) -> Option<int>
    decreases n,
{
    if n <= 0 {
        None
    } else if spans[n - 1].trace_id@ == trace && spans[n - 1].span_id@ == id {
        Some(n - 1)
    } else {
        last_at(spans, n - 1, trace, id)
    }
}

/// Where a span's parent stands. Parents resolve only within their own trace.
pub open spec fn parent_of(spans: Seq<Span>, i: int) -> Option<int> {
    match spans[i].parent_span_id {
        Some(parent) => if parent@.len() == 0 {
            None
        } else {
            last_at(spans, spans.len() as int, spans[i].trace_id@, parent@)
        },
        None => None,
    }
}

/// How many ancestors share a signature, walking up at most `steps` and
/// stopping where the walk comes back to a span it has been at.
pub open spec fn alike_above(
    spans: Seq<Span>,
    i: int,
    seen: Seq<int>,
    steps: nat,
    mine: (Seq<char>, Seq<char>),
) -> nat
    decreases steps,
{
    if steps == 0 {
        0
    } else {
        match parent_of(spans, i) {
            None => 0,
            Some(parent) => if seen.contains(parent) {
                0
            } else {
                (if signature(spans[parent]) == mine {
                    1nat
                } else {
                    0nat
                }) + alike_above(spans, parent, seen.push(parent), (steps - 1) as nat, mine)
            },
        }
    }
}

/// The depth of a span inside an ancestry of its own signature. The count is
/// over ancestors that share it, not over an unbroken run of them.
pub open spec fn self_depth(spans: Seq<Span>, i: int) -> nat {
    alike_above(spans, i, seq![], MAX_ANCESTOR_WALK as nat, signature(spans[i]))
}

fn find_at(spans: &[Span], trace: &str, id: &str) -> (r: Option<usize>)
    ensures
        match r {
            Some(i) => i < spans@.len() && last_at(spans@, spans@.len() as int, trace@, id@)
                == Some(i as int),
            None => last_at(spans@, spans@.len() as int, trace@, id@).is_none(),
        },
{
    let mut n: usize = spans.len();
    while n > 0
        invariant
            n <= spans@.len(),
            last_at(spans@, n as int, trace@, id@) == last_at(
                spans@,
                spans@.len() as int,
                trace@,
                id@,
            ),
        decreases n,
    {
        if same(spans[n - 1].span_id.as_str(), id) && same(spans[n - 1].trace_id.as_str(), trace) {
            return Some(n - 1);
        }
        n -= 1;
    }
    None
}

fn parents_of(spans: &[Span]) -> (r: Vec<Option<usize>>)
    ensures
        r@.len() == spans@.len(),
        forall|i: int|
            0 <= i < spans@.len() ==> match #[trigger] r@[i] {
                Some(p) => p < spans@.len() && parent_of(spans@, i) == Some(p as int),
                None => parent_of(spans@, i).is_none(),
            },
{
    let mut r: Vec<Option<usize>> = Vec::new();
    let mut i: usize = 0;
    while i < spans.len()
        invariant
            i <= spans@.len(),
            r@.len() == i,
            forall|k: int|
                0 <= k < i ==> match #[trigger] r@[k] {
                    Some(p) => p < spans@.len() && parent_of(spans@, k) == Some(p as int),
                    None => parent_of(spans@, k).is_none(),
                },
        decreases spans@.len() - i,
    {
        let found = match &spans[i].parent_span_id {
            Some(parent) => if parent.as_str().is_empty() {
                None
            } else {
                find_at(spans, spans[i].trace_id.as_str(), parent.as_str())
            },
            None => None,
        };
        r.push(found);
        i += 1;
    }
    r
}

fn holds(list: &Vec<usize>, x: usize) -> (r: bool)
    ensures
        r == Seq::new(list@.len(), |i: int| list@[i] as int).contains(x as int),
{
    let ghost view = Seq::new(list@.len(), |i: int| list@[i] as int);
    let mut i: usize = 0;
    while i < list.len()
        invariant
            i <= list@.len(),
            view == Seq::new(list@.len(), |i: int| list@[i] as int),
            forall|k: int| 0 <= k < i ==> #[trigger] view[k] != x,
        decreases list@.len() - i,
    {
        if list[i] == x {
            assert(view[i as int] == x);
            return true;
        }
        i += 1;
    }
    false
}

fn same_step(a: &Span, b: &Span) -> (r: bool)
    ensures
        r == (signature(*a) == signature(*b)),
{
    same(a.service.as_str(), b.service.as_str()) && same(a.name.as_str(), b.name.as_str())
}

/// Depth of each span inside a same-signature ancestry, by position.
pub fn self_depths(spans: &[Span]) -> (r: Vec<usize>)
    ensures
        r@.len() == spans@.len(),
        forall|i: int| 0 <= i < spans@.len() ==> #[trigger] r@[i] == self_depth(spans@, i),
{
    let parents = parents_of(spans);
    let mut depths: Vec<usize> = Vec::new();
    let mut i: usize = 0;
    while i < spans.len()
        invariant
            i <= spans@.len(),
            parents@.len() == spans@.len(),
            forall|k: int|
                0 <= k < spans@.len() ==> match #[trigger] parents@[k] {
                    Some(p) => p < spans@.len() && parent_of(spans@, k) == Some(p as int),
                    None => parent_of(spans@, k).is_none(),
                },
            depths@.len() == i,
            forall|k: int| 0 <= k < i ==> #[trigger] depths@[k] == self_depth(spans@, k),
        decreases spans@.len() - i,
    {
        let ghost mine = signature(spans@[i as int]);
        let mut seen: Vec<usize> = Vec::new();
        let mut current: usize = i;
        let mut depth: usize = 0;
        let mut steps: usize = MAX_ANCESTOR_WALK;
        let mut walking = true;
        let ghost mut path: Seq<int> = seq![];
        assert(path =~= Seq::new(seen@.len(), |j: int| seen@[j] as int));
        while walking
            invariant
                i < spans@.len(),
                current < spans@.len(),
                parents@.len() == spans@.len(),
                forall|k: int|
                    0 <= k < spans@.len() ==> match #[trigger] parents@[k] {
                        Some(p) => p < spans@.len() && parent_of(spans@, k) == Some(p as int),
                        None => parent_of(spans@, k).is_none(),
                    },
                mine == signature(spans@[i as int]),
                steps <= MAX_ANCESTOR_WALK,
                depth <= MAX_ANCESTOR_WALK - steps,
                path == Seq::new(seen@.len(), |j: int| seen@[j] as int),
                walking ==> depth + alike_above(
                    spans@,
                    current as int,
                    path,
                    steps as nat,
                    mine,
                ) == self_depth(spans@, i as int),
                !walking ==> depth == self_depth(spans@, i as int),
            decreases
                steps,
                if walking {
                    1nat
                } else {
                    0nat
                },
        {
            if steps == 0 {
                walking = false;
            } else {
                match parents[current] {
                    None => {
                        walking = false;
                    },
                    Some(parent) => {
                        if holds(&seen, parent) {
                            walking = false;
                        } else {
                            if same_step(&spans[parent], &spans[i]) {
                                depth += 1;
                            }
                            seen.push(parent);
                            proof {
                                path = path.push(parent as int);
                                assert(path =~= Seq::new(seen@.len(), |j: int| seen@[j] as int));
                            }
                            current = parent;
                            steps -= 1;
                        }
                    },
                }
            }
        }
        depths.push(depth);
        i += 1;
    }
    depths
}

// ------------------------------------------------------------- classification

/// Spans rank by when they started.
impl Ranked for Span {
    open spec fn ranks(&self, other: &Self) -> bool {
        self.start_time_ns <= other.start_time_ns
    }

    proof fn total(a: &Self, b: &Self) {
    }

    proof fn transitive(a: &Self, b: &Self, c: &Self) {
    }
}

/// One attempt at a repeated step.
pub struct Attempt<'a> {
    pub span: &'a Span,
}

impl<'a> Ranked for Attempt<'a> {
    open spec fn ranks(&self, other: &Self) -> bool {
        self.span.ranks(other.span)
    }

    proof fn total(a: &Self, b: &Self) {
    }

    proof fn transitive(a: &Self, b: &Self, c: &Self) {
    }
}

impl<'a> Sortable for Attempt<'a> {
    fn at_most(&self, other: &Self) -> (r: bool) {
        self.span.start_time_ns <= other.span.start_time_ns
    }
}

/// How many attempts waited for the one before them.
pub open spec fn serial_pairs(ordered: Seq<Span>) -> nat
    decreases ordered.len(),
{
    if ordered.len() < 2 {
        0
    } else {
        let n = ordered.len() as int;
        serial_pairs(ordered.drop_last()) + if ordered[n - 1].start_time_ns >= ordered[n
            - 2].end_time_ns {
            1nat
        } else {
            0nat
        }
    }
}

pub open spec fn contexts_of(ordered: Seq<Span>) -> Seq<Option<u64>> {
    Seq::new(ordered.len(), |i: int| ordered[i].facts.context_tokens)
}

/// Whether an attempt reports usage that no context size can be read off.
pub open spec fn unreadable(span: Span) -> bool {
    span.facts.prompt_tokens.is_some() && span.facts.context_tokens.is_none()
}

/// How the context size moved across attempts. One attempt that cannot be read
/// leaves no trend: that is no gap in the data but a reason to distrust it.
pub open spec fn attempts_trend(ordered: Seq<Span>) -> (TokenTrend, Option<u64>, Option<u64>) {
    if exists|i: int| 0 <= i < ordered.len() && unreadable(#[trigger] ordered[i]) {
        (TokenTrend::Unknown, None, None)
    } else {
        trend_of(contexts_of(ordered))
    }
}

/// Whether a link says that it is a retry.
pub open spec fn is_retry(link: Link) -> bool {
    match entry_from(entries_view(link.attributes@), "relation"@, 0) {
        Some(JsonView::Text(t)) => t == "retry-of"@,
        _ => false,
    }
}

pub open spec fn links_to(link: Link, members: Seq<Span>) -> bool {
    exists|m: int|
        0 <= m < members.len() && (#[trigger] members[m]).trace_id@ == link.trace_id@
            && members[m].span_id@ == link.span_id@
}

/// Whether a span has a link labelled a retry of one of the members.
pub open spec fn retries_one(span: Span, members: Seq<Span>) -> bool {
    exists|l: int|
        0 <= l < span.links@.len() && is_retry(#[trigger] span.links@[l]) && links_to(
            span.links@[l],
            members,
        )
}

/// Whether a group holds a retry its producer labelled one.
pub open spec fn has_declared_retry(members: Seq<Span>) -> bool {
    exists|m: int| 0 <= m < members.len() && retries_one(#[trigger] members[m], members)
}

pub open spec fn address(span: Span) -> (Seq<char>, Seq<char>) {
    (span.trace_id@, span.span_id@)
}

/// The first few members, and the last where there are more.
pub open spec fn evidence(ordered: Seq<Span>) -> Seq<(Seq<char>, Seq<char>)> {
    if ordered.len() < EVIDENCE {
        Seq::new(ordered.len(), |i: int| address(ordered[i]))
    } else {
        Seq::new((EVIDENCE - 1) as nat, |i: int| address(ordered[i])).push(address(ordered.last()))
    }
}

/// At least four fifths of the attempts waited.
pub open spec fn mostly_serial(serial: nat, pairs: nat) -> bool {
    serial * 5 >= pairs * 4
}

pub open spec fn shape_of(
    count: nat,
    errors: nat,
    depth: nat,
    serial: nat,
    pairs: nat,
    trend: TokenTrend,
    declared: bool,
) -> Shape {
    let repeats = count >= MIN_REPEATS;
    if declared && repeats {
        Shape::DeclaredRetry
    } else if depth >= MIN_SELF_DEPTH {
        Shape::SelfSimilarChain
    } else if repeats && trend is Growing {
        Shape::ContextRunaway
    } else if repeats && mostly_serial(serial, pairs) && errors * 2 >= count {
        Shape::RetryStorm
    } else if repeats && (!mostly_serial(serial, pairs) || (errors * 10 < count && (trend is Flat
        || trend is Varying))) {
        Shape::Iteration
    } else {
        Shape::Inconclusive
    }
}

/// The signals that would have decided an inconclusive shape.
pub open spec fn missing_signals(samples: nat, trend: TokenTrend, errors: nat) -> Seq<Seq<char>> {
    (if samples < MIN_TREND_SAMPLES {
        seq!["context tokens on too few attempts to read a trend"@]
    } else {
        seq![]
    }) + (if trend is Unknown {
        seq!["a caching convention whose token arithmetic is not known"@]
    } else {
        seq![]
    }) + (if errors == 0 {
        seq!["no attempt failed"@]
    } else {
        seq![]
    })
}

/// What a group of same-signature spans from one trace turned out to be.
pub open spec fn finding_of(members: Seq<Span>, depth: nat) -> FindingView {
    let ordered = sorted(members);
    let errors = failures(members);
    let serial = serial_pairs(ordered);
    let pairs = (members.len() - 1) as nat;
    let (trend, first, last) = attempts_trend(ordered);
    let shape = shape_of(
        members.len(),
        errors,
        depth,
        serial,
        pairs,
        trend,
        has_declared_retry(members),
    );
    FindingView {
        shape,
        service: members[0].service@,
        name: members[0].name@,
        trace_id: members[0].trace_id@,
        count: members.len(),
        error_count: errors,
        self_depth: depth,
        serial,
        pairs,
        token_trend: trend,
        context_first: first,
        context_last: last,
        spans: evidence(ordered),
        missing: if shape is Inconclusive {
            missing_signals(reported(contexts_of(ordered)).len(), trend, errors)
        } else {
            seq![]
        },
    }
}

fn relation_is_retry(link: &Link) -> (r: bool)
    ensures
        r == is_retry(*link),
{
    let ghost views = entries_view(link.attributes@);
    let mut i: usize = 0;
    while i < link.attributes.len()
        invariant
            i <= link.attributes@.len(),
            views == entries_view(link.attributes@),
            entry_from(views, "relation"@, i as int) == entry_from(views, "relation"@, 0),
        decreases link.attributes@.len() - i,
    {
        if same(link.attributes[i].0.as_str(), "relation") {
            return match link.attributes[i].1.as_str() {
                Some(text) => same(text, "retry-of"),
                None => false,
            };
        }
        i += 1;
    }
    false
}

fn is_member(link: &Link, members: &Vec<&Span>) -> (r: bool)
    ensures
        r == links_to(*link, spans_of(members@)),
{
    let ghost all = spans_of(members@);
    let mut m: usize = 0;
    while m < members.len()
        invariant
            m <= members@.len(),
            all == spans_of(members@),
            forall|k: int|
                0 <= k < m ==> !((#[trigger] all[k]).trace_id@ == link.trace_id@ && all[k].span_id@
                    == link.span_id@),
        decreases members@.len() - m,
    {
        let span: &Span = members[m];
        assert(all[m as int] == *span);
        if same(span.trace_id.as_str(), link.trace_id.as_str()) && same(
            span.span_id.as_str(),
            link.span_id.as_str(),
        ) {
            return true;
        }
        m += 1;
    }
    false
}

/// Whether a group is spanned by links its producer labelled retries.
pub fn declared_retry(members: &Vec<&Span>) -> (r: bool)
    ensures
        r == has_declared_retry(spans_of(members@)),
{
    let ghost all = spans_of(members@);
    let mut m: usize = 0;
    while m < members.len()
        invariant
            m <= members@.len(),
            all == spans_of(members@),
            forall|k: int| 0 <= k < m ==> !retries_one(#[trigger] all[k], all),
        decreases members@.len() - m,
    {
        let span: &Span = members[m];
        assert(all[m as int] == *span);
        let mut l: usize = 0;
        while l < span.links.len()
            invariant
                l <= span.links@.len(),
                m < members@.len(),
                all == spans_of(members@),
                all[m as int] == *span,
                forall|k: int|
                    0 <= k < l ==> !(is_retry(#[trigger] span.links@[k]) && links_to(
                        span.links@[k],
                        all,
                    )),
            decreases span.links@.len() - l,
        {
            if relation_is_retry(&span.links[l]) && is_member(&span.links[l], members) {
                assert(retries_one(all[m as int], all));
                return true;
            }
            l += 1;
        }
        m += 1;
    }
    false
}

fn reference_to(span: &Span) -> (r: SpanRef)
    ensures
        r.key() == address(*span),
{
    SpanRef { trace_id: copy(span.trace_id.as_str()), span_id: copy(span.span_id.as_str()) }
}

pub open spec fn attempt_spans<'a>() -> spec_fn(Attempt<'a>) -> Span {
    |a: Attempt<'a>| *a.span
}

fn evidence_spans(ordered: &Vec<Attempt>) -> (r: Vec<SpanRef>)
    ensures
        keys(r@) == evidence(ordered@.map_values(attempt_spans())),
{
    let ghost all = ordered@.map_values(attempt_spans());
    let mut refs: Vec<SpanRef> = Vec::new();
    let mut i: usize = 0;
    while i < ordered.len() && i < EVIDENCE - 1
        invariant
            i <= ordered@.len(),
            i <= EVIDENCE - 1,
            all == ordered@.map_values(attempt_spans()),
            refs@.len() == i,
            forall|k: int| 0 <= k < i ==> (#[trigger] refs@[k]).key() == address(all[k]),
        decreases ordered@.len() - i,
    {
        assert(all[i as int] == *ordered@[i as int].span);
        refs.push(reference_to(ordered[i].span));
        i += 1;
    }
    if ordered.len() > EVIDENCE - 1 {
        assert(all.last() == *ordered@[ordered@.len() - 1].span);
        refs.push(reference_to(ordered[ordered.len() - 1].span));
    }
    assert(keys(refs@) =~= evidence(all));
    refs
}

/// The attempts in the order in which they started.
fn in_start_order<'a>(members: &Vec<&'a Span>) -> (r: Vec<Attempt<'a>>)
    ensures
        r@.map_values(attempt_spans()) == sorted(spans_of(members@)),
        r@.len() == members@.len(),
{
    let mut attempts: Vec<Attempt<'a>> = Vec::new();
    let mut i: usize = 0;
    while i < members.len()
        invariant
            i <= members@.len(),
            attempts@.len() == i,
            forall|k: int| 0 <= k < i ==> (#[trigger] attempts@[k]).span == members@[k],
        decreases members@.len() - i,
    {
        attempts.push(Attempt { span: members[i] });
        i += 1;
    }
    let ghost before = attempts@;
    let ordered = sort(attempts);
    proof {
        assert(before.map_values(attempt_spans()) =~= spans_of(members@));
        crate::sort::lemma_sorted_through(before, attempt_spans());
        crate::sort::law_sorted_keeps_the_items(before);
    }
    ordered
}

fn count_member_failures(members: &Vec<&Span>) -> (r: usize)
    ensures
        r == failures(spans_of(members@)),
        r <= members@.len(),
{
    let ghost all = spans_of(members@);
    let mut count: usize = 0;
    let mut i: usize = 0;
    assert(all.take(0) =~= seq![]);
    while i < members.len()
        invariant
            i <= members@.len(),
            all == spans_of(members@),
            count <= i,
            count == failures(all.take(i as int)),
        decreases members@.len() - i,
    {
        assert(all.take(i + 1).drop_last() =~= all.take(i as int));
        if is_error(members[i]) {
            count += 1;
        }
        i += 1;
    }
    assert(all.take(i as int) =~= all);
    count
}

fn count_serial(ordered: &Vec<Attempt>) -> (r: usize)
    ensures
        r == serial_pairs(ordered@.map_values(attempt_spans())),
        r <= ordered@.len(),
{
    let ghost all = ordered@.map_values(attempt_spans());
    let mut count: usize = 0;
    let mut i: usize = 1;
    if ordered.len() == 0 {
        return 0;
    }
    while i < ordered.len()
        invariant
            1 <= i <= ordered@.len(),
            all == ordered@.map_values(attempt_spans()),
            count < i,
            count == serial_pairs(all.take(i as int)),
        decreases ordered@.len() - i,
    {
        proof {
            assert(all.take(i + 1).drop_last() =~= all.take(i as int));
            assert(all.take(i + 1)[i as int] == *ordered@[i as int].span);
            assert(all.take(i + 1)[i - 1] == *ordered@[i - 1].span);
        }
        if ordered[i].span.start_time_ns >= ordered[i - 1].span.end_time_ns {
            count += 1;
        }
        i += 1;
    }
    assert(all.take(i as int) =~= all);
    count
}

fn any_unreadable(ordered: &Vec<Attempt>) -> (r: bool)
    ensures
        r == exists|i: int|
            0 <= i < ordered@.len() && unreadable(
                #[trigger] ordered@.map_values(attempt_spans())[i],
            ),
{
    let ghost all = ordered@.map_values(attempt_spans());
    let mut i: usize = 0;
    while i < ordered.len()
        invariant
            i <= ordered@.len(),
            all == ordered@.map_values(attempt_spans()),
            forall|k: int| 0 <= k < i ==> !unreadable(#[trigger] all[k]),
        decreases ordered@.len() - i,
    {
        let span: &Span = ordered[i].span;
        assert(all[i as int] == *span);
        if span.facts.prompt_tokens.is_some() && span.facts.context_tokens.is_none() {
            return true;
        }
        i += 1;
    }
    false
}

fn read_contexts(ordered: &Vec<Attempt>) -> (r: Vec<Option<u64>>)
    ensures
        r@ == contexts_of(ordered@.map_values(attempt_spans())),
{
    let ghost all = ordered@.map_values(attempt_spans());
    let mut r: Vec<Option<u64>> = Vec::new();
    let mut i: usize = 0;
    while i < ordered.len()
        invariant
            i <= ordered@.len(),
            all == ordered@.map_values(attempt_spans()),
            r@.len() == i,
            forall|k: int| 0 <= k < i ==> #[trigger] r@[k] == all[k].facts.context_tokens,
        decreases ordered@.len() - i,
    {
        assert(all[i as int] == *ordered@[i as int].span);
        r.push(ordered[i].span.facts.context_tokens);
        i += 1;
    }
    assert(r@ =~= contexts_of(all));
    r
}

/// Whether `a * m >= b * n`, for counts that may be large.
fn scaled_at_least(a: usize, m: u64, b: usize, n: u64) -> (r: bool)
    requires
        m <= 16,
        n <= 16,
    ensures
        r == (a * m >= b * n),
{
    let left: u128 = a as u128;
    let right: u128 = b as u128;
    assert(left * (m as u128) <= 0xffff_ffff_ffff_ffff * 16) by (nonlinear_arith)
        requires
            left <= 0xffff_ffff_ffff_ffff,
            m <= 16,
    ;
    assert(right * (n as u128) <= 0xffff_ffff_ffff_ffff * 16) by (nonlinear_arith)
        requires
            right <= 0xffff_ffff_ffff_ffff,
            n <= 16,
    ;
    left * (m as u128) >= right * (n as u128)
}

/// Classifies one group of same-signature spans from one trace.
pub fn classify(members: &Vec<&Span>, max_self_depth: usize) -> (r: Finding)
    requires
        members@.len() > 0,
    ensures
        r@ == finding_of(spans_of(members@), max_self_depth as nat),
{
    let ghost all = spans_of(members@);
    let count: usize = members.len();
    let error_count = count_member_failures(members);
    let ordered = in_start_order(members);
    let pairs: usize = count - 1;
    let serial = count_serial(&ordered);
    let contexts = read_contexts(&ordered);
    let samples: usize = collect_reported(&contexts).len();
    let (trend, context_first, context_last) = if any_unreadable(&ordered) {
        (TokenTrend::Unknown, None, None)
    } else {
        token_trend(&contexts)
    };
    let declared = declared_retry(members);
    let waited = scaled_at_least(serial, 5, pairs, 4);
    let mut missing: Vec<&'static str> = Vec::new();
    let shape = if declared && count >= MIN_REPEATS {
        Shape::DeclaredRetry
    } else if max_self_depth >= MIN_SELF_DEPTH {
        Shape::SelfSimilarChain
    } else if count >= MIN_REPEATS && trend == TokenTrend::Growing {
        Shape::ContextRunaway
    } else if count >= MIN_REPEATS && waited && scaled_at_least(error_count, 2, count, 1) {
        Shape::RetryStorm
    } else if count >= MIN_REPEATS && (!waited || (!scaled_at_least(error_count, 10, count, 1)
        && (trend == TokenTrend::Flat || trend == TokenTrend::Varying))) {
        // Ordinary work. The trend clause admits only positive evidence of
        // health: what could not be told is never spendable as fine.
        Shape::Iteration
    } else {
        if samples < MIN_TREND_SAMPLES {
            missing.push("context tokens on too few attempts to read a trend");
        }
        if trend == TokenTrend::Unknown {
            missing.push("a caching convention whose token arithmetic is not known");
        }
        if error_count == 0 {
            missing.push("no attempt failed");
        }
        Shape::Inconclusive
    };
    let first: &Span = members[0];
    let finding = Finding {
        shape,
        service: copy(first.service.as_str()),
        name: copy(first.name.as_str()),
        trace_id: copy(first.trace_id.as_str()),
        count,
        error_count,
        self_depth: max_self_depth,
        serial,
        pairs,
        token_trend: trend,
        context_first,
        context_last,
        spans: evidence_spans(&ordered),
        missing,
    };
    proof {
        assert(all[0] == *first);
        assert(finding@.missing =~= finding_of(all, max_self_depth as nat).missing);
    }
    finding
}

// ---------------------------------------------------------------------- cause

/// Whether a span failed under the given parent.
pub open spec fn failed_child(span: Span, parent: Span) -> bool {
    &&& failed(span)
    &&& span.trace_id@ == parent.trace_id@
    &&& span.parent_span_id matches Some(id) && id@.len() > 0 && id@ == parent.span_id@
}

/// A failure none of whose children also failed: a parent that failed because
/// its child did is propagation, not cause.
pub open spec fn is_leaf_error(spans: Seq<Span>, i: int) -> bool {
    failed(spans[i]) && forall|j: int|
        0 <= j < spans.len() ==> !failed_child(#[trigger] spans[j], spans[i])
}

pub open spec fn leaf_errors(spans: Seq<Span>) -> spec_fn(int) -> bool {
    |i: int| is_leaf_error(spans, i)
}

/// Where the step stands that a failure is attributed to.
pub open spec fn cause_position(spans: Seq<Span>) -> Option<int> {
    earliest(spans, spans.len() as int, leaf_errors(spans))
}

fn leaf_error(spans: &[Span], i: usize) -> (r: bool)
    requires
        i < spans@.len(),
    ensures
        r == is_leaf_error(spans@, i as int),
{
    if !is_error(&spans[i]) {
        return false;
    }
    let mut j: usize = 0;
    while j < spans.len()
        invariant
            j <= spans@.len(),
            i < spans@.len(),
            failed(spans@[i as int]),
            forall|k: int|
                0 <= k < j ==> !failed_child(#[trigger] spans@[k], spans@[i as int]),
        decreases spans@.len() - j,
    {
        let child = match &spans[j].parent_span_id {
            Some(id) => !id.as_str().is_empty() && same(id.as_str(), spans[i].span_id.as_str())
                && same(spans[j].trace_id.as_str(), spans[i].trace_id.as_str()) && is_error(
                &spans[j],
            ),
            None => false,
        };
        if child {
            assert(failed_child(spans@[j as int], spans@[i as int]));
            return false;
        }
        j += 1;
    }
    true
}

/// The position of the earliest leaf error. Ties break on trace and span, so
/// the answer is stable.
pub fn leaf_error_cause(spans: &[Span]) -> (r: Option<usize>)
    ensures
        match r {
            Some(i) => i < spans@.len() && cause_position(spans@) == Some(i as int),
            None => cause_position(spans@).is_none(),
        },
{
    let ghost p = leaf_errors(spans@);
    let mut best: Option<usize> = None;
    let mut i: usize = 0;
    while i < spans.len()
        invariant
            i <= spans@.len(),
            p == leaf_errors(spans@),
            match best {
                Some(b) => b < i && earliest(spans@, i as int, p) == Some(b as int),
                None => earliest(spans@, i as int, p).is_none(),
            },
        decreases spans@.len() - i,
    {
        if leaf_error(spans, i) {
            assert(p(i as int));
            match best {
                Some(b) => {
                    if !moment_at_most(
                        spans[b].start_time_ns,
                        &spans[b],
                        spans[i].start_time_ns,
                        &spans[i],
                    ) {
                        best = Some(i);
                    }
                },
                None => {
                    best = Some(i);
                },
            }
        } else {
            assert(!p(i as int));
        }
        i += 1;
    }
    best
}

// ------------------------------------------------------------------ diagnosis

/// What groups spans: the trace and the step's identity. Repetition is counted
/// within a trace; across a session it is the definition of a conversation.
pub open spec fn group_key(span: Span) -> KeyView {
    (span.trace_id@, span.service@, span.name@)
}

pub open spec fn in_group(k: KeyView) -> spec_fn(Span) -> bool {
    |s: Span| group_key(s) == k
}

/// The groups, in the order in which they first appear.
pub open spec fn groups_of(spans: Seq<Span>) -> Seq<KeyView> {
    adjoin_all(seq![], Seq::new(spans.len(), |i: int| group_key(spans[i])))
}

/// The deepest nesting among the members of a group in the first `n` spans.
pub open spec fn group_depth(spans: Seq<Span>, k: KeyView, n: int) -> nat
    decreases n,
{
    if n <= 0 {
        0
    } else {
        let before = group_depth(spans, k, n - 1);
        let here = self_depth(spans, n - 1);
        if group_key(spans[n - 1]) == k && here > before {
            here
        } else {
            before
        }
    }
}

/// Whether a group is worth a look: enough repeats, or deep enough.
pub open spec fn noteworthy(members: nat, depth: nat) -> bool {
    members >= MIN_REPEATS || depth >= MIN_SELF_DEPTH
}

/// The findings for a list of groups, before they are ordered.
pub open spec fn findings_for(spans: Seq<Span>, groups: Seq<KeyView>) -> Seq<FindingView>
    decreases groups.len(),
{
    if groups.len() == 0 {
        seq![]
    } else {
        let before = findings_for(spans, groups.drop_last());
        let members = picked(spans, in_group(groups.last()));
        let depth = group_depth(spans, groups.last(), spans.len() as int);
        if noteworthy(members.len(), depth) {
            before.push(finding_of(members, depth))
        } else {
            before
        }
    }
}

/// Faults first, then the biggest repetition, then by name and trace.
impl Ranked for FindingView {
    open spec fn ranks(&self, other: &Self) -> bool {
        if self.shape.fault() != other.shape.fault() {
            self.shape.fault()
        } else if self.count != other.count {
            self.count > other.count
        } else {
            lex_le(seq![self.name, self.trace_id], seq![other.name, other.trace_id])
        }
    }

    proof fn total(a: &Self, b: &Self) {
        crate::sort::lemma_lex_le_total(seq![a.name, a.trace_id], seq![b.name, b.trace_id]);
    }

    proof fn transitive(a: &Self, b: &Self, c: &Self) {
        if a.shape.fault() == b.shape.fault() && b.shape.fault() == c.shape.fault() && a.count
            == b.count && b.count == c.count {
            crate::sort::lemma_lex_le_transitive(
                seq![a.name, a.trace_id],
                seq![b.name, b.trace_id],
                seq![c.name, c.trace_id],
            );
        }
    }
}

impl Ranked for Finding {
    open spec fn ranks(&self, other: &Self) -> bool {
        self@.ranks(&other@)
    }

    proof fn total(a: &Self, b: &Self) {
        FindingView::total(&a@, &b@);
    }

    proof fn transitive(a: &Self, b: &Self, c: &Self) {
        FindingView::transitive(&a@, &b@, &c@);
    }
}

impl Sortable for Finding {
    fn at_most(&self, other: &Self) -> (r: bool) {
        let mine = self.shape.is_fault();
        let theirs = other.shape.is_fault();
        if mine != theirs {
            return mine;
        }
        if self.count != other.count {
            return self.count > other.count;
        }
        let left = [self.name.as_str(), self.trace_id.as_str()];
        let right = [other.name.as_str(), other.trace_id.as_str()];
        assert(str_views(left@) =~= seq![self@.name, self@.trace_id]);
        assert(str_views(right@) =~= seq![other@.name, other@.trace_id]);
        lex_at_most(&left, &right)
    }
}

pub open spec fn findings_of(spans: Seq<Span>) -> Seq<FindingView> {
    sorted(findings_for(spans, groups_of(spans)))
}

/// The first fault of a step in its trace, from position `i` on.
pub open spec fn fault_of(findings: Seq<FindingView>, step: KeyView, i: int) -> Option<FindingView>
    decreases findings.len() - i,
{
    if i < 0 || i >= findings.len() {
        None
    } else if findings[i].shape.fault() && findings[i].step() == step {
        Some(findings[i])
    } else {
        fault_of(findings, step, i + 1)
    }
}

/// The sentence that names a step's own repetition.
pub open spec fn repeats_sentence(count: nat, error_count: nat) -> Seq<char> {
    "it is the earliest step that failed without a failing child, and its operation repeats "@ + dec(
        count,
    ) + " times in this trace ("@ + dec(error_count) + " of them failing)"@
}

pub open spec fn cause_of(spans: Seq<Span>) -> Option<CauseView> {
    match cause_position(spans) {
        None => None,
        Some(i) => {
            let span = spans[i];
            let (rule, confidence, because) = match fault_of(findings_of(spans), group_key(span), 0) {
                Some(finding) => (
                    "repeated_fault"@,
                    "structural"@,
                    repeats_sentence(finding.count, finding.error_count),
                ),
                None => (
                    "leaf_error"@,
                    "statistical"@,
                    "it is the earliest step that failed without a failing child, so the failures above it are propagation"@,
                ),
            };
            Some(
                CauseView {
                    rule,
                    confidence,
                    span: address(span),
                    name: span.name@,
                    service: span.service@,
                    status: span.status@,
                    because,
                },
            )
        },
    }
}

fn list_groups(spans: &[Span]) -> (r: Distinct<(String, String, String)>)
    ensures
        r@ == groups_of(spans@),
{
    let ghost all = Seq::new(spans@.len(), |i: int| group_key(spans@[i]));
    let mut r: Distinct<(String, String, String)> = Distinct::new();
    let mut i: usize = 0;
    assert(all.take(0) =~= seq![]);
    while i < spans.len()
        invariant
            i <= spans@.len(),
            all == Seq::new(spans@.len(), |i: int| group_key(spans@[i])),
            r@ == adjoin_all(seq![], all.take(i as int)),
        decreases spans@.len() - i,
    {
        assert(all.take(i + 1).drop_last() =~= all.take(i as int));
        r.insert(
            (
                copy(spans[i].trace_id.as_str()),
                copy(spans[i].service.as_str()),
                copy(spans[i].name.as_str()),
            ),
        );
        i += 1;
    }
    assert(all.take(i as int) =~= all);
    r
}

fn gather_group<'a>(
    spans: &'a [Span],
    depths: &Vec<usize>,
    key: &(String, String, String),
) -> (r: (Vec<&'a Span>, usize))
    requires
        depths@.len() == spans@.len(),
        forall|i: int| 0 <= i < spans@.len() ==> #[trigger] depths@[i] == self_depth(spans@, i),
    ensures
        spans_of(r.0@) == picked(spans@, in_group(key.key())),
        r.1 == group_depth(spans@, key.key(), spans@.len() as int),
{
    let ghost k = key.key();
    let mut members: Vec<&'a Span> = Vec::new();
    let mut depth: usize = 0;
    let mut i: usize = 0;
    assert(spans@.take(0) =~= seq![]);
    assert(spans_of(members@) =~= seq![]);
    while i < spans.len()
        invariant
            i <= spans@.len(),
            k == key.key(),
            depths@.len() == spans@.len(),
            forall|i: int| 0 <= i < spans@.len() ==> #[trigger] depths@[i] == self_depth(spans@, i),
            spans_of(members@) == picked(spans@.take(i as int), in_group(k)),
            depth == group_depth(spans@, k, i as int),
        decreases spans@.len() - i,
    {
        let ghost before = members@;
        let span: &'a Span = &spans[i];
        assert(spans@.take(i + 1).drop_last() =~= spans@.take(i as int));
        assert(depths@[i as int] == self_depth(spans@, i as int));
        if same(span.trace_id.as_str(), key.0.as_str()) && same(
            span.service.as_str(),
            key.1.as_str(),
        ) && same(span.name.as_str(), key.2.as_str()) {
            members.push(span);
            assert(spans_of(members@) =~= spans_of(before).push(*span));
            if depths[i] > depth {
                depth = depths[i];
            }
        }
        i += 1;
    }
    assert(spans@.take(i as int) =~= spans@);
    (members, depth)
}

fn find_fault<'a>(findings: &'a Vec<Finding>, span: &Span) -> (r: Option<&'a Finding>)
    ensures
        match r {
            Some(finding) => fault_of(finding_views(findings@), group_key(*span), 0) == Some(
                finding@,
            ),
            None => fault_of(finding_views(findings@), group_key(*span), 0).is_none(),
        },
{
    let ghost views = finding_views(findings@);
    let mut i: usize = 0;
    while i < findings.len()
        invariant
            i <= findings@.len(),
            views == finding_views(findings@),
            fault_of(views, group_key(*span), i as int) == fault_of(views, group_key(*span), 0),
        decreases findings@.len() - i,
    {
        let finding = &findings[i];
        assert(views[i as int] == finding@);
        if finding.shape.is_fault() && same(finding.trace_id.as_str(), span.trace_id.as_str())
            && same(finding.service.as_str(), span.service.as_str()) && same(
            finding.name.as_str(),
            span.name.as_str(),
        ) {
            return Some(finding);
        }
        i += 1;
    }
    None
}

/// Diagnoses one run from the spans that make it up: a session or a trace. The
/// whole answer is computed from that one slice.
pub fn diagnose(spans: &[Span], now_ns: u64, idle_ns: u64, truncated: bool) -> (r: Diagnosis)
    ensures
        r.outcome@ == outcome_of(spans@, now_ns, idle_ns),
        finding_views(r.findings@) == findings_of(spans@),
        match r.cause {
            Some(cause) => cause_of(spans@) == Some(cause@),
            None => cause_of(spans@).is_none(),
        },
        r.examined == spans@.len(),
        r.truncated == truncated,
{
    let outcome = session_outcome(spans, now_ns, idle_ns);
    let depths = self_depths(spans);
    let groups = list_groups(spans);
    let list = groups.items();
    let ghost all = groups_of(spans@);
    let mut findings: Vec<Finding> = Vec::new();
    let mut g: usize = 0;
    assert(all.take(0) =~= seq![]);
    assert(finding_views(findings@) =~= seq![]);
    while g < list.len()
        invariant
            g <= list@.len(),
            keys(list@) == all,
            depths@.len() == spans@.len(),
            forall|i: int| 0 <= i < spans@.len() ==> #[trigger] depths@[i] == self_depth(spans@, i),
            all == groups_of(spans@),
            finding_views(findings@) == findings_for(spans@, all.take(g as int)),
        decreases list@.len() - g,
    {
        let ghost before = findings@;
        assert(all.take(g + 1).drop_last() =~= all.take(g as int));
        assert(all[g as int] == list@[g as int].key());
        let (members, depth) = gather_group(spans, &depths, &list[g]);
        assert(spans_of(members@).len() == members@.len());
        if members.len() >= MIN_REPEATS || depth >= MIN_SELF_DEPTH {
            proof {
                lemma_group_has_members(spans@, all[g as int]);
            }
            let finding = classify(&members, depth);
            findings.push(finding);
            assert(finding_views(findings@) =~= finding_views(before).push(finding@));
        }
        g += 1;
    }
    assert(all.take(g as int) =~= all);
    let ghost unordered = findings@;
    let findings = sort(findings);
    proof {
        crate::sort::lemma_sorted_through(unordered, viewing());
    }
    let cause = match leaf_error_cause(spans) {
        None => None,
        Some(i) => {
            let span = &spans[i];
            let (rule, confidence, because): (&'static str, &'static str, String) =
                match find_fault(&findings, span) {
                Some(finding) => {
                    let mut because = copy(
                        "it is the earliest step that failed without a failing child, and its operation repeats ",
                    );
                    because.push_str(decimal(finding.count as u64).as_str());
                    because.push_str(" times in this trace (");
                    because.push_str(decimal(finding.error_count as u64).as_str());
                    because.push_str(" of them failing)");
                    ("repeated_fault", "structural", because)
                },
                None => (
                    "leaf_error",
                    "statistical",
                    copy(
                        "it is the earliest step that failed without a failing child, so the failures above it are propagation",
                    ),
                ),
            };
            Some(
                Cause {
                    rule,
                    confidence,
                    span: reference_to(span),
                    name: copy(span.name.as_str()),
                    service: copy(span.service.as_str()),
                    status: copy(span.status.as_str()),
                    because,
                },
            )
        },
    };
    Diagnosis { outcome, cause, findings, examined: spans.len(), truncated }
}

/// A group has at least the member it was named after.
proof fn lemma_group_has_members(spans: Seq<Span>, k: KeyView)
    requires
        groups_of(spans).contains(k),
    ensures
        picked(spans, in_group(k)).len() > 0,
{
    let all = Seq::new(spans.len(), |i: int| group_key(spans[i]));
    crate::sets::lemma_adjoin_all(Seq::<KeyView>::empty(), all);
    assert(adjoin_all(Seq::<KeyView>::empty(), all).contains(k));
    assert(all.contains(k));
    let i = choose|i: int| 0 <= i < all.len() && all[i] == k;
    crate::sets::lemma_picked(spans, in_group(k));
    assert(spans.contains(spans[i]));
    assert(picked(spans, in_group(k)).contains(spans[i]));
}

// ----------------------------------------------------------------------- laws

/// The span a failure is attributed to failed itself, none of its children
/// did, and no other such span started before it.
pub proof fn law_the_cause_is_the_earliest_leaf_error(spans: Seq<Span>)
    ensures
        match cause_position(spans) {
            Some(i) => 0 <= i < spans.len() && is_leaf_error(spans, i) && forall|j: int|
                0 <= j < spans.len() && #[trigger] is_leaf_error(spans, j) ==> started(
                    spans[i],
                ).ranks(&started(spans[j])),
            None => forall|j: int| 0 <= j < spans.len() ==> !#[trigger] is_leaf_error(spans, j),
        },
{
    let p = leaf_errors(spans);
    lemma_earliest(spans, spans.len() as int, p);
    assert forall|j: int| 0 <= j < spans.len() implies #[trigger] is_leaf_error(spans, j) == p(
        j,
    ) by {}
    match cause_position(spans) {
        Some(i) => {
            assert forall|j: int| 0 <= j < spans.len() && #[trigger] is_leaf_error(
                spans,
                j,
            ) implies started(spans[i]).ranks(&started(spans[j])) by {
                assert(p(j));
            }
        },
        None => {
            assert forall|j: int| 0 <= j < spans.len() implies !#[trigger] is_leaf_error(
                spans,
                j,
            ) by {
                assert(!p(j));
            }
        },
    }
}

proof fn lemma_fault_of(findings: Seq<FindingView>, step: KeyView, i: int)
    requires
        0 <= i,
    ensures
        match fault_of(findings, step, i) {
            Some(finding) => findings.contains(finding) && finding.shape.fault() && finding.step()
                == step,
            None => forall|k: int|
                i <= k < findings.len() ==> !((#[trigger] findings[k]).shape.fault()
                    && findings[k].step() == step),
        },
    decreases findings.len() - i,
{
    if i < findings.len() && !(findings[i].shape.fault() && findings[i].step() == step) {
        lemma_fault_of(findings, step, i + 1);
    }
}

/// Whether a finding shows what a cause says: that its step is a fault, and
/// how often it repeats and fails.
pub open spec fn shows(finding: FindingView, cause: CauseView) -> bool {
    &&& finding.shape.fault()
    &&& finding.trace_id == cause.span.0
    &&& finding.service == cause.service
    &&& finding.name == cause.name
    &&& cause.because == repeats_sentence(finding.count, finding.error_count)
}

/// What a cause says of its step's repetition can be checked against the
/// findings beside it: one of them is about that step and holds both counts.
/// Where no fault is about the step, the cause does not claim one.
pub proof fn law_a_cause_can_be_checked(spans: Seq<Span>)
    requires
        cause_of(spans).is_some(),
    ensures
        ({
            let cause = cause_of(spans).unwrap();
            let findings = findings_of(spans);
            &&& cause.rule == "repeated_fault"@ ==> exists|i: int|
                0 <= i < findings.len() && shows(#[trigger] findings[i], cause)
            &&& cause.rule != "repeated_fault"@ ==> cause.rule == "leaf_error"@ && forall|i: int|
                0 <= i < findings.len() && (#[trigger] findings[i]).shape.fault()
                    ==> findings[i].step() != (cause.span.0, cause.service, cause.name)
        }),
{
    reveal_strlit("repeated_fault");
    reveal_strlit("leaf_error");
    let span = spans[cause_position(spans).unwrap()];
    let findings = findings_of(spans);
    lemma_fault_of(findings, group_key(span), 0);
    if let Some(finding) = fault_of(findings, group_key(span), 0) {
        let i = choose|i: int| 0 <= i < findings.len() && findings[i] == finding;
        assert(shows(findings[i], cause_of(spans).unwrap()));
    } else {
        assert("leaf_error"@.len() != "repeated_fault"@.len());
    }
}

/// One attempt whose usage cannot be read leaves no trend, whatever the others
/// report, and so neither a runaway nor evidence of health.
pub proof fn law_an_unreadable_attempt_leaves_no_trend(members: Seq<Span>, i: int, depth: nat)
    requires
        0 <= i < members.len(),
        unreadable(members[i]),
    ensures
        finding_of(members, depth).token_trend is Unknown,
        !(finding_of(members, depth).shape is ContextRunaway),
{
    let ordered = sorted(members);
    crate::sort::lemma_sorted_members(members, members[i]);
    let k = choose|k: int| 0 <= k < ordered.len() && ordered[k] == members[i];
    assert(unreadable(ordered[k]));
}

/// A run that failed a call and recovered is a success: once it is idle and
/// nothing was declared, the last span to end decides alone.
pub proof fn law_a_recovered_run_is_a_success(
    spans: Seq<Span>,
    last: int,
    now_ns: u64,
    idle_ns: u64,
)
    requires
        latest(spans, spans.len() as int, any_position()) == Some(last),
        forall|i: int| 0 <= i < spans.len() ==> (#[trigger] spans[i]).facts.outcome.is_none(),
        !failed(spans[last]),
        !still_active(spans[last].end_time_ns, now_ns, idle_ns),
    ensures
        outcome_of(spans, now_ns, idle_ns).outcome is Success,
        outcome_of(spans, now_ns, idle_ns).error_count == failures(spans),
{
    lemma_latest(spans, spans.len() as int, declaring(spans));
    if let Some(i) = latest(spans, spans.len() as int, declaring(spans)) {
        assert(declaring(spans)(i));
    }
}

/// Nothing known is never read as ordinary work: without a trend, serial
/// repeats are not an iteration.
pub proof fn law_absence_is_not_health(
    count: nat,
    errors: nat,
    depth: nat,
    serial: nat,
    pairs: nat,
    trend: TokenTrend,
    declared: bool,
)
    requires
        trend is Absent || trend is Unknown,
        mostly_serial(serial, pairs),
    ensures
        !(shape_of(count, errors, depth, serial, pairs, trend, declared) is Iteration),
{
}

/// A conversation is not a runaway: where no step repeats often or nests
/// deeply within one trace, there is no finding, however often it repeats
/// across traces.
pub proof fn law_repetition_is_counted_within_a_trace(spans: Seq<Span>)
    requires
        forall|k: KeyView|
            !noteworthy(
                #[trigger] picked(spans, in_group(k)).len(),
                group_depth(spans, k, spans.len() as int),
            ),
    ensures
        findings_of(spans).len() == 0,
{
    lemma_no_findings(spans, groups_of(spans));
}

proof fn lemma_no_findings(spans: Seq<Span>, groups: Seq<KeyView>)
    requires
        forall|k: KeyView|
            !noteworthy(
                #[trigger] picked(spans, in_group(k)).len(),
                group_depth(spans, k, spans.len() as int),
            ),
    ensures
        findings_for(spans, groups).len() == 0,
    decreases groups.len(),
{
    if groups.len() > 0 {
        lemma_no_findings(spans, groups.drop_last());
        assert(picked(spans, in_group(groups.last())).len() >= 0);
    }
}

/// Faults come before everything else.
pub proof fn law_faults_come_first(spans: Seq<Span>, i: int, j: int)
    requires
        0 <= i < j < findings_of(spans).len(),
        findings_of(spans)[j].shape.fault(),
    ensures
        findings_of(spans)[i].shape.fault(),
{
    crate::sort::law_sorted_is_in_order(findings_for(spans, groups_of(spans)));
    let f = findings_of(spans);
    assert(f[i].ranks(&f[j]));
}

/// A walk up the ancestors ends, whatever the parent links say.
pub proof fn law_depth_is_bounded(spans: Seq<Span>, i: int)
    ensures
        self_depth(spans, i) <= MAX_ANCESTOR_WALK,
{
    lemma_alike_above(spans, i, seq![], MAX_ANCESTOR_WALK as nat, signature(spans[i]));
}

proof fn lemma_alike_above(
    spans: Seq<Span>,
    i: int,
    seen: Seq<int>,
    steps: nat,
    mine: (Seq<char>, Seq<char>),
)
    ensures
        alike_above(spans, i, seen, steps, mine) <= steps,
    decreases steps,
{
    if steps > 0 {
        if let Some(parent) = parent_of(spans, i) {
            lemma_alike_above(spans, parent, seen.push(parent), (steps - 1) as nat, mine);
        }
    }
}

/// What a caller reads off an outcome is what it holds.
pub proof fn law_an_outcome_shows_its_fields(o: SessionOutcome)
    ensures
        o@.outcome == o.outcome && o@.source == o.source && o@.reason == o.reason@,
        o@.error_count == o.error_count && o@.span_count == o.span_count,
        o.declared matches Some(text) ==> o@.declared == Some(text@),
        o.declared is None ==> o@.declared is None,
        o.goal matches Some(text) ==> o@.goal == Some(text@),
        o.goal is None ==> o@.goal is None,
{
}

/// Whether one span ended before another: earlier, or at the same instant with
/// the smaller trace id, or in the same trace with the smaller span id.
pub open spec fn ended_before(a: Span, b: Span) -> bool {
    ||| a.end_time_ns < b.end_time_ns
    ||| a.end_time_ns == b.end_time_ns && a.trace_id@ != b.trace_id@ && text_le(
        a.trace_id@,
        b.trace_id@,
    )
    ||| a.end_time_ns == b.end_time_ns && a.trace_id@ == b.trace_id@ && a.span_id@ != b.span_id@
        && text_le(a.span_id@, b.span_id@)
}

/// Whether two spans ended at one instant under one address.
pub open spec fn ended_alike(a: Span, b: Span) -> bool {
    a.end_time_ns == b.end_time_ns && a.trace_id@ == b.trace_id@ && a.span_id@ == b.span_id@
}

proof fn lemma_ended_before(a: Span, b: Span)
    ensures
        ended_before(a, b) ==> !ended(b).ranks(&ended(a)),
        ended_alike(a, b) ==> ended(a).ranks(&ended(b)),
{
    crate::sort::law_pair_order(b.trace_id@, b.span_id@, a.trace_id@, a.span_id@);
    crate::sort::law_pair_order(a.trace_id@, a.span_id@, b.trace_id@, b.span_id@);
    if ended_before(a, b) && a.end_time_ns == b.end_time_ns && ended(b).ranks(&ended(a)) {
        if a.trace_id@ != b.trace_id@ {
            crate::sort::lemma_text_le_antisymmetric(a.trace_id@, b.trace_id@);
        } else {
            crate::sort::lemma_text_le_antisymmetric(a.span_id@, b.span_id@);
        }
    }
    if ended_alike(a, b) {
        Moment::total(&ended(a), &ended(a));
    }
}

proof fn lemma_is_latest(spans: Seq<Span>, i: int, p: spec_fn(int) -> bool)
    requires
        0 <= i < spans.len(),
        p(i),
        forall|j: int|
            0 <= j < spans.len() && j != i && #[trigger] p(j) ==> ended_before(spans[j], spans[i])
                || (j < i && ended_alike(spans[j], spans[i])),
    ensures
        latest(spans, spans.len() as int, p) == Some(i),
{
    lemma_latest(spans, spans.len() as int, p);
    let k = latest(spans, spans.len() as int, p).unwrap();
    if k != i {
        assert(p(k));
        lemma_ended_before(spans[k], spans[i]);
    }
}

/// The newest declaration decides a session's outcome, by its word alone and in
/// any case: `success`, `succeeded`, `ok` and `resolved` are a success,
/// `failure`, `failed` and `error` a failure, `abandoned`, `cancelled`,
/// `canceled` and `timeout` an abandoned run, and any other word tells nothing.
pub proof fn law_the_newest_declaration_decides(
    spans: Seq<Span>,
    i: int,
    text: Seq<char>,
    now_ns: u64,
    idle_ns: u64,
)
    requires
        0 <= i < spans.len(),
        spans[i].facts.outcome matches Some(word) && word@ == text,
        forall|j: int|
            0 <= j < spans.len() && j != i && (#[trigger] spans[j]).facts.outcome is Some
                ==> ended_before(spans[j], spans[i]) || (j < i && ended_alike(spans[j], spans[i])),
    ensures
        ({
            let r = outcome_of(spans, now_ns, idle_ns);
            let t = lowered(text);
            &&& r.source is Declared
            &&& r.reason == "declared"@
            &&& r.declared == Some(text)
            &&& t == "success"@ ==> r.outcome is Success
            &&& t == "succeeded"@ ==> r.outcome is Success
            &&& t == "ok"@ ==> r.outcome is Success
            &&& t == "resolved"@ ==> r.outcome is Success
            &&& t == "failure"@ ==> r.outcome is Failure
            &&& t == "failed"@ ==> r.outcome is Failure
            &&& t == "error"@ ==> r.outcome is Failure
            &&& t == "abandoned"@ ==> r.outcome is Abandoned
            &&& t == "cancelled"@ ==> r.outcome is Abandoned
            &&& t == "canceled"@ ==> r.outcome is Abandoned
            &&& t == "timeout"@ ==> r.outcome is Abandoned
            &&& r.outcome is Success ==> t == "success"@ || t == "succeeded"@ || t == "ok"@ || t
                == "resolved"@
            &&& r.outcome is Failure ==> t == "failure"@ || t == "failed"@ || t == "error"@
            &&& r.outcome is Abandoned ==> t == "abandoned"@ || t == "cancelled"@ || t
                == "canceled"@ || t == "timeout"@
        }),
{
    let p = declaring(spans);
    assert forall|j: int| 0 <= j < spans.len() && j != i && #[trigger] p(j) implies ended_before(
        spans[j],
        spans[i],
    ) || (j < i && ended_alike(spans[j], spans[i])) by {
        assert(spans[j].facts.outcome is Some);
    }
    lemma_is_latest(spans, i, p);
    lemma_latest(spans, spans.len() as int, any_position());
    assert(any_position()(i));
    reveal_strlit("success");
    reveal_strlit("succeeded");
    reveal_strlit("ok");
    reveal_strlit("resolved");
    reveal_strlit("failure");
    reveal_strlit("failed");
    reveal_strlit("error");
    reveal_strlit("abandoned");
    reveal_strlit("cancelled");
    reveal_strlit("canceled");
    reveal_strlit("timeout");
    let t = lowered(text);
    assert(t == "failure"@ ==> t.len() == 7 && t[0] == 'f');
    assert(t == "success"@ ==> t.len() == 7 && t[0] == 's');
    assert(t == "succeeded"@ ==> t.len() == 9 && t[0] == 's');
    assert(t == "resolved"@ ==> t.len() == 8 && t[0] == 'r');
    assert(t == "canceled"@ ==> t.len() == 8 && t[0] == 'c');
    assert(t == "cancelled"@ ==> t.len() == 9 && t[0] == 'c');
    assert(t == "abandoned"@ ==> t.len() == 9 && t[0] == 'a');
    assert(t == "timeout"@ ==> t.len() == 7 && t[0] == 't');
    assert(t == "failed"@ ==> t.len() == 6);
    assert(t == "error"@ ==> t.len() == 5);
    assert(t == "ok"@ ==> t.len() == 2);
}

/// Without a declaration the last span to end decides. A session less than
/// `idle_ns` after that end is still active, and nothing can be told; after it,
/// a last span whose status is `error`, in any case, is a failure and any other
/// a success.
pub proof fn law_the_last_span_decides(spans: Seq<Span>, i: int, now_ns: u64, idle_ns: u64)
    requires
        0 <= i < spans.len(),
        forall|j: int| 0 <= j < spans.len() ==> (#[trigger] spans[j]).facts.outcome is None,
        forall|j: int|
            #![trigger spans[j]]
            0 <= j < spans.len() && j != i ==> ended_before(spans[j], spans[i]) || (j < i
                && ended_alike(spans[j], spans[i])),
    ensures
        ({
            let r = outcome_of(spans, now_ns, idle_ns);
            let active = idle_ns > 0 && now_ns < spans[i].end_time_ns + idle_ns;
            let error = lowered(spans[i].status@) == "error"@;
            &&& r.source is Derived
            &&& r.declared is None
            &&& active ==> r.outcome is Unknown && r.reason == "still_active"@
            &&& !active && error ==> r.outcome is Failure && r.reason == "last_span_failed"@
            &&& !active && !error ==> r.outcome is Success && r.reason == "last_span_succeeded"@
        }),
{
    lemma_failed(spans[i]);
    let p = any_position();
    assert forall|j: int| 0 <= j < spans.len() && j != i && #[trigger] p(j) implies ended_before(
        spans[j],
        spans[i],
    ) || (j < i && ended_alike(spans[j], spans[i])) by {
        assert(spans[j] == spans[j]);
    }
    assert(p(i));
    lemma_is_latest(spans, i, p);
    lemma_latest(spans, spans.len() as int, declaring(spans));
    if let Some(k) = latest(spans, spans.len() as int, declaring(spans)) {
        assert(declaring(spans)(k));
        assert(spans[k].facts.outcome is None);
    }
}

proof fn lemma_failed(span: Span)
    ensures
        failed(span) == (lowered(span.status@) == "error"@),
{
    reveal_strlit("error");
    assert(lowered("error"@) =~= "error"@);
}

/// Every span is counted, and every failed one among the errors: those whose
/// status is `error` in any case. Of no spans nothing can be told.
pub proof fn law_an_outcome_counts_its_spans(spans: Seq<Span>, now_ns: u64, idle_ns: u64)
    ensures
        ({
            let r = outcome_of(spans, now_ns, idle_ns);
            &&& r.span_count == spans.len()
            &&& r.error_count == spans.filter(
                |s: Span| lowered(s.status@) == "error"@,
            ).len()
            &&& spans.len() == 0 ==> r.outcome is Unknown && r.source is Unknown && r.reason
                == "no_spans"@ && r.declared is None
        }),
{
    lemma_failures(spans);
    lemma_latest(spans, spans.len() as int, any_position());
    lemma_latest(spans, spans.len() as int, declaring(spans));
    if spans.len() > 0 {
        assert(any_position()(0));
    }
}

proof fn lemma_failures(spans: Seq<Span>)
    ensures
        failures(spans) == spans.filter(|s: Span| lowered(s.status@) == "error"@).len(),
    decreases spans.len(),
{
    reveal(Seq::filter);
    if spans.len() > 0 {
        lemma_failures(spans.drop_last());
        lemma_failed(spans.last());
    }
}

/// The goal is the one that the first span with a goal declares.
pub proof fn law_the_first_goal_stands(spans: Seq<Span>, i: int, now_ns: u64, idle_ns: u64)
    requires
        0 <= i <= spans.len(),
        forall|j: int| 0 <= j < i ==> (#[trigger] spans[j]).facts.goal is None,
        i < spans.len() ==> spans[i].facts.goal is Some,
    ensures
        i == spans.len() ==> outcome_of(spans, now_ns, idle_ns).goal is None,
        i < spans.len() ==> outcome_of(spans, now_ns, idle_ns).goal == Some(
            spans[i].facts.goal->0@,
        ),
{
    lemma_goal(spans, 0, i);
}

proof fn lemma_goal(spans: Seq<Span>, from: int, i: int)
    requires
        0 <= from <= i <= spans.len(),
        forall|j: int| 0 <= j < i ==> (#[trigger] spans[j]).facts.goal is None,
    ensures
        goal_from(spans, from) == goal_from(spans, i),
    decreases i - from,
{
    if from < i {
        lemma_goal(spans, from + 1, i);
    }
}

/// Attempts that report no context change no trend: leaving one out gives the
/// same answer.
pub proof fn law_silent_attempts_change_no_trend(
    before: Seq<Option<u64>>,
    after: Seq<Option<u64>>,
)
    ensures
        trend_of(before.push(None) + after) == trend_of(before + after),
{
    lemma_reported_concat(before.push(None), after);
    lemma_reported_concat(before, after);
    assert(before.push(None).drop_last() =~= before);
}

proof fn lemma_reported_concat(a: Seq<Option<u64>>, b: Seq<Option<u64>>)
    ensures
        reported(a + b) == reported(a) + reported(b),
    decreases b.len(),
{
    if b.len() == 0 {
        assert(a + b =~= a);
        assert(reported(a) + reported(b) =~= reported(a));
    } else {
        lemma_reported_concat(a, b.drop_last());
        assert((a + b).drop_last() =~= a + b.drop_last());
        if let Some(n) = b.last() {
            assert((reported(a) + reported(b.drop_last())).push(n) =~= reported(a)
                + reported(b.drop_last()).push(n));
        }
    }
}

proof fn lemma_all_reported(contexts: Seq<Option<u64>>)
    requires
        forall|i: int| 0 <= i < contexts.len() ==> (#[trigger] contexts[i]) is Some,
    ensures
        reported(contexts).len() == contexts.len(),
        forall|i: int|
            0 <= i < contexts.len() ==> Some(reported(contexts)[i]) == #[trigger] contexts[i],
    decreases contexts.len(),
{
    if contexts.len() > 0 {
        let init = contexts.drop_last();
        lemma_all_reported(init);
        assert(contexts[contexts.len() - 1] is Some);
        assert forall|i: int| 0 <= i < contexts.len() implies Some(reported(contexts)[i])
            == #[trigger] contexts[i] by {
            if i < init.len() {
                assert(init[i] == contexts[i]);
            }
        }
    }
}

/// How reported contexts move: fewer than three tell nothing; a context that
/// never shrinks and ends larger, at twice the first or 20000 tokens above it,
/// grows; one that ends within a tenth of the first is flat; any other varies.
pub proof fn law_trends(contexts: Seq<Option<u64>>)
    requires
        forall|i: int| 0 <= i < contexts.len() ==> (#[trigger] contexts[i]) is Some,
    ensures
        contexts.len() < 3 ==> trend_of(contexts) == (TokenTrend::Absent, None::<u64>, None::<u64>),
        contexts.len() >= 3 ==> {
            let (trend, first, last) = trend_of(contexts);
            let a = contexts[0]->0;
            let b = contexts.last()->0;
            let rises = forall|i: int|
                0 < i < contexts.len() ==> contexts[i - 1]->0 <= (#[trigger] contexts[i])->0;
            let grows = rises && b > a && (b >= 2 * a || b == u64::MAX || b >= a + 20_000);
            let stays = 10 * (b - a) <= a && 10 * (a - b) <= a;
            &&& first == Some(a) && last == Some(b)
            &&& grows ==> trend is Growing
            &&& !grows && stays ==> trend is Flat
            &&& !grows && !stays ==> trend is Varying
        },
{
    lemma_all_reported(contexts);
    let values = reported(contexts);
    assert forall|i: int| 0 <= i < contexts.len() implies values[i] == (
    #[trigger] contexts[i])->0 by {}
    if contexts.len() >= 3 {
        let rises = forall|i: int|
            0 < i < contexts.len() ==> contexts[i - 1]->0 <= (#[trigger] contexts[i])->0;
        if rises {
            lemma_rises(values, contexts);
        } else {
            let i = choose|i: int|
                0 < i < contexts.len() && contexts[i - 1]->0 > (#[trigger] contexts[i])->0;
            assert(values[i - 1] > values[i]);
        }
        assert(values.last() == contexts.last()->0);
    }
}

proof fn lemma_rises(values: Seq<u64>, contexts: Seq<Option<u64>>)
    requires
        values.len() == contexts.len(),
        forall|i: int| 0 <= i < contexts.len() ==> values[i] == (#[trigger] contexts[i])->0,
        forall|i: int|
            0 < i < contexts.len() ==> contexts[i - 1]->0 <= (#[trigger] contexts[i])->0,
    ensures
        non_decreasing(values),
{
    assert forall|i: int, j: int|
        #![trigger values[i], values[j]]
        0 <= i < j < values.len() implies values[i] <= values[j] by {
        lemma_rises_between(values, contexts, i, j);
    }
}

proof fn lemma_rises_between(values: Seq<u64>, contexts: Seq<Option<u64>>, i: int, j: int)
    requires
        0 <= i <= j < values.len(),
        values.len() == contexts.len(),
        forall|k: int| 0 <= k < contexts.len() ==> values[k] == (#[trigger] contexts[k])->0,
        forall|k: int|
            0 < k < contexts.len() ==> contexts[k - 1]->0 <= (#[trigger] contexts[k])->0,
    ensures
        values[i] <= values[j],
    decreases j - i,
{
    if i < j {
        lemma_rises_between(values, contexts, i, j - 1);
        assert(contexts[j - 1]->0 <= contexts[j]->0);
        assert(values[j - 1] == contexts[j - 1]->0);
    }
}

/// Attempts are taken in the order in which they started.
pub proof fn law_attempts_rank_by_start(a: Span, b: Span)
    ensures
        a.ranks(&b) == (a.start_time_ns <= b.start_time_ns),
{
}

/// What a finding says of its group: how many attempts there are and how many
/// of them failed, how many waited for the attempt before them to end, and whose
/// step it is.
pub proof fn law_a_finding_counts_its_group(members: Seq<Span>, depth: nat)
    requires
        members.len() > 0,
    ensures
        ({
            let f = finding_of(members, depth);
            let ordered = sorted(members);
            &&& f.count == members.len()
            &&& f.error_count == members.filter(|s: Span| lowered(s.status@) == "error"@).len()
            &&& f.self_depth == depth
            &&& f.pairs + 1 == members.len()
            &&& f.serial == Seq::new(
                (members.len() - 1) as nat,
                |k: int| ordered[k].end_time_ns <= ordered[k + 1].start_time_ns,
            ).filter(|waited: bool| waited).len()
            &&& f.trace_id == members[0].trace_id@
            &&& f.service == members[0].service@
            &&& f.name == members[0].name@
        }),
{
    lemma_failures(members);
    crate::sort::law_sorted_keeps_the_items(members);
    lemma_serial(sorted(members));
}

proof fn lemma_serial(ordered: Seq<Span>)
    requires
        ordered.len() > 0,
    ensures
        serial_pairs(ordered) == Seq::new(
            (ordered.len() - 1) as nat,
            |k: int| ordered[k].end_time_ns <= ordered[k + 1].start_time_ns,
        ).filter(|waited: bool| waited).len(),
    decreases ordered.len(),
{
    reveal(Seq::filter);
    let waits = Seq::new(
        (ordered.len() - 1) as nat,
        |k: int| ordered[k].end_time_ns <= ordered[k + 1].start_time_ns,
    );
    if ordered.len() >= 2 {
        let init = ordered.drop_last();
        lemma_serial(init);
        assert(waits.drop_last() =~= Seq::new(
            (init.len() - 1) as nat,
            |k: int| init[k].end_time_ns <= init[k + 1].start_time_ns,
        ));
    }
}

/// Whether one of the members is linked, under the relation `retry-of`, to one
/// of the members.
pub open spec fn labelled_a_retry(members: Seq<Span>) -> bool {
    exists|m: int, l: int, k: int|
        {
            &&& 0 <= m < members.len() && 0 <= l < members[m].links@.len() && 0 <= k < members.len()
            &&& (#[trigger] members[m].links@[l]).trace_id@ == (#[trigger] members[k]).trace_id@
            &&& members[m].links@[l].span_id@ == members[k].span_id@
            &&& entry_from(entries_view(members[m].links@[l].attributes@), "relation"@, 0) == Some(
                JsonView::Text("retry-of"@),
            )
        }
}

/// What a repetition is called. Five attempts whose producer labelled one a
/// retry are declared retries. A step nested five deep in itself is a
/// self-similar chain. Five attempts with a growing context are a runaway; five
/// of which four fifths waited and half failed are a retry storm; five of which
/// fewer waited, or of which fewer than a tenth failed while a trend shows no
/// growth, are ordinary work. Nothing else is conclusive.
pub proof fn law_shapes(members: Seq<Span>, depth: nat)
    requires
        members.len() > 0,
    ensures
        ({
            let f = finding_of(members, depth);
            let n = members.len();
            let declared = labelled_a_retry(members) && n >= 5;
            let nested = !declared && depth >= 5;
            let open = !declared && !nested && n >= 5;
            let waited = 5 * f.serial >= 4 * (n - 1);
            let calm = f.token_trend is Flat || f.token_trend is Varying;
            &&& declared ==> f.shape is DeclaredRetry
            &&& nested ==> f.shape is SelfSimilarChain
            &&& open && f.token_trend is Growing ==> f.shape is ContextRunaway
            &&& open && !(f.token_trend is Growing) && waited && 2 * f.error_count >= n
                ==> f.shape is RetryStorm
            &&& open && !(f.token_trend is Growing) && !waited ==> f.shape is Iteration
            &&& open && calm && waited && 10 * f.error_count < n ==> f.shape is Iteration
            &&& open && waited && !(f.token_trend is Growing) && 2 * f.error_count < n && !(calm
                && 10 * f.error_count < n) ==> f.shape is Inconclusive
            &&& !declared && !nested && n < 5 ==> f.shape is Inconclusive
        }),
{
    if has_declared_retry(members) {
        let m = choose|m: int|
            0 <= m < members.len() && retries_one(#[trigger] members[m], members);
        let l = choose|l: int|
            0 <= l < members[m].links@.len() && is_retry(#[trigger] members[m].links@[l])
                && links_to(members[m].links@[l], members);
        let link = members[m].links@[l];
        let k = choose|k: int|
            0 <= k < members.len() && (#[trigger] members[k]).trace_id@ == link.trace_id@
                && members[k].span_id@ == link.span_id@;
        assert(members[m].links@[l].trace_id@ == members[k].trace_id@);
        assert(labelled_a_retry(members));
    }
    if labelled_a_retry(members) {
        let (m, l, k) = choose|m: int, l: int, k: int|
            {
                &&& 0 <= m < members.len() && 0 <= l < members[m].links@.len() && 0 <= k
                    < members.len()
                &&& (#[trigger] members[m].links@[l]).trace_id@ == (
                #[trigger] members[k]).trace_id@
                &&& members[m].links@[l].span_id@ == members[k].span_id@
                &&& entry_from(entries_view(members[m].links@[l].attributes@), "relation"@, 0)
                    == Some(JsonView::Text("retry-of"@))
            };
        assert(links_to(members[m].links@[l], members));
        assert(retries_one(members[m], members));
    }
}

/// A shape is a fault unless it is ordinary work or nothing is known.
pub proof fn law_faults(shape: Shape)
    ensures
        shape is RetryStorm || shape is ContextRunaway || shape is SelfSimilarChain
            || shape is DeclaredRetry ==> shape.fault(),
        shape is Iteration || shape is Inconclusive ==> !shape.fault(),
{
}

/// The trend of a group is that of its attempts' contexts, in the order in
/// which they started. An attempt that reports prompt tokens but no context
/// leaves it unknown.
pub proof fn law_a_groups_trend(members: Seq<Span>, depth: nat)
    requires
        members.len() > 0,
    ensures
        ({
            let f = finding_of(members, depth);
            let contexts = sorted(members).map_values(|s: Span| s.facts.context_tokens);
            let puzzling = exists|i: int|
                0 <= i < members.len() && (#[trigger] members[i]).facts.prompt_tokens is Some
                    && members[i].facts.context_tokens is None;
            &&& puzzling ==> f.token_trend is Unknown && f.context_first is None
                && f.context_last is None
            &&& !puzzling ==> (f.token_trend, f.context_first, f.context_last) == trend_of(contexts)
        }),
{
    let ordered = sorted(members);
    assert(contexts_of(ordered) =~= ordered.map_values(|s: Span| s.facts.context_tokens));
    let puzzling = exists|i: int|
        0 <= i < members.len() && (#[trigger] members[i]).facts.prompt_tokens is Some
            && members[i].facts.context_tokens is None;
    if puzzling {
        let i = choose|i: int|
            0 <= i < members.len() && (#[trigger] members[i]).facts.prompt_tokens is Some
                && members[i].facts.context_tokens is None;
        crate::sort::lemma_sorted_members(members, members[i]);
        let k = choose|k: int| 0 <= k < ordered.len() && ordered[k] == members[i];
        assert(unreadable(ordered[k]));
    } else if exists|k: int| 0 <= k < ordered.len() && unreadable(#[trigger] ordered[k]) {
        let k = choose|k: int| 0 <= k < ordered.len() && unreadable(#[trigger] ordered[k]);
        crate::sort::lemma_sorted_members(members, ordered[k]);
        let i = choose|i: int| 0 <= i < members.len() && members[i] == ordered[k];
        assert(members[i].facts.prompt_tokens is Some);
    }
}

/// The evidence of a finding is its attempts where they are at most four, and
/// otherwise the first four and the last.
pub proof fn law_evidence(members: Seq<Span>, depth: nat, i: int)
    requires
        0 <= i < members.len(),
    ensures
        ({
            let f = finding_of(members, depth);
            let ordered = sorted(members);
            &&& f.spans.len() == if members.len() < 5 {
                members.len()
            } else {
                5
            }
            &&& i < 4 ==> f.spans[i] == (ordered[i].trace_id@, ordered[i].span_id@)
            &&& f.spans.last() == (ordered.last().trace_id@, ordered.last().span_id@)
        }),
{
    crate::sort::law_sorted_keeps_the_items(members);
}

/// An inconclusive finding says what was missing, and no other says anything.
pub proof fn law_what_was_missing(members: Seq<Span>, depth: nat)
    requires
        members.len() > 0,
    ensures
        ({
            let f = finding_of(members, depth);
            let few = "context tokens on too few attempts to read a trend"@;
            let caching = "a caching convention whose token arithmetic is not known"@;
            let calm = "no attempt failed"@;
            let samples = members.filter(|s: Span| s.facts.context_tokens is Some).len();
            &&& !(f.shape is Inconclusive) ==> f.missing.len() == 0
            &&& f.shape is Inconclusive ==> {
                &&& f.missing.contains(few) == (samples < 3)
                &&& f.missing.contains(caching) == (f.token_trend is Unknown)
                &&& f.missing.contains(calm) == (f.error_count == 0)
            }
        }),
{
    let few = "context tokens on too few attempts to read a trend"@;
    let caching = "a caching convention whose token arithmetic is not known"@;
    let calm = "no attempt failed"@;
    reveal_strlit("context tokens on too few attempts to read a trend");
    reveal_strlit("a caching convention whose token arithmetic is not known");
    reveal_strlit("no attempt failed");
    assert(few[0] == 'c' && caching[0] == 'a' && calm[0] == 'n');
    let f = finding_of(members, depth);
    let ordered = sorted(members);
    lemma_samples(ordered);
    let p = |s: Span| s.facts.context_tokens is Some;
    crate::sort::law_sorted_keeps_the_items(members);
    lemma_filter_count(ordered, members, p);
    let samples = members.filter(p).len();
    let a: Seq<Seq<char>> = if samples < 3 {
        seq![few]
    } else {
        seq![]
    };
    let b: Seq<Seq<char>> = if f.token_trend is Unknown {
        seq![caching]
    } else {
        seq![]
    };
    let c: Seq<Seq<char>> = if f.error_count == 0 {
        seq![calm]
    } else {
        seq![]
    };
    if f.shape is Inconclusive {
        assert(f.missing =~= a + b + c);
        let all = a + b + c;
        if samples < 3 {
            assert(all[0] == few);
        }
        if f.token_trend is Unknown {
            assert(all[a.len() as int] == caching);
        }
        if f.error_count == 0 {
            assert(all[(a + b).len() as int] == calm);
        }
    }
}

proof fn lemma_samples(ordered: Seq<Span>)
    ensures
        reported(contexts_of(ordered)).len() == ordered.filter(
            |s: Span| s.facts.context_tokens is Some,
        ).len(),
    decreases ordered.len(),
{
    reveal(Seq::filter);
    if ordered.len() > 0 {
        lemma_samples(ordered.drop_last());
        assert(contexts_of(ordered).drop_last() =~= contexts_of(ordered.drop_last()));
    }
}

/// As many items pass a filter in any order.
proof fn lemma_filter_count<A>(a: Seq<A>, b: Seq<A>, p: spec_fn(A) -> bool)
    requires
        a.to_multiset() == b.to_multiset(),
    ensures
        a.filter(p).len() == b.filter(p).len(),
{
    lemma_filter_multiset(a, p);
    lemma_filter_multiset(b, p);
}

proof fn lemma_filter_multiset<A>(s: Seq<A>, p: spec_fn(A) -> bool)
    ensures
        s.filter(p).len() == s.to_multiset().filter(p).len(),
    decreases s.len(),
{
    broadcast use vstd::seq_lib::group_to_multiset_ensures;
    broadcast use vstd::multiset::group_multiset_axioms;

    reveal(Seq::filter);
    if s.len() > 0 {
        let init = s.drop_last();
        let x = s.last();
        lemma_filter_multiset(init, p);
        assert(init.push(x) =~= s);
        assert(s.to_multiset() =~= init.to_multiset().insert(x));
        let before = init.to_multiset().filter(p);
        if p(x) {
            assert(s.to_multiset().filter(p) =~= before.insert(x));
        } else {
            assert(s.to_multiset().filter(p) =~= before);
        }
    } else {
        assert(s.to_multiset().filter(p) =~= vstd::multiset::Multiset::empty());
    }
}

/// Whether the span at `j` is the parent of the one at `i`: it is the last one
/// in the same trace under the id that the other names, which is not empty.
pub open spec fn is_parent(spans: Seq<Span>, i: int, j: int) -> bool {
    &&& 0 <= j < spans.len()
    &&& spans[i].parent_span_id matches Some(id) && id@.len() > 0 && id@ == spans[j].span_id@
    &&& spans[j].trace_id@ == spans[i].trace_id@
    &&& forall|k: int|
        j < k < spans.len() ==> (#[trigger] spans[k]).trace_id@ != spans[i].trace_id@
            || spans[k].span_id@ != spans[j].span_id@
}

/// Whether a span has no parent among the spans.
pub open spec fn is_rootlike(spans: Seq<Span>, i: int) -> bool {
    match spans[i].parent_span_id {
        Some(id) => id@.len() == 0 || forall|k: int|
            0 <= k < spans.len() ==> (#[trigger] spans[k]).trace_id@ != spans[i].trace_id@
                || spans[k].span_id@ != id@,
        None => true,
    }
}

proof fn lemma_last_at(spans: Seq<Span>, n: int, trace: Seq<char>, id: Seq<char>, j: int)
    requires
        0 <= n <= spans.len(),
        -1 <= j < n,
        j >= 0 ==> spans[j].trace_id@ == trace && spans[j].span_id@ == id,
        forall|k: int|
            j < k < n ==> (#[trigger] spans[k]).trace_id@ != trace || spans[k].span_id@ != id,
    ensures
        last_at(spans, n, trace, id) == (if j >= 0 {
            Some(j)
        } else {
            None
        }),
    decreases n,
{
    if n > 0 && j < n - 1 {
        assert(spans[n - 1].trace_id@ != trace || spans[n - 1].span_id@ != id);
        lemma_last_at(spans, n - 1, trace, id, j);
    }
}

/// How deep a step is nested in itself: along the path of its ancestors, up to
/// 64 of them, those of its own service and name count, and no others. The path
/// is given by its positions, from the span up to one without a parent.
pub proof fn law_depth_counts_alike_ancestors(spans: Seq<Span>, path: Seq<int>)
    requires
        1 <= path.len() <= 65,
        path.no_duplicates(),
        forall|k: int| 0 <= k < path.len() ==> 0 <= #[trigger] path[k] < spans.len(),
        forall|k: int| 0 <= k < path.len() - 1 ==> is_parent(spans, #[trigger] path[k], path[k + 1]),
        is_rootlike(spans, path.last()),
    ensures
        self_depth(spans, path[0]) == path.skip(1).filter(
            |a: int|
                spans[a].service@ == spans[path[0]].service@ && spans[a].name@
                    == spans[path[0]].name@,
        ).len(),
{
    let mine = signature(spans[path[0]]);
    lemma_path(spans, path, 0, mine);
    assert(path.subrange(1, 1) =~= seq![]);
    let p = |a: int| signature(spans[a]) == mine;
    let q = |a: int|
        spans[a].service@ == spans[path[0]].service@ && spans[a].name@ == spans[path[0]].name@;
    lemma_same_filter(path.skip(1), p, q);
}

proof fn lemma_same_filter<A>(s: Seq<A>, p: spec_fn(A) -> bool, q: spec_fn(A) -> bool)
    requires
        forall|a: A| #[trigger] p(a) == q(a),
    ensures
        s.filter(p) == s.filter(q),
    decreases s.len(),
{
    reveal(Seq::filter);
    if s.len() > 0 {
        lemma_same_filter(s.drop_last(), p, q);
        assert(p(s.last()) == q(s.last()));
    }
}

proof fn lemma_path(spans: Seq<Span>, path: Seq<int>, at: int, mine: (Seq<char>, Seq<char>))
    requires
        0 <= at < path.len() <= 65,
        path.no_duplicates(),
        forall|k: int| 0 <= k < path.len() ==> 0 <= #[trigger] path[k] < spans.len(),
        forall|k: int| 0 <= k < path.len() - 1 ==> is_parent(spans, #[trigger] path[k], path[k + 1]),
        is_rootlike(spans, path.last()),
    ensures
        alike_above(spans, path[at], path.subrange(1, at + 1), (64 - at) as nat, mine)
            == path.skip(at + 1).filter(|a: int| signature(spans[a]) == mine).len(),
    decreases path.len() - at,
{
    let p = |a: int| signature(spans[a]) == mine;
    let i = path[at];
    if at == path.len() - 1 {
        if let Some(id) = spans[i].parent_span_id {
            if id@.len() > 0 {
                lemma_last_at(spans, spans.len() as int, spans[i].trace_id@, id@, -1);
            }
        }
        assert(path.skip(at + 1) =~= seq![]);
        reveal(Seq::filter);
    } else {
        let j = path[at + 1];
        assert(is_parent(spans, path[at], path[at + 1]));
        let id = spans[i].parent_span_id->0;
        lemma_last_at(spans, spans.len() as int, spans[i].trace_id@, id@, j);
        lemma_path(spans, path, at + 1, mine);
        let seen = path.subrange(1, at + 1);
        assert(seen.push(j) =~= path.subrange(1, at + 2));
        assert(!seen.contains(j)) by {
            if seen.contains(j) {
                let w = choose|w: int| 0 <= w < seen.len() && seen[w] == j;
                assert(path[w + 1] == path[at + 1]);
            }
        }
        let rest = path.skip(at + 2);
        assert(path.skip(at + 1) =~= seq![j] + rest);
        lemma_filter_front(j, rest, p);
    }
}

proof fn lemma_filter_front<A>(x: A, rest: Seq<A>, p: spec_fn(A) -> bool)
    ensures
        (seq![x] + rest).filter(p).len() == rest.filter(p).len() + (if p(x) {
            1nat
        } else {
            0nat
        }),
    decreases rest.len(),
{
    reveal(Seq::filter);
    let whole = seq![x] + rest;
    if rest.len() == 0 {
        assert(whole.drop_last() =~= seq![]);
        assert(whole.drop_last().filter(p).len() == 0);
        assert(rest.filter(p).len() == 0);
        assert(whole.last() == x);
    } else {
        assert(whole.drop_last() =~= seq![x] + rest.drop_last());
        assert(whole.last() == rest.last());
        lemma_filter_front(x, rest.drop_last(), p);
    }
}

proof fn lemma_group_depth(spans: Seq<Span>, k: KeyView, n: int)
    requires
        0 <= n <= spans.len(),
    ensures
        forall|i: int|
            0 <= i < n && group_key(#[trigger] spans[i]) == k ==> self_depth(spans, i)
                <= group_depth(spans, k, n),
        group_depth(spans, k, n) > 0 ==> exists|i: int|
            0 <= i < n && group_key(#[trigger] spans[i]) == k && self_depth(spans, i)
                == group_depth(spans, k, n),
    decreases n,
{
    if n > 0 {
        lemma_group_depth(spans, k, n - 1);
        let here = self_depth(spans, n - 1);
        if group_key(spans[n - 1]) == k && here > group_depth(spans, k, n - 1) {
            assert(group_key(spans[n - 1]) == k && self_depth(spans, n - 1) == group_depth(
                spans,
                k,
                n,
            ));
        }
    }
}

proof fn lemma_findings_for(spans: Seq<Span>, groups: Seq<KeyView>, k: KeyView)
    requires
        groups.no_duplicates(),
        forall|g: int| 0 <= g < groups.len() ==> groups_of(spans).contains(#[trigger] groups[g]),
    ensures
        ({
            let f = findings_for(spans, groups);
            let members = picked(spans, in_group(k));
            let depth = group_depth(spans, k, spans.len() as int);
            &&& groups.contains(k) && noteworthy(members.len(), depth) ==> f.contains(
                finding_of(members, depth),
            )
            &&& forall|i: int|
                #![trigger f[i]]
                0 <= i < f.len() ==> groups.contains(f[i].step()) && noteworthy(
                    picked(spans, in_group(f[i].step())).len(),
                    group_depth(spans, f[i].step(), spans.len() as int),
                ) && f[i] == finding_of(
                    picked(spans, in_group(f[i].step())),
                    group_depth(spans, f[i].step(), spans.len() as int),
                )
            &&& forall|i: int, j: int|
                #![trigger f[i], f[j]]
                0 <= i < j < f.len() ==> f[i].step() != f[j].step()
        }),
    decreases groups.len(),
{
    if groups.len() > 0 {
        let init = groups.drop_last();
        assert forall|g: int| 0 <= g < init.len() implies groups_of(spans).contains(
            #[trigger] init[g],
        ) by {
            assert(groups[g] == init[g]);
        }
        lemma_findings_for(spans, init, k);
        let last = groups.last();
        let before = findings_for(spans, init);
        let members = picked(spans, in_group(last));
        let depth = group_depth(spans, last, spans.len() as int);
        let f = findings_for(spans, groups);
        assert(groups_of(spans).contains(groups[groups.len() - 1]));
        lemma_group_has_members(spans, last);
        crate::sets::lemma_picked(spans, in_group(last));
        assert(members.contains(members[0]));
        let one = finding_of(members, depth);
        assert(one.step() == last);
        assert forall|i: int| 0 <= i < before.len() implies (#[trigger] before[i]).step() != last
            && groups.contains(before[i].step()) by {
            let w = choose|w: int| 0 <= w < init.len() && init[w] == before[i].step();
            assert(groups[w] == init[w]);
        }
        if noteworthy(members.len(), depth) {
            assert(f[before.len() as int] == one);
            assert(groups[groups.len() - 1] == last);
        }
        if groups.contains(k) && noteworthy(
            picked(spans, in_group(k)).len(),
            group_depth(spans, k, spans.len() as int),
        ) && k != last {
            let w = choose|w: int| 0 <= w < groups.len() && groups[w] == k;
            assert(init[w] == k);
            let wanted = finding_of(
                picked(spans, in_group(k)),
                group_depth(spans, k, spans.len() as int),
            );
            let v = choose|v: int| 0 <= v < before.len() && before[v] == wanted;
            assert(f[v] == wanted);
        }
    }
}

/// The spans of one step: one trace, one service, one name.
pub open spec fn of_step(trace: Seq<char>, service: Seq<char>, name: Seq<char>) -> spec_fn(
    Span,
) -> bool {
    |s: Span| s.trace_id@ == trace && s.service@ == service && s.name@ == name
}

proof fn lemma_step_members(spans: Seq<Span>, k: KeyView)
    ensures
        picked(spans, in_group(k)) == spans.filter(of_step(k.0, k.1, k.2)),
{
    crate::sets::law_picking_is_filtering(spans, in_group(k));
    assert forall|s: Span| #[trigger] in_group(k)(s) == of_step(k.0, k.1, k.2)(s) by {}
    lemma_same_filter(spans, in_group(k), of_step(k.0, k.1, k.2));
}

/// A step that occurs five times or more in a trace, or that is nested five
/// deep in itself, has a finding about all its spans in that trace.
pub proof fn law_every_repetition_is_found(spans: Seq<Span>, i: int)
    requires
        0 <= i < spans.len(),
        spans.filter(of_step(spans[i].trace_id@, spans[i].service@, spans[i].name@)).len() >= 5
            || self_depth(spans, i) >= 5,
    ensures
        exists|f: int|
            {
                &&& 0 <= f < findings_of(spans).len()
                &&& (#[trigger] findings_of(spans)[f]).trace_id == spans[i].trace_id@
                &&& findings_of(spans)[f].service == spans[i].service@
                &&& findings_of(spans)[f].name == spans[i].name@
            },
{
    let k = (spans[i].trace_id@, spans[i].service@, spans[i].name@);
    let all = Seq::new(spans.len(), |i: int| group_key(spans[i]));
    crate::sets::lemma_adjoin_all(Seq::<KeyView>::empty(), all);
    assert(all[i] == k);
    assert(groups_of(spans).contains(k));
    lemma_step_members(spans, k);
    lemma_group_depth(spans, k, spans.len() as int);
    assert(group_key(spans[i]) == k);
    lemma_findings_for(spans, groups_of(spans), k);
    let unordered = findings_for(spans, groups_of(spans));
    let wanted = finding_of(
        picked(spans, in_group(k)),
        group_depth(spans, k, spans.len() as int),
    );
    lemma_group_has_members(spans, k);
    crate::sets::lemma_picked(spans, in_group(k));
    let members = picked(spans, in_group(k));
    assert(members.contains(members[0]));
    crate::sort::lemma_sorted_members(unordered, wanted);
    let f = choose|f: int| 0 <= f < findings_of(spans).len() && findings_of(spans)[f] == wanted;
    assert(findings_of(spans)[f].trace_id == spans[i].trace_id@);
}

/// A finding is about a step that occurs five times or more in its trace, or
/// that is nested five deep in itself: it counts all spans of that step and the
/// failed ones among them, and says how deep the deepest is nested.
pub proof fn law_a_finding_is_about_its_step(spans: Seq<Span>, f: int)
    requires
        0 <= f < findings_of(spans).len(),
    ensures
        ({
            let found = findings_of(spans)[f];
            let members = spans.filter(of_step(found.trace_id, found.service, found.name));
            &&& members.len() > 0
            &&& found == finding_of(members, found.self_depth)
            &&& members.len() >= 5 || found.self_depth >= 5
            &&& forall|i: int|
                0 <= i < spans.len() && of_step(found.trace_id, found.service, found.name)(
                    #[trigger] spans[i],
                ) ==> self_depth(spans, i) <= found.self_depth
            &&& found.self_depth > 0 ==> exists|i: int|
                0 <= i < spans.len() && of_step(found.trace_id, found.service, found.name)(
                    #[trigger] spans[i],
                ) && self_depth(spans, i) == found.self_depth
        }),
{
    let found = findings_of(spans)[f];
    let k = found.step();
    let all = Seq::new(spans.len(), |i: int| group_key(spans[i]));
    crate::sets::lemma_adjoin_all(Seq::<KeyView>::empty(), all);
    let unordered = findings_for(spans, groups_of(spans));
    lemma_findings_for(spans, groups_of(spans), k);
    crate::sort::lemma_sorted_members(unordered, found);
    assert(findings_of(spans).contains(found));
    let u = choose|u: int| 0 <= u < unordered.len() && unordered[u] == found;
    assert(unordered[u].step() == k);
    lemma_group_has_members(spans, k);
    lemma_step_members(spans, k);
    lemma_group_depth(spans, k, spans.len() as int);
    assert forall|i: int|
        0 <= i < spans.len() && of_step(found.trace_id, found.service, found.name)(
            #[trigger] spans[i],
        ) implies self_depth(spans, i) <= found.self_depth by {
        assert(group_key(spans[i]) == k);
    }
    if found.self_depth > 0 {
        let i = choose|i: int|
            0 <= i < spans.len() && group_key(#[trigger] spans[i]) == k && self_depth(spans, i)
                == group_depth(spans, k, spans.len() as int);
        assert(of_step(found.trace_id, found.service, found.name)(spans[i]));
    }
}

/// One finding per step, faults first, then the larger repetition, then by name
/// and trace.
pub proof fn law_findings_are_in_order(spans: Seq<Span>, i: int, j: int)
    requires
        0 <= i < j < findings_of(spans).len(),
    ensures
        ({
            let a = findings_of(spans)[i];
            let b = findings_of(spans)[j];
            let worse = |s: Shape| !(s is Iteration) && !(s is Inconclusive);
            &&& worse(b.shape) ==> worse(a.shape)
            &&& worse(a.shape) == worse(b.shape) ==> a.count >= b.count
            &&& worse(a.shape) == worse(b.shape) && a.count == b.count && a.name != b.name
                ==> text_le(a.name, b.name)
            &&& worse(a.shape) == worse(b.shape) && a.count == b.count && a.name == b.name
                ==> text_le(a.trace_id, b.trace_id)
        }),
{
    crate::sort::law_sorted_is_in_order(findings_for(spans, groups_of(spans)));
    let a = findings_of(spans)[i];
    let b = findings_of(spans)[j];
    assert(a.ranks(&b));
    crate::sort::law_pair_order(a.name, a.trace_id, b.name, b.trace_id);
}

/// Whether a span failed and no span failed under it.
pub open spec fn broke(spans: Seq<Span>, i: int) -> bool {
    &&& lowered(spans[i].status@) == "error"@
    &&& forall|j: int|
        0 <= j < spans.len() && (#[trigger] spans[j]).trace_id@ == spans[i].trace_id@
            && spans[j].parent_span_id is Some && spans[j].parent_span_id->0@.len() > 0
            && spans[j].parent_span_id->0@ == spans[i].span_id@ ==> lowered(spans[j].status@)
            != "error"@
}

/// Whether one span started before another: earlier, or at the same instant
/// with the smaller trace id, or in the same trace with the smaller span id.
pub open spec fn started_before(a: Span, b: Span) -> bool {
    ||| a.start_time_ns < b.start_time_ns
    ||| a.start_time_ns == b.start_time_ns && a.trace_id@ != b.trace_id@ && text_le(
        a.trace_id@,
        b.trace_id@,
    )
    ||| a.start_time_ns == b.start_time_ns && a.trace_id@ == b.trace_id@ && a.span_id@
        != b.span_id@ && text_le(a.span_id@, b.span_id@)
}

proof fn lemma_started_before(a: Span, b: Span)
    requires
        started_before(a, b),
    ensures
        !started(b).ranks(&started(a)),
{
    crate::sort::law_pair_order(b.trace_id@, b.span_id@, a.trace_id@, a.span_id@);
    if a.start_time_ns == b.start_time_ns && started(b).ranks(&started(a)) {
        if a.trace_id@ != b.trace_id@ {
            crate::sort::lemma_text_le_antisymmetric(a.trace_id@, b.trace_id@);
        } else {
            crate::sort::lemma_text_le_antisymmetric(a.span_id@, b.span_id@);
        }
    }
}

proof fn lemma_broke(spans: Seq<Span>, i: int)
    requires
        0 <= i < spans.len(),
    ensures
        is_leaf_error(spans, i) == broke(spans, i),
{
    lemma_failed(spans[i]);
    assert forall|j: int| 0 <= j < spans.len() implies failed_child(#[trigger] spans[j], spans[i])
        == (spans[j].trace_id@ == spans[i].trace_id@ && spans[j].parent_span_id is Some
        && spans[j].parent_span_id->0@.len() > 0 && spans[j].parent_span_id->0@
        == spans[i].span_id@ && lowered(spans[j].status@) == "error"@) by {
        lemma_failed(spans[j]);
    }
    if is_leaf_error(spans, i) {
        assert forall|j: int|
            0 <= j < spans.len() && (#[trigger] spans[j]).trace_id@ == spans[i].trace_id@
                && spans[j].parent_span_id is Some && spans[j].parent_span_id->0@.len() > 0
                && spans[j].parent_span_id->0@ == spans[i].span_id@ implies lowered(
            spans[j].status@,
        ) != "error"@ by {
            assert(!failed_child(spans[j], spans[i]));
        }
    }
}

/// The step that broke a run is the first to start of those that failed without
/// a failing child, and the cause names that very span.
pub proof fn law_the_cause_names_the_step_that_broke(spans: Seq<Span>, i: int)
    requires
        0 <= i < spans.len(),
        broke(spans, i),
        forall|j: int|
            0 <= j < spans.len() && j != i && #[trigger] broke(spans, j) ==> started_before(
                spans[i],
                spans[j],
            ),
    ensures
        cause_of(spans) matches Some(cause) && {
            &&& cause.span == (spans[i].trace_id@, spans[i].span_id@)
            &&& cause.name == spans[i].name@
            &&& cause.service == spans[i].service@
            &&& cause.status == spans[i].status@
        },
{
    let p = leaf_errors(spans);
    lemma_earliest(spans, spans.len() as int, p);
    lemma_broke(spans, i);
    assert(p(i));
    let k = cause_position(spans).unwrap();
    lemma_broke(spans, k);
    if k != i {
        assert(broke(spans, k));
        lemma_started_before(spans[i], spans[k]);
    }
}

/// A run in which no span failed has no cause.
pub proof fn law_no_failure_no_cause(spans: Seq<Span>)
    requires
        forall|i: int| 0 <= i < spans.len() ==> lowered((#[trigger] spans[i]).status@) != "error"@,
    ensures
        cause_of(spans) is None,
{
    let p = leaf_errors(spans);
    lemma_earliest(spans, spans.len() as int, p);
    if let Some(k) = cause_position(spans) {
        assert(p(k));
        lemma_failed(spans[k]);
    }
}

/// The grounds of a cause: where a fault is about its step the rule is
/// `repeated_fault`, the grounds are structural and the sentence holds the
/// counts; otherwise the rule is `leaf_error` and the grounds are statistical.
pub proof fn law_the_grounds_of_a_cause(spans: Seq<Span>, f: int)
    requires
        cause_of(spans) is Some,
        0 <= f <= findings_of(spans).len(),
    ensures
        ({
            let cause = cause_of(spans)->0;
            let found = findings_of(spans)[f];
            let about = f < findings_of(spans).len() && !(found.shape is Iteration)
                && !(found.shape is Inconclusive) && found.trace_id == cause.span.0
                && found.service == cause.service && found.name == cause.name;
            &&& about ==> cause.rule == "repeated_fault"@ && cause.confidence == "structural"@
                && cause.because
                == "it is the earliest step that failed without a failing child, and its operation repeats "@
                + dec(found.count) + " times in this trace ("@ + dec(found.error_count)
                + " of them failing)"@
            &&& cause.rule == "leaf_error"@ ==> cause.confidence == "statistical"@ && cause.because
                == "it is the earliest step that failed without a failing child, so the failures above it are propagation"@
            &&& cause.rule == "leaf_error"@ || cause.rule == "repeated_fault"@
        }),
{
    reveal_strlit("repeated_fault");
    reveal_strlit("leaf_error");
    assert("leaf_error"@.len() != "repeated_fault"@.len());
    let cause = cause_of(spans)->0;
    let findings = findings_of(spans);
    let span = spans[cause_position(spans).unwrap()];
    let k = group_key(span);
    lemma_fault_of(findings, k, 0);
    let all = Seq::new(spans.len(), |i: int| group_key(spans[i]));
    crate::sets::lemma_adjoin_all(Seq::<KeyView>::empty(), all);
    lemma_findings_for(spans, groups_of(spans), k);
    let unordered = findings_for(spans, groups_of(spans));
    if f < findings.len() && findings[f].shape.fault() && findings[f].step() == k {
        let one = fault_of(findings, k, 0).unwrap();
        crate::sort::lemma_sorted_members(unordered, one);
        crate::sort::lemma_sorted_members(unordered, findings[f]);
        assert(findings.contains(findings[f]));
        let u = choose|u: int| 0 <= u < unordered.len() && unordered[u] == one;
        let v = choose|v: int| 0 <= v < unordered.len() && unordered[v] == findings[f];
        assert(unordered[u].step() == unordered[v].step());
        assert(u == v);
    }
}

} // verus!
