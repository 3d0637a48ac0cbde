//! Judgment about spans that arrives later: scores, human feedback, verdicts.
//!
//! An [`Annotation`] is addressed to a typed subject: a trace, a span within
//! it, a session, or an experiment example (a score). The [`AnnotationLog`]
//! holds them in log order with indexes by trace and by experiment.

use vstd::prelude::*;

use crate::erasure::Error;
use crate::json::{Json, JsonView};
use crate::jsonl::{lines_of, recover, recovery, Damage, Healing};
use crate::sets::{capped, picked, positions, Distinct, Index};
use crate::sort::{lex_at_most, lex_le, sort, sorted, str_views, text_le, Ranked, Sortable};
use crate::span::{is_tenant, valid_tenant, KeyView};
use crate::text::{copy, same, starts_with, text_starts_with};

verus! {

/// File name of the annotation log.
pub const LOG_NAME: &'static str = "annotations.jsonl";

/// One annotation. Which address fields are set says what it is about:
/// `trace_id` alone is a trace, with `span_id` a span, `session_id` alone a
/// session, `experiment_id` with `example_id` an experiment example.
#[derive(Debug)]
pub struct Annotation {
    /// Trace containing the annotated span.
    pub trace_id: String,
    /// Annotated span; empty annotates the trace as a whole.
    pub span_id: String,
    /// The tenant this annotation belongs to; empty is the default tenant.
    pub tenant: String,
    /// The session being judged as a whole.
    pub session_id: String,
    /// Experiment half of a score's address.
    pub experiment_id: Option<u64>,
    /// Example half of a score's address.
    pub example_id: String,
    /// Annotation name.
    pub name: String,
    /// Annotation value: any JSON.
    pub value: Json,
    /// Who produced it.
    pub source: String,
    /// Free-form comment.
    pub comment: String,
    /// When it was recorded, nanoseconds since the Unix epoch.
    pub timestamp_ns: u64,
}

pub struct AnnotationView {
    pub trace_id: Seq<char>,
    pub span_id: Seq<char>,
    pub tenant: Seq<char>,
    pub session_id: Seq<char>,
    pub experiment_id: Option<u64>,
    pub example_id: Seq<char>,
    pub name: Seq<char>,
    pub value: JsonView,
    pub source: Seq<char>,
    pub comment: Seq<char>,
    pub timestamp_ns: u64,
}

impl View for Annotation {
    type V = AnnotationView;

    open spec fn view(&self) -> AnnotationView {
        AnnotationView {
            trace_id: self.trace_id@,
            span_id: self.span_id@,
            tenant: self.tenant@,
            session_id: self.session_id@,
            experiment_id: self.experiment_id,
            example_id: self.example_id@,
            name: self.name@,
            value: self.value@,
            source: self.source@,
            comment: self.comment@,
            timestamp_ns: self.timestamp_ns,
        }
    }
}

pub open spec fn viewing() -> spec_fn(Annotation) -> AnnotationView {
    |a: Annotation| a@
}

pub open spec fn annotation_views(s: Seq<Annotation>) -> Seq<AnnotationView> {
    s.map_values(viewing())
}

impl AnnotationView {
    /// What is wrong with the subject's shape, if anything.
    pub open spec fn defect(self) -> Option<Seq<char>> {
        let has_trace = self.trace_id.len() > 0;
        let has_session = self.session_id.len() > 0;
        let has_experiment = self.experiment_id.is_some();
        if self.name.len() == 0 {
            Some("annotation name is empty"@)
        } else if self.tenant.len() > 0 && !is_tenant(self.tenant) {
            Some("annotation tenant must be lowercase [a-z0-9][a-z0-9._-], at most 64 bytes"@)
        } else if self.span_id.len() > 0 && !has_trace {
            Some("annotation span_id requires its trace_id"@)
        } else if has_experiment != (self.example_id.len() > 0) {
            Some("a score names both experiment_id and example_id"@)
        } else if has_session && (has_trace || has_experiment) {
            Some("a session annotation names only its session_id"@)
        } else if !has_trace && !has_session && !has_experiment {
            Some("annotation must address a trace, a span, a session, or an experiment example"@)
        } else {
            None
        }
    }

    /// What settles the order among annotations of one moment.
    pub open spec fn tiebreak(self) -> Seq<Seq<char>> {
        seq![self.tenant, self.trace_id, self.span_id, self.example_id, self.name]
    }

    pub open spec fn key(self) -> KeyView {
        (self.tenant, self.trace_id, self.span_id)
    }
}

/// Newest first, then by tenant, trace, span, example and name.
impl Ranked for AnnotationView {
    open spec fn ranks(&self, other: &Self) -> bool {
        self.timestamp_ns > other.timestamp_ns || (self.timestamp_ns == other.timestamp_ns
            && lex_le(self.tiebreak(), other.tiebreak()))
    }

    proof fn total(a: &Self, b: &Self) {
        crate::sort::lemma_lex_le_total(a.tiebreak(), b.tiebreak());
    }

    proof fn transitive(a: &Self, b: &Self, c: &Self) {
        if a.timestamp_ns == b.timestamp_ns && b.timestamp_ns == c.timestamp_ns {
            crate::sort::lemma_lex_le_transitive(a.tiebreak(), b.tiebreak(), c.tiebreak());
        }
    }
}

impl Ranked for Annotation {
    open spec fn ranks(&self, other: &Self) -> bool {
        self@.ranks(&other@)
    }

    proof fn total(a: &Self, b: &Self) {
        AnnotationView::total(&a@, &b@);
    }

    proof fn transitive(a: &Self, b: &Self, c: &Self) {
        AnnotationView::transitive(&a@, &b@, &c@);
    }
}

impl Sortable for Annotation {
    fn at_most(&self, other: &Self) -> (r: bool) {
        if self.timestamp_ns != other.timestamp_ns {
            return self.timestamp_ns > other.timestamp_ns;
        }
        let left = [
            self.tenant.as_str(),
            self.trace_id.as_str(),
            self.span_id.as_str(),
            self.example_id.as_str(),
            self.name.as_str(),
        ];
        let right = [
            other.tenant.as_str(),
            other.trace_id.as_str(),
            other.span_id.as_str(),
            other.example_id.as_str(),
            other.name.as_str(),
        ];
        assert(str_views(left@) =~= self@.tiebreak());
        assert(str_views(right@) =~= other@.tiebreak());
        lex_at_most(&left, &right)
    }
}

impl Annotation {
    /// Whether this annotation is a score: addressed to an experiment
    /// example. Scores are exempt from expiry.
    pub fn is_score(&self) -> (r: bool)
        ensures
            r == self.experiment_id.is_some(),
    {
        self.experiment_id.is_some()
    }

    /// Validates the typed-subject shape; `Err` names the defect.
    pub fn validate_subject(&self) -> (r: Result<(), Error>)
        ensures
            match r {
                Ok(_) => self@.defect().is_none(),
                Err(Error::InvalidSpan(message)) => self@.defect() == Some(message@),
            },
    {
        if self.name.as_str().is_empty() {
            return Err(Error::InvalidSpan("annotation name is empty"));
        }
        if !self.tenant.as_str().is_empty() && !valid_tenant(self.tenant.as_str()) {
            return Err(
                Error::InvalidSpan(
                    "annotation tenant must be lowercase [a-z0-9][a-z0-9._-], at most 64 bytes",
                ),
            );
        }
        let has_trace = !self.trace_id.as_str().is_empty();
        let has_span = !self.span_id.as_str().is_empty();
        let has_session = !self.session_id.as_str().is_empty();
        let has_experiment = self.experiment_id.is_some();
        let has_example = !self.example_id.as_str().is_empty();
        if has_span && !has_trace {
            return Err(Error::InvalidSpan("annotation span_id requires its trace_id"));
        }
        if has_experiment != has_example {
            return Err(Error::InvalidSpan("a score names both experiment_id and example_id"));
        }
        if has_session && (has_trace || has_experiment) {
            return Err(Error::InvalidSpan("a session annotation names only its session_id"));
        }
        if !has_trace && !has_session && !has_experiment {
            return Err(
                Error::InvalidSpan(
                    "annotation must address a trace, a span, a session, or an experiment example",
                ),
            );
        }
        Ok(())
    }

    pub fn copy(&self) -> (r: Self)
        ensures
            r@ == self@,
    {
        Annotation {
            trace_id: copy(self.trace_id.as_str()),
            span_id: copy(self.span_id.as_str()),
            tenant: copy(self.tenant.as_str()),
            session_id: copy(self.session_id.as_str()),
            experiment_id: self.experiment_id,
            example_id: copy(self.example_id.as_str()),
            name: copy(self.name.as_str()),
            value: self.value.copy(),
            source: copy(self.source.as_str()),
            comment: copy(self.comment.as_str()),
            timestamp_ns: self.timestamp_ns,
        }
    }
}

// -------------------------------------------------------------------- queries

/// Narrowings for an annotation search. Every supplied field must match; an
/// empty query returns everything, newest first.
#[derive(Clone, Copy, Debug, Default)]
pub struct AnnotationQuery<'a> {
    /// Restrict to one trace.
    pub trace_id: Option<&'a str>,
    /// Restrict to one span within the trace.
    pub span_id: Option<&'a str>,
    /// Restrict to one tenant. `None` is every tenant; `Some("")` the default
    /// tenant.
    pub tenant: Option<&'a str>,
    /// Restrict to session-subject annotations for this session id.
    pub session_id: Option<&'a str>,
    /// Restrict to scores of this experiment.
    pub experiment_id: Option<u64>,
    /// Restrict to scores of this example.
    pub example_id: Option<&'a str>,
    /// Restrict to one annotation name.
    pub name: Option<&'a str>,
    /// Restrict to sources starting with this.
    pub source_prefix: Option<&'a str>,
    /// Recorded at or after this Unix-nanosecond timestamp.
    pub since_ns: Option<u64>,
    /// Recorded at or before this Unix-nanosecond timestamp.
    pub until_ns: Option<u64>,
    /// Maximum returned, applied after ordering.
    pub limit: Option<usize>,
}

/// Whether a narrowing to one text admits a text.
pub open spec fn narrows(wanted: Option<&str>, held: Seq<char>) -> bool {
    match wanted {
        Some(text) => held == text@,
        None => true,
    }
}

pub fn admits_text(wanted: Option<&str>, held: &str) -> (r: bool)
    ensures
        r == narrows(wanted, held@),
{
    match wanted {
        Some(text) => same(held, text),
        None => true,
    }
}

impl<'a> AnnotationQuery<'a> {
    pub open spec fn admits(&self, a: AnnotationView) -> bool {
        &&& narrows(self.trace_id, a.trace_id)
        &&& narrows(self.span_id, a.span_id)
        &&& narrows(self.tenant, a.tenant)
        &&& narrows(self.session_id, a.session_id)
        &&& self.experiment_id matches Some(e) ==> a.experiment_id == Some(e)
        &&& narrows(self.example_id, a.example_id)
        &&& narrows(self.name, a.name)
        &&& self.source_prefix matches Some(prefix) ==> starts_with(a.source, prefix@)
        &&& self.since_ns matches Some(since) ==> a.timestamp_ns >= since
        &&& self.until_ns matches Some(until) ==> a.timestamp_ns <= until
    }

    pub open spec fn admitting(self) -> spec_fn(AnnotationView) -> bool {
        |a: AnnotationView| self.admits(a)
    }

    pub fn matches(&self, annotation: &Annotation) -> (r: bool)
        ensures
            r == self.admits(annotation@),
    {
        if !admits_text(self.trace_id, annotation.trace_id.as_str()) {
            return false;
        }
        if !admits_text(self.span_id, annotation.span_id.as_str()) {
            return false;
        }
        if !admits_text(self.tenant, annotation.tenant.as_str()) {
            return false;
        }
        if !admits_text(self.session_id, annotation.session_id.as_str()) {
            return false;
        }
        if let Some(experiment) = self.experiment_id {
            match annotation.experiment_id {
                Some(held) => {
                    if held != experiment {
                        return false;
                    }
                },
                None => {
                    return false;
                },
            }
        }
        if !admits_text(self.example_id, annotation.example_id.as_str()) {
            return false;
        }
        if !admits_text(self.name, annotation.name.as_str()) {
            return false;
        }
        if let Some(prefix) = self.source_prefix {
            if !text_starts_with(annotation.source.as_str(), prefix) {
                return false;
            }
        }
        if let Some(since) = self.since_ns {
            if annotation.timestamp_ns < since {
                return false;
            }
        }
        if let Some(until) = self.until_ns {
            if annotation.timestamp_ns > until {
                return false;
            }
        }
        true
    }
}

/// What a lookup of one trace's annotations admits.
pub open spec fn looking_up(
    tenant: Option<&str>,
    trace_id: Seq<char>,
    span_id: Option<&str>,
    name: Option<&str>,
) -> spec_fn(AnnotationView) -> bool {
    |a: AnnotationView|
        a.trace_id == trace_id && narrows(tenant, a.tenant) && narrows(span_id, a.span_id)
            && narrows(name, a.name)
}

// ----------------------------------------------------------------- expiry

/// When annotations expire: those of a tenant listed in `by_tenant` by what
/// stands there, all others by `otherwise`. `None` is never.
#[derive(Debug)]
pub struct Cutoffs {
    pub by_tenant: Vec<(String, Option<u64>)>,
    pub otherwise: Option<u64>,
}

impl Cutoffs {
    pub open spec fn cutoff_from(self, tenant: Seq<char>, i: int) -> Option<u64>
        decreases self.by_tenant@.len() - i,
    {
        if i < 0 || i >= self.by_tenant@.len() {
            self.otherwise
        } else if self.by_tenant@[i].0@ == tenant {
            self.by_tenant@[i].1
        } else {
            self.cutoff_from(tenant, i + 1)
        }
    }

    /// The cutoff for a tenant.
    pub open spec fn cutoff(self, tenant: Seq<char>) -> Option<u64> {
        self.cutoff_from(tenant, 0)
    }

    pub fn cutoff_for(&self, tenant: &str) -> (r: Option<u64>)
        ensures
            r == self.cutoff(tenant@),
    {
        let mut i: usize = 0;
        while i < self.by_tenant.len()
            invariant
                i <= self.by_tenant@.len(),
                self.cutoff_from(tenant@, i as int) == self.cutoff(tenant@),
            decreases self.by_tenant@.len() - i,
        {
            if same(self.by_tenant[i].0.as_str(), tenant) {
                return self.by_tenant[i].1;
            }
            i += 1;
        }
        self.otherwise
    }

    /// Scores never expire; everything else does once it is older than its
    /// tenant's cutoff.
    pub open spec fn spares(self, a: AnnotationView) -> bool {
        a.experiment_id.is_some() || match self.cutoff(a.tenant) {
            Some(cutoff) => a.timestamp_ns >= cutoff,
            None => true,
        }
    }

    pub open spec fn sparing(self) -> spec_fn(AnnotationView) -> bool {
        |a: AnnotationView| self.spares(a)
    }
}

/// What an erasure reaches: erased keys, and the whole of a trace, a session
/// or a tenant. Traces and sessions are named with their tenant.
#[derive(Debug)]
pub struct Doom<'a> {
    pub keys: &'a Distinct<(String, String, String)>,
    pub whole_trace: Option<(&'a str, &'a str)>,
    pub whole_session: Option<(&'a str, &'a str)>,
    pub whole_tenant: Option<&'a str>,
}

impl<'a> Doom<'a> {
    /// Span-addressed annotations go with their key. A trace subject also
    /// sweeps that trace's trace-level annotations, a session subject those
    /// addressed to the session, a tenant subject everything of the tenant's.
    pub open spec fn dooms(self, a: AnnotationView) -> bool {
        ||| self.whole_tenant matches Some(tenant) && a.tenant == tenant@
        ||| self.whole_trace matches Some((tenant, trace)) && a.tenant == tenant@ && a.trace_id
            == trace@
        ||| self.whole_session matches Some((tenant, session)) && a.tenant == tenant@
            && a.session_id == session@
        ||| a.trace_id.len() > 0 && self.keys@.contains(a.key())
    }

    pub open spec fn sparing(self) -> spec_fn(AnnotationView) -> bool {
        |a: AnnotationView| !self.dooms(a)
    }

    pub fn reaches(&self, a: &Annotation) -> (r: bool)
        ensures
            r == self.dooms(a@),
    {
        if let Some(tenant) = self.whole_tenant {
            if same(a.tenant.as_str(), tenant) {
                return true;
            }
        }
        if let Some((tenant, trace)) = self.whole_trace {
            if same(a.tenant.as_str(), tenant) && same(a.trace_id.as_str(), trace) {
                return true;
            }
        }
        if let Some((tenant, session)) = self.whole_session {
            if same(a.tenant.as_str(), tenant) && same(a.session_id.as_str(), session) {
                return true;
            }
        }
        if a.trace_id.as_str().is_empty() {
            return false;
        }
        let key = (
            copy(a.tenant.as_str()),
            copy(a.trace_id.as_str()),
            copy(a.span_id.as_str()),
        );
        self.keys.contains(&key)
    }
}

// ------------------------------------------------------------------------ log

pub open spec fn trace_keys(s: Seq<AnnotationView>) -> Seq<Option<Seq<char>>> {
    Seq::new(s.len(), |i: int| Some(s[i].trace_id))
}

pub open spec fn experiment_keys(s: Seq<AnnotationView>) -> Seq<Option<u64>> {
    Seq::new(s.len(), |i: int| s[i].experiment_id)
}

/// The annotations in log order, with their positions by trace and by
/// experiment.
#[derive(Debug)]
pub struct AnnotationLog {
    entries: Vec<Annotation>,
    by_trace: Index<String>,
    by_experiment: Index<u64>,
}

impl View for AnnotationLog {
    type V = Seq<AnnotationView>;

    closed spec fn view(&self) -> Seq<AnnotationView> {
        annotation_views(self.entries@)
    }
}

impl AnnotationLog {
    #[verifier::type_invariant]
    spec fn indexed(self) -> bool {
        &&& forall|k: Seq<char>| #[trigger]
            self.by_trace.at(k) == positions(trace_keys(annotation_views(self.entries@)), k)
        &&& forall|k: u64| #[trigger]
            self.by_experiment.at(k) == positions(
                experiment_keys(annotation_views(self.entries@)),
                k,
            )
    }

    /// An empty log.
    pub fn new() -> (r: Self)
        ensures
            r@ == Seq::<AnnotationView>::empty(),
    {
        let r = AnnotationLog {
            entries: Vec::new(),
            by_trace: Index::new(),
            by_experiment: Index::new(),
        };
        assert(r@ =~= Seq::<AnnotationView>::empty());
        r
    }

    /// Adds an annotation at the end.
    pub fn push(&mut self, annotation: Annotation)
        ensures
            final(self)@ == old(self)@.push(annotation@),
    {
        let mut log = AnnotationLog::new();
        std::mem::swap(self, &mut log);
        proof {
            use_type_invariant(&log);
        }
        let AnnotationLog { mut entries, mut by_trace, mut by_experiment } = log;
        let ghost before = annotation_views(entries@);
        let position: usize = entries.len();
        by_trace.record(copy(annotation.trace_id.as_str()), position);
        if let Some(experiment) = annotation.experiment_id {
            by_experiment.record(experiment, position);
        }
        entries.push(annotation);
        proof {
            let after = annotation_views(entries@);
            assert(after =~= before.push(annotation@));
            assert(trace_keys(after).drop_last() =~= trace_keys(before));
            assert(experiment_keys(after).drop_last() =~= experiment_keys(before));
        }
        *self = AnnotationLog { entries, by_trace, by_experiment };
    }

    /// A log of the given annotations.
    pub fn adopt(entries: Vec<Annotation>) -> (r: Self)
        ensures
            r@ == annotation_views(entries@),
    {
        let mut r = AnnotationLog::new();
        let mut i: usize = 0;
        assert(annotation_views(entries@).take(0) =~= seq![]);
        while i < entries.len()
            invariant
                i <= entries@.len(),
                r@ == annotation_views(entries@).take(i as int),
            decreases entries@.len() - i,
        {
            r.push(entries[i].copy());
            assert(annotation_views(entries@).take(i + 1) =~= annotation_views(entries@).take(
                i as int,
            ).push(entries@[i as int]@));
            i += 1;
        }
        assert(annotation_views(entries@).take(i as int) =~= annotation_views(entries@));
        r
    }

    /// Opens a log from its bytes and the annotations of its lines, read up to
    /// the first line that spells none; the second part says what has to be
    /// done to the file.
    pub fn open(contents: &[u8], read: Vec<Annotation>) -> (r: Result<(Self, Healing), Damage>)
        requires
            read@.len() <= lines_of(contents@).len(),
        ensures
            match r {
                Ok((log, healing)) => log@ == annotation_views(read@) && recovery(
                    contents@,
                    read@.len() as int,
                ) == Ok::<Healing, int>(healing),
                Err(damage) => recovery(contents@, read@.len() as int) == Err::<Healing, int>(
                    damage.at as int,
                ),
            },
    {
        match recover(contents, read.len()) {
            Ok(healing) => Ok((AnnotationLog::adopt(read), healing)),
            Err(damage) => Err(damage),
        }
    }

    /// Adds an annotation whose subject's shape is sound; any other is refused
    /// and changes nothing.
    pub fn append(&mut self, annotation: Annotation) -> (r: Result<(), Error>)
        ensures
            match r {
                Ok(_) => annotation@.defect().is_none() && final(self)@ == old(self)@.push(
                    annotation@,
                ),
                Err(Error::InvalidSpan(message)) => annotation@.defect() == Some(message@)
                    && final(self)@ == old(self)@,
            },
    {
        match annotation.validate_subject() {
            Ok(_) => {
                self.push(annotation);
                Ok(())
            },
            Err(error) => Err(error),
        }
    }

    /// All annotations for a trace, in log order, optionally narrowed to one
    /// tenant, span or name.
    pub fn query(
        &self,
        tenant: Option<&str>,
        trace_id: &str,
        span_id: Option<&str>,
        name: Option<&str>,
    ) -> (r: Vec<Annotation>)
        ensures
            annotation_views(r@) == picked(self@, looking_up(tenant, trace_id@, span_id, name)),
    {
        let narrow = AnnotationQuery {
            trace_id: Some(trace_id),
            span_id,
            tenant,
            session_id: None,
            experiment_id: None,
            example_id: None,
            name,
            source_prefix: None,
            since_ns: None,
            until_ns: None,
            limit: None,
        };
        let r = self.gather(&narrow);
        proof {
            let p = looking_up(tenant, trace_id@, span_id, name);
            assert(p =~= narrow.admitting()) by {
                assert forall|a: AnnotationView| #[trigger] p(a) == narrow.admitting()(a) by {}
            }
        }
        r
    }

    /// Every admitted annotation in log order, found through the most
    /// selective index: an experiment narrows to one run's scores, a trace to
    /// one trace's judgments; only a fully open search walks the population.
    fn gather(&self, narrow: &AnnotationQuery) -> (r: Vec<Annotation>)
        ensures
            annotation_views(r@) == picked(self@, narrow.admitting()),
    {
        proof {
            use_type_invariant(self);
        }
        let ghost all = self@;
        let ghost p = narrow.admitting();
        let population: usize = self.entries.len();
        let mut found: Vec<Annotation> = Vec::new();
        let listed: Option<&Vec<usize>>;
        let ghost mut at: Seq<usize> = seq![];
        if let Some(experiment) = narrow.experiment_id {
            listed = self.by_experiment.lookup(&experiment);
            proof {
                at = positions(experiment_keys(all), experiment);
                crate::sets::lemma_positions_pick(all, experiment_keys(all), experiment, p);
            }
        } else if let Some(trace_id) = narrow.trace_id {
            let key = copy(trace_id);
            listed = self.by_trace.lookup(&key);
            proof {
                at = positions(trace_keys(all), trace_id@);
                crate::sets::lemma_positions_pick(all, trace_keys(all), trace_id@, p);
            }
        } else {
            let mut i: usize = 0;
            assert(all.take(0) =~= seq![]);
            assert(annotation_views(found@) =~= seq![]);
            while i < population
                invariant
                    i <= population == self.entries@.len(),
                    all == annotation_views(self.entries@),
                    p == narrow.admitting(),
                    annotation_views(found@) == picked(all.take(i as int), p),
                decreases population - i,
            {
                let ghost before = found@;
                assert(all.take(i + 1).drop_last() =~= all.take(i as int));
                if narrow.matches(&self.entries[i]) {
                    let entry = self.entries[i].copy();
                    found.push(entry);
                    assert(annotation_views(found@) =~= annotation_views(before).push(entry@));
                }
                i += 1;
            }
            assert(all.take(i as int) =~= all);
            return found;
        }
        let ghost there = Seq::new(at.len(), |i: int| all[at[i] as int]);
        assert(annotation_views(found@) =~= seq![]);
        assert(there.take(0) =~= seq![]);
        match listed {
            Some(list) => {
                let mut i: usize = 0;
                while i < list.len()
                    invariant
                        i <= list@.len(),
                        list@ == at,
                        all == annotation_views(self.entries@),
                        p == narrow.admitting(),
                        there == Seq::new(at.len(), |i: int| all[at[i] as int]),
                        forall|j: int| 0 <= j < at.len() ==> (#[trigger] at[j]) < all.len(),
                        annotation_views(found@) == picked(there.take(i as int), p),
                    decreases list@.len() - i,
                {
                    let ghost before = found@;
                    let position: usize = list[i];
                    assert(at[i as int] < all.len());
                    assert(there.take(i + 1).drop_last() =~= there.take(i as int));
                    if narrow.matches(&self.entries[position]) {
                        let entry = self.entries[position].copy();
                        found.push(entry);
                        assert(annotation_views(found@) =~= annotation_views(before).push(entry@));
                    }
                    i += 1;
                }
                assert(there.take(i as int) =~= there);
            },
            None => {
                assert(there =~= seq![]);
            },
        }
        found
    }

    /// Annotations matching every supplied narrowing, newest first.
    pub fn search(&self, narrow: &AnnotationQuery) -> (r: Vec<Annotation>)
        ensures
            annotation_views(r@) == capped(
                sorted(picked(self@, narrow.admitting())),
                narrow.limit,
            ),
    {
        let found = self.gather(narrow);
        let ghost gathered = found@;
        let mut found = sort(found);
        proof {
            crate::sort::lemma_sorted_through(gathered, viewing());
        }
        let ghost ordered = found@;
        if let Some(limit) = narrow.limit {
            found.truncate(limit);
            proof {
                if limit < ordered.len() {
                    assert(annotation_views(found@) =~= annotation_views(ordered).take(
                        limit as int,
                    ));
                } else {
                    assert(found@ =~= ordered);
                }
            }
        }
        found
    }

    /// Keeps the annotations whose flag is set; how many went.
    fn rewrite_keeping(&mut self, keep: &Vec<bool>, Ghost(p): Ghost<
        spec_fn(AnnotationView) -> bool,
    >) -> (r: usize)
        requires
            keep@.len() == old(self)@.len(),
            forall|i: int| 0 <= i < keep@.len() ==> #[trigger] keep@[i] == p(old(self)@[i]),
        ensures
            final(self)@ == picked(old(self)@, p),
            r == old(self)@.len() - picked(old(self)@, p).len(),
    {
        let ghost all = self@;
        let mut kept: Vec<Annotation> = Vec::new();
        let mut removed: usize = 0;
        let mut i: usize = 0;
        assert(all.take(0) =~= seq![]);
        assert(annotation_views(kept@) =~= seq![]);
        while i < self.entries.len()
            invariant
                i <= self.entries@.len(),
                *self == *old(self),
                all == annotation_views(self.entries@),
                keep@.len() == all.len(),
                forall|i: int| 0 <= i < keep@.len() ==> #[trigger] keep@[i] == p(all[i]),
                annotation_views(kept@) == picked(all.take(i as int), p),
                removed == i - kept@.len(),
            decreases self.entries@.len() - i,
        {
            let ghost before = kept@;
            assert(all.take(i + 1).drop_last() =~= all.take(i as int));
            if keep[i] {
                let entry = self.entries[i].copy();
                kept.push(entry);
                assert(annotation_views(kept@) =~= annotation_views(before).push(entry@));
            } else {
                removed += 1;
            }
            i += 1;
        }
        assert(all.take(i as int) =~= all);
        if removed == 0 {
            proof {
                crate::sets::lemma_picked(all, p);
                lemma_all_picked(all, p);
            }
            return 0;
        }
        *self = AnnotationLog::adopt(kept);
        removed
    }

    /// Drops the annotations an erasure reaches; how many went.
    pub fn drop_for_subject(&mut self, doom: &Doom) -> (r: usize)
        ensures
            final(self)@ == picked(old(self)@, doom.sparing()),
            r == old(self)@.len() - final(self)@.len(),
    {
        let mut keep: Vec<bool> = Vec::new();
        let mut i: usize = 0;
        while i < self.entries.len()
            invariant
                i <= self.entries@.len(),
                *self == *old(self),
                keep@.len() == i,
                forall|k: int| 0 <= k < i ==> #[trigger] keep@[k] == !doom.dooms(self.entries@[k]@),
            decreases self.entries@.len() - i,
        {
            let doomed = doom.reaches(&self.entries[i]);
            keep.push(!doomed);
            i += 1;
        }
        self.rewrite_keeping(&keep, Ghost(doom.sparing()))
    }

    /// Drops the annotations older than their tenant's cutoff, scores
    /// excepted; how many went.
    pub fn drop_older_than(&mut self, cutoffs: &Cutoffs) -> (r: usize)
        ensures
            final(self)@ == picked(old(self)@, cutoffs.sparing()),
            r == old(self)@.len() - final(self)@.len(),
    {
        let mut keep: Vec<bool> = Vec::new();
        let mut i: usize = 0;
        while i < self.entries.len()
            invariant
                i <= self.entries@.len(),
                *self == *old(self),
                keep@.len() == i,
                forall|k: int| 0 <= k < i ==> #[trigger] keep@[k] == cutoffs.spares(self.entries@[k]@),
            decreases self.entries@.len() - i,
        {
            let entry = &self.entries[i];
            let spared = entry.is_score() || match cutoffs.cutoff_for(entry.tenant.as_str()) {
                Some(cutoff) => entry.timestamp_ns >= cutoff,
                None => true,
            };
            keep.push(spared);
            i += 1;
        }
        self.rewrite_keeping(&keep, Ghost(cutoffs.sparing()))
    }

    pub fn len(&self) -> (r: usize)
        ensures
            r == self@.len(),
    {
        self.entries.len()
    }

    /// The annotations in log order.
    pub fn entries(&self) -> (r: &Vec<Annotation>)
        ensures
            annotation_views(r@) == self@,
    {
        &self.entries
    }
}

/// Where no item is left out, picking changes nothing.
proof fn lemma_all_picked(s: Seq<AnnotationView>, p: spec_fn(AnnotationView) -> bool)
    requires
        picked(s, p).len() == s.len(),
    ensures
        picked(s, p) == s,
    decreases s.len(),
{
    if s.len() > 0 {
        crate::sets::lemma_picked(s.drop_last(), p);
        lemma_all_picked(s.drop_last(), p);
        assert(s.drop_last().push(s.last()) =~= s);
    } else {
        assert(picked(s, p) =~= s);
    }
}

// ----------------------------------------------------------------------- laws

/// A score outlives every retention window.
pub proof fn law_scores_never_expire(log: Seq<AnnotationView>, cutoffs: Cutoffs, a: AnnotationView)
    requires
        log.contains(a),
        a.experiment_id.is_some(),
    ensures
        picked(log, cutoffs.sparing()).contains(a),
{
    crate::sets::lemma_picked(log, cutoffs.sparing());
}

/// Expiry and erasure remove nothing but what they are about, and leave none
/// of it: what remains is exactly what was there and is spared.
pub proof fn law_removal_is_exact(
    log: Seq<AnnotationView>,
    spared: spec_fn(AnnotationView) -> bool,
    a: AnnotationView,
)
    ensures
        picked(log, spared).contains(a) == (log.contains(a) && spared(a)),
        picked(picked(log, spared), spared) == picked(log, spared),
{
    crate::sets::lemma_picked(log, spared);
    let once = picked(log, spared);
    crate::sets::lemma_picked(once, spared);
    assert forall|i: int| 0 <= i < once.len() implies spared(#[trigger] once[i]) by {
        assert(once.contains(once[i]));
    }
}

/// A search's answer is in order, newest first, and holds every admitted
/// annotation when nothing caps it.
pub proof fn law_a_search_is_newest_first(log: Seq<AnnotationView>, narrow: AnnotationQuery)
    ensures
        ({
            let answer = capped(sorted(picked(log, narrow.admitting())), narrow.limit);
            &&& forall|i: int, j: int|
                #![trigger answer[i], answer[j]]
                0 <= i < j < answer.len() ==> answer[i].timestamp_ns >= answer[j].timestamp_ns
            &&& narrow.limit.is_none() ==> forall|a: AnnotationView| #[trigger]
                answer.contains(a) == (log.contains(a) && narrow.admits(a))
        }),
{
    let found = picked(log, narrow.admitting());
    crate::sort::law_sorted_is_in_order(found);
    crate::sets::lemma_picked(log, narrow.admitting());
    let answer = capped(sorted(found), narrow.limit);
    assert forall|i: int, j: int|
        #![trigger answer[i], answer[j]]
        0 <= i < j < answer.len() implies answer[i].timestamp_ns >= answer[j].timestamp_ns by {
        assert(sorted(found)[i].ranks(&sorted(found)[j]));
    }
    if narrow.limit.is_none() {
        assert forall|a: AnnotationView| #[trigger] answer.contains(a) == (log.contains(a)
            && narrow.admits(a)) by {
            crate::sort::lemma_sorted_members(found, a);
        }
    }
}

/// What a caller reads off an annotation is what it holds.
pub proof fn law_an_annotation_shows_its_fields(a: Annotation)
    ensures
        a@.trace_id == a.trace_id@ && a@.span_id == a.span_id@ && a@.tenant == a.tenant@,
        a@.session_id == a.session_id@ && a@.experiment_id == a.experiment_id,
        a@.example_id == a.example_id@ && a@.name == a.name@ && a@.value == a.value@,
        a@.source == a.source@ && a@.comment == a.comment@ && a@.timestamp_ns == a.timestamp_ns,
{
}

/// What a search asks for, field by field: the trace, the span, the tenant, the
/// session, the experiment, the example and the name are the annotation's own,
/// its source begins with the prefix, and it was recorded between the bounds,
/// both among them. What is not asked for is not looked at.
pub open spec fn asked_for(q: AnnotationQuery, a: AnnotationView) -> bool {
    &&& q.trace_id is Some ==> a.trace_id == q.trace_id->0@
    &&& q.span_id is Some ==> a.span_id == q.span_id->0@
    &&& q.tenant is Some ==> a.tenant == q.tenant->0@
    &&& q.session_id is Some ==> a.session_id == q.session_id->0@
    &&& q.experiment_id is Some ==> a.experiment_id == q.experiment_id
    &&& q.example_id is Some ==> a.example_id == q.example_id->0@
    &&& q.name is Some ==> a.name == q.name->0@
    &&& q.source_prefix is Some ==> q.source_prefix->0@.len() <= a.source.len() && a.source.take(
        q.source_prefix->0@.len() as int,
    ) == q.source_prefix->0@
    &&& q.since_ns is Some ==> q.since_ns->0 <= a.timestamp_ns
    &&& q.until_ns is Some ==> a.timestamp_ns <= q.until_ns->0
}

/// A search finds the annotations that match in every field asked for, and no
/// others; a limit keeps the newest of them.
pub proof fn law_a_search_finds_what_is_asked_for(
    log: Seq<AnnotationView>,
    q: AnnotationQuery,
    a: AnnotationView,
)
    ensures
        ({
            let answer = capped(sorted(picked(log, q.admitting())), q.limit);
            let found = log.filter(|a: AnnotationView| asked_for(q, a)).len();
            &&& answer.contains(a) ==> log.contains(a) && asked_for(q, a)
            &&& q.limit is None && log.contains(a) && asked_for(q, a) ==> answer.contains(a)
            &&& q.limit is None ==> answer.len() == found
            &&& q.limit is Some ==> answer.len() == (if q.limit->0 < found {
                q.limit->0 as nat
            } else {
                found
            })
        }),
{
    let p = q.admitting();
    let found = picked(log, p);
    crate::sets::lemma_picked(log, p);
    crate::sets::law_picking_is_filtering(log, p);
    crate::sort::law_sorted_keeps_the_items(found);
    crate::sort::lemma_sorted_members(found, a);
    let r = |a: AnnotationView| asked_for(q, a);
    assert forall|a: AnnotationView| #[trigger] p(a) == r(a) by {}
    assert(p =~= r);
    let answer = capped(sorted(found), q.limit);
    if answer.contains(a) {
        let i = choose|i: int| 0 <= i < answer.len() && answer[i] == a;
        assert(sorted(found)[i] == a);
        assert(found.contains(a));
        assert(p(a));
    }
    if log.contains(a) && asked_for(q, a) {
        assert(p(a));
    }
}

/// A search's answer is newest first; of one moment, by tenant, then by trace,
/// span, example and name.
pub proof fn law_the_order_of_a_search(log: Seq<AnnotationView>, q: AnnotationQuery, i: int, j: int)
    requires
        0 <= i < j < capped(sorted(picked(log, q.admitting())), q.limit).len(),
    ensures
        ({
            let answer = capped(sorted(picked(log, q.admitting())), q.limit);
            let a = answer[i];
            let b = answer[j];
            let now = a.timestamp_ns == b.timestamp_ns;
            let tenant = now && a.tenant == b.tenant;
            let trace = tenant && a.trace_id == b.trace_id;
            let span = trace && a.span_id == b.span_id;
            let example = span && a.example_id == b.example_id;
            &&& a.timestamp_ns >= b.timestamp_ns
            &&& now && a.tenant != b.tenant ==> text_le(a.tenant, b.tenant)
            &&& tenant && a.trace_id != b.trace_id ==> text_le(a.trace_id, b.trace_id)
            &&& trace && a.span_id != b.span_id ==> text_le(a.span_id, b.span_id)
            &&& span && a.example_id != b.example_id ==> text_le(a.example_id, b.example_id)
            &&& example && a.name != b.name ==> text_le(a.name, b.name)
        }),
{
    let found = picked(log, q.admitting());
    crate::sort::law_sorted_is_in_order(found);
    let a = sorted(found)[i];
    let b = sorted(found)[j];
    assert(a.ranks(&b));
    let x = a.tiebreak();
    let y = b.tiebreak();
    reveal_with_fuel(lex_le, 6);
    assert(x.skip(1).skip(1) =~= x.skip(2) && y.skip(1).skip(1) =~= y.skip(2));
    assert(x.skip(2).skip(1) =~= x.skip(3) && y.skip(2).skip(1) =~= y.skip(3));
    assert(x.skip(3).skip(1) =~= x.skip(4) && y.skip(3).skip(1) =~= y.skip(4));
    assert(x.skip(1)[0] == a.trace_id && y.skip(1)[0] == b.trace_id);
    assert(x.skip(2)[0] == a.span_id && y.skip(2)[0] == b.span_id);
    assert(x.skip(3)[0] == a.example_id && y.skip(3)[0] == b.example_id);
    assert(x.skip(4)[0] == a.name && y.skip(4)[0] == b.name);
}

/// A lookup gives a trace's annotations in log order: those of that trace, and
/// of the tenant, span and name asked for.
pub proof fn law_a_lookup_finds_a_traces_annotations(
    log: Seq<AnnotationView>,
    tenant: Option<&str>,
    trace: Seq<char>,
    span: Option<&str>,
    name: Option<&str>,
)
    ensures
        picked(log, looking_up(tenant, trace, span, name)) == log.filter(
            |a: AnnotationView|
                a.trace_id == trace && (tenant is Some ==> a.tenant == tenant->0@) && (span is Some
                    ==> a.span_id == span->0@) && (name is Some ==> a.name == name->0@),
        ),
{
    let p = looking_up(tenant, trace, span, name);
    let r = |a: AnnotationView|
        a.trace_id == trace && (tenant is Some ==> a.tenant == tenant->0@) && (span is Some
            ==> a.span_id == span->0@) && (name is Some ==> a.name == name->0@);
    crate::sets::law_picking_is_filtering(log, p);
    assert forall|a: AnnotationView| #[trigger] p(a) == r(a) by {}
    assert(p =~= r);
}

/// What makes an annotation's subject unsound, and with which words; an
/// annotation is sound where it addresses a trace, a span of a trace, a session
/// alone, or an example of an experiment.
pub proof fn law_unsound_subjects(a: AnnotationView)
    ensures
        ({
            let named = a.name.len() > 0;
            let owned = a.tenant.len() == 0 || is_tenant(a.tenant);
            let trace = a.trace_id.len() > 0;
            let span = a.span_id.len() > 0;
            let session = a.session_id.len() > 0;
            let experiment = a.experiment_id is Some;
            let example = a.example_id.len() > 0;
            let well = named && owned;
            let placed = well && (trace || !span);
            let paired = placed && experiment == example;
            let alone = paired && !(session && (trace || experiment));
            &&& a.defect() is None <==> alone && (trace || session || experiment)
            &&& !named ==> a.defect() == Some("annotation name is empty"@)
            &&& named && !owned ==> a.defect() == Some(
                "annotation tenant must be lowercase [a-z0-9][a-z0-9._-], at most 64 bytes"@,
            )
            &&& well && span && !trace ==> a.defect() == Some(
                "annotation span_id requires its trace_id"@,
            )
            &&& placed && experiment != example ==> a.defect() == Some(
                "a score names both experiment_id and example_id"@,
            )
            &&& paired && session && (trace || experiment) ==> a.defect() == Some(
                "a session annotation names only its session_id"@,
            )
            &&& alone && !trace && !session && !experiment ==> a.defect() == Some(
                "annotation must address a trace, a span, a session, or an experiment example"@,
            )
        }),
{
}

/// Expiry spares a score, what has no cutoff, and what was recorded at its
/// tenant's cutoff or later; nothing else. A tenant's cutoff is the first one
/// listed under its name, or the common one where none is.
pub proof fn law_what_expiry_spares(cutoffs: Cutoffs, a: AnnotationView, i: int)
    requires
        0 <= i <= cutoffs.by_tenant@.len(),
        i < cutoffs.by_tenant@.len() ==> cutoffs.by_tenant@[i].0@ == a.tenant,
        forall|j: int| 0 <= j < i ==> (#[trigger] cutoffs.by_tenant@[j]).0@ != a.tenant,
    ensures
        ({
            let cutoff = if i < cutoffs.by_tenant@.len() {
                cutoffs.by_tenant@[i].1
            } else {
                cutoffs.otherwise
            };
            cutoffs.sparing()(a) <==> a.experiment_id is Some || cutoff is None || cutoff->0
                <= a.timestamp_ns
        }),
{
    lemma_cutoff(cutoffs, a.tenant, 0, i);
}

proof fn lemma_cutoff(cutoffs: Cutoffs, tenant: Seq<char>, from: int, i: int)
    requires
        0 <= from <= i <= cutoffs.by_tenant@.len(),
        forall|j: int| 0 <= j < i ==> (#[trigger] cutoffs.by_tenant@[j]).0@ != tenant,
    ensures
        cutoffs.cutoff_from(tenant, from) == cutoffs.cutoff_from(tenant, i),
    decreases i - from,
{
    if from < i {
        lemma_cutoff(cutoffs, tenant, from + 1, i);
    }
}

/// An erasure takes every annotation of its tenant, of its trace, of its
/// session, and under one of its keys, and spares every other.
pub proof fn law_what_an_erasure_takes(doom: Doom, a: AnnotationView)
    ensures
        !doom.sparing()(a) <==> {
            ||| doom.whole_tenant is Some && doom.whole_tenant->0@ == a.tenant
            ||| doom.whole_trace is Some && (doom.whole_trace->0).0@ == a.tenant && (
            doom.whole_trace->0).1@ == a.trace_id
            ||| doom.whole_session is Some && (doom.whole_session->0).0@ == a.tenant && (
            doom.whole_session->0).1@ == a.session_id
            ||| a.trace_id.len() > 0 && doom.keys@.contains((a.tenant, a.trace_id, a.span_id))
        },
{
}

} // verus!
