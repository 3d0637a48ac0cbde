//! The tombstone log: the state that its records replay to, and the mask that
//! keeps a pending erasure's subject invisible.

use vstd::prelude::*;

use crate::annotations::Annotation;
use crate::erasure::{
    holds_unredacted, payload_unredacted, EraseRecord, EraseView, LogRecord, LogView, SettleRecord,
    SettleView, Subject, SubjectView,
};
use crate::jsonl::{lines_of, recover, recovery, Damage, Healing};
use crate::sets::{adjoin, adjoin_all, keys, Distinct, Same};
use crate::span::{KeyView, Span};
use crate::text::{copy, same, texts};

verus! {

// ----------------------------------------------------------------------- mask

/// The pending erasures' combined coverage.
pub struct MaskView {
    /// Resolved keys of every pending erasure, and the subject key of every
    /// pending span erasure.
    pub keys: Seq<KeyView>,
    /// Pending trace subjects, each with its tenant before it.
    pub traces: Seq<(Seq<char>, Seq<char>)>,
    /// Pending session subjects, each with its tenant before it.
    pub sessions: Seq<(Seq<char>, Seq<char>)>,
    pub tenants: Seq<Seq<char>>,
    /// Pending payload subjects.
    pub payloads: Seq<Seq<char>>,
    /// Every payload reference a pending erasure is due to account for.
    pub payload_files: Seq<Seq<char>>,
}

impl MaskView {
    pub open spec fn empty() -> MaskView {
        MaskView {
            keys: seq![],
            traces: seq![],
            sessions: seq![],
            tenants: seq![],
            payloads: seq![],
            payload_files: seq![],
        }
    }

    /// The mask with one more erasure.
    pub open spec fn with(self, record: EraseView) -> MaskView {
        let listed = MaskView {
            keys: adjoin_all(self.keys, record.span_keys),
            payload_files: adjoin_all(self.payload_files, record.payload_refs),
            ..self
        };
        match record.subject {
            SubjectView::Trace { trace_id, tenant } => MaskView {
                traces: adjoin(listed.traces, (tenant, trace_id)),
                ..listed
            },
            SubjectView::Session { session_id, tenant } => MaskView {
                sessions: adjoin(listed.sessions, (tenant, session_id)),
                ..listed
            },
            SubjectView::Payload { reference } => MaskView {
                payloads: adjoin(listed.payloads, reference),
                payload_files: adjoin(listed.payload_files, reference),
                ..listed
            },
            SubjectView::Span { trace_id, span_id, tenant } => MaskView {
                keys: adjoin(listed.keys, (tenant, trace_id, span_id)),
                ..listed
            },
            SubjectView::Tenant { tenant } => MaskView {
                tenants: adjoin(listed.tenants, tenant),
                ..listed
            },
        }
    }

    /// Whether a span is dropped outright: by key, trace, session or tenant.
    pub open spec fn drops(self, span: &Span) -> bool {
        ||| self.tenants.contains(span.tenant@)
        ||| self.traces.contains((span.tenant@, span.trace_id@))
        ||| self.keys.contains(span.primary_key())
        ||| span.facts.session matches Some(session) && self.sessions.contains(
            (span.tenant@, session@),
        )
    }

    /// Whether a span is withheld from reads: it is dropped, or it holds an
    /// unredacted reference to a payload under erasure.
    pub open spec fn hides(self, span: &Span) -> bool {
        self.drops(span) || exists|i: int|
            0 <= i < self.payloads.len() && holds_unredacted(span, #[trigger] self.payloads[i])
    }

    pub open spec fn hides_annotation(self, a: crate::annotations::AnnotationView) -> bool {
        ||| self.tenants.contains(a.tenant)
        ||| a.trace_id.len() > 0 && (self.traces.contains((a.tenant, a.trace_id))
            || self.keys.contains(a.key()))
        ||| a.session_id.len() > 0 && self.sessions.contains((a.tenant, a.session_id))
    }
}

/// The mask over a list of pending erasures.
pub open spec fn mask_of(pending: Seq<EraseView>) -> MaskView
    decreases pending.len(),
{
    if pending.len() == 0 {
        MaskView::empty()
    } else {
        mask_of(pending.drop_last()).with(pending.last())
    }
}

pub open spec fn erase_views(s: Seq<EraseRecord>) -> Seq<EraseView> {
    Seq::new(s.len(), |i: int| s[i]@)
}

/// The pending erasures' combined span coverage, consulted by every read.
/// Subjects that resolved to keys are checked by key, so a span ingested again
/// under an erased key while its erasure is pending stays invisible.
#[derive(Debug)]
pub struct Mask {
    keys: Distinct<(String, String, String)>,
    traces: Distinct<(String, String)>,
    sessions: Distinct<(String, String)>,
    tenants: Distinct<String>,
    payloads: Distinct<String>,
    payload_files: Distinct<String>,
}

impl View for Mask {
    type V = MaskView;

    closed spec fn view(&self) -> MaskView {
        MaskView {
            keys: self.keys@,
            traces: self.traces@,
            sessions: self.sessions@,
            tenants: self.tenants@,
            payloads: self.payloads@,
            payload_files: self.payload_files@,
        }
    }
}

fn add_keys(into: &mut Distinct<(String, String, String)>, list: &Vec<(String, String, String)>)
    ensures
        final(into)@ == adjoin_all(old(into)@, keys(list@)),
{
    let ghost start = into@;
    let ghost all = keys(list@);
    let mut i: usize = 0;
    assert(all.take(0) =~= seq![]);
    while i < list.len()
        invariant
            i <= list@.len(),
            all == keys(list@),
            into@ == adjoin_all(start, all.take(i as int)),
        decreases list@.len() - i,
    {
        assert(all.take(i + 1).drop_last() =~= all.take(i as int));
        into.insert(
            (copy(list[i].0.as_str()), copy(list[i].1.as_str()), copy(list[i].2.as_str())),
        );
        i += 1;
    }
    assert(all.take(i as int) =~= all);
}

fn add_texts(into: &mut Distinct<String>, list: &Vec<String>)
    ensures
        final(into)@ == adjoin_all(old(into)@, texts(list@)),
{
    let ghost start = into@;
    let ghost all = texts(list@);
    let mut i: usize = 0;
    assert(all.take(0) =~= seq![]);
    while i < list.len()
        invariant
            i <= list@.len(),
            all == texts(list@),
            into@ == adjoin_all(start, all.take(i as int)),
        decreases list@.len() - i,
    {
        assert(all.take(i + 1).drop_last() =~= all.take(i as int));
        into.insert(copy(list[i].as_str()));
        i += 1;
    }
    assert(all.take(i as int) =~= all);
}

impl Mask {
    fn empty() -> (r: Self)
        ensures
            r@ == MaskView::empty(),
    {
        Mask {
            keys: Distinct::new(),
            traces: Distinct::new(),
            sessions: Distinct::new(),
            tenants: Distinct::new(),
            payloads: Distinct::new(),
            payload_files: Distinct::new(),
        }
    }

    fn cover(&mut self, record: &EraseRecord)
        ensures
            final(self)@ == old(self)@.with(record@),
    {
        add_keys(&mut self.keys, &record.span_keys);
        add_texts(&mut self.payload_files, &record.payload_refs);
        match &record.subject {
            Subject::Trace { trace_id, tenant } => {
                self.traces.insert((copy(tenant.as_str()), copy(trace_id.as_str())));
            },
            Subject::Session { session_id, tenant } => {
                self.sessions.insert((copy(tenant.as_str()), copy(session_id.as_str())));
            },
            Subject::Payload { reference } => {
                self.payloads.insert(copy(reference.as_str()));
                self.payload_files.insert(copy(reference.as_str()));
            },
            Subject::Span { trace_id, span_id, tenant } => {
                // The subject is the key, whatever keys the record lists.
                self.keys.insert(
                    (copy(tenant.as_str()), copy(trace_id.as_str()), copy(span_id.as_str())),
                );
            },
            Subject::Tenant { tenant } => {
                self.tenants.insert(copy(tenant.as_str()));
            },
        }
    }

    /// Builds the mask for a list of pending erasures.
    pub fn for_pending(pending: &Vec<EraseRecord>) -> (r: Self)
        ensures
            r@ == mask_of(erase_views(pending@)),
    {
        let ghost all = erase_views(pending@);
        let mut mask = Mask::empty();
        let mut i: usize = 0;
        assert(all.take(0) =~= seq![]);
        while i < pending.len()
            invariant
                i <= pending@.len(),
                all == erase_views(pending@),
                mask@ == mask_of(all.take(i as int)),
            decreases pending@.len() - i,
        {
            assert(all.take(i + 1).drop_last() =~= all.take(i as int));
            mask.cover(&pending[i]);
            i += 1;
        }
        assert(all.take(i as int) =~= all);
        mask
    }

    /// Whether a pending erasure covers this span, for reads: what is dropped
    /// and what refers to a payload whose redaction has not settled.
    pub fn covers(&self, span: &Span) -> (r: bool)
        ensures
            r == self@.hides(span),
    {
        if self.covers_for_drop(span) {
            return true;
        }
        let payloads = self.payloads.items();
        let mut i: usize = 0;
        while i < payloads.len()
            invariant
                i <= payloads@.len(),
                keys(payloads@) == self@.payloads,
                !self@.drops(span),
                forall|k: int|
                    0 <= k < i ==> !holds_unredacted(span, #[trigger] self@.payloads[k]),
            decreases payloads@.len() - i,
        {
            assert(self@.payloads[i as int] == payloads@[i as int]@);
            if payload_unredacted(span, payloads[i].as_str()) {
                return true;
            }
            i += 1;
        }
        false
    }

    /// Whether admission drops this span outright: keys, traces, sessions and
    /// tenants, but not payload subjects, whose values admission redacts.
    pub fn covers_for_drop(&self, span: &Span) -> (r: bool)
        ensures
            r == self@.drops(span),
    {
        if self.tenants.contains(&span.tenant) {
            return true;
        }
        let trace = (copy(span.tenant.as_str()), copy(span.trace_id.as_str()));
        if self.traces.contains(&trace) {
            return true;
        }
        let key = (
            copy(span.tenant.as_str()),
            copy(span.trace_id.as_str()),
            copy(span.span_id.as_str()),
        );
        if self.keys.contains(&key) {
            return true;
        }
        match &span.facts.session {
            Some(session) => {
                let session = (copy(span.tenant.as_str()), copy(session.as_str()));
                self.sessions.contains(&session)
            },
            None => false,
        }
    }

    /// The payload references under erasure as subjects.
    pub fn payload_subjects(&self) -> (r: &Vec<String>)
        ensures
            texts(r@) == self@.payloads,
    {
        let r = self.payloads.items();
        assert(texts(r@) =~= keys(r@));
        r
    }

    /// Whether a pending erasure covers this annotation, judged against its
    /// own subject.
    pub fn covers_annotation(&self, annotation: &Annotation) -> (r: bool)
        ensures
            r == self@.hides_annotation(annotation@),
    {
        if self.tenants.contains(&annotation.tenant) {
            return true;
        }
        if !annotation.trace_id.as_str().is_empty() {
            let trace = (copy(annotation.tenant.as_str()), copy(annotation.trace_id.as_str()));
            if self.traces.contains(&trace) {
                return true;
            }
            let key = (
                copy(annotation.tenant.as_str()),
                copy(annotation.trace_id.as_str()),
                copy(annotation.span_id.as_str()),
            );
            if self.keys.contains(&key) {
                return true;
            }
        }
        if annotation.session_id.as_str().is_empty() {
            return false;
        }
        let session = (copy(annotation.tenant.as_str()), copy(annotation.session_id.as_str()));
        self.sessions.contains(&session)
    }

    /// Whether a pending tenant erasure covers this tenant.
    pub fn covers_tenant(&self, tenant: &str) -> (r: bool)
        ensures
            r == self@.tenants.contains(tenant@),
    {
        self.tenants.contains(&copy(tenant))
    }

    /// Whether a pending erasure is due to account for this payload's bytes.
    pub fn covers_payload_file(&self, reference: &str) -> (r: bool)
        ensures
            r == self@.payload_files.contains(reference@),
    {
        self.payload_files.contains(&copy(reference))
    }
}

// ------------------------------------------------------------------------ log

/// One erasure as the log currently knows it.
#[derive(Debug)]
pub struct ErasureStatus {
    /// The intent record.
    pub erase: EraseRecord,
    /// The outcome, or `None` while the erasure is pending.
    pub settle: Option<SettleRecord>,
}

pub struct StatusView {
    pub erase: EraseView,
    pub settle: Option<SettleView>,
}

impl View for ErasureStatus {
    type V = StatusView;

    open spec fn view(&self) -> StatusView {
        StatusView {
            erase: self.erase@,
            settle: match self.settle {
                Some(settle) => Some(settle@),
                None => None,
            },
        }
    }
}

impl ErasureStatus {
    pub fn copy(&self) -> (r: Self)
        ensures
            r@ == self@,
    {
        ErasureStatus {
            erase: self.erase.copy(),
            settle: match &self.settle {
                Some(settle) => Some(settle.copy()),
                None => None,
            },
        }
    }
}

pub open spec fn status_views(s: Seq<ErasureStatus>) -> Seq<StatusView> {
    Seq::new(s.len(), |i: int| s[i]@)
}

/// Ids in ascending order, none twice.
pub open spec fn by_id(s: Seq<StatusView>) -> bool {
    forall|i: int, j: int|
        #![trigger s[i], s[j]]
        0 <= i < j < s.len() ==> s[i].erase.id < s[j].erase.id
}

/// How many erasures have a smaller id.
pub open spec fn place(s: Seq<StatusView>, id: u64) -> int
    decreases s.len(),
{
    if s.len() == 0 || s.last().erase.id < id {
        s.len() as int
    } else {
        place(s.drop_last(), id)
    }
}

pub open spec fn has_id(s: Seq<StatusView>, id: u64) -> bool {
    place(s, id) < s.len() && s[place(s, id)].erase.id == id
}

/// The state after an intent: a new pending erasure, or a fresh intent in
/// place of one under the same id.
pub open spec fn with_erase(s: Seq<StatusView>, erase: EraseView) -> Seq<StatusView> {
    let status = StatusView { erase, settle: None };
    if has_id(s, erase.id) {
        s.update(place(s, erase.id), status)
    } else {
        s.insert(place(s, erase.id), status)
    }
}

/// The state after an outcome; one for an unknown id changes nothing.
pub open spec fn with_settle(s: Seq<StatusView>, settle: SettleView) -> Seq<StatusView> {
    if has_id(s, settle.id) {
        let at = place(s, settle.id);
        s.update(at, StatusView { settle: Some(settle), ..s[at] })
    } else {
        s
    }
}

pub open spec fn applied(s: Seq<StatusView>, record: LogView) -> Seq<StatusView> {
    match record {
        LogView::Erase(erase) => with_erase(s, erase),
        LogView::Settle(settle) => with_settle(s, settle),
    }
}

pub open spec fn log_views(s: Seq<LogRecord>) -> Seq<LogView> {
    Seq::new(s.len(), |i: int| s[i]@)
}

/// The state that a log's records replay to.
pub open spec fn state_of(log: Seq<LogView>) -> Seq<StatusView>
    decreases log.len(),
{
    if log.len() == 0 {
        seq![]
    } else {
        applied(state_of(log.drop_last()), log.last())
    }
}

/// The erasures without an outcome, oldest first.
pub open spec fn pending_of(s: Seq<StatusView>) -> Seq<EraseView>
    decreases s.len(),
{
    if s.len() == 0 {
        seq![]
    } else {
        let before = pending_of(s.drop_last());
        if s.last().settle.is_none() {
            before.push(s.last().erase)
        } else {
            before
        }
    }
}

/// The id of the next erasure: one more than the largest so far, as far as
/// numbers go.
pub open spec fn next_id(s: Seq<StatusView>) -> u64 {
    if s.len() == 0 {
        1
    } else if s.last().erase.id == u64::MAX {
        u64::MAX
    } else {
        (s.last().erase.id + 1) as u64
    }
}

pub proof fn lemma_place(s: Seq<StatusView>, id: u64)
    requires
        by_id(s),
    ensures
        0 <= place(s, id) <= s.len(),
        forall|i: int| 0 <= i < place(s, id) ==> (#[trigger] s[i]).erase.id < id,
        forall|i: int| place(s, id) <= i < s.len() ==> (#[trigger] s[i]).erase.id >= id,
    decreases s.len(),
{
    if s.len() > 0 && s.last().erase.id >= id {
        let init = s.drop_last();
        assert forall|i: int, j: int| #![trigger init[i], init[j]] 0 <= i < j < init.len() implies init[i].erase.id
            < init[j].erase.id by {
            assert(s[i].erase.id < s[j].erase.id);
        }
        lemma_place(init, id);
        assert forall|i: int| place(s, id) <= i < s.len() implies (#[trigger] s[i]).erase.id
            >= id by {
            if i < init.len() {
                assert(init[i] == s[i]);
            }
        }
        assert forall|i: int| 0 <= i < place(s, id) implies (#[trigger] s[i]).erase.id < id by {
            assert(init[i] == s[i]);
        }
    } else if s.len() > 0 {
        assert forall|i: int| 0 <= i < place(s, id) implies (#[trigger] s[i]).erase.id < id by {
            if i < s.len() - 1 {
                assert(s[i].erase.id < s[s.len() - 1].erase.id);
            }
        }
    }
}

pub proof fn lemma_applied(s: Seq<StatusView>, record: LogView)
    requires
        by_id(s),
    ensures
        by_id(applied(s, record)),
{
    match record {
        LogView::Erase(erase) => {
            lemma_place(s, erase.id);
        },
        LogView::Settle(settle) => {
            lemma_place(s, settle.id);
        },
    }
    let t = applied(s, record);
    assert forall|i: int, j: int| #![trigger t[i], t[j]] 0 <= i < j < t.len() implies t[i].erase.id
        < t[j].erase.id by {
        match record {
            LogView::Erase(erase) => {
                let p = place(s, erase.id);
                if has_id(s, erase.id) {
                    assert(s[i].erase.id < s[j].erase.id);
                } else {
                    let a = if i < p {
                        i
                    } else {
                        i - 1
                    };
                    let b = if j < p {
                        j
                    } else {
                        j - 1
                    };
                    if i == p {
                        assert(s[b].erase.id >= erase.id);
                        if b == p {
                            assert(s[p].erase.id != erase.id);
                        } else {
                            assert(s[p].erase.id < s[b].erase.id);
                        }
                    } else if j == p {
                        assert(s[a].erase.id < erase.id);
                    } else {
                        assert(s[a].erase.id < s[b].erase.id);
                    }
                }
            },
            LogView::Settle(settle) => {
                assert(s[i].erase.id < s[j].erase.id);
            },
        }
    }
}

/// Every erasure ever recorded, by id, with its outcome when one landed.
#[derive(Debug)]
pub struct ErasureLog {
    entries: Vec<ErasureStatus>,
}

impl View for ErasureLog {
    type V = Seq<StatusView>;

    closed spec fn view(&self) -> Seq<StatusView> {
        status_views(self.entries@)
    }
}

impl ErasureLog {
    #[verifier::type_invariant]
    spec fn ordered(self) -> bool {
        by_id(status_views(self.entries@))
    }

    /// A log with nothing in it.
    pub fn new() -> (r: Self)
        ensures
            r@ == Seq::<StatusView>::empty(),
    {
        let r = ErasureLog { entries: Vec::new() };
        assert(r@ =~= Seq::<StatusView>::empty());
        r
    }

    fn find(&self, id: u64) -> (r: usize)
        ensures
            r == place(self@, id),
            r <= self@.len(),
            by_id(self@),
    {
        proof {
            use_type_invariant(self);
            lemma_place(self@, id);
        }
        let mut i: usize = 0;
        while i < self.entries.len()
            invariant
                i <= self.entries@.len(),
                by_id(self@),
                0 <= place(self@, id) <= self@.len(),
                forall|k: int| 0 <= k < place(self@, id) ==> (#[trigger] self@[k]).erase.id < id,
                forall|k: int|
                    place(self@, id) <= k < self@.len() ==> (#[trigger] self@[k]).erase.id >= id,
                i <= place(self@, id),
            decreases self.entries@.len() - i,
        {
            assert(self@[i as int] == self.entries@[i as int]@);
            if self.entries[i].erase.id >= id {
                return i;
            }
            i += 1;
        }
        i
    }

    /// Takes an intent into the state.
    pub fn record_erase(&mut self, erase: EraseRecord)
        ensures
            final(self)@ == with_erase(old(self)@, erase@),
    {
        let at = self.find(erase.id);
        let ghost before = self@;
        proof {
            lemma_applied(before, LogView::Erase(erase@));
        }
        let known = at < self.entries.len() && self.entries[at].erase.id == erase.id;
        let status = ErasureStatus { erase, settle: None };
        let mut entries: Vec<ErasureStatus> = Vec::new();
        std::mem::swap(&mut entries, &mut self.entries);
        assert(status_views(entries@) == before);
        if known {
            entries.set(at, status);
            assert(status_views(entries@) =~= before.update(at as int, status@));
        } else {
            entries.insert(at, status);
            assert(status_views(entries@) =~= before.insert(at as int, status@));
        }
        self.entries = entries;
    }

    /// Takes an outcome into the state: the erasure is no longer pending. One
    /// for an unknown id is dropped, which is safer than inventing an intent.
    pub fn record_settle(&mut self, settle: SettleRecord)
        ensures
            final(self)@ == with_settle(old(self)@, settle@),
    {
        let at = self.find(settle.id);
        let ghost before = self@;
        proof {
            lemma_applied(before, LogView::Settle(settle@));
        }
        if at < self.entries.len() && self.entries[at].erase.id == settle.id {
            let status = ErasureStatus {
                erase: self.entries[at].erase.copy(),
                settle: Some(settle),
            };
            let mut entries: Vec<ErasureStatus> = Vec::new();
            std::mem::swap(&mut entries, &mut self.entries);
            entries.set(at, status);
            assert(status_views(entries@) =~= before.update(at as int, status@));
            self.entries = entries;
        }
    }

    /// The state that a log's records replay to.
    pub fn replayed(records: Vec<LogRecord>) -> (r: Self)
        ensures
            r@ == state_of(log_views(records@)),
    {
        let ghost all = log_views(records@);
        let mut log = ErasureLog::new();
        let mut i: usize = 0;
        assert(all.take(0) =~= seq![]);
        while i < records.len()
            invariant
                i <= records@.len(),
                all == log_views(records@),
                log@ == state_of(all.take(i as int)),
            decreases records@.len() - i,
        {
            assert(all.take(i + 1).drop_last() =~= all.take(i as int));
            match &records[i] {
                LogRecord::Erase(erase) => {
                    log.record_erase(erase.copy());
                },
                LogRecord::Settle(settle) => {
                    log.record_settle(settle.copy());
                },
            }
            i += 1;
        }
        assert(all.take(i as int) =~= all);
        log
    }

    /// Opens a log from its bytes and the records of its lines, read up to the
    /// first line that spells none; the second part says what has to be done to
    /// the file.
    pub fn open(contents: &[u8], read: Vec<LogRecord>) -> (r: Result<(Self, Healing), Damage>)
        requires
            read@.len() <= lines_of(contents@).len(),
        ensures
            match r {
                Ok((log, healing)) => log@ == state_of(log_views(read@)) && recovery(
                    contents@,
                    read@.len() as int,
                ) == Ok::<Healing, int>(healing),
                Err(damage) => recovery(contents@, read@.len() as int) == Err::<Healing, int>(
                    damage.at as int,
                ),
            },
    {
        match recover(contents, read.len()) {
            Ok(healing) => Ok((ErasureLog::replayed(read), healing)),
            Err(damage) => Err(damage),
        }
    }

    /// The intent record of the next erasure, not yet part of the state.
    pub fn intent(
        &self,
        requested_unix_ns: u64,
        subject: Subject,
        span_keys: Vec<(String, String, String)>,
        payload_refs: Vec<String>,
        eval_datasets: Vec<u64>,
        eval_experiments: Vec<u64>,
    ) -> (r: EraseRecord)
        ensures
            r@ == (EraseView {
                schema: crate::erasure::SCHEMA,
                id: next_id(self@),
                requested_unix_ns,
                subject: subject@,
                span_keys: keys(span_keys@),
                payload_refs: texts(payload_refs@),
                eval_datasets: eval_datasets@,
                eval_experiments: eval_experiments@,
            }),
    {
        let count: usize = self.entries.len();
        let id: u64 = if count == 0 {
            1
        } else {
            assert(self@.last() == self.entries@[count - 1]@);
            self.entries[count - 1].erase.id.saturating_add(1)
        };
        EraseRecord::new(
            id,
            requested_unix_ns,
            subject,
            span_keys,
            payload_refs,
            eval_datasets,
            eval_experiments,
        )
    }

    /// Allocates the next id and takes the erasure into the state, from where
    /// on its subject is masked. The record returned is the line to append.
    pub fn begin(
        &mut self,
        requested_unix_ns: u64,
        subject: Subject,
        span_keys: Vec<(String, String, String)>,
        payload_refs: Vec<String>,
        eval_datasets: Vec<u64>,
        eval_experiments: Vec<u64>,
    ) -> (r: EraseRecord)
        ensures
            r@ == (EraseView {
                schema: crate::erasure::SCHEMA,
                id: next_id(old(self)@),
                requested_unix_ns,
                subject: subject@,
                span_keys: keys(span_keys@),
                payload_refs: texts(payload_refs@),
                eval_datasets: eval_datasets@,
                eval_experiments: eval_experiments@,
            }),
            final(self)@ == with_erase(old(self)@, r@),
    {
        let erase = self.intent(
            requested_unix_ns,
            subject,
            span_keys,
            payload_refs,
            eval_datasets,
            eval_experiments,
        );
        self.record_erase(erase.copy());
        erase
    }

    /// Erasures whose purge has not settled, oldest first.
    pub fn pending(&self) -> (r: Vec<EraseRecord>)
        ensures
            erase_views(r@) == pending_of(self@),
    {
        let ghost all = self@;
        let mut r: Vec<EraseRecord> = Vec::new();
        let mut i: usize = 0;
        assert(all.take(0) =~= seq![]);
        assert(erase_views(r@) =~= seq![]);
        while i < self.entries.len()
            invariant
                i <= self.entries@.len(),
                all == status_views(self.entries@),
                erase_views(r@) == pending_of(all.take(i as int)),
            decreases self.entries@.len() - i,
        {
            let ghost before = r@;
            assert(all.take(i + 1).drop_last() =~= all.take(i as int));
            assert(all.take(i + 1).last() == self.entries@[i as int]@);
            if self.entries[i].settle.is_none() {
                let erase = self.entries[i].erase.copy();
                r.push(erase);
                assert(erase_views(r@) =~= erase_views(before).push(erase@));
            }
            i += 1;
        }
        assert(all.take(i as int) =~= all);
        r
    }

    /// The pending-erasure mask, or `None` when nothing is pending.
    pub fn mask(&self) -> (r: Option<Mask>)
        ensures
            match r {
                Some(mask) => pending_of(self@).len() > 0 && mask@ == mask_of(pending_of(self@)),
                None => pending_of(self@).len() == 0,
            },
    {
        let pending = self.pending();
        assert(erase_views(pending@).len() == pending@.len());
        if pending.len() == 0 {
            None
        } else {
            Some(Mask::for_pending(&pending))
        }
    }

    /// Every erasure the log knows, oldest first.
    pub fn list(&self) -> (r: Vec<ErasureStatus>)
        ensures
            status_views(r@) == self@,
            by_id(self@),
    {
        proof {
            use_type_invariant(self);
        }
        let mut r: Vec<ErasureStatus> = Vec::new();
        let mut i: usize = 0;
        while i < self.entries.len()
            invariant
                i <= self.entries@.len(),
                r@.len() == i,
                forall|k: int| 0 <= k < i ==> (#[trigger] r@[k])@ == self.entries@[k]@,
            decreases self.entries@.len() - i,
        {
            r.push(self.entries[i].copy());
            i += 1;
        }
        assert(status_views(r@) =~= self@);
        r
    }

    /// One erasure by id.
    pub fn get(&self, id: u64) -> (r: Option<ErasureStatus>)
        ensures
            match r {
                Some(status) => has_id(self@, id) && status@ == self@[place(self@, id)],
                None => !has_id(self@, id),
            },
    {
        let at = self.find(id);
        if at < self.entries.len() && self.entries[at].erase.id == id {
            assert(self@[at as int] == self.entries@[at as int]@);
            Some(self.entries[at].copy())
        } else {
            None
        }
    }
}

// ----------------------------------------------------------------------- laws

/// Whether one erasure drops a span: by its subject, or by a key it resolved
/// to.
pub open spec fn record_drops(record: EraseView, span: &Span) -> bool {
    record.subject.drops(span) || record.span_keys.contains(span.primary_key())
}

/// Whether one erasure withholds a span from reads.
pub open spec fn record_hides(record: EraseView, span: &Span) -> bool {
    record_drops(record, span) || (record.subject matches SubjectView::Payload { reference }
        && holds_unredacted(span, reference))
}

proof fn lemma_with(mask: MaskView, record: EraseView, span: &Span)
    ensures
        mask.with(record).drops(span) == (mask.drops(span) || record_drops(record, span)),
        mask.with(record).hides(span) == (mask.hides(span) || record_hides(record, span)),
{
    let after = mask.with(record);
    crate::sets::lemma_adjoin_all(mask.keys, record.span_keys);
    let listed = adjoin_all(mask.keys, record.span_keys);
    match record.subject {
        SubjectView::Trace { trace_id, tenant } => {
            crate::sets::lemma_adjoin(mask.traces, (tenant, trace_id));
        },
        SubjectView::Session { session_id, tenant } => {
            crate::sets::lemma_adjoin(mask.sessions, (tenant, session_id));
        },
        SubjectView::Payload { reference } => {
            crate::sets::lemma_adjoin(mask.payloads, reference);
            if exists|i: int|
                0 <= i < mask.payloads.len() && holds_unredacted(
                    span,
                    #[trigger] mask.payloads[i],
                ) {
                let i = choose|i: int|
                    0 <= i < mask.payloads.len() && holds_unredacted(
                        span,
                        #[trigger] mask.payloads[i],
                    );
                assert(after.payloads[i] == mask.payloads[i]);
            }
            if holds_unredacted(span, reference) {
                assert(after.payloads.contains(reference));
                let i = choose|i: int| 0 <= i < after.payloads.len() && after.payloads[i] == reference;
                assert(holds_unredacted(span, after.payloads[i]));
            }
            if exists|i: int|
                0 <= i < after.payloads.len() && holds_unredacted(
                    span,
                    #[trigger] after.payloads[i],
                ) {
                let i = choose|i: int|
                    0 <= i < after.payloads.len() && holds_unredacted(
                        span,
                        #[trigger] after.payloads[i],
                    );
                assert(after.payloads.contains(after.payloads[i]));
                if after.payloads[i] != reference {
                    assert(mask.payloads.contains(after.payloads[i]));
                    let j = choose|j: int|
                        0 <= j < mask.payloads.len() && mask.payloads[j] == after.payloads[i];
                    assert(holds_unredacted(span, mask.payloads[j]));
                }
            }
        },
        SubjectView::Span { trace_id, span_id, tenant } => {
            crate::sets::lemma_adjoin(listed, (tenant, trace_id, span_id));
        },
        SubjectView::Tenant { tenant } => {
            crate::sets::lemma_adjoin(mask.tenants, tenant);
        },
    }
}

/// The mask covers exactly what the pending erasures cover: a span is dropped,
/// or withheld from reads, if and only if one of them says so.
pub proof fn law_the_mask_is_exact(pending: Seq<EraseView>, span: &Span)
    ensures
        mask_of(pending).drops(span) == exists|i: int|
            0 <= i < pending.len() && record_drops(#[trigger] pending[i], span),
        mask_of(pending).hides(span) == exists|i: int|
            0 <= i < pending.len() && record_hides(#[trigger] pending[i], span),
    decreases pending.len(),
{
    if pending.len() > 0 {
        let init = pending.drop_last();
        law_the_mask_is_exact(init, span);
        lemma_with(mask_of(init), pending.last(), span);
        let n = pending.len() - 1;
        assert(pending[n] == pending.last());
        if mask_of(init).drops(span) {
            let i = choose|i: int| 0 <= i < init.len() && record_drops(#[trigger] init[i], span);
            assert(record_drops(pending[i], span));
        }
        if mask_of(init).hides(span) {
            let i = choose|i: int| 0 <= i < init.len() && record_hides(#[trigger] init[i], span);
            assert(record_hides(pending[i], span));
        }
        if exists|i: int| 0 <= i < pending.len() && record_drops(#[trigger] pending[i], span) {
            let i = choose|i: int|
                0 <= i < pending.len() && record_drops(#[trigger] pending[i], span);
            if i < n {
                assert(record_drops(init[i], span));
            }
        }
        if exists|i: int| 0 <= i < pending.len() && record_hides(#[trigger] pending[i], span) {
            let i = choose|i: int|
                0 <= i < pending.len() && record_hides(#[trigger] pending[i], span);
            if i < n {
                assert(record_hides(init[i], span));
            }
        }
    }
}

proof fn lemma_pending(s: Seq<StatusView>, e: EraseView)
    ensures
        pending_of(s).contains(e) == exists|i: int|
            0 <= i < s.len() && (#[trigger] s[i]).erase == e && s[i].settle.is_none(),
    decreases s.len(),
{
    if s.len() > 0 {
        let init = s.drop_last();
        lemma_pending(init, e);
        let before = pending_of(init);
        let n = s.len() - 1;
        assert(s[n] == s.last());
        if before.contains(e) {
            let k = choose|k: int| 0 <= k < before.len() && before[k] == e;
            assert(pending_of(s)[k] == e);
        }
        if s.last().settle.is_none() {
            assert(pending_of(s)[before.len() as int] == s.last().erase);
        }
        if pending_of(s).contains(e) {
            let k = choose|k: int| 0 <= k < pending_of(s).len() && pending_of(s)[k] == e;
            if k < before.len() {
                assert(before[k] == e);
                let i = choose|i: int|
                    0 <= i < init.len() && (#[trigger] init[i]).erase == e
                        && init[i].settle.is_none();
                assert(s[i].erase == e);
            }
        }
        if exists|i: int|
            0 <= i < s.len() && (#[trigger] s[i]).erase == e && s[i].settle.is_none() {
            let i = choose|i: int|
                0 <= i < s.len() && (#[trigger] s[i]).erase == e && s[i].settle.is_none();
            if i < n {
                assert(init[i].erase == e);
            }
        }
    }
}

/// An erasure is pending from its intent on, so its subject is masked from
/// then on.
pub proof fn law_an_intent_masks(s: Seq<StatusView>, erase: EraseView, span: &Span)
    requires
        by_id(s),
    ensures
        pending_of(with_erase(s, erase)).contains(erase),
        record_drops(erase, span) ==> mask_of(pending_of(with_erase(s, erase))).drops(span),
        record_hides(erase, span) ==> mask_of(pending_of(with_erase(s, erase))).hides(span),
{
    lemma_place(s, erase.id);
    let t = with_erase(s, erase);
    assert(t[place(s, erase.id)].erase == erase);
    lemma_pending(t, erase);
    let pending = pending_of(t);
    law_the_mask_is_exact(pending, span);
    let i = choose|i: int| 0 <= i < pending.len() && pending[i] == erase;
    assert(record_drops(pending[i], span) == record_drops(erase, span));
    assert(record_hides(pending[i], span) == record_hides(erase, span));
}

/// An outcome lifts its erasure out of the mask, and no other.
pub proof fn law_an_outcome_unmasks(s: Seq<StatusView>, settle: SettleView, e: EraseView)
    requires
        by_id(s),
    ensures
        pending_of(with_settle(s, settle)).contains(e) == (pending_of(s).contains(e) && e.id
            != settle.id),
{
    lemma_place(s, settle.id);
    let t = with_settle(s, settle);
    let p = place(s, settle.id);
    lemma_pending(s, e);
    lemma_pending(t, e);
    if exists|i: int| 0 <= i < s.len() && (#[trigger] s[i]).erase == e && s[i].settle.is_none() {
        let i = choose|i: int|
            0 <= i < s.len() && (#[trigger] s[i]).erase == e && s[i].settle.is_none();
        if e.id != settle.id {
            assert(t[i] == s[i]);
        } else {
            assert(i >= p);
            if i > p {
                assert(s[p].erase.id < s[i].erase.id);
            }
        }
    }
    if exists|i: int| 0 <= i < t.len() && (#[trigger] t[i]).erase == e && t[i].settle.is_none() {
        let i = choose|i: int|
            0 <= i < t.len() && (#[trigger] t[i]).erase == e && t[i].settle.is_none();
        assert(s[i].erase == e);
        if e.id == settle.id {
            if i > p {
                assert(s[p].erase.id < s[i].erase.id);
            }
            if i < p {
                assert(s[i].erase.id < settle.id);
            }
        }
    }
}

/// Ids grow: the next one is larger than every id in the log, until numbers
/// run out.
pub proof fn law_ids_grow(s: Seq<StatusView>, i: int)
    requires
        by_id(s),
        0 <= i < s.len(),
        s.last().erase.id < u64::MAX,
    ensures
        s[i].erase.id < next_id(s),
        !has_id(s, next_id(s)),
{
    lemma_place(s, next_id(s));
    if i < s.len() - 1 {
        assert(s[i].erase.id < s[s.len() - 1].erase.id);
    }
}

/// Reopening a log finds the state that was live when its last line was
/// appended.
pub proof fn law_replay_follows_the_appends(log: Seq<LogView>, record: LogView)
    ensures
        state_of(log.push(record)) == applied(state_of(log), record),
        by_id(state_of(log)),
    decreases log.len(),
{
    assert(log.push(record).drop_last() =~= log);
    if log.len() > 0 {
        law_replay_follows_the_appends(log.drop_last(), log.last());
        assert(log.drop_last().push(log.last()) =~= log);
        lemma_applied(state_of(log.drop_last()), log.last());
    }
}

/// A pending erasure that resolved to no keys masks exactly the spans that its
/// subject drops, and withholds from reads exactly those that it drops or
/// redacts.
pub proof fn law_a_mask_does_what_the_subject_does(record: EraseView, span: &Span)
    requires
        record.span_keys.len() == 0,
    ensures
        mask_of(seq![record]).drops(span) <==> record.subject.acts(span) is Drop,
        mask_of(seq![record]).hides(span) <==> !(record.subject.acts(span) is Keep),
{
    let one = seq![record];
    law_the_mask_is_exact(one, span);
    assert(one[0] == record);
    assert(!record.span_keys.contains(span.primary_key()));
    if record_drops(record, span) {
        assert(record_drops(one[0], span));
    }
    if record_hides(record, span) {
        assert(record_hides(one[0], span));
    }
}

/// A span under a key that a pending erasure resolved to is dropped, whatever
/// the erasure's subject.
pub proof fn law_a_resolved_key_is_masked(pending: Seq<EraseView>, i: int, span: &Span)
    requires
        0 <= i < pending.len(),
        pending[i].span_keys.contains((span.tenant@, span.trace_id@, span.span_id@)),
    ensures
        mask_of(pending).drops(span),
        mask_of(pending).hides(span),
{
    law_the_mask_is_exact(pending, span);
    assert(record_drops(pending[i], span));
}

/// A span that no pending erasure drops, redacts or lists is not masked.
pub proof fn law_nothing_else_is_masked(pending: Seq<EraseView>, span: &Span)
    requires
        forall|i: int|
            0 <= i < pending.len() ==> (#[trigger] pending[i]).subject.acts(span) is Keep
                && !pending[i].span_keys.contains((span.tenant@, span.trace_id@, span.span_id@)),
    ensures
        !mask_of(pending).drops(span),
        !mask_of(pending).hides(span),
{
    law_the_mask_is_exact(pending, span);
}

/// What a mask holds of its pending erasures: the tenants, traces, sessions and
/// payloads that are their subjects, the keys they list or name, and the payload
/// files they list or name.
pub proof fn law_what_a_mask_holds(pending: Seq<EraseView>)
    ensures
        ({
            let mask = mask_of(pending);
            &&& forall|t: Seq<char>| #[trigger]
                mask.tenants.contains(t) == exists|i: int|
                    0 <= i < pending.len() && (#[trigger] pending[i]).subject
                        == (SubjectView::Tenant { tenant: t })
            &&& forall|r: Seq<char>| #[trigger]
                mask.payloads.contains(r) == exists|i: int|
                    0 <= i < pending.len() && (#[trigger] pending[i]).subject
                        == (SubjectView::Payload { reference: r })
            &&& forall|r: Seq<char>| #[trigger]
                mask.payload_files.contains(r) == exists|i: int|
                    0 <= i < pending.len() && ((#[trigger] pending[i]).payload_refs.contains(r)
                        || pending[i].subject == (SubjectView::Payload { reference: r }))
            &&& forall|k: KeyView| #[trigger]
                mask.keys.contains(k) == exists|i: int|
                    0 <= i < pending.len() && ((#[trigger] pending[i]).span_keys.contains(k)
                        || pending[i].subject == (SubjectView::Span {
                        tenant: k.0,
                        trace_id: k.1,
                        span_id: k.2,
                    }))
            &&& forall|t: Seq<char>, x: Seq<char>| #[trigger]
                mask.traces.contains((t, x)) == exists|i: int|
                    0 <= i < pending.len() && (#[trigger] pending[i]).subject
                        == (SubjectView::Trace { trace_id: x, tenant: t })
            &&& forall|t: Seq<char>, x: Seq<char>| #[trigger]
                mask.sessions.contains((t, x)) == exists|i: int|
                    0 <= i < pending.len() && (#[trigger] pending[i]).subject
                        == (SubjectView::Session { session_id: x, tenant: t })
        }),
    decreases pending.len(),
{
    if pending.len() > 0 {
        let init = pending.drop_last();
        let n = pending.len() - 1;
        law_what_a_mask_holds(init);
        let before = mask_of(init);
        let record = pending.last();
        let mask = mask_of(pending);
        assert(pending[n] == record);
        assert forall|i: int| 0 <= i < n implies #[trigger] pending[i] == init[i] by {}
        assert forall|i: int| 0 <= i < n implies #[trigger] init[i] == pending[i] by {}
        crate::sets::lemma_adjoin_all(before.keys, record.span_keys);
        crate::sets::lemma_adjoin_all(before.payload_files, record.payload_refs);
        let keys = adjoin_all(before.keys, record.span_keys);
        let files = adjoin_all(before.payload_files, record.payload_refs);
        match record.subject {
            SubjectView::Trace { trace_id, tenant } => {
                crate::sets::lemma_adjoin(before.traces, (tenant, trace_id));
            },
            SubjectView::Session { session_id, tenant } => {
                crate::sets::lemma_adjoin(before.sessions, (tenant, session_id));
            },
            SubjectView::Payload { reference } => {
                crate::sets::lemma_adjoin(before.payloads, reference);
                crate::sets::lemma_adjoin(files, reference);
            },
            SubjectView::Span { trace_id, span_id, tenant } => {
                crate::sets::lemma_adjoin(keys, (tenant, trace_id, span_id));
            },
            SubjectView::Tenant { tenant } => {
                crate::sets::lemma_adjoin(before.tenants, tenant);
            },
        }
        assert forall|t: Seq<char>| #[trigger] mask.tenants.contains(t) == exists|i: int|
            0 <= i < pending.len() && (#[trigger] pending[i]).subject == (SubjectView::Tenant {
                tenant: t,
            }) by {
            let p = |v: EraseView| v.subject == (SubjectView::Tenant { tenant: t });
            lemma_some_record(pending, p);
        }
        assert forall|r: Seq<char>| #[trigger] mask.payloads.contains(r) == exists|i: int|
            0 <= i < pending.len() && (#[trigger] pending[i]).subject == (SubjectView::Payload {
                reference: r,
            }) by {
            let p = |v: EraseView| v.subject == (SubjectView::Payload { reference: r });
            lemma_some_record(pending, p);
        }
        assert forall|r: Seq<char>| #[trigger] mask.payload_files.contains(r) == exists|i: int|
            0 <= i < pending.len() && ((#[trigger] pending[i]).payload_refs.contains(r)
                || pending[i].subject == (SubjectView::Payload { reference: r })) by {
            let p = |v: EraseView|
                v.payload_refs.contains(r) || v.subject == (SubjectView::Payload { reference: r });
            lemma_some_record(pending, p);
        }
        assert forall|k: KeyView| #[trigger] mask.keys.contains(k) == exists|i: int|
            0 <= i < pending.len() && ((#[trigger] pending[i]).span_keys.contains(k)
                || pending[i].subject == (SubjectView::Span {
                tenant: k.0,
                trace_id: k.1,
                span_id: k.2,
            })) by {
            let p = |v: EraseView|
                v.span_keys.contains(k) || v.subject == (SubjectView::Span {
                    tenant: k.0,
                    trace_id: k.1,
                    span_id: k.2,
                });
            lemma_some_record(pending, p);
        }
        assert forall|t: Seq<char>, x: Seq<char>| #[trigger]
            mask.traces.contains((t, x)) == exists|i: int|
                0 <= i < pending.len() && (#[trigger] pending[i]).subject == (SubjectView::Trace {
                    trace_id: x,
                    tenant: t,
                }) by {
            let p = |v: EraseView| v.subject == (SubjectView::Trace { trace_id: x, tenant: t });
            lemma_some_record(pending, p);
        }
        assert forall|t: Seq<char>, x: Seq<char>| #[trigger]
            mask.sessions.contains((t, x)) == exists|i: int|
                0 <= i < pending.len() && (#[trigger] pending[i]).subject == (SubjectView::Session {
                    session_id: x,
                    tenant: t,
                }) by {
            let p = |v: EraseView| v.subject == (SubjectView::Session { session_id: x, tenant: t });
            lemma_some_record(pending, p);
        }
    }
}

proof fn lemma_some_record(pending: Seq<EraseView>, p: spec_fn(EraseView) -> bool)
    requires
        pending.len() > 0,
    ensures
        (exists|i: int| 0 <= i < pending.len() && p(#[trigger] pending[i])) == (p(pending.last())
            || exists|i: int|
            0 <= i < pending.drop_last().len() && p(#[trigger] pending.drop_last()[i])),
{
    let init = pending.drop_last();
    let n = pending.len() - 1;
    if exists|i: int| 0 <= i < pending.len() && p(#[trigger] pending[i]) {
        let i = choose|i: int| 0 <= i < pending.len() && p(#[trigger] pending[i]);
        if i < n {
            assert(p(init[i]));
        }
    }
    if p(pending.last()) {
        assert(p(pending[n]));
    }
    if exists|i: int| 0 <= i < init.len() && p(#[trigger] init[i]) {
        let i = choose|i: int| 0 <= i < init.len() && p(#[trigger] init[i]);
        assert(p(pending[i]));
    }
}

/// A pending erasure withholds an annotation of its tenant, of its trace, under
/// one of its keys, or of its session, and no other.
pub proof fn law_which_annotations_are_masked(
    pending: Seq<EraseView>,
    a: crate::annotations::AnnotationView,
)
    ensures
        mask_of(pending).hides_annotation(a) <==> exists|i: int|
            0 <= i < pending.len() && ({
                let record = #[trigger] pending[i];
                let key = (a.tenant, a.trace_id, a.span_id);
                ||| record.subject == (SubjectView::Tenant { tenant: a.tenant })
                ||| a.trace_id.len() > 0 && record.subject == (SubjectView::Trace {
                    trace_id: a.trace_id,
                    tenant: a.tenant,
                })
                ||| a.trace_id.len() > 0 && (record.span_keys.contains(key) || record.subject
                    == (SubjectView::Span {
                    trace_id: a.trace_id,
                    span_id: a.span_id,
                    tenant: a.tenant,
                }))
                ||| a.session_id.len() > 0 && record.subject == (SubjectView::Session {
                    session_id: a.session_id,
                    tenant: a.tenant,
                })
            }),
{
    law_what_a_mask_holds(pending);
    let mask = mask_of(pending);
    let key = (a.tenant, a.trace_id, a.span_id);
    assert(a.key() == key);
    if mask.tenants.contains(a.tenant) {
        let i = choose|i: int|
            0 <= i < pending.len() && (#[trigger] pending[i]).subject == (SubjectView::Tenant {
                tenant: a.tenant,
            });
        assert(pending[i].subject is Tenant);
    }
    if mask.traces.contains((a.tenant, a.trace_id)) {
        let i = choose|i: int|
            0 <= i < pending.len() && (#[trigger] pending[i]).subject == (SubjectView::Trace {
                trace_id: a.trace_id,
                tenant: a.tenant,
            });
        assert(pending[i].subject is Trace);
    }
    if mask.keys.contains(key) {
        let i = choose|i: int|
            0 <= i < pending.len() && ((#[trigger] pending[i]).span_keys.contains(key)
                || pending[i].subject == (SubjectView::Span {
                tenant: key.0,
                trace_id: key.1,
                span_id: key.2,
            }));
        assert(pending[i] == pending[i]);
    }
    if mask.sessions.contains((a.tenant, a.session_id)) {
        let i = choose|i: int|
            0 <= i < pending.len() && (#[trigger] pending[i]).subject == (SubjectView::Session {
                session_id: a.session_id,
                tenant: a.tenant,
            });
        assert(pending[i].subject is Session);
    }
}

/// What the log holds after an intent: under its id the intent, pending; under
/// every other id what was there.
pub proof fn law_the_log_after_an_intent(s: Seq<StatusView>, erase: EraseView, other: StatusView)
    requires
        by_id(s),
        other.erase.id != erase.id,
    ensures
        with_erase(s, erase).contains(StatusView { erase, settle: None }),
        with_erase(s, erase).contains(other) <==> s.contains(other),
        forall|i: int|
            0 <= i < with_erase(s, erase).len() && (#[trigger] with_erase(s, erase)[i]).erase.id
                == erase.id ==> with_erase(s, erase)[i] == (StatusView { erase, settle: None }),
{
    lemma_place(s, erase.id);
    lemma_applied(s, LogView::Erase(erase));
    let t = with_erase(s, erase);
    let p = place(s, erase.id);
    let new = StatusView { erase, settle: None };
    assert(t[p] == new);
    if s.contains(other) {
        let i = choose|i: int| 0 <= i < s.len() && s[i] == other;
        if has_id(s, erase.id) {
            assert(t[i] == other);
        } else if i < p {
            assert(t[i] == other);
        } else {
            assert(t[i + 1] == other);
        }
    }
    if t.contains(other) {
        let i = choose|i: int| 0 <= i < t.len() && t[i] == other;
        assert(i != p);
        if has_id(s, erase.id) {
            assert(s[i] == other);
        } else if i < p {
            assert(s[i] == other);
        } else {
            assert(s[i - 1] == other);
        }
    }
    assert forall|i: int| 0 <= i < t.len() && (#[trigger] t[i]).erase.id == erase.id implies t[i]
        == new by {
        if i < p {
            assert(t[i].erase.id < t[p].erase.id);
        }
        if i > p {
            assert(t[p].erase.id < t[i].erase.id);
        }
    }
}

/// What the log holds after an outcome: the erasure of that id, settled with
/// it, where there is one; every other erasure as it was; and no erasure that
/// was not there.
pub proof fn law_the_log_after_an_outcome(s: Seq<StatusView>, settle: SettleView, i: int)
    requires
        by_id(s),
        0 <= i < s.len(),
    ensures
        with_settle(s, settle).len() == s.len(),
        with_settle(s, settle)[i].erase == s[i].erase,
        s[i].erase.id == settle.id ==> with_settle(s, settle)[i].settle == Some(settle),
        s[i].erase.id != settle.id ==> with_settle(s, settle)[i].settle == s[i].settle,
{
    lemma_place(s, settle.id);
    let p = place(s, settle.id);
    if s[i].erase.id == settle.id {
        if i > p {
            assert(s[p].erase.id < s[i].erase.id);
        }
        assert(i == p);
    }
}

/// A log begins empty, an intent is applied as an intent and an outcome as an
/// outcome.
pub proof fn law_records_are_applied(s: Seq<StatusView>, erase: EraseView, settle: SettleView)
    ensures
        state_of(Seq::empty()).len() == 0,
        applied(s, LogView::Erase(erase)) == with_erase(s, erase),
        applied(s, LogView::Settle(settle)) == with_settle(s, settle),
{
}

/// What is pending is what has no outcome, oldest id first.
pub proof fn law_what_is_pending(s: Seq<StatusView>)
    ensures
        pending_of(s) == s.filter(|v: StatusView| v.settle is None).map_values(
            |v: StatusView| v.erase,
        ),
    decreases s.len(),
{
    reveal(Seq::filter);
    let p = |v: StatusView| v.settle is None;
    let f = |v: StatusView| v.erase;
    if s.len() > 0 {
        law_what_is_pending(s.drop_last());
        let before = s.drop_last().filter(p);
        if p(s.last()) {
            assert(before.push(s.last()).map_values(f) =~= before.map_values(f).push(
                s.last().erase,
            ));
        }
    } else {
        assert(pending_of(s) =~= s.filter(p).map_values(f));
    }
}

/// The first erasure has the id 1, and each next one more than the last.
pub proof fn law_the_next_id(s: Seq<StatusView>)
    ensures
        s.len() == 0 ==> next_id(s) == 1,
        s.len() > 0 && s.last().erase.id < u64::MAX ==> next_id(s) == s.last().erase.id + 1,
{
}

/// An erasure is found under its id where the log holds one.
pub proof fn law_an_erasure_is_found(s: Seq<StatusView>, i: int, id: u64)
    requires
        by_id(s),
        0 <= i < s.len(),
    ensures
        has_id(s, s[i].erase.id) && place(s, s[i].erase.id) == i,
        has_id(s, id) ==> s[place(s, id)].erase.id == id,
        !has_id(s, id) ==> s[i].erase.id != id,
{
    lemma_place(s, s[i].erase.id);
    lemma_place(s, id);
    let p = place(s, s[i].erase.id);
    if p < i {
        assert(s[p].erase.id < s[i].erase.id);
    }
    if s[i].erase.id == id && !has_id(s, id) {
        let q = place(s, id);
        if q < i {
            assert(s[q].erase.id < s[i].erase.id);
        }
    }
}

} // verus!
