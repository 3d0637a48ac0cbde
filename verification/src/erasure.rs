//! Targeted deletion with a receipt.
//!
//! Expiry removes spans by age; erasure removes them by subject: a trace, a
//! span, a session, an offloaded payload or a tenant. This module holds what
//! decides it: the [`Subject`] and what it does to a span, the tombstone log's
//! records and the state they replay to ([`ErasureLog`]), the [`Mask`] that
//! keeps a pending subject invisible, and the [`Receipt`].

use vstd::prelude::*;

use crate::json::{entries_view, Json, JsonView};
use crate::sets::{adjoin_all, keys, Distinct, Same};
use crate::span::{is_tenant, valid_tenant, Event, KeyView, Span, PAYLOAD_KEY};
use crate::text::{
    chars_of, copy, is_digit, lowered, same, strip_prefix, text_after, texts, to_lower,
};

verus! {

/// File name of the tombstone log.
pub const LOG_NAME: &'static str = "tombstones.jsonl";

/// Record schema version.
pub const SCHEMA: u32 = 2;

/// What was wrong with a request.
#[derive(Clone, Copy, Debug)]
pub enum Error {
    InvalidSpan(&'static str),
}

/// What an erasure is about. The tenant on trace, span and session subjects
/// names the one tenant the erasure targets; empty is the default tenant,
/// never all tenants.
#[derive(Debug, PartialEq, Eq)]
pub enum Subject {
    /// Every span of one tenant's trace.
    Trace { trace_id: String, tenant: String },
    /// One span, by primary key.
    Span { trace_id: String, span_id: String, tenant: String },
    /// Every span of one tenant that resolves to one session.
    Session { session_id: String, tenant: String },
    /// One offloaded payload by content address (`sha256/<hex>`).
    Payload { reference: String },
    /// Everything one tenant owns.
    Tenant { tenant: String },
}

pub enum SubjectView {
    Trace { trace_id: Seq<char>, tenant: Seq<char> },
    Span { trace_id: Seq<char>, span_id: Seq<char>, tenant: Seq<char> },
    Session { session_id: Seq<char>, tenant: Seq<char> },
    Payload { reference: Seq<char> },
    Tenant { tenant: Seq<char> },
}

impl View for Subject {
    type V = SubjectView;

    open spec fn view(&self) -> SubjectView {
        match self {
            Subject::Trace { trace_id, tenant } => SubjectView::Trace {
                trace_id: trace_id@,
                tenant: tenant@,
            },
            Subject::Span { trace_id, span_id, tenant } => SubjectView::Span {
                trace_id: trace_id@,
                span_id: span_id@,
                tenant: tenant@,
            },
            Subject::Session { session_id, tenant } => SubjectView::Session {
                session_id: session_id@,
                tenant: tenant@,
            },
            Subject::Payload { reference } => SubjectView::Payload { reference: reference@ },
            Subject::Tenant { tenant } => SubjectView::Tenant { tenant: tenant@ },
        }
    }
}

/// What an erasure does to one span.
#[derive(Clone, Copy, Debug, PartialEq, Eq, Structural)]
pub enum Action {
    /// Untouched.
    Keep,
    /// Removed from every domain.
    Drop,
    /// Kept, with the subject payload's reference rewritten to drop its inline
    /// preview.
    Redact,
}

/// How a subject's tenant shows in its description.
pub open spec fn scope_text(tenant: Seq<char>) -> Seq<char> {
    if tenant.len() == 0 {
        Seq::empty()
    } else {
        " (tenant "@ + tenant + ")"@
    }
}

pub open spec fn is_hex(c: char) -> bool {
    is_digit(c) || 'a' <= c <= 'f'
}

/// A payload reference: `sha256/` and 64 lowercase hex digits.
pub open spec fn is_reference(reference: Seq<char>) -> bool {
    match strip_prefix(reference, "sha256/"@) {
        Some(hash) => hash.len() == 64 && forall|i: int|
            0 <= i < hash.len() ==> is_hex(#[trigger] hash[i]),
        None => false,
    }
}

impl SubjectView {
    /// The tenant a scoped subject targets.
    pub open spec fn scope(self) -> Option<Seq<char>> {
        match self {
            SubjectView::Trace { tenant, .. } => Some(tenant),
            SubjectView::Span { tenant, .. } => Some(tenant),
            SubjectView::Session { tenant, .. } => Some(tenant),
            SubjectView::Tenant { tenant } => Some(tenant),
            SubjectView::Payload { .. } => None,
        }
    }

    pub open spec fn described(self) -> Seq<char> {
        match self {
            SubjectView::Trace { trace_id, tenant } => "trace "@ + trace_id + scope_text(tenant),
            SubjectView::Span { trace_id, span_id, tenant } => "span "@ + trace_id + "/"@ + span_id
                + scope_text(tenant),
            SubjectView::Session { session_id, tenant } => "session "@ + session_id + scope_text(
                tenant,
            ),
            SubjectView::Payload { reference } => "payload "@ + reference,
            SubjectView::Tenant { tenant } => "tenant "@ + tenant,
        }
    }

    /// Payload hashes are lowercased; every other subject is canonical.
    pub open spec fn canonical(self) -> SubjectView {
        match self {
            SubjectView::Payload { reference } => SubjectView::Payload {
                reference: lowered(reference),
            },
            other => other,
        }
    }

    /// What is wrong with a subject, if anything.
    pub open spec fn defect(self) -> Option<Seq<char>> {
        if self.scope() matches Some(tenant) && tenant.len() > 0 && !is_tenant(tenant) {
            Some("tenant must be lowercase [a-z0-9][a-z0-9._-], at most 64 bytes"@)
        } else {
            match self {
                SubjectView::Trace { trace_id, .. } => if trace_id.len() == 0 {
                    Some("trace_id is empty"@)
                } else {
                    None
                },
                SubjectView::Span { trace_id, span_id, .. } => if trace_id.len() == 0
                    || span_id.len() == 0 {
                    Some("trace_id and span_id must both be non-empty"@)
                } else {
                    None
                },
                SubjectView::Session { session_id, .. } => if session_id.len() == 0 {
                    Some("session_id is empty"@)
                } else {
                    None
                },
                SubjectView::Payload { reference } => if !is_reference(reference) {
                    Some("a payload reference is sha256/<64 lowercase hex characters>"@)
                } else {
                    None
                },
                SubjectView::Tenant { tenant } => if tenant.len() == 0 {
                    Some("a tenant subject names a non-empty tenant"@)
                } else {
                    None
                },
            }
        }
    }

    /// Whether the subject removes a span.
    pub open spec fn drops(self, span: &Span) -> bool {
        match self {
            SubjectView::Trace { trace_id, tenant } => span.trace_id@ == trace_id && span.tenant@
                == tenant,
            SubjectView::Span { trace_id, span_id, tenant } => span.trace_id@ == trace_id
                && span.span_id@ == span_id && span.tenant@ == tenant,
            SubjectView::Session { session_id, tenant } => span.tenant@ == tenant
                && span.in_session(session_id),
            SubjectView::Tenant { tenant } => span.tenant@ == tenant,
            SubjectView::Payload { .. } => false,
        }
    }

    pub open spec fn acts(self, span: &Span) -> Action {
        if self.drops(span) {
            Action::Drop
        } else if self matches SubjectView::Payload { reference } && holds_unredacted(
            span,
            reference,
        ) {
            Action::Redact
        } else {
            Action::Keep
        }
    }

    /// The identifiers a byte-level occurrence scan looks for. A span id is
    /// only used when it is long enough not to drown the scan in coincidences.
    pub open spec fn sought(self) -> Seq<Seq<char>> {
        match self {
            SubjectView::Trace { trace_id, .. } => seq![trace_id],
            SubjectView::Span { trace_id, span_id, .. } => if vstd::utf8::encode_utf8(span_id).len()
                >= 8 {
                seq![trace_id, span_id]
            } else {
                seq![trace_id]
            },
            SubjectView::Session { session_id, .. } => seq![session_id],
            SubjectView::Payload { reference } => seq![reference],
            SubjectView::Tenant { tenant } => seq![tenant],
        }
    }
}

fn hex_only(text: &str) -> (r: bool)
    ensures
        r == (forall|i: int| 0 <= i < text@.len() ==> is_hex(#[trigger] text@[i])),
{
    let chars = chars_of(text);
    let mut i: usize = 0;
    while i < chars.len()
        invariant
            i <= chars@.len(),
            chars@ == text@,
            forall|k: int| 0 <= k < i ==> is_hex(#[trigger] text@[k]),
        decreases chars@.len() - i,
    {
        let c = chars[i];
        if !(('0' <= c && c <= '9') || ('a' <= c && c <= 'f')) {
            assert(!is_hex(text@[i as int]));
            return false;
        }
        i += 1;
    }
    true
}

/// Whether a text is a payload reference in its canonical form.
pub fn valid_reference(reference: &str) -> (r: bool)
    ensures
        r == is_reference(reference@),
{
    match text_after(reference, "sha256/") {
        None => false,
        Some(hash) => chars_of(hash.as_str()).len() == 64 && hex_only(hash.as_str()),
    }
}

fn scope_of(tenant: &str) -> (r: String)
    ensures
        r@ == scope_text(tenant@),
{
    if tenant.is_empty() {
        String::new()
    } else {
        let mut r = copy(" (tenant ");
        r.push_str(tenant);
        r.push_str(")");
        r
    }
}

impl Subject {
    /// One line naming the subject, for logs and the receipt.
    pub fn describe(&self) -> (r: String)
        ensures
            r@ == self@.described(),
    {
        match self {
            Subject::Trace { trace_id, tenant } => {
                let mut r = copy("trace ");
                r.push_str(trace_id.as_str());
                r.push_str(scope_of(tenant.as_str()).as_str());
                r
            },
            Subject::Span { trace_id, span_id, tenant } => {
                let mut r = copy("span ");
                r.push_str(trace_id.as_str());
                r.push_str("/");
                r.push_str(span_id.as_str());
                r.push_str(scope_of(tenant.as_str()).as_str());
                r
            },
            Subject::Session { session_id, tenant } => {
                let mut r = copy("session ");
                r.push_str(session_id.as_str());
                r.push_str(scope_of(tenant.as_str()).as_str());
                r
            },
            Subject::Payload { reference } => {
                let mut r = copy("payload ");
                r.push_str(reference.as_str());
                r
            },
            Subject::Tenant { tenant } => {
                let mut r = copy("tenant ");
                r.push_str(tenant.as_str());
                r
            },
        }
    }

    /// The tenant a scoped subject targets: `Some` for trace, span, session
    /// and tenant subjects (empty is the default tenant), `None` for payload
    /// subjects, which are content-addressed and store-global.
    pub fn tenant(&self) -> (r: Option<&str>)
        ensures
            crate::json::str_opt(r) == self@.scope(),
    {
        match self {
            Subject::Trace { tenant, .. } => Some(tenant.as_str()),
            Subject::Span { tenant, .. } => Some(tenant.as_str()),
            Subject::Session { tenant, .. } => Some(tenant.as_str()),
            Subject::Tenant { tenant } => Some(tenant.as_str()),
            Subject::Payload { .. } => None,
        }
    }

    /// The subject in its canonical form: stored references are lowercase hex
    /// and every comparison is case-sensitive.
    pub fn canonicalized(self) -> (r: Self)
        ensures
            r@ == self@.canonical(),
    {
        match self {
            Subject::Payload { reference } => Subject::Payload {
                reference: to_lower(reference.as_str()),
            },
            other => other,
        }
    }

    /// Whether the subject is well-formed enough to resolve: non-empty
    /// identifiers, admissible tenants, and a payload reference in its
    /// canonical form.
    pub fn validate(&self) -> (r: Result<(), Error>)
        ensures
            match r {
                Ok(_) => self@.defect().is_none(),
                Err(Error::InvalidSpan(message)) => self@.defect() == Some(message@),
            },
    {
        match self.tenant() {
            Some(tenant) => {
                if !tenant.is_empty() && !valid_tenant(tenant) {
                    return Err(
                        Error::InvalidSpan(
                            "tenant must be lowercase [a-z0-9][a-z0-9._-], at most 64 bytes",
                        ),
                    );
                }
            },
            None => {},
        }
        match self {
            Subject::Trace { trace_id, .. } => if trace_id.as_str().is_empty() {
                Err(Error::InvalidSpan("trace_id is empty"))
            } else {
                Ok(())
            },
            Subject::Span { trace_id, span_id, .. } => if trace_id.as_str().is_empty()
                || span_id.as_str().is_empty() {
                Err(Error::InvalidSpan("trace_id and span_id must both be non-empty"))
            } else {
                Ok(())
            },
            Subject::Session { session_id, .. } => if session_id.as_str().is_empty() {
                Err(Error::InvalidSpan("session_id is empty"))
            } else {
                Ok(())
            },
            Subject::Payload { reference } => if !valid_reference(reference.as_str()) {
                Err(
                    Error::InvalidSpan(
                        "a payload reference is sha256/<64 lowercase hex characters>",
                    ),
                )
            } else {
                Ok(())
            },
            Subject::Tenant { tenant } => if tenant.as_str().is_empty() {
                Err(Error::InvalidSpan("a tenant subject names a non-empty tenant"))
            } else {
                Ok(())
            },
        }
    }

    /// What the erasure does to a span: nothing, remove it, or rewrite it
    /// with the subject payload's inline preview redacted. Only an unredacted
    /// reference draws a rewrite: the marker a prior pass left behind is the
    /// erasure's end state.
    pub fn action(&self, span: &Span) -> (r: Action)
        ensures
            r == self@.acts(span),
    {
        let drop = match self {
            Subject::Trace { trace_id, tenant } => same(span.trace_id.as_str(), trace_id.as_str())
                && same(span.tenant.as_str(), tenant.as_str()),
            Subject::Span { trace_id, span_id, tenant } => same(
                span.trace_id.as_str(),
                trace_id.as_str(),
            ) && same(span.span_id.as_str(), span_id.as_str()) && same(
                span.tenant.as_str(),
                tenant.as_str(),
            ),
            Subject::Session { session_id, tenant } => same(span.tenant.as_str(), tenant.as_str())
                && belongs_to(span, session_id.as_str()),
            Subject::Tenant { tenant } => same(span.tenant.as_str(), tenant.as_str()),
            Subject::Payload { .. } => false,
        };
        if drop {
            return Action::Drop;
        }
        match self {
            Subject::Payload { reference } => if payload_unredacted(span, reference.as_str()) {
                Action::Redact
            } else {
                Action::Keep
            },
            _ => Action::Keep,
        }
    }

    /// The payload reference this subject redacts, for [`Action::Redact`].
    pub fn payload_reference(&self) -> (r: Option<&str>)
        ensures
            match r {
                Some(reference) => self@ == (SubjectView::Payload { reference: reference@ }),
                None => !(self@ is Payload),
            },
    {
        match self {
            Subject::Payload { reference } => Some(reference.as_str()),
            _ => None,
        }
    }

    /// The identifier strings a byte-level occurrence scan looks for.
    pub fn needles(&self) -> (r: Vec<String>)
        ensures
            texts(r@) == self@.sought(),
    {
        let mut r: Vec<String> = Vec::new();
        match self {
            Subject::Trace { trace_id, .. } => {
                r.push(copy(trace_id.as_str()));
            },
            Subject::Span { trace_id, span_id, .. } => {
                r.push(copy(trace_id.as_str()));
                if span_id.as_str().as_bytes().len() >= 8 {
                    r.push(copy(span_id.as_str()));
                }
            },
            Subject::Session { session_id, .. } => {
                r.push(copy(session_id.as_str()));
            },
            Subject::Payload { reference } => {
                r.push(copy(reference.as_str()));
            },
            Subject::Tenant { tenant } => {
                r.push(copy(tenant.as_str()));
            },
        }
        assert(texts(r@) =~= self@.sought());
        r
    }

    pub fn copy(&self) -> (r: Subject)
        ensures
            r@ == self@,
    {
        match self {
            Subject::Trace { trace_id, tenant } => Subject::Trace {
                trace_id: copy(trace_id.as_str()),
                tenant: copy(tenant.as_str()),
            },
            Subject::Span { trace_id, span_id, tenant } => Subject::Span {
                trace_id: copy(trace_id.as_str()),
                span_id: copy(span_id.as_str()),
                tenant: copy(tenant.as_str()),
            },
            Subject::Session { session_id, tenant } => Subject::Session {
                session_id: copy(session_id.as_str()),
                tenant: copy(tenant.as_str()),
            },
            Subject::Payload { reference } => Subject::Payload {
                reference: copy(reference.as_str()),
            },
            Subject::Tenant { tenant } => Subject::Tenant { tenant: copy(tenant.as_str()) },
        }
    }
}

fn belongs_to(span: &Span, session: &str) -> (r: bool)
    ensures
        r == span.in_session(session@),
{
    match &span.facts.session {
        Some(held) => same(held.as_str(), session),
        None => false,
    }
}

// ------------------------------------------------------------------ redaction

/// A field of a redaction marker.
pub open spec fn is_marker_field(key: Seq<char>) -> bool {
    key == PAYLOAD_KEY@ || key == "bytes"@ || key == "erased"@
}

/// Whether a value is a redaction marker: it says that it is erased, and holds
/// no field beyond a marker's own. One that says so beside a preview is none.
pub open spec fn is_marker(value: JsonView) -> bool {
    &&& value.true_field("erased"@)
    &&& value matches JsonView::Object(fields) && forall|i: int|
        0 <= i < fields.len() ==> is_marker_field((#[trigger] fields[i]).0)
}

/// Whether a value is a reference to the payload that is not a redaction
/// marker.
pub open spec fn is_unredacted(value: JsonView, reference: Seq<char>) -> bool {
    value.text_field(PAYLOAD_KEY@) == Some(reference) && !is_marker(value)
}

/// The marker that a redaction leaves behind: the reference and the size,
/// without the preview or any other field.
pub open spec fn redaction(value: JsonView, reference: Seq<char>) -> JsonView {
    JsonView::Object(
        seq![
            (PAYLOAD_KEY@, JsonView::Text(reference)),
            (
                "bytes"@,
                match value.field("bytes"@) {
                    Some(bytes) => bytes,
                    None => JsonView::Null,
                },
            ),
            ("erased"@, JsonView::Bool(true)),
        ],
    )
}

pub open spec fn redacted_value(value: JsonView, reference: Seq<char>) -> JsonView {
    if is_unredacted(value, reference) {
        redaction(value, reference)
    } else {
        value
    }
}

pub open spec fn redacted_entries(
    entries: Seq<(Seq<char>, JsonView)>,
    reference: Seq<char>,
) -> Seq<(Seq<char>, JsonView)> {
    Seq::new(
        entries.len(),
        |i: int| (entries[i].0, redacted_value(entries[i].1, reference)),
    )
}

pub open spec fn entries_unredacted(
    entries: Seq<(Seq<char>, JsonView)>,
    reference: Seq<char>,
) -> bool {
    exists|i: int| 0 <= i < entries.len() && is_unredacted((#[trigger] entries[i]).1, reference)
}

/// Whether a span or one of its events holds an unredacted reference.
pub open spec fn holds_unredacted(span: &Span, reference: Seq<char>) -> bool {
    ||| entries_unredacted(entries_view(span.attributes@), reference)
    ||| exists|e: int|
        0 <= e < span.events@.len() && entries_unredacted(
            entries_view((#[trigger] span.events@[e]).attributes@),
            reference,
        )
}

fn marker_fields_only(fields: &Vec<(String, Json)>) -> (r: bool)
    ensures
        r == forall|i: int|
            0 <= i < fields@.len() ==> is_marker_field((#[trigger] entries_view(fields@)[i]).0),
{
    let ghost views = entries_view(fields@);
    let mut i: usize = 0;
    while i < fields.len()
        invariant
            i <= fields@.len(),
            views == entries_view(fields@),
            forall|k: int| 0 <= k < i ==> is_marker_field((#[trigger] views[k]).0),
        decreases fields@.len() - i,
    {
        let key = fields[i].0.as_str();
        if !(same(key, PAYLOAD_KEY) || same(key, "bytes") || same(key, "erased")) {
            assert(!is_marker_field(views[i as int].0));
            return false;
        }
        i += 1;
    }
    true
}

fn marks_erasure(value: &Json) -> (r: bool)
    ensures
        r == is_marker(value@),
{
    match value {
        Json::Object(fields) => {
            assert(value@->Object_0 =~= entries_view(fields@));
            value.is_true("erased") && marker_fields_only(fields)
        },
        _ => false,
    }
}

fn unredacted(value: &Json, reference: &str) -> (r: bool)
    ensures
        r == is_unredacted(value@, reference@),
{
    match value.text_at(PAYLOAD_KEY) {
        Some(held) => same(held, reference) && !marks_erasure(value),
        None => false,
    }
}

fn any_unredacted(entries: &Vec<(String, Json)>, reference: &str) -> (r: bool)
    ensures
        r == entries_unredacted(entries_view(entries@), reference@),
{
    let ghost views = entries_view(entries@);
    let mut i: usize = 0;
    while i < entries.len()
        invariant
            i <= entries@.len(),
            views == entries_view(entries@),
            forall|k: int| 0 <= k < i ==> !is_unredacted((#[trigger] views[k]).1, reference@),
        decreases entries@.len() - i,
    {
        if unredacted(&entries[i].1, reference) {
            assert(is_unredacted(views[i as int].1, reference@));
            return true;
        }
        i += 1;
    }
    false
}

/// Whether the span still carries an unredacted reference to the payload.
pub fn payload_unredacted(span: &Span, reference: &str) -> (r: bool)
    ensures
        r == holds_unredacted(span, reference@),
{
    if any_unredacted(&span.attributes, reference) {
        return true;
    }
    let mut e: usize = 0;
    while e < span.events.len()
        invariant
            e <= span.events@.len(),
            !entries_unredacted(entries_view(span.attributes@), reference@),
            forall|k: int|
                0 <= k < e ==> !entries_unredacted(
                    entries_view((#[trigger] span.events@[k]).attributes@),
                    reference@,
                ),
        decreases span.events@.len() - e,
    {
        if any_unredacted(&span.events[e].attributes, reference) {
            return true;
        }
        e += 1;
    }
    false
}

fn redact_entries(entries: &mut Vec<(String, Json)>, reference: &str) -> (changed: bool)
    ensures
        entries_view(final(entries)@) == redacted_entries(entries_view(old(entries)@), reference@),
        changed == entries_unredacted(entries_view(old(entries)@), reference@),
{
    let ghost before = entries_view(entries@);
    let mut changed = false;
    let mut i: usize = 0;
    while i < entries.len()
        invariant
            i <= entries@.len(),
            before.len() == entries@.len(),
            forall|k: int|
                0 <= k < i ==> (#[trigger] entries_view(entries@)[k]) == (
                before[k].0, redacted_value(before[k].1, reference@)),
            forall|k: int|
                i <= k < entries@.len() ==> #[trigger] entries_view(entries@)[k] == before[k],
            changed == exists|k: int|
                0 <= k < i && is_unredacted((#[trigger] before[k]).1, reference@),
        decreases entries@.len() - i,
    {
        assert(entries_view(entries@)[i as int] == before[i as int]);
        let ghost prior = entries@;
        if unredacted(&entries[i].1, reference) {
            let bytes = match entries[i].1.get("bytes") {
                Some(bytes) => bytes.copy(),
                None => Json::Null,
            };
            let mut marker: Vec<(String, Json)> = Vec::new();
            marker.push((copy(PAYLOAD_KEY), Json::Text(copy(reference))));
            marker.push((copy("bytes"), bytes));
            marker.push((copy("erased"), Json::Bool(true)));
            let ghost listed = entries_view(marker@);
            let value = Json::Object(marker);
            proof {
                assert(value@->Object_0 =~= listed);
                assert(marker@[0].1@ == JsonView::Text(reference@));
                assert(marker@[2].1@ == JsonView::Bool(true));
                assert(listed =~= redaction(before[i as int].1, reference@)->Object_0);
                assert(is_unredacted(before[i as int].1, reference@));
            }
            entries[i].1 = value;
            changed = true;
        }
        assert forall|k: int| 0 <= k < entries@.len() && k != i implies #[trigger] entries_view(
            entries@,
        )[k] == entries_view(prior)[k] by {
            assert(entries@[k] == prior[k]);
        }
        i += 1;
    }
    assert(entries_view(entries@) =~= redacted_entries(before, reference@));
    changed
}

/// What redaction leaves as it was.
pub open spec fn same_but_attributes(a: &Span, b: &Span) -> bool {
    &&& a.trace_id == b.trace_id && a.span_id == b.span_id && a.tenant == b.tenant
    &&& a.parent_span_id == b.parent_span_id
    &&& a.name == b.name && a.service == b.service && a.status == b.status
    &&& a.start_time_ns == b.start_time_ns && a.end_time_ns == b.end_time_ns
    &&& a.links == b.links && a.facts == b.facts
    &&& a.events@.len() == b.events@.len()
    &&& forall|e: int|
        0 <= e < a.events@.len() ==> (#[trigger] a.events@[e]).name == b.events@[e].name
            && a.events@[e].timestamp_ns == b.events@[e].timestamp_ns
}

/// Rewrites every unredacted reference to `reference` in `span`, dropping the
/// inline preview and marking the value erased. Returns whether anything
/// changed.
pub fn redact_payload(span: &mut Span, reference: &str) -> (changed: bool)
    ensures
        same_but_attributes(final(span), old(span)),
        entries_view(final(span).attributes@) == redacted_entries(
            entries_view(old(span).attributes@),
            reference@,
        ),
        forall|e: int|
            0 <= e < old(span).events@.len() ==> entries_view(
                (#[trigger] final(span).events@[e]).attributes@,
            ) == redacted_entries(entries_view(old(span).events@[e].attributes@), reference@),
        changed == holds_unredacted(old(span), reference@),
{
    let ghost before = *span;
    let mut changed = redact_entries(&mut span.attributes, reference);
    let mut e: usize = 0;
    while e < span.events.len()
        invariant
            e <= span.events@.len(),
            same_but_attributes(span, &before),
            entries_view(span.attributes@) == redacted_entries(
                entries_view(before.attributes@),
                reference@,
            ),
            forall|k: int|
                0 <= k < e ==> entries_view((#[trigger] span.events@[k]).attributes@)
                    == redacted_entries(entries_view(before.events@[k].attributes@), reference@),
            forall|k: int| e <= k < span.events@.len() ==> #[trigger] span.events@[k] == before.events@[k],
            changed == (entries_unredacted(entries_view(before.attributes@), reference@) || exists|
                k: int,
            |
                0 <= k < e && entries_unredacted(
                    entries_view((#[trigger] before.events@[k]).attributes@),
                    reference@,
                )),
        decreases span.events@.len() - e,
    {
        assert(span.events@[e as int] == before.events@[e as int]);
        let ghost prior = span.events@;
        let hit = redact_entries(&mut span.events[e].attributes, reference);
        if hit {
            changed = true;
        }
        assert forall|k: int| 0 <= k < span.events@.len() && k != e implies #[trigger] span.events@[k]
            == prior[k] by {
        }
        e += 1;
    }
    changed
}

// ----------------------------------------------------------------- references

/// The payload that a value refers to; a redaction marker refers to none where
/// markers are skipped.
pub open spec fn value_ref(value: JsonView, skip_erased: bool) -> Option<Seq<char>> {
    if skip_erased && is_marker(value) {
        None
    } else {
        value.text_field(PAYLOAD_KEY@)
    }
}

pub open spec fn entry_refs(entries: Seq<(Seq<char>, JsonView)>, skip_erased: bool) -> Seq<Seq<char>>
    decreases entries.len(),
{
    if entries.len() == 0 {
        seq![]
    } else {
        let before = entry_refs(entries.drop_last(), skip_erased);
        match value_ref(entries.last().1, skip_erased) {
            Some(reference) => before.push(reference),
            None => before,
        }
    }
}

pub open spec fn event_refs(events: Seq<Event>, skip_erased: bool) -> Seq<Seq<char>>
    decreases events.len(),
{
    if events.len() == 0 {
        seq![]
    } else {
        event_refs(events.drop_last(), skip_erased) + entry_refs(
            entries_view(events.last().attributes@),
            skip_erased,
        )
    }
}

/// Every payload reference a span carries, in its attributes and then in its
/// events.
pub open spec fn span_refs(span: &Span, skip_erased: bool) -> Seq<Seq<char>> {
    entry_refs(entries_view(span.attributes@), skip_erased) + event_refs(span.events@, skip_erased)
}

fn collect_entry_refs(
    entries: &Vec<(String, Json)>,
    skip_erased: bool,
    into: &mut Distinct<String>,
)
    ensures
        final(into)@ == adjoin_all(old(into)@, entry_refs(entries_view(entries@), skip_erased)),
{
    let ghost views = entries_view(entries@);
    let ghost start = into@;
    let mut i: usize = 0;
    assert(views.take(0) =~= seq![]);
    while i < entries.len()
        invariant
            i <= entries@.len(),
            views == entries_view(entries@),
            into@ == adjoin_all(start, entry_refs(views.take(i as int), skip_erased)),
        decreases entries@.len() - i,
    {
        proof {
            assert(views.take(i + 1).drop_last() =~= views.take(i as int));
        }
        let ghost found = entry_refs(views.take(i as int), skip_erased);
        if !(skip_erased && marks_erasure(&entries[i].1)) {
            match entries[i].1.text_at(PAYLOAD_KEY) {
                Some(reference) => {
                    into.insert(copy(reference));
                    assert(found.push(reference@).drop_last() =~= found);
                },
                None => {},
            }
        }
        i += 1;
    }
    assert(views.take(i as int) =~= views);
}

/// Adds every payload reference of a span to a set.
pub fn collect_refs(span: &Span, skip_erased: bool, into: &mut Distinct<String>)
    ensures
        final(into)@ == adjoin_all(old(into)@, span_refs(span, skip_erased)),
{
    let ghost start = into@;
    let ghost own = entry_refs(entries_view(span.attributes@), skip_erased);
    collect_entry_refs(&span.attributes, skip_erased, into);
    let mut e: usize = 0;
    proof {
        assert(span.events@.take(0) =~= seq![]);
        assert(own + event_refs(span.events@.take(0), skip_erased) =~= own);
    }
    while e < span.events.len()
        invariant
            e <= span.events@.len(),
            own == entry_refs(entries_view(span.attributes@), skip_erased),
            into@ == adjoin_all(start, own + event_refs(span.events@.take(e as int), skip_erased)),
        decreases span.events@.len() - e,
    {
        let ghost before = event_refs(span.events@.take(e as int), skip_erased);
        collect_entry_refs(&span.events[e].attributes, skip_erased, into);
        proof {
            let added = entry_refs(entries_view(span.events@[e as int].attributes@), skip_erased);
            assert(span.events@.take(e + 1).drop_last() =~= span.events@.take(e as int));
            crate::sets::lemma_adjoin_all_concat(start, own + before, added);
            assert((own + before) + added =~= own + (before + added));
        }
        e += 1;
    }
    assert(span.events@.take(e as int) =~= span.events@);
}

/// Every payload reference a span carries, redaction markers excluded: a
/// marker is the record that content is gone.
pub fn payload_refs_of(span: &Span, into: &mut Distinct<String>)
    ensures
        final(into)@ == adjoin_all(old(into)@, span_refs(span, true)),
{
    collect_refs(span, true, into)
}

// -------------------------------------------------------------------- records

/// One recorded span key: a `(tenant, trace, span)` triple, or a `(trace,
/// span)` pair of an earlier schema, which means the default tenant.
#[derive(Debug)]
pub enum RecordedKey {
    Triple((String, String, String)),
    Pair((String, String)),
}

impl RecordedKey {
    pub open spec fn triple(&self) -> KeyView {
        match self {
            RecordedKey::Triple(triple) => triple.key(),
            RecordedKey::Pair(pair) => (Seq::empty(), pair.0@, pair.1@),
        }
    }

    pub fn into_triple(self) -> (r: (String, String, String))
        ensures
            r.key() == self.triple(),
    {
        match self {
            RecordedKey::Triple(triple) => triple,
            RecordedKey::Pair((trace_id, span_id)) => {
                let none = String::new();
                assert(none@ =~= Seq::<char>::empty());
                (none, trace_id, span_id)
            },
        }
    }
}

/// The intent record: appended before any byte is removed, so a crash
/// mid-erasure leaves a pending record the next open resumes.
#[derive(Debug)]
pub struct EraseRecord {
    /// Record schema version; see [`SCHEMA`].
    pub schema: u32,
    /// Monotonic erasure id, unique within this store.
    pub id: u64,
    /// Request time, nanoseconds since the Unix epoch.
    pub requested_unix_ns: u64,
    /// What is being erased.
    pub subject: Subject,
    /// The concrete `(tenant, trace_id, span_id)` keys the subject resolved to
    /// at request time; none for tenant subjects.
    pub span_keys: Vec<(String, String, String)>,
    /// Payload references the covered spans carried, or the subject's own.
    pub payload_refs: Vec<String>,
    /// Dataset ids a tenant subject erased.
    pub eval_datasets: Vec<u64>,
    /// Experiment ids a tenant subject erased.
    pub eval_experiments: Vec<u64>,
}

pub struct EraseView {
    pub schema: u32,
    pub id: u64,
    pub requested_unix_ns: u64,
    pub subject: SubjectView,
    pub span_keys: Seq<KeyView>,
    pub payload_refs: Seq<Seq<char>>,
    pub eval_datasets: Seq<u64>,
    pub eval_experiments: Seq<u64>,
}

impl View for EraseRecord {
    type V = EraseView;

    open spec fn view(&self) -> EraseView {
        EraseView {
            schema: self.schema,
            id: self.id,
            requested_unix_ns: self.requested_unix_ns,
            subject: self.subject@,
            span_keys: keys(self.span_keys@),
            payload_refs: texts(self.payload_refs@),
            eval_datasets: self.eval_datasets@,
            eval_experiments: self.eval_experiments@,
        }
    }
}

fn copy_keys(list: &Vec<(String, String, String)>) -> (r: Vec<(String, String, String)>)
    ensures
        keys(r@) == keys(list@),
{
    let mut r: Vec<(String, String, String)> = Vec::new();
    let mut i: usize = 0;
    while i < list.len()
        invariant
            i <= list@.len(),
            r@.len() == i,
            forall|k: int| 0 <= k < i ==> (#[trigger] r@[k]).key() == list@[k].key(),
        decreases list@.len() - i,
    {
        r.push(
            (
                copy(list[i].0.as_str()),
                copy(list[i].1.as_str()),
                copy(list[i].2.as_str()),
            ),
        );
        i += 1;
    }
    assert(keys(r@) =~= keys(list@));
    r
}

pub fn copy_texts(list: &Vec<String>) -> (r: Vec<String>)
    ensures
        texts(r@) == texts(list@),
{
    let mut r: Vec<String> = Vec::new();
    let mut i: usize = 0;
    while i < list.len()
        invariant
            i <= list@.len(),
            r@.len() == i,
            forall|k: int| 0 <= k < i ==> (#[trigger] r@[k])@ == list@[k]@,
        decreases list@.len() - i,
    {
        r.push(copy(list[i].as_str()));
        i += 1;
    }
    assert(texts(r@) =~= texts(list@));
    r
}

fn copy_numbers(list: &Vec<u64>) -> (r: Vec<u64>)
    ensures
        r@ == list@,
{
    let mut r: Vec<u64> = Vec::new();
    let mut i: usize = 0;
    while i < list.len()
        invariant
            i <= list@.len(),
            r@ == list@.take(i as int),
        decreases list@.len() - i,
    {
        r.push(list[i]);
        assert(list@.take(i + 1) =~= list@.take(i as int).push(list@[i as int]));
        i += 1;
    }
    assert(list@.take(i as int) =~= list@);
    r
}

impl EraseRecord {
    /// A fresh intent record at the current schema version.
    pub fn new(
        id: u64,
        requested_unix_ns: u64,
        subject: Subject,
        span_keys: Vec<(String, String, String)>,
        payload_refs: Vec<String>,
        eval_datasets: Vec<u64>,
        eval_experiments: Vec<u64>,
    ) -> (r: Self)
        ensures
            r@ == (EraseView {
                schema: SCHEMA,
                id,
                requested_unix_ns,
                subject: subject@,
                span_keys: keys(span_keys@),
                payload_refs: texts(payload_refs@),
                eval_datasets: eval_datasets@,
                eval_experiments: eval_experiments@,
            }),
    {
        EraseRecord {
            schema: SCHEMA,
            id,
            requested_unix_ns,
            subject,
            span_keys,
            payload_refs,
            eval_datasets,
            eval_experiments,
        }
    }

    pub fn copy(&self) -> (r: Self)
        ensures
            r@ == self@,
    {
        EraseRecord {
            schema: self.schema,
            id: self.id,
            requested_unix_ns: self.requested_unix_ns,
            subject: self.subject.copy(),
            span_keys: copy_keys(&self.span_keys),
            payload_refs: copy_texts(&self.payload_refs),
            eval_datasets: copy_numbers(&self.eval_datasets),
            eval_experiments: copy_numbers(&self.eval_experiments),
        }
    }
}

/// A payload reference the purge deliberately did not delete, and why.
#[derive(Debug)]
pub struct RetainedPayload {
    /// The `sha256/<hex>` reference.
    pub reference: String,
    /// Why its bytes remain.
    pub reason: String,
}

impl Same for RetainedPayload {
    type S = (Seq<char>, Seq<char>);

    open spec fn key(&self) -> (Seq<char>, Seq<char>) {
        (self.reference@, self.reason@)
    }

    fn same_as(&self, other: &Self) -> (r: bool) {
        same(self.reference.as_str(), other.reference.as_str()) && same(
            self.reason.as_str(),
            other.reason.as_str(),
        )
    }
}

/// The outcome record: appended after the purge ran. An erase record with no
/// settle record is a pending erasure. The counts are the settling pass's, not
/// lifetime totals.
#[derive(Debug)]
pub struct SettleRecord {
    pub schema: u32,
    /// The erasure this settles.
    pub id: u64,
    pub settled_unix_ns: u64,
    /// The generation that published the deletion.
    pub generation: u64,
    pub spans_removed: usize,
    pub spans_redacted: usize,
    pub annotations_removed: usize,
    pub payloads_removed: Vec<String>,
    pub payloads_retained: Vec<RetainedPayload>,
    pub eval_records_removed: usize,
}

pub struct SettleView {
    pub schema: u32,
    pub id: u64,
    pub settled_unix_ns: u64,
    pub generation: u64,
    pub spans_removed: usize,
    pub spans_redacted: usize,
    pub annotations_removed: usize,
    pub payloads_removed: Seq<Seq<char>>,
    pub payloads_retained: Seq<(Seq<char>, Seq<char>)>,
    pub eval_records_removed: usize,
}

impl View for SettleRecord {
    type V = SettleView;

    open spec fn view(&self) -> SettleView {
        SettleView {
            schema: self.schema,
            id: self.id,
            settled_unix_ns: self.settled_unix_ns,
            generation: self.generation,
            spans_removed: self.spans_removed,
            spans_redacted: self.spans_redacted,
            annotations_removed: self.annotations_removed,
            payloads_removed: texts(self.payloads_removed@),
            payloads_retained: keys(self.payloads_retained@),
            eval_records_removed: self.eval_records_removed,
        }
    }
}

impl SettleRecord {
    /// The current schema version, for whoever builds a settle record.
    pub fn schema_now() -> (r: u32)
        ensures
            r == SCHEMA,
    {
        SCHEMA
    }

    pub fn copy(&self) -> (r: Self)
        ensures
            r@ == self@,
    {
        let mut retained: Vec<RetainedPayload> = Vec::new();
        let mut i: usize = 0;
        while i < self.payloads_retained.len()
            invariant
                i <= self.payloads_retained@.len(),
                retained@.len() == i,
                forall|k: int|
                    0 <= k < i ==> (#[trigger] retained@[k]).key()
                        == self.payloads_retained@[k].key(),
            decreases self.payloads_retained@.len() - i,
        {
            retained.push(
                RetainedPayload {
                    reference: copy(self.payloads_retained[i].reference.as_str()),
                    reason: copy(self.payloads_retained[i].reason.as_str()),
                },
            );
            i += 1;
        }
        assert(keys(retained@) =~= keys(self.payloads_retained@));
        SettleRecord {
            schema: self.schema,
            id: self.id,
            settled_unix_ns: self.settled_unix_ns,
            generation: self.generation,
            spans_removed: self.spans_removed,
            spans_redacted: self.spans_redacted,
            annotations_removed: self.annotations_removed,
            payloads_removed: copy_texts(&self.payloads_removed),
            payloads_retained: retained,
            eval_records_removed: self.eval_records_removed,
        }
    }
}

/// One line of the tombstone log.
#[derive(Debug)]
pub enum LogRecord {
    Erase(EraseRecord),
    Settle(SettleRecord),
}

pub enum LogView {
    Erase(EraseView),
    Settle(SettleView),
}

impl View for LogRecord {
    type V = LogView;

    open spec fn view(&self) -> LogView {
        match self {
            LogRecord::Erase(erase) => LogView::Erase(erase@),
            LogRecord::Settle(settle) => LogView::Settle(settle@),
        }
    }
}

// ----------------------------------------------------------------------- laws

proof fn lemma_marker(value: JsonView, reference: Seq<char>)
    ensures
        redaction(value, reference).text_field(PAYLOAD_KEY@) == Some(reference),
        is_marker(redaction(value, reference)),
{
    reveal_strlit("$payload");
    reveal_strlit("bytes");
    reveal_strlit("erased");
    reveal_with_fuel(crate::json::entry_from, 4);
    assert("$payload"@[0] == '$' && "bytes"@[0] == 'b' && "erased"@[0] == 'e');
    assert(PAYLOAD_KEY@ == "$payload"@);
    let entries = redaction(value, reference)->Object_0;
    assert(entries[0].0[0] == '$');
    assert(entries[1].0[0] == 'b');
}

/// After a redaction no unredacted reference is left, and a second one changes
/// nothing: the marker is the erasure's end state.
pub proof fn law_redaction_is_final(entries: Seq<(Seq<char>, JsonView)>, reference: Seq<char>)
    ensures
        !entries_unredacted(redacted_entries(entries, reference), reference),
        redacted_entries(redacted_entries(entries, reference), reference) == redacted_entries(
            entries,
            reference,
        ),
{
    let once = redacted_entries(entries, reference);
    assert forall|i: int| 0 <= i < once.len() implies !is_unredacted(
        (#[trigger] once[i]).1,
        reference,
    ) by {
        lemma_marker(entries[i].1, reference);
    }
    assert(redacted_entries(once, reference) =~= once);
}

proof fn lemma_absent_key(fields: Seq<(Seq<char>, JsonView)>, key: Seq<char>, from: int)
    requires
        0 <= from <= fields.len(),
        forall|i: int| 0 <= i < fields.len() ==> (#[trigger] fields[i]).0 != key,
    ensures
        crate::json::entry_from(fields, key, from).is_none(),
    decreases fields.len() - from,
{
    if from < fields.len() {
        lemma_absent_key(fields, key, from + 1);
    }
}

/// After a redaction a value that refers to the payload holds nothing but the
/// fields of a marker: no preview, nor any other field, is left beside it.
pub proof fn law_redaction_leaves_no_content(
    entries: Seq<(Seq<char>, JsonView)>,
    reference: Seq<char>,
    i: int,
    key: Seq<char>,
)
    requires
        0 <= i < entries.len(),
        redacted_entries(entries, reference)[i].1.text_field(PAYLOAD_KEY@) == Some(reference),
        !is_marker_field(key),
    ensures
        redacted_entries(entries, reference)[i].1.field(key).is_none(),
{
    law_redaction_is_final(entries, reference);
    let once = redacted_entries(entries, reference);
    assert(!is_unredacted(once[i].1, reference));
    lemma_absent_key(once[i].1->Object_0, key, 0);
}

/// Redacting one payload leaves every value that refers to another as it was.
pub proof fn law_redaction_touches_one_payload(
    entries: Seq<(Seq<char>, JsonView)>,
    reference: Seq<char>,
    i: int,
)
    requires
        0 <= i < entries.len(),
        entries[i].1.text_field(PAYLOAD_KEY@) != Some(reference),
    ensures
        redacted_entries(entries, reference)[i] == entries[i],
{
}

/// The canonical form is canonical, and an erasure admitted in any spelling of
/// a payload reference is admitted in the canonical one.
pub proof fn law_canonical_form_is_stable(subject: SubjectView)
    ensures
        subject.canonical().canonical() == subject.canonical(),
        subject.defect().is_none() ==> subject.canonical() == subject,
{
    if let SubjectView::Payload { reference } = subject {
        assert(lowered(lowered(reference)) =~= lowered(reference));
        if subject.defect().is_none() {
            let hash = strip_prefix(reference, "sha256/"@).unwrap();
            reveal_strlit("sha256/");
            assert forall|i: int| 0 <= i < reference.len() implies lowered(reference)[i]
                == #[trigger] reference[i] by {
                if i < 7 {
                    assert(reference[i] == reference.take(7)[i]);
                    assert("sha256/"@[i] == reference[i]);
                } else {
                    assert(hash[i - 7] == reference[i]);
                }
            }
            assert(lowered(reference) =~= reference);
        }
    }
}

/// What a caller sees of a subject is what it names.
pub proof fn law_a_subject_shows_its_fields(s: Subject)
    ensures
        s matches Subject::Trace { trace_id, tenant } ==> s@ == (SubjectView::Trace {
            trace_id: trace_id@,
            tenant: tenant@,
        }),
        s matches Subject::Span { trace_id, span_id, tenant } ==> s@ == (SubjectView::Span {
            trace_id: trace_id@,
            span_id: span_id@,
            tenant: tenant@,
        }),
        s matches Subject::Session { session_id, tenant } ==> s@ == (SubjectView::Session {
            session_id: session_id@,
            tenant: tenant@,
        }),
        s matches Subject::Payload { reference } ==> s@ == (SubjectView::Payload {
            reference: reference@,
        }),
        s matches Subject::Tenant { tenant } ==> s@ == (SubjectView::Tenant { tenant: tenant@ }),
{
}

/// What an erasure does to a span. A trace goes with every span of that trace
/// and tenant, a span with the one of that key, a session with every span of
/// that tenant whose resolved session it is, a tenant with every span it owns,
/// and every other span stays. A payload takes no span away: it redacts those
/// that hold it unredacted.
pub proof fn law_actions(span: Span, x: Seq<char>, y: Seq<char>, t: Seq<char>)
    ensures
        ({
            let trace = SubjectView::Trace { trace_id: x, tenant: t }.acts(&span);
            let one = SubjectView::Span { trace_id: x, span_id: y, tenant: t }.acts(&span);
            let session = SubjectView::Session { session_id: x, tenant: t }.acts(&span);
            let tenant = SubjectView::Tenant { tenant: t }.acts(&span);
            let payload = SubjectView::Payload { reference: x }.acts(&span);
            let owned = span.tenant@ == t;
            let in_session = span.facts.session is Some && span.facts.session->0@ == x;
            &&& owned && span.trace_id@ == x ==> trace is Drop
            &&& !(owned && span.trace_id@ == x) ==> trace is Keep
            &&& owned && span.trace_id@ == x && span.span_id@ == y ==> one is Drop
            &&& !(owned && span.trace_id@ == x && span.span_id@ == y) ==> one is Keep
            &&& owned && in_session ==> session is Drop
            &&& !(owned && in_session) ==> session is Keep
            &&& owned ==> tenant is Drop
            &&& !owned ==> tenant is Keep
            &&& holds_unredacted(&span, x) ==> payload is Redact
            &&& !holds_unredacted(&span, x) ==> payload is Keep
        }),
{
}

/// Whether a value refers to a payload and is more, or other, than the marker
/// of a redaction: it is not marked as erased, or holds a further field.
pub open spec fn still_refers(value: JsonView, reference: Seq<char>) -> bool {
    &&& value.field("$payload"@) == Some(JsonView::Text(reference))
    &&& value.field("erased"@) != Some(JsonView::Bool(true)) || exists|i: int|
        0 <= i < value->Object_0.len() && (#[trigger] value->Object_0[i]).0 != "$payload"@
            && value->Object_0[i].0 != "bytes"@ && value->Object_0[i].0 != "erased"@
}

proof fn lemma_still_refers(value: JsonView, reference: Seq<char>)
    ensures
        is_unredacted(value, reference) == still_refers(value, reference),
{
    assert(PAYLOAD_KEY@ == "$payload"@);
    if value is Object {
        let fields = value->Object_0;
        if value.true_field("erased"@) && !is_marker(value) {
            let i = choose|i: int|
                0 <= i < fields.len() && !is_marker_field((#[trigger] fields[i]).0);
            assert(fields[i].0 != "$payload"@);
        }
        if is_marker(value) && still_refers(value, reference) {
            let i = choose|i: int|
                0 <= i < fields.len() && (#[trigger] fields[i]).0 != "$payload"@ && fields[i].0
                    != "bytes"@ && fields[i].0 != "erased"@;
            assert(is_marker_field(fields[i].0));
        }
    }
}

/// A span holds a payload unredacted where one of its attributes, or one of the
/// attributes of its events, still refers to it, and nowhere else.
pub proof fn law_where_a_payload_is_held(span: Span, reference: Seq<char>)
    ensures
        holds_unredacted(&span, reference) <==> {
            ||| exists|i: int|
                0 <= i < span.attributes@.len() && still_refers(
                    (#[trigger] span.attributes@[i]).1@,
                    reference,
                )
            ||| exists|e: int, i: int|
                0 <= e < span.events@.len() && 0 <= i < span.events@[e].attributes@.len()
                    && still_refers((#[trigger] span.events@[e].attributes@[i]).1@, reference)
        },
{
    lemma_entries_refer(span.attributes@, reference);
    assert forall|e: int| 0 <= e < span.events@.len() implies entries_unredacted(
        entries_view((#[trigger] span.events@[e]).attributes@),
        reference,
    ) == exists|i: int|
        0 <= i < span.events@[e].attributes@.len() && still_refers(
            (#[trigger] span.events@[e].attributes@[i]).1@,
            reference,
        ) by {
        lemma_entries_refer(span.events@[e].attributes@, reference);
    }
    if exists|e: int, i: int|
        0 <= e < span.events@.len() && 0 <= i < span.events@[e].attributes@.len() && still_refers(
            (#[trigger] span.events@[e].attributes@[i]).1@,
            reference,
        ) {
        let (e, i) = choose|e: int, i: int|
            0 <= e < span.events@.len() && 0 <= i < span.events@[e].attributes@.len()
                && still_refers((#[trigger] span.events@[e].attributes@[i]).1@, reference);
        assert(entries_unredacted(entries_view(span.events@[e].attributes@), reference));
    }
    if exists|e: int|
        0 <= e < span.events@.len() && entries_unredacted(
            entries_view((#[trigger] span.events@[e]).attributes@),
            reference,
        ) {
        let e = choose|e: int|
            0 <= e < span.events@.len() && entries_unredacted(
                entries_view((#[trigger] span.events@[e]).attributes@),
                reference,
            );
        let i = choose|i: int|
            0 <= i < span.events@[e].attributes@.len() && still_refers(
                (#[trigger] span.events@[e].attributes@[i]).1@,
                reference,
            );
        assert(still_refers(span.events@[e].attributes@[i].1@, reference));
    }
}

proof fn lemma_entries_refer(entries: Seq<(String, Json)>, reference: Seq<char>)
    ensures
        entries_unredacted(entries_view(entries), reference) == exists|i: int|
            0 <= i < entries.len() && still_refers((#[trigger] entries[i]).1@, reference),
{
    let views = entries_view(entries);
    if entries_unredacted(views, reference) {
        let i = choose|i: int|
            0 <= i < views.len() && is_unredacted((#[trigger] views[i]).1, reference);
        lemma_still_refers(views[i].1, reference);
        assert(still_refers(entries[i].1@, reference));
    }
    if exists|i: int| 0 <= i < entries.len() && still_refers((#[trigger] entries[i]).1@, reference) {
        let i = choose|i: int|
            0 <= i < entries.len() && still_refers((#[trigger] entries[i]).1@, reference);
        lemma_still_refers(entries[i].1@, reference);
        assert(is_unredacted(views[i].1, reference));
    }
}

/// What a redaction makes of a value: where it still refers to the payload, the
/// reference, its size as it stood, and the mark; any other value stays.
pub proof fn law_a_redaction(entries: Seq<(Seq<char>, JsonView)>, reference: Seq<char>, i: int)
    requires
        0 <= i < entries.len(),
    ensures
        ({
            let value = entries[i].1;
            let after = redacted_entries(entries, reference);
            &&& after.len() == entries.len()
            &&& after[i].0 == entries[i].0
            &&& !still_refers(value, reference) ==> after[i].1 == value
            &&& still_refers(value, reference) ==> {
                &&& after[i].1.field("$payload"@) == Some(JsonView::Text(reference))
                &&& after[i].1.field("erased"@) == Some(JsonView::Bool(true))
                &&& after[i].1.field("bytes"@) == (if value.field("bytes"@) is Some {
                    value.field("bytes"@)
                } else {
                    Some(JsonView::Null)
                })
                &&& after[i].1->Object_0.len() == 3
            }
        }),
{
    let value = entries[i].1;
    lemma_still_refers(value, reference);
    lemma_marker(value, reference);
    assert(PAYLOAD_KEY@ == "$payload"@);
    reveal_strlit("$payload");
    reveal_strlit("bytes");
    reveal_strlit("erased");
    reveal_with_fuel(crate::json::entry_from, 4);
    let fields = redaction(value, reference)->Object_0;
    assert(fields[0].0[0] == '$');
    assert(fields[1].0[0] == 'b');
}

proof fn lemma_entry_refs(entries: Seq<(Seq<char>, JsonView)>, skip_erased: bool, r: Seq<char>)
    ensures
        entry_refs(entries, skip_erased).contains(r) == exists|i: int|
            0 <= i < entries.len() && value_ref((#[trigger] entries[i]).1, skip_erased) == Some(r),
    decreases entries.len(),
{
    if entries.len() > 0 {
        let init = entries.drop_last();
        let n = entries.len() - 1;
        lemma_entry_refs(init, skip_erased, r);
        let before = entry_refs(init, skip_erased);
        let after = entry_refs(entries, skip_erased);
        assert(entries[n] == entries.last());
        if before.contains(r) {
            let k = choose|k: int| 0 <= k < before.len() && before[k] == r;
            assert(after[k] == r);
            let i = choose|i: int|
                0 <= i < init.len() && value_ref((#[trigger] init[i]).1, skip_erased) == Some(r);
            assert(value_ref(entries[i].1, skip_erased) == Some(r));
        }
        if value_ref(entries.last().1, skip_erased) == Some(r) {
            assert(after[before.len() as int] == r);
            assert(value_ref(entries[n].1, skip_erased) == Some(r));
        }
        if after.contains(r) && !before.contains(r) {
            let k = choose|k: int| 0 <= k < after.len() && after[k] == r;
            if k < before.len() {
                assert(before[k] == r);
            }
            assert(value_ref(entries[n].1, skip_erased) == Some(r));
        }
        if exists|i: int|
            0 <= i < entries.len() && value_ref((#[trigger] entries[i]).1, skip_erased) == Some(r) {
            let i = choose|i: int|
                0 <= i < entries.len() && value_ref((#[trigger] entries[i]).1, skip_erased)
                    == Some(r);
            if i < n {
                assert(value_ref(init[i].1, skip_erased) == Some(r));
            }
        }
    }
}

/// The payload that an attribute refers to is among the references of its span,
/// and so is one that an attribute of an event refers to; a redaction marker
/// refers to nothing where markers are left out.
pub proof fn law_references_are_collected(span: Span, skip_erased: bool, i: int, r: Seq<char>)
    requires
        0 <= i < span.attributes@.len(),
        span.attributes@[i].1@.field("$payload"@) == Some(JsonView::Text(r)),
        skip_erased ==> still_refers(span.attributes@[i].1@, r),
    ensures
        span_refs(&span, skip_erased).contains(r),
{
    let views = entries_view(span.attributes@);
    assert(PAYLOAD_KEY@ == "$payload"@);
    lemma_still_refers(views[i].1, r);
    assert(value_ref(views[i].1, skip_erased) == Some(r));
    lemma_entry_refs(views, skip_erased, r);
    let own = entry_refs(views, skip_erased);
    let k = choose|k: int| 0 <= k < own.len() && own[k] == r;
    assert(span_refs(&span, skip_erased)[k] == r);
}

/// The payload that an attribute of an event refers to is among the references
/// of the span.
pub proof fn law_event_references_are_collected(
    span: Span,
    skip_erased: bool,
    e: int,
    i: int,
    r: Seq<char>,
)
    requires
        0 <= e < span.events@.len(),
        0 <= i < span.events@[e].attributes@.len(),
        span.events@[e].attributes@[i].1@.field("$payload"@) == Some(JsonView::Text(r)),
        skip_erased ==> still_refers(span.events@[e].attributes@[i].1@, r),
    ensures
        span_refs(&span, skip_erased).contains(r),
{
    lemma_event_refs(span.events@, skip_erased, e, i, r);
    let own = entry_refs(entries_view(span.attributes@), skip_erased);
    let rest = event_refs(span.events@, skip_erased);
    let k = choose|k: int| 0 <= k < rest.len() && rest[k] == r;
    assert(span_refs(&span, skip_erased)[own.len() + k] == r);
}

proof fn lemma_event_refs(events: Seq<Event>, skip_erased: bool, e: int, i: int, r: Seq<char>)
    requires
        0 <= e < events.len(),
        0 <= i < events[e].attributes@.len(),
        events[e].attributes@[i].1@.field("$payload"@) == Some(JsonView::Text(r)),
        skip_erased ==> still_refers(events[e].attributes@[i].1@, r),
    ensures
        event_refs(events, skip_erased).contains(r),
    decreases events.len(),
{
    let init = events.drop_last();
    let before = event_refs(init, skip_erased);
    let last = entry_refs(entries_view(events.last().attributes@), skip_erased);
    if e < init.len() {
        lemma_event_refs(init, skip_erased, e, i, r);
        let k = choose|k: int| 0 <= k < before.len() && before[k] == r;
        assert(event_refs(events, skip_erased)[k] == r);
    } else {
        let views = entries_view(events.last().attributes@);
        assert(PAYLOAD_KEY@ == "$payload"@);
        lemma_still_refers(views[i].1, r);
        assert(value_ref(views[i].1, skip_erased) == Some(r));
        lemma_entry_refs(views, skip_erased, r);
        let k = choose|k: int| 0 <= k < last.len() && last[k] == r;
        assert(event_refs(events, skip_erased)[before.len() + k] == r);
    }
}

/// Where nothing refers to a payload, neither an attribute nor an attribute of
/// an event, it is not among the references; where markers are left out, what
/// only markers name is not either.
pub proof fn law_no_reference_is_invented(span: Span, skip_erased: bool, r: Seq<char>)
    requires
        span_refs(&span, skip_erased).contains(r),
    ensures
        ({
            ||| exists|i: int|
                0 <= i < span.attributes@.len() && (#[trigger] span.attributes@[i]).1@.field(
                    "$payload"@,
                ) == Some(JsonView::Text(r)) && (skip_erased ==> still_refers(
                    span.attributes@[i].1@,
                    r,
                ))
            ||| exists|e: int, i: int|
                0 <= e < span.events@.len() && 0 <= i < span.events@[e].attributes@.len() && (
                #[trigger] span.events@[e].attributes@[i]).1@.field("$payload"@) == Some(
                    JsonView::Text(r),
                ) && (skip_erased ==> still_refers(span.events@[e].attributes@[i].1@, r))
        }),
{
    assert(PAYLOAD_KEY@ == "$payload"@);
    let own = entry_refs(entries_view(span.attributes@), skip_erased);
    let rest = event_refs(span.events@, skip_erased);
    let all = span_refs(&span, skip_erased);
    let k = choose|k: int| 0 <= k < all.len() && all[k] == r;
    if k < own.len() {
        assert(own[k] == r);
        let views = entries_view(span.attributes@);
        lemma_entry_refs(views, skip_erased, r);
        let i = choose|i: int|
            0 <= i < views.len() && value_ref((#[trigger] views[i]).1, skip_erased) == Some(r);
        lemma_still_refers(views[i].1, r);
        assert(span.attributes@[i].1@ == views[i].1);
    } else {
        assert(rest[k - own.len()] == r);
        lemma_event_refs_back(span.events@, skip_erased, r);
    }
}

proof fn lemma_event_refs_back(events: Seq<Event>, skip_erased: bool, r: Seq<char>)
    requires
        event_refs(events, skip_erased).contains(r),
    ensures
        exists|e: int, i: int|
            0 <= e < events.len() && 0 <= i < events[e].attributes@.len() && (
            #[trigger] events[e].attributes@[i]).1@.field("$payload"@) == Some(JsonView::Text(r))
                && (skip_erased ==> still_refers(events[e].attributes@[i].1@, r)),
    decreases events.len(),
{
    assert(PAYLOAD_KEY@ == "$payload"@);
    let all = event_refs(events, skip_erased);
    let k = choose|k: int| 0 <= k < all.len() && all[k] == r;
    let init = events.drop_last();
    let before = event_refs(init, skip_erased);
    let views = entries_view(events.last().attributes@);
    let last = entry_refs(views, skip_erased);
    if k < before.len() {
        assert(before[k] == r);
        lemma_event_refs_back(init, skip_erased, r);
        let (e, i) = choose|e: int, i: int|
            0 <= e < init.len() && 0 <= i < init[e].attributes@.len() && (
            #[trigger] init[e].attributes@[i]).1@.field("$payload"@) == Some(JsonView::Text(r))
                && (skip_erased ==> still_refers(init[e].attributes@[i].1@, r));
        assert(events[e].attributes@[i] == init[e].attributes@[i]);
    } else {
        assert(last[k - before.len()] == r);
        lemma_entry_refs(views, skip_erased, r);
        let i = choose|i: int|
            0 <= i < views.len() && value_ref((#[trigger] views[i]).1, skip_erased) == Some(r);
        lemma_still_refers(views[i].1, r);
        let e = events.len() - 1;
        assert(events[e].attributes@[i].1@ == views[i].1);
    }
}

/// What makes a subject inadmissible, and with which words: a tenant that is no
/// name, an identifier that is empty, a payload reference that is not `sha256/`
/// and 64 lowercase hex digits, the default tenant as a whole.
pub proof fn law_defects(x: Seq<char>, y: Seq<char>, t: Seq<char>)
    ensures
        ({
            let misnamed = "tenant must be lowercase [a-z0-9][a-z0-9._-], at most 64 bytes"@;
            let bad = t.len() > 0 && !is_tenant(t);
            let trace = SubjectView::Trace { trace_id: x, tenant: t }.defect();
            let one = SubjectView::Span { trace_id: x, span_id: y, tenant: t }.defect();
            let session = SubjectView::Session { session_id: x, tenant: t }.defect();
            let tenant = SubjectView::Tenant { tenant: t }.defect();
            let payload = SubjectView::Payload { reference: x }.defect();
            let hex = x.len() == 71 && x.take(7) == "sha256/"@ && forall|i: int|
                7 <= i < 71 ==> 48 <= (#[trigger] x[i]) as u32 <= 57 || 97 <= x[i] as u32 <= 102;
            &&& bad ==> trace == Some(misnamed) && one == Some(misnamed) && session == Some(
                misnamed,
            ) && tenant == Some(misnamed)
            &&& !bad && x.len() == 0 ==> trace == Some("trace_id is empty"@) && session == Some(
                "session_id is empty"@,
            )
            &&& !bad && (x.len() == 0 || y.len() == 0) ==> one == Some(
                "trace_id and span_id must both be non-empty"@,
            )
            &&& !bad && x.len() > 0 ==> trace is None && session is None
            &&& !bad && x.len() > 0 && y.len() > 0 ==> one is None
            &&& t.len() == 0 ==> tenant == Some("a tenant subject names a non-empty tenant"@)
            &&& !bad && t.len() > 0 ==> tenant is None
            &&& hex ==> payload is None
            &&& !hex ==> payload == Some(
                "a payload reference is sha256/<64 lowercase hex characters>"@,
            )
        }),
{
    reveal_strlit("sha256/");
    let hex = x.len() == 71 && x.take(7) == "sha256/"@ && forall|i: int|
        7 <= i < 71 ==> 48 <= (#[trigger] x[i]) as u32 <= 57 || 97 <= x[i] as u32 <= 102;
    if hex {
        let hash = x.skip(7);
        assert forall|i: int| 0 <= i < hash.len() implies is_hex(#[trigger] hash[i]) by {
            let c = x[i + 7];
            assert(hash[i] == c);
            assert(48 <= c as u32 <= 57 || 97 <= c as u32 <= 102);
            crate::text::law_letters_and_digits(c);
            assert('a' as u32 == 97 && 'f' as u32 == 102);
        }
    }
    if is_reference(x) {
        let hash = x.skip(7);
        assert forall|i: int| 7 <= i < 71 implies 48 <= (#[trigger] x[i]) as u32 <= 57 || 97
            <= x[i] as u32 <= 102 by {
            assert(is_hex(hash[i - 7]));
        }
    }
}

/// A subject is described by its kind and what it names, and by its tenant
/// where it has one of its own.
pub proof fn law_descriptions(x: Seq<char>, y: Seq<char>, t: Seq<char>)
    requires
        t.len() > 0,
    ensures
        ({
            let none = Seq::<char>::empty();
            let owner = " (tenant "@ + t + ")"@;
            &&& SubjectView::Trace { trace_id: x, tenant: none }.described() == "trace "@ + x
            &&& SubjectView::Trace { trace_id: x, tenant: t }.described() == "trace "@ + x + owner
            &&& SubjectView::Span { trace_id: x, span_id: y, tenant: none }.described() == "span "@
                + x + "/"@ + y
            &&& SubjectView::Span { trace_id: x, span_id: y, tenant: t }.described() == "span "@ + x
                + "/"@ + y + owner
            &&& SubjectView::Session { session_id: x, tenant: none }.described() == "session "@ + x
            &&& SubjectView::Session { session_id: x, tenant: t }.described() == "session "@ + x
                + owner
            &&& SubjectView::Payload { reference: x }.described() == "payload "@ + x
            &&& SubjectView::Tenant { tenant: t }.described() == "tenant "@ + t
        }),
{
    let none = Seq::<char>::empty();
    assert(("trace "@ + x) + none =~= "trace "@ + x);
    assert(("span "@ + x + "/"@ + y) + none =~= "span "@ + x + "/"@ + y);
    assert(("session "@ + x) + none =~= "session "@ + x);
}

/// A scan looks for what the subject names: a trace id, a session id, a payload
/// reference, a tenant; for a span its trace id, and its own id where that is
/// eight bytes or longer.
pub proof fn law_what_a_scan_looks_for(x: Seq<char>, y: Seq<char>, t: Seq<char>)
    ensures
        ({
            let trace = SubjectView::Trace { trace_id: x, tenant: t };
            let one = SubjectView::Span { trace_id: x, span_id: y, tenant: t };
            let session = SubjectView::Session { session_id: x, tenant: t };
            let payload = SubjectView::Payload { reference: x };
            let tenant = SubjectView::Tenant { tenant: t };
            let long = vstd::utf8::encode_utf8(y).len() >= 8;
            &&& trace.sought() == seq![x] && session.sought() == seq![x]
            &&& payload.sought() == seq![x] && tenant.sought() == seq![t]
            &&& long ==> one.sought() == seq![x, y]
            &&& !long ==> one.sought() == seq![x]
            &&& trace.scope() == Some(t) && one.scope() == Some(t) && session.scope() == Some(t)
            &&& tenant.scope() == Some(t) && payload.scope() is None
        }),
{
}

/// Canonical references are lowercase, and nothing but a reference changes.
pub proof fn law_canonical_references(s: SubjectView, x: Seq<char>)
    ensures
        ({
            let payload = SubjectView::Payload { reference: x };
            payload.canonical() == (SubjectView::Payload { reference: lowered(x) })
        }),
        !(s is Payload) ==> s.canonical() == s,
{
}

/// An earlier key, of a trace and a span, is one of the default tenant; a later
/// one names its tenant.
pub proof fn law_recorded_keys(t: String, x: String, y: String)
    ensures
        RecordedKey::Pair((x, y)).triple() == (Seq::<char>::empty(), x@, y@),
        RecordedKey::Triple((t, x, y)).triple() == (t@, x@, y@),
{
}

} // verus!
