//! Spans: the records of the store, with what the semantic conventions read
//! off their attributes.

use vstd::prelude::*;

use crate::json::Json;
use crate::text::{chars_of, digit_char, is_digit, is_lower, opt_view};

verus! {

/// The key under which an attribute value holds a payload reference.
pub const PAYLOAD_KEY: &'static str = "$payload";

/// The attribute key that grouped a span into its session, with its place in
/// the recognized order (smaller is preferred).
#[derive(Debug)]
pub struct SessionKey {
    pub name: String,
    pub rank: usize,
}

/// What the semantic conventions read off a span's attributes.
#[derive(Debug)]
pub struct Facts {
    /// The session the span belongs to.
    pub session: Option<String>,
    /// The attribute that said so.
    pub session_key: Option<SessionKey>,
    pub model: Option<String>,
    pub provider: Option<String>,
    /// Whether the span is an LLM call.
    pub is_llm: bool,
    pub prompt_tokens: Option<u64>,
    pub completion_tokens: Option<u64>,
    /// The explicit total, else prompt and completion together.
    pub total_tokens: u64,
    /// The size of the context the call was made with, where usage is
    /// reported under a convention whose arithmetic is known.
    pub context_tokens: Option<u64>,
    /// The reported cost, as the bits it was recorded in.
    pub cost_bits: Option<u64>,
    /// A declared goal.
    pub goal: Option<String>,
    /// A declared outcome.
    pub outcome: Option<String>,
}

impl Facts {
    /// Nothing read.
    pub fn none() -> (r: Facts)
        ensures
            r.session.is_none() && r.session_key.is_none(),
            r.model.is_none() && r.provider.is_none(),
            !r.is_llm,
            r.prompt_tokens.is_none() && r.completion_tokens.is_none(),
            r.total_tokens == 0,
            r.context_tokens.is_none() && r.cost_bits.is_none(),
            r.goal.is_none() && r.outcome.is_none(),
    {
        Facts {
            session: None,
            session_key: None,
            model: None,
            provider: None,
            is_llm: false,
            prompt_tokens: None,
            completion_tokens: None,
            total_tokens: 0,
            context_tokens: None,
            cost_bits: None,
            goal: None,
            outcome: None,
        }
    }
}

/// An event inside a span.
#[derive(Debug)]
pub struct Event {
    pub name: String,
    pub timestamp_ns: u64,
    pub attributes: Vec<(String, Json)>,
}

/// A link to another span.
#[derive(Debug)]
pub struct Link {
    pub trace_id: String,
    pub span_id: String,
    pub attributes: Vec<(String, Json)>,
}

/// A span. Its primary key is the tenant, the trace and the span id.
#[derive(Debug)]
pub struct Span {
    pub trace_id: String,
    pub span_id: String,
    pub parent_span_id: Option<String>,
    /// The owner; empty is the default tenant.
    pub tenant: String,
    pub name: String,
    pub service: String,
    pub status: String,
    pub start_time_ns: u64,
    pub end_time_ns: u64,
    pub attributes: Vec<(String, Json)>,
    pub events: Vec<Event>,
    pub links: Vec<Link>,
    pub facts: Facts,
}

/// A primary key: tenant, trace and span.
pub type KeyView = (Seq<char>, Seq<char>, Seq<char>);

impl Span {
    pub open spec fn primary_key(&self) -> KeyView {
        (self.tenant@, self.trace_id@, self.span_id@)
    }

    pub open spec fn in_session(&self, session: Seq<char>) -> bool {
        opt_view(self.facts.session) == Some(session)
    }
}

/// The spans behind references.
pub open spec fn spans_of(members: Seq<&Span>) -> Seq<Span> {
    Seq::new(members.len(), |i: int| *members[i])
}

// -------------------------------------------------------------------- tenants

pub open spec fn tenant_start(c: char) -> bool {
    is_lower(c) || is_digit(c)
}

pub open spec fn tenant_char(c: char) -> bool {
    tenant_start(c) || c == '.' || c == '_' || c == '-'
}

/// A tenant's name: `[a-z0-9][a-z0-9._-]*`, at most 64 bytes.
pub open spec fn is_tenant(tenant: Seq<char>) -> bool {
    &&& 0 < tenant.len() <= 64
    &&& tenant_start(tenant[0])
    &&& forall|i: int| 0 <= i < tenant.len() ==> tenant_char(#[trigger] tenant[i])
}

/// Whether a text may name a tenant.
pub fn valid_tenant(tenant: &str) -> (r: bool)
    ensures
        r == is_tenant(tenant@),
{
    let chars = chars_of(tenant);
    if chars.len() == 0 || chars.len() > 64 {
        return false;
    }
    if !(('a' <= chars[0] && chars[0] <= 'z') || digit_char(chars[0])) {
        return false;
    }
    let mut i: usize = 0;
    while i < chars.len()
        invariant
            i <= chars@.len(),
            chars@ == tenant@,
            forall|k: int| 0 <= k < i ==> tenant_char(#[trigger] tenant@[k]),
        decreases chars@.len() - i,
    {
        let c = chars[i];
        if !(('a' <= c && c <= 'z') || digit_char(c) || c == '.' || c == '_' || c == '-') {
            assert(!tenant_char(tenant@[i as int]));
            return false;
        }
        i += 1;
    }
    true
}

// ----------------------------------------------------------------------- laws

/// A tenant is named by one to 64 lowercase letters, digits, dots, underscores
/// and dashes, the first of them a letter or a digit.
pub proof fn law_tenant_names(tenant: Seq<char>, c: char)
    ensures
        is_tenant(tenant) ==> 0 < tenant.len() <= 64,
        is_tenant(Seq::<char>::empty().push(c)) <==> 97 <= c as u32 <= 122 || 48 <= c as u32 <= 57,
        is_tenant(tenant) && tenant.len() < 64 ==> (is_tenant(tenant.push(c)) <==> 97 <= c as u32
            <= 122 || 48 <= c as u32 <= 57 || c as u32 == 46 || c as u32 == 95 || c as u32 == 45),
        tenant.len() > 1 && is_tenant(tenant) ==> is_tenant(tenant.drop_last()),
        tenant.len() == 64 ==> !is_tenant(tenant.push(c)),
{
    let one = Seq::<char>::empty().push(c);
    assert(one[0] == c);
    let longer = tenant.push(c);
    if is_tenant(tenant) {
        assert forall|i: int| 0 <= i < tenant.len() implies tenant_char(#[trigger] longer[i]) by {
            assert(longer[i] == tenant[i]);
        }
        assert(longer[tenant.len() as int] == c);
        assert(longer[0] == tenant[0]);
        if tenant.len() > 1 {
            let init = tenant.drop_last();
            assert forall|i: int| 0 <= i < init.len() implies tenant_char(#[trigger] init[i]) by {
                assert(init[i] == tenant[i]);
            }
        }
    }
}

/// A span is of a session where that is the one it resolved to.
pub proof fn law_a_spans_session(span: Span, session: Seq<char>)
    ensures
        span.in_session(session) <==> span.facts.session is Some && span.facts.session->0@
            == session,
        span.primary_key() == (span.tenant@, span.trace_id@, span.span_id@),
{
}

} // verus!
