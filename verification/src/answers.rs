//! What the API answers: a status and a JSON body for each outcome.
//!
//! The entries of an object are in no significant order.

use vstd::prelude::*;

use crate::args::{durability_name, Durability};
use crate::filter::{cursor_opt, cursor_token, SpanCursor};
use crate::json::{
    array, entries_view, entry, items_view, object, object1, single, text_json, texts_json,
    texts_view, uint_json, uint_view, Json, JsonView,
};
use crate::queries::joined;
use crate::span::Span;
use crate::text::{copy, dec, decimal, same, texts};

verus! {

/// A status and a JSON body.
#[derive(Debug)]
pub struct Answer {
    pub status: u16,
    pub body: Json,
}

pub struct AnswerView {
    pub status: u16,
    pub body: JsonView,
}

impl View for Answer {
    type V = AnswerView;

    open spec fn view(&self) -> AnswerView {
        AnswerView { status: self.status, body: self.body@ }
    }
}

/// An error.
pub open spec fn failure(status: u16, message: Seq<char>) -> AnswerView {
    AnswerView { status, body: object1("error"@, JsonView::Text(message)) }
}

pub fn fail(status: u16, message: &str) -> (r: Answer)
    ensures
        r@ == failure(status, message@),
{
    Answer { status, body: single("error", text_json(message)) }
}

/// An error with advice on what to do next.
pub open spec fn advice(status: u16, error: Seq<char>, next: Seq<char>) -> AnswerView {
    AnswerView {
        status,
        body: JsonView::Object(
            seq![("error"@, JsonView::Text(error)), ("next"@, JsonView::Text(next))],
        ),
    }
}

pub fn advise(status: u16, error: &str, next: &str) -> (r: Answer)
    ensures
        r@ == advice(status, error@, next@),
{
    let mut entries: Vec<(String, Json)> = Vec::new();
    entries.push(entry("error", text_json(error)));
    entries.push(entry("next", text_json(next)));
    assert(entries_view(entries@) =~= advice(status, error@, next@).body->Object_0);
    Answer { status, body: object(entries) }
}

/// A success with one entry.
pub open spec fn success(key: Seq<char>, value: JsonView) -> AnswerView {
    AnswerView { status: 200, body: object1(key, value) }
}

fn succeed(key: &str, value: Json) -> (r: Answer)
    ensures
        r@ == success(key@, value@),
{
    Answer { status: 200, body: single(key, value) }
}

// --------------------------------------------------------------------- errors

/// What the engine says when it does not do what it was asked.
#[derive(Debug)]
pub enum EngineError {
    /// The request itself is at fault, for the reason given.
    Invalid(String),
    /// The search matches more than the engine is willing to collect.
    TooBroad(String),
    /// What was named does not exist.
    NotFound(String),
    /// Anything else, such as a failing disk.
    Other(String),
}

pub enum ErrorView {
    Invalid(Seq<char>),
    TooBroad(Seq<char>),
    NotFound(Seq<char>),
    Other(Seq<char>),
}

impl View for EngineError {
    type V = ErrorView;

    open spec fn view(&self) -> ErrorView {
        match self {
            EngineError::Invalid(m) => ErrorView::Invalid(m@),
            EngineError::TooBroad(m) => ErrorView::TooBroad(m@),
            EngineError::NotFound(m) => ErrorView::NotFound(m@),
            EngineError::Other(m) => ErrorView::Other(m@),
        }
    }
}

pub open spec fn error_text(e: ErrorView) -> Seq<char> {
    match e {
        ErrorView::Invalid(m) => m,
        ErrorView::TooBroad(m) => m,
        ErrorView::NotFound(m) => m,
        ErrorView::Other(m) => m,
    }
}

impl EngineError {
    fn text(&self) -> (r: &str)
        ensures
            r@ == error_text(self@),
    {
        match self {
            EngineError::Invalid(m) => m.as_str(),
            EngineError::TooBroad(m) => m.as_str(),
            EngineError::NotFound(m) => m.as_str(),
            EngineError::Other(m) => m.as_str(),
        }
    }
}

/// An error of the engine that the client may retry.
pub open spec fn unavailable(e: ErrorView) -> AnswerView {
    failure(503, error_text(e))
}

fn retry_later(e: &EngineError) -> (r: Answer)
    ensures
        r@ == unavailable(e@),
{
    fail(503, e.text())
}

/// What an operation's outcome says.
pub open spec fn result_view<T: View>(r: Result<T, EngineError>) -> Result<T::V, ErrorView> {
    match r {
        Ok(value) => Ok(value@),
        Err(e) => Err(e@),
    }
}

// --------------------------------------------------------------------- ingest

/// How an ingest body is laid out.
#[derive(Clone, Copy, Debug, PartialEq, Eq, Structural)]
pub enum SpanShape {
    /// A bare array of spans.
    Array,
    /// An object that holds the array under `spans`.
    Envelope,
}

/// The first byte from position `i` on that is not white space.
pub open spec fn first_mark(body: Seq<u8>, i: int) -> Option<u8>
    decreases body.len() - i,
{
    if i < 0 || i >= body.len() {
        None
    } else if crate::jsonl::is_blank_byte(body[i]) {
        first_mark(body, i + 1)
    } else {
        Some(body[i])
    }
}

/// The layout that a body's first byte announces.
pub open spec fn shape_of(body: Seq<u8>) -> Option<SpanShape> {
    match first_mark(body, 0) {
        Some(b) => if b == 91 {
            Some(SpanShape::Array)
        } else if b == 123 {
            Some(SpanShape::Envelope)
        } else {
            None
        },
        None => None,
    }
}

/// Tells the layout of an ingest body by its first byte, so that it is read
/// only once.
pub fn span_shape(body: &[u8]) -> (r: Option<SpanShape>)
    ensures
        r == shape_of(body@),
{
    let n: usize = body.len();
    let mut i: usize = 0;
    while i < n
        invariant
            i <= n == body@.len(),
            first_mark(body@, i as int) == first_mark(body@, 0),
        decreases n - i,
    {
        let b: u8 = body[i];
        if !(b == 32 || b == 9 || b == 10 || b == 12 || b == 13) {
            if b == 91 {
                return Some(SpanShape::Array);
            }
            if b == 123 {
                return Some(SpanShape::Envelope);
            }
            return None;
        }
        i += 1;
    }
    None
}

/// What a body of no known layout is told.
pub fn shapeless() -> (r: Answer)
    ensures
        r@ == failure(400, "body must be an array or {spans: [...]}"@),
{
    fail(400, "body must be an array or {spans: [...]}")
}

/// Whether both halves of a span's key are there.
pub open spec fn is_keyed(span: Span) -> bool {
    span.trace_id@.len() > 0 && span.span_id@.len() > 0
}

pub open spec fn all_keyed(spans: Seq<Span>) -> bool {
    forall|i: int| 0 <= i < spans.len() ==> is_keyed(#[trigger] spans[i])
}

/// The first span from `i` on without a whole key.
pub open spec fn first_unkeyed(spans: Seq<Span>, i: int) -> int
    decreases spans.len() - i,
{
    if i < 0 || i >= spans.len() {
        spans.len() as int
    } else if !is_keyed(spans[i]) {
        i
    } else {
        first_unkeyed(spans, i + 1)
    }
}

/// What is wrong with a span without a whole key.
pub open spec fn unkeyed(spans: Seq<Span>, i: int) -> Seq<char> {
    if spans[i].trace_id@.len() == 0 {
        "span "@ + dec(i as nat) + ": trace_id is empty"@
    } else {
        "span "@ + dec(i as nat) + ": span_id is empty"@
    }
}

fn numbered(index: usize, problem: &str) -> (r: String)
    ensures
        r@ == "span "@ + dec(index as nat) + problem@,
{
    let mut r = copy("span ");
    let digits = decimal(index as u64);
    r.push_str(digits.as_str());
    r.push_str(problem);
    r
}

fn empty_text(text: &str) -> (r: bool)
    ensures
        r == (text@.len() == 0),
{
    proof {
        reveal_strlit("");
        assert(text@.len() == 0 ==> text@ =~= ""@);
    }
    same(text, "")
}

/// Refuses a batch that holds a span without a whole key: such spans would
/// silently overwrite one another.
pub fn batch_defect(spans: &Vec<Span>) -> (r: Option<Answer>)
    ensures
        match r {
            None => all_keyed(spans@),
            Some(answer) => !all_keyed(spans@) && first_unkeyed(spans@, 0) < spans@.len()
                && answer@ == failure(400, unkeyed(spans@, first_unkeyed(spans@, 0))),
        },
{
    let mut i: usize = 0;
    while i < spans.len()
        invariant
            i <= spans@.len(),
            forall|k: int| 0 <= k < i ==> is_keyed(#[trigger] spans@[k]),
            first_unkeyed(spans@, i as int) == first_unkeyed(spans@, 0),
        decreases spans@.len() - i,
    {
        if empty_text(spans[i].trace_id.as_str()) {
            assert(!is_keyed(spans@[i as int]));
            let message = numbered(i, ": trace_id is empty");
            return Some(fail(400, message.as_str()));
        }
        if empty_text(spans[i].span_id.as_str()) {
            assert(!is_keyed(spans@[i as int]));
            let message = numbered(i, ": span_id is empty");
            return Some(fail(400, message.as_str()));
        }
        i += 1;
    }
    None
}

/// What an accepted batch is told.
pub open spec fn accepted(count: nat, durability: Durability) -> AnswerView {
    AnswerView {
        status: 200,
        body: JsonView::Object(
            seq![
                ("accepted"@, uint_view(count)),
                ("durability"@, JsonView::Text(durability_name(durability))),
            ],
        ),
    }
}

/// Answers a native ingest.
pub fn ingested(outcome: Result<(), EngineError>, count: u64, durability: Durability) -> (r: Answer)
    ensures
        r@ == (match outcome {
            Ok(_) => accepted(count as nat, durability),
            Err(e) => unavailable(e@),
        }),
{
    match outcome {
        Ok(_) => {
            let mut entries: Vec<(String, Json)> = Vec::new();
            entries.push(entry("accepted", uint_json(count)));
            entries.push(entry("durability", text_json(durability.as_str())));
            assert(entries_view(entries@) =~= accepted(count as nat, durability).body->Object_0);
            Answer { status: 200, body: object(entries) }
        },
        Err(e) => retry_later(&e),
    }
}

/// What an OTLP ingest is answered with.
#[derive(Debug)]
pub enum OtlpAnswer {
    /// An empty response in the protobuf encoding.
    Protobuf,
    Json(Answer),
}

/// Answers an OTLP ingest in the encoding of its request.
pub fn otlp_ingested(outcome: Result<(), EngineError>, protobuf: bool) -> (r: OtlpAnswer)
    ensures
        match outcome {
            Ok(_) => if protobuf {
                r is Protobuf
            } else {
                r matches OtlpAnswer::Json(answer) && answer@ == success(
                    "partialSuccess"@,
                    JsonView::Object(seq![]),
                )
            },
            Err(e) => r matches OtlpAnswer::Json(answer) && answer@ == unavailable(e@),
        },
{
    match outcome {
        Ok(_) => {
            if protobuf {
                OtlpAnswer::Protobuf
            } else {
                let none: Vec<(String, Json)> = Vec::new();
                assert(entries_view(none@) =~= Seq::<(Seq<char>, JsonView)>::empty());
                OtlpAnswer::Json(succeed("partialSuccess", object(none)))
            }
        },
        Err(e) => OtlpAnswer::Json(retry_later(&e)),
    }
}

// ----------------------------------------------------------------- generations

/// Answers a flush.
pub fn flushed(outcome: Result<(), EngineError>) -> (r: Answer)
    ensures
        r@ == (match outcome {
            Ok(_) => success("flushed"@, JsonView::Bool(true)),
            Err(e) => unavailable(e@),
        }),
{
    match outcome {
        Ok(_) => succeed("flushed", Json::Bool(true)),
        Err(e) => retry_later(&e),
    }
}

/// Answers a checkpoint with the generation it published.
pub fn checkpointed(outcome: Result<u64, EngineError>) -> (r: Answer)
    ensures
        r@ == (match outcome {
            Ok(generation) => success("generation"@, uint_view(generation as nat)),
            Err(e) => unavailable(e@),
        }),
{
    match outcome {
        Ok(generation) => succeed("generation", uint_json(generation)),
        Err(e) => retry_later(&e),
    }
}

pub open spec fn checked(generation: u64, problems: Seq<Seq<char>>) -> AnswerView {
    AnswerView {
        status: 200,
        body: JsonView::Object(
            seq![
                ("generation"@, uint_view(generation as nat)),
                ("intact"@, JsonView::Bool(problems.len() == 0)),
                ("problems"@, texts_view(problems)),
            ],
        ),
    }
}

/// Answers a check of the live generation with the problems it found.
pub fn verified(generation: u64, outcome: Result<Vec<String>, EngineError>) -> (r: Answer)
    ensures
        r@ == (match outcome {
            Ok(problems) => checked(generation, texts(problems@)),
            Err(e) => unavailable(e@),
        }),
{
    match outcome {
        Ok(problems) => {
            let mut entries: Vec<(String, Json)> = Vec::new();
            entries.push(entry("generation", uint_json(generation)));
            entries.push(entry("intact", Json::Bool(problems.len() == 0)));
            entries.push(entry("problems", texts_json(&problems)));
            assert(entries_view(entries@) =~= checked(
                generation,
                texts(problems@),
            ).body->Object_0);
            Answer { status: 200, body: object(entries) }
        },
        Err(e) => retry_later(&e),
    }
}

pub open spec fn freed(label: Seq<char>) -> AnswerView {
    AnswerView {
        status: 200,
        body: JsonView::Object(
            seq![("released"@, JsonView::Bool(true)), ("backup"@, JsonView::Text(label))],
        ),
    }
}

/// Answers the release of a backup.
pub fn released(label: &str, outcome: Result<(), EngineError>) -> (r: Answer)
    ensures
        r@ == (match outcome {
            Ok(_) => freed(label@),
            Err(e) => unavailable(e@),
        }),
{
    match outcome {
        Ok(_) => {
            let mut entries: Vec<(String, Json)> = Vec::new();
            entries.push(entry("released", Json::Bool(true)));
            entries.push(entry("backup", text_json(label)));
            assert(entries_view(entries@) =~= freed(label@).body->Object_0);
            Answer { status: 200, body: object(entries) }
        },
        Err(e) => retry_later(&e),
    }
}

pub open spec fn backed_up(label: Seq<char>, generation: u64, path: Seq<char>) -> AnswerView {
    AnswerView {
        status: 201,
        body: JsonView::Object(
            seq![
                ("backup"@, JsonView::Text(label)),
                ("generation"@, uint_view(generation as nat)),
                ("path"@, JsonView::Text(path)),
                ("verified"@, JsonView::Bool(true)),
            ],
        ),
    }
}

pub open spec fn broken_backup(problems: Seq<Seq<char>>) -> AnswerView {
    AnswerView {
        status: 500,
        body: JsonView::Object(
            seq![
                ("error"@, JsonView::Text("the pinned backup does not verify"@)),
                ("problems"@, texts_view(problems)),
            ],
        ),
    }
}

/// What came of pinning a backup: its generation, and what checking it found.
#[derive(Debug)]
pub struct Pinned {
    pub generation: u64,
    pub check: Result<Vec<String>, EngineError>,
}

/// Answers the pinning of a backup. A backup is reported only once it has been
/// checked; a label that cannot be pinned is a conflict.
pub fn pinned(label: &str, path: &str, outcome: Result<Pinned, EngineError>) -> (r: Answer)
    ensures
        r@ == (match outcome {
            Ok(pin) => match pin.check {
                Ok(problems) => if problems@.len() == 0 {
                    backed_up(label@, pin.generation, path@)
                } else {
                    broken_backup(texts(problems@))
                },
                Err(e) => unavailable(e@),
            },
            Err(e) => failure(409, error_text(e@)),
        }),
{
    match outcome {
        Ok(pin) => match pin.check {
            Ok(problems) => {
                let mut entries: Vec<(String, Json)> = Vec::new();
                if problems.len() == 0 {
                    entries.push(entry("backup", text_json(label)));
                    entries.push(entry("generation", uint_json(pin.generation)));
                    entries.push(entry("path", text_json(path)));
                    entries.push(entry("verified", Json::Bool(true)));
                    assert(entries_view(entries@) =~= backed_up(
                        label@,
                        pin.generation,
                        path@,
                    ).body->Object_0);
                    Answer { status: 201, body: object(entries) }
                } else {
                    entries.push(entry("error", text_json("the pinned backup does not verify")));
                    entries.push(entry("problems", texts_json(&problems)));
                    assert(entries_view(entries@) =~= broken_backup(
                        texts(problems@),
                    ).body->Object_0);
                    Answer { status: 500, body: object(entries) }
                }
            },
            Err(e) => retry_later(&e),
        },
        Err(e) => fail(409, e.text()),
    }
}

// -------------------------------------------------------------------- erasures

/// Answers an erasure whose subject does not parse.
pub fn subject_refused(error: &str) -> (r: Answer)
    ensures
        r@ == failure(400, "subject does not parse: "@ + error@),
{
    let message = joined("subject does not parse: ", error);
    fail(400, message.as_str())
}

/// The engine's document, or what its error calls for: a request at fault is
/// refused, anything else is worth a retry.
pub open spec fn document_or_refusal(outcome: Result<JsonView, ErrorView>) -> AnswerView {
    match outcome {
        Ok(document) => AnswerView { status: 200, body: document },
        Err(ErrorView::Invalid(reason)) => failure(400, reason),
        Err(e) => unavailable(e),
    }
}

/// Answers an erasure with how it settled.
pub fn erased(outcome: Result<Json, EngineError>) -> (r: Answer)
    ensures
        r@ == document_or_refusal(result_view(outcome)),
{
    match outcome {
        Ok(body) => Answer { status: 200, body },
        Err(EngineError::Invalid(reason)) => fail(400, reason.as_str()),
        Err(e) => retry_later(&e),
    }
}

/// Answers with one document under a key.
pub open spec fn keyed_or_retry(key: Seq<char>, outcome: Result<JsonView, ErrorView>) -> AnswerView {
    match outcome {
        Ok(document) => success(key, document),
        Err(e) => unavailable(e),
    }
}

/// Answers with one document under a key: the recorded erasures, sessions,
/// annotations, or spans of a listing.
pub fn listed(key: &str, outcome: Result<Json, EngineError>) -> (r: Answer)
    ensures
        r@ == keyed_or_retry(key@, result_view(outcome)),
{
    match outcome {
        Ok(document) => succeed(key, document),
        Err(e) => retry_later(&e),
    }
}

/// Answers with the receipt of an erasure.
pub fn erasure_verified(outcome: Result<Json, EngineError>) -> (r: Answer)
    ensures
        r@ == (match result_view(outcome) {
            Ok(receipt) => AnswerView { status: 200, body: receipt },
            Err(ErrorView::NotFound(message)) => failure(404, message),
            Err(e) => unavailable(e),
        }),
{
    match outcome {
        Ok(body) => Answer { status: 200, body },
        Err(EngineError::NotFound(message)) => fail(404, message.as_str()),
        Err(e) => retry_later(&e),
    }
}

pub open spec fn no_erasure(id: u64) -> Seq<char> {
    "no erasure "@ + dec(id as nat) + " is recorded in the tombstone log"@
}

/// Answers with the state of an erasure.
pub fn erasure_status(id: u64, outcome: Result<Option<Json>, EngineError>) -> (r: Answer)
    ensures
        match outcome {
            Ok(Some(status)) => r@ == (AnswerView { status: 200, body: status@ }),
            Ok(None) => r@ == failure(404, no_erasure(id)),
            Err(e) => r@ == unavailable(e@),
        },
{
    match outcome {
        Ok(Some(body)) => Answer { status: 200, body },
        Ok(None) => {
            let mut message = copy("no erasure ");
            let digits = decimal(id);
            message.push_str(digits.as_str());
            message.push_str(" is recorded in the tombstone log");
            fail(404, message.as_str())
        },
        Err(e) => retry_later(&e),
    }
}

// --------------------------------------------------------------------- searches

/// A page of spans, and what the search touched.
#[derive(Debug)]
pub struct Page {
    pub spans: Vec<Json>,
    /// Where the last span of the page stands.
    pub last: Option<SpanCursor>,
    pub elapsed_ns: u64,
    pub segments_examined: u64,
    pub segments_pruned: u64,
}

/// The cursor of the next page. There is one only where the page came back
/// full: a short page has reached the end already.
pub open spec fn next_cursor(limit: Option<usize>, page: Page) -> JsonView {
    match limit {
        Some(limit) => if page.spans@.len() >= limit {
            match cursor_opt(page.last) {
                Some(cursor) => JsonView::Text(cursor_token(cursor)),
                None => JsonView::Null,
            }
        } else {
            JsonView::Null
        },
        None => JsonView::Null,
    }
}

pub open spec fn cost_view(page: Page) -> JsonView {
    JsonView::Object(
        seq![
            ("elapsed_ns"@, uint_view(page.elapsed_ns as nat)),
            ("segments_examined"@, uint_view(page.segments_examined as nat)),
            ("segments_pruned"@, uint_view(page.segments_pruned as nat)),
        ],
    )
}

pub open spec fn paged(limit: Option<usize>, page: Page) -> AnswerView {
    AnswerView {
        status: 200,
        body: JsonView::Object(
            seq![
                ("spans"@, JsonView::Array(items_view(page.spans@))),
                ("next_cursor"@, next_cursor(limit, page)),
                ("cost"@, cost_view(page)),
            ],
        ),
    }
}

fn offer_cursor(limit: Option<usize>, page: &Page) -> (r: Json)
    ensures
        r@ == next_cursor(limit, *page),
{
    if let Some(limit) = limit {
        if page.spans.len() >= limit {
            if let Some(cursor) = &page.last {
                return Json::Text(cursor.to_token());
            }
        }
    }
    Json::Null
}

fn cost_json(page: &Page) -> (r: Json)
    ensures
        r@ == cost_view(*page),
{
    let mut entries: Vec<(String, Json)> = Vec::new();
    entries.push(entry("elapsed_ns", uint_json(page.elapsed_ns)));
    entries.push(entry("segments_examined", uint_json(page.segments_examined)));
    entries.push(entry("segments_pruned", uint_json(page.segments_pruned)));
    assert(entries_view(entries@) =~= cost_view(*page)->Object_0);
    object(entries)
}

/// Answers a span search. A search that is too broad is the caller's to
/// narrow; retrying it cannot help.
pub fn searched(limit: Option<usize>, outcome: Result<Page, EngineError>) -> (r: Answer)
    ensures
        r@ == (match outcome {
            Ok(page) => paged(limit, page),
            Err(e) => match e@ {
                ErrorView::TooBroad(message) => failure(400, message),
                other => unavailable(other),
            },
        }),
{
    match outcome {
        Ok(page) => {
            let next = offer_cursor(limit, &page);
            let cost = cost_json(&page);
            let ghost whole = page;
            let mut entries: Vec<(String, Json)> = Vec::new();
            entries.push(entry("spans", array(page.spans)));
            entries.push(entry("next_cursor", next));
            entries.push(entry("cost", cost));
            assert(entries_view(entries@) =~= paged(limit, whole).body->Object_0);
            Answer { status: 200, body: object(entries) }
        },
        Err(EngineError::TooBroad(message)) => fail(400, message.as_str()),
        Err(e) => retry_later(&e),
    }
}

/// A trace as it was found.
#[derive(Debug)]
pub struct FoundTrace {
    pub spans: Vec<Json>,
    pub annotations: Json,
}

pub open spec fn traced(id: Seq<char>, found: FoundTrace) -> AnswerView {
    AnswerView {
        status: 200,
        body: JsonView::Object(
            seq![
                ("trace_id"@, JsonView::Text(id)),
                ("spans"@, JsonView::Array(items_view(found.spans@))),
                ("annotations"@, found.annotations@),
            ],
        ),
    }
}

/// Answers with a trace; one without spans does not exist.
pub fn trace_answer(id: &str, outcome: Result<FoundTrace, EngineError>) -> (r: Answer)
    ensures
        r@ == (match outcome {
            Ok(found) => if found.spans@.len() == 0 {
                failure(404, "trace not found"@)
            } else {
                traced(id@, found)
            },
            Err(e) => unavailable(e@),
        }),
{
    match outcome {
        Ok(found) => {
            if found.spans.len() == 0 {
                return fail(404, "trace not found");
            }
            let ghost whole = found;
            let mut entries: Vec<(String, Json)> = Vec::new();
            entries.push(entry("trace_id", text_json(id)));
            entries.push(entry("spans", array(found.spans)));
            entries.push(entry("annotations", found.annotations));
            assert(entries_view(entries@) =~= traced(id@, whole).body->Object_0);
            Answer { status: 200, body: object(entries) }
        },
        Err(e) => retry_later(&e),
    }
}

/// Answers with a session, where there is one.
pub fn session_answer(outcome: Result<Option<Json>, EngineError>) -> (r: Answer)
    ensures
        match outcome {
            Ok(Some(detail)) => r@ == (AnswerView { status: 200, body: detail@ }),
            Ok(None) => r@ == failure(404, "session not found"@),
            Err(e) => r@ == unavailable(e@),
        },
{
    match outcome {
        Ok(Some(body)) => Answer { status: 200, body },
        Ok(None) => fail(404, "session not found"),
        Err(e) => retry_later(&e),
    }
}

/// Answers the recording of an annotation.
pub fn annotated(outcome: Result<(), EngineError>) -> (r: Answer)
    ensures
        match outcome {
            Ok(_) => r@ == success("recorded"@, JsonView::Bool(true)),
            Err(e) => r@ == (match e@ {
                ErrorView::Invalid(reason) => failure(400, reason),
                other => unavailable(other),
            }),
        },
{
    match outcome {
        Ok(_) => succeed("recorded", Json::Bool(true)),
        Err(EngineError::Invalid(reason)) => fail(400, reason.as_str()),
        Err(e) => retry_later(&e),
    }
}

/// What a request for a payload is answered with.
#[derive(Debug)]
pub enum PayloadAnswer {
    Bytes(Vec<u8>),
    Json(Answer),
}

/// Answers with a payload, where there is one.
pub fn payload_answer(outcome: Result<Option<Vec<u8>>, EngineError>) -> (r: PayloadAnswer)
    ensures
        match outcome {
            Ok(Some(bytes)) => r matches PayloadAnswer::Bytes(found) && found@ == bytes@,
            Ok(None) => r matches PayloadAnswer::Json(answer) && answer@ == failure(
                404,
                "payload not found"@,
            ),
            Err(e) => r matches PayloadAnswer::Json(answer) && answer@ == unavailable(e@),
        },
{
    match outcome {
        Ok(Some(bytes)) => PayloadAnswer::Bytes(bytes),
        Ok(None) => PayloadAnswer::Json(fail(404, "payload not found")),
        Err(e) => PayloadAnswer::Json(retry_later(&e)),
    }
}

/// Answers with the engine's document as it stands: a series, the failures.
pub fn document(outcome: Result<Json, EngineError>) -> (r: Answer)
    ensures
        r@ == (match result_view(outcome) {
            Ok(body) => AnswerView { status: 200, body },
            Err(e) => unavailable(e),
        }),
{
    match outcome {
        Ok(body) => Answer { status: 200, body },
        Err(e) => retry_later(&e),
    }
}

/// The first rows of a ranking, where a limit was given.
pub open spec fn first_rows(rows: Seq<JsonView>, limit: Option<usize>) -> Seq<JsonView> {
    match limit {
        Some(limit) => if limit < rows.len() {
            rows.take(limit as int)
        } else {
            rows
        },
        None => rows,
    }
}

/// Answers with usage rows.
pub fn llm_rows(limit: Option<usize>, outcome: Result<Vec<Json>, EngineError>) -> (r: Answer)
    ensures
        match outcome {
            Ok(rows) => r@ == success(
                "rows"@,
                JsonView::Array(first_rows(items_view(rows@), limit)),
            ),
            Err(e) => r@ == unavailable(e@),
        },
{
    match outcome {
        Ok(found) => {
            let ghost whole = found@;
            let mut rows = found;
            if let Some(limit) = limit {
                if limit < rows.len() {
                    rows.truncate(limit);
                }
            }
            assert(items_view(rows@) =~= first_rows(items_view(whole), limit));
            succeed("rows", array(rows))
        },
        Err(e) => retry_later(&e),
    }
}

// ------------------------------------------------------------------- statistics

/// What the engine says of its storage.
#[derive(Clone, Copy, Debug)]
pub struct StorageStats {
    pub total_records: u64,
    pub segment_count: u64,
    pub disk_bytes: u64,
    pub buffered_records: u64,
    pub persisted_records: u64,
    pub durability: Durability,
    pub wal_bytes: u64,
    /// Nothing where the buffer is empty.
    pub buffer_age_seconds: Option<u64>,
}

pub open spec fn uint_or_null(n: Option<u64>) -> JsonView {
    match n {
        Some(n) => uint_view(n as nat),
        None => JsonView::Null,
    }
}

pub open spec fn stats_view(s: StorageStats) -> JsonView {
    JsonView::Object(
        seq![
            ("record_count"@, uint_view(s.total_records as nat)),
            ("segment_count"@, uint_view(s.segment_count as nat)),
            ("bytes_on_disk"@, uint_view(s.disk_bytes as nat)),
            ("buffered_records"@, uint_view(s.buffered_records as nat)),
            ("persisted_records"@, uint_view(s.persisted_records as nat)),
            ("total_records"@, uint_view(s.total_records as nat)),
            ("durability"@, JsonView::Text(durability_name(s.durability))),
            ("wal_bytes"@, uint_view(s.wal_bytes as nat)),
            ("buffer_age_seconds"@, uint_or_null(s.buffer_age_seconds)),
        ],
    )
}

/// Answers with what the engine says of its storage. The counts are records:
/// superseded versions remain on disk until they are merged away.
pub fn stats_answer(outcome: Result<StorageStats, EngineError>) -> (r: Answer)
    ensures
        match outcome {
            Ok(stats) => r@ == (AnswerView { status: 200, body: stats_view(stats) }),
            Err(e) => r@ == unavailable(e@),
        },
{
    match outcome {
        Ok(s) => {
            let mut entries: Vec<(String, Json)> = Vec::new();
            entries.push(entry("record_count", uint_json(s.total_records)));
            entries.push(entry("segment_count", uint_json(s.segment_count)));
            entries.push(entry("bytes_on_disk", uint_json(s.disk_bytes)));
            entries.push(entry("buffered_records", uint_json(s.buffered_records)));
            entries.push(entry("persisted_records", uint_json(s.persisted_records)));
            entries.push(entry("total_records", uint_json(s.total_records)));
            entries.push(entry("durability", text_json(s.durability.as_str())));
            entries.push(entry("wal_bytes", uint_json(s.wal_bytes)));
            let age = match s.buffer_age_seconds {
                Some(n) => uint_json(n),
                None => Json::Null,
            };
            entries.push(entry("buffer_age_seconds", age));
            assert(entries_view(entries@) =~= stats_view(s)->Object_0);
            Answer { status: 200, body: object(entries) }
        },
        Err(e) => retry_later(&e),
    }
}

/// A histogram of durations: its summary, and the buckets that hold anything,
/// each by its upper bound.
#[derive(Debug)]
pub struct DurationReport {
    pub count: u64,
    pub min_ns: u64,
    pub max_ns: u64,
    pub mean_ns: u64,
    pub p50_ns: u64,
    pub p75_ns: u64,
    pub p90_ns: u64,
    pub p95_ns: u64,
    pub p99_ns: u64,
    pub occupied: Vec<(u64, u64)>,
}

pub open spec fn bucket_view(b: (u64, u64)) -> JsonView {
    JsonView::Object(
        seq![("upper_ns"@, uint_view(b.0 as nat)), ("count"@, uint_view(b.1 as nat))],
    )
}

pub open spec fn duration_view(d: DurationReport) -> JsonView {
    JsonView::Object(
        seq![
            ("count"@, uint_view(d.count as nat)),
            ("min_ns"@, uint_view(d.min_ns as nat)),
            ("max_ns"@, uint_view(d.max_ns as nat)),
            ("mean_ns"@, uint_view(d.mean_ns as nat)),
            ("p50_ns"@, uint_view(d.p50_ns as nat)),
            ("p75_ns"@, uint_view(d.p75_ns as nat)),
            ("p90_ns"@, uint_view(d.p90_ns as nat)),
            ("p95_ns"@, uint_view(d.p95_ns as nat)),
            ("p99_ns"@, uint_view(d.p99_ns as nat)),
            (
                "buckets"@,
                JsonView::Array(
                    Seq::new(d.occupied@.len(), |i: int| bucket_view(d.occupied@[i])),
                ),
            ),
        ],
    )
}

fn buckets_json(occupied: &Vec<(u64, u64)>) -> (r: Json)
    ensures
        r@ == JsonView::Array(Seq::new(occupied@.len(), |i: int| bucket_view(occupied@[i]))),
{
    let mut items: Vec<Json> = Vec::new();
    let mut i: usize = 0;
    while i < occupied.len()
        invariant
            i <= occupied@.len(),
            items@.len() == i,
            forall|k: int| 0 <= k < i ==> (#[trigger] items@[k])@ == bucket_view(occupied@[k]),
        decreases occupied@.len() - i,
    {
        let b = occupied[i];
        let mut entries: Vec<(String, Json)> = Vec::new();
        entries.push(entry("upper_ns", uint_json(b.0)));
        entries.push(entry("count", uint_json(b.1)));
        assert(entries_view(entries@) =~= bucket_view(b)->Object_0);
        items.push(object(entries));
        i += 1;
    }
    assert(items_view(items@) =~= Seq::new(
        occupied@.len(),
        |i: int| bucket_view(occupied@[i]),
    ));
    array(items)
}

/// Answers with a histogram of durations.
pub fn duration_answer(outcome: Result<DurationReport, EngineError>) -> (r: Answer)
    ensures
        match outcome {
            Ok(report) => r@ == (AnswerView { status: 200, body: duration_view(report) }),
            Err(e) => r@ == unavailable(e@),
        },
{
    match outcome {
        Ok(d) => {
            let mut entries: Vec<(String, Json)> = Vec::new();
            entries.push(entry("count", uint_json(d.count)));
            entries.push(entry("min_ns", uint_json(d.min_ns)));
            entries.push(entry("max_ns", uint_json(d.max_ns)));
            entries.push(entry("mean_ns", uint_json(d.mean_ns)));
            entries.push(entry("p50_ns", uint_json(d.p50_ns)));
            entries.push(entry("p75_ns", uint_json(d.p75_ns)));
            entries.push(entry("p90_ns", uint_json(d.p90_ns)));
            entries.push(entry("p95_ns", uint_json(d.p95_ns)));
            entries.push(entry("p99_ns", uint_json(d.p99_ns)));
            entries.push(entry("buckets", buckets_json(&d.occupied)));
            assert(entries_view(entries@) =~= duration_view(d)->Object_0);
            Answer { status: 200, body: object(entries) }
        },
        Err(e) => retry_later(&e),
    }
}

proof fn lemma_field_names()
    ensures
        "error"@.len() == 5 && "error"@[0] == 'e',
        "next"@.len() == 4 && "next"@[0] == 'n',
        "accepted"@.len() == 8 && "accepted"@[0] == 'a',
        "durability"@.len() == 10 && "durability"@[0] == 'd',
        "generation"@.len() == 10 && "generation"@[0] == 'g',
        "intact"@.len() == 6 && "intact"@[0] == 'i',
        "problems"@.len() == 8 && "problems"@[0] == 'p',
        "released"@.len() == 8 && "released"@[0] == 'r',
        "backup"@.len() == 6 && "backup"@[0] == 'b',
        "path"@.len() == 4 && "path"@[0] == 'p',
        "verified"@.len() == 8 && "verified"@[0] == 'v',
        "spans"@.len() == 5 && "spans"@[0] == 's',
        "next_cursor"@.len() == 11 && "next_cursor"@[0] == 'n',
        "cost"@.len() == 4 && "cost"@[0] == 'c',
        "elapsed_ns"@.len() == 10 && "elapsed_ns"@[0] == 'e',
        "segments_examined"@.len() == 17 && "segments_examined"@[0] == 's',
        "segments_pruned"@.len() == 15,
        "trace_id"@.len() == 8 && "trace_id"@[0] == 't',
        "annotations"@.len() == 11 && "annotations"@[0] == 'a',
        "record_count"@.len() == 12,
        "segment_count"@.len() == 13 && "segment_count"@[0] == 's',
        "bytes_on_disk"@.len() == 13 && "bytes_on_disk"@[0] == 'b',
        "buffered_records"@.len() == 16,
        "persisted_records"@.len() == 17 && "persisted_records"@[0] == 'p',
        "total_records"@.len() == 13 && "total_records"@[0] == 't',
        "wal_bytes"@.len() == 9,
        "buffer_age_seconds"@.len() == 18,
        "upper_ns"@.len() == 8 && "upper_ns"@[0] == 'u',
        "count"@.len() == 5 && "count"@[0] == 'c',
        "min_ns"@.len() == 6 && "min_ns"@[0] == 'm' && "min_ns"@[1] == 'i',
        "max_ns"@.len() == 6 && "max_ns"@[0] == 'm' && "max_ns"@[1] == 'a',
        "mean_ns"@.len() == 7 && "mean_ns"@[0] == 'm',
        "p50_ns"@.len() == 6 && "p50_ns"@[0] == 'p' && "p50_ns"@[1] == '5',
        "p75_ns"@.len() == 6 && "p75_ns"@[0] == 'p' && "p75_ns"@[1] == '7',
        "p90_ns"@.len() == 6 && "p90_ns"@[0] == 'p' && "p90_ns"@[1] == '9' && "p90_ns"@[2] == '0',
        "p95_ns"@.len() == 6 && "p95_ns"@[0] == 'p' && "p95_ns"@[1] == '9' && "p95_ns"@[2] == '5',
        "p99_ns"@.len() == 6 && "p99_ns"@[0] == 'p' && "p99_ns"@[1] == '9' && "p99_ns"@[2] == '9',
        "buckets"@.len() == 7 && "buckets"@[0] == 'b',
{
    reveal_strlit("error");
    reveal_strlit("next");
    reveal_strlit("accepted");
    reveal_strlit("durability");
    reveal_strlit("generation");
    reveal_strlit("intact");
    reveal_strlit("problems");
    reveal_strlit("released");
    reveal_strlit("backup");
    reveal_strlit("path");
    reveal_strlit("verified");
    reveal_strlit("spans");
    reveal_strlit("next_cursor");
    reveal_strlit("cost");
    reveal_strlit("elapsed_ns");
    reveal_strlit("segments_examined");
    reveal_strlit("segments_pruned");
    reveal_strlit("trace_id");
    reveal_strlit("annotations");
    reveal_strlit("record_count");
    reveal_strlit("segment_count");
    reveal_strlit("bytes_on_disk");
    reveal_strlit("buffered_records");
    reveal_strlit("persisted_records");
    reveal_strlit("total_records");
    reveal_strlit("wal_bytes");
    reveal_strlit("buffer_age_seconds");
    reveal_strlit("upper_ns");
    reveal_strlit("count");
    reveal_strlit("min_ns");
    reveal_strlit("max_ns");
    reveal_strlit("mean_ns");
    reveal_strlit("p50_ns");
    reveal_strlit("p75_ns");
    reveal_strlit("p90_ns");
    reveal_strlit("p95_ns");
    reveal_strlit("p99_ns");
    reveal_strlit("buckets");
}


/// An answer shows its own status and body.
pub proof fn law_an_answer_shows_its_fields(a: Answer)
    ensures
        a@.status == a.status,
        a@.body == a.body@,
{
}

/// A failure holds its message under `error`, advice a next step beside it, and
/// a success its value under its key with status 200.
pub proof fn law_failures_and_successes(
    status: u16,
    message: Seq<char>,
    next: Seq<char>,
    key: Seq<char>,
    value: JsonView,
)
    ensures
        failure(status, message).status == status,
        failure(status, message).body.field("error"@) == Some(JsonView::Text(message)),
        advice(status, message, next).status == status,
        advice(status, message, next).body.field("error"@) == Some(JsonView::Text(message)),
        advice(status, message, next).body.field("next"@) == Some(JsonView::Text(next)),
        success(key, value).status == 200,
        success(key, value).body.field(key) == Some(value),
{
    lemma_field_names();
    reveal_with_fuel(crate::json::entry_from, 3);
}

/// An engine that fails is answered 503 with its message, whatever failed.
pub proof fn law_engine_failures(message: Seq<char>)
    ensures
        unavailable(ErrorView::Invalid(message)) == failure(503, message),
        unavailable(ErrorView::TooBroad(message)) == failure(503, message),
        unavailable(ErrorView::NotFound(message)) == failure(503, message),
        unavailable(ErrorView::Other(message)) == failure(503, message),
{
}

/// The shape of a body of spans is told by its first byte that is no white
/// space: a bracket begins an array, a brace an envelope, and nothing else
/// either.
pub proof fn law_shapes_of_bodies(body: Seq<u8>, i: int)
    requires
        0 <= i <= body.len(),
        forall|j: int|
            0 <= j < i ==> (#[trigger] body[j]) == 32 || body[j] == 9 || body[j] == 10 || body[j]
                == 12 || body[j] == 13,
        i < body.len() ==> body[i] != 32 && body[i] != 9 && body[i] != 10 && body[i] != 12
            && body[i] != 13,
    ensures
        i == body.len() ==> shape_of(body) is None,
        i < body.len() && body[i] == 91 ==> shape_of(body) == Some(SpanShape::Array),
        i < body.len() && body[i] == 123 ==> shape_of(body) == Some(SpanShape::Envelope),
        i < body.len() && body[i] != 91 && body[i] != 123 ==> shape_of(body) is None,
{
    lemma_first_mark(body, 0, i);
}

proof fn lemma_first_mark(body: Seq<u8>, from: int, i: int)
    requires
        0 <= from <= i <= body.len(),
        forall|j: int|
            0 <= j < i ==> (#[trigger] body[j]) == 32 || body[j] == 9 || body[j] == 10 || body[j]
                == 12 || body[j] == 13,
    ensures
        first_mark(body, from) == first_mark(body, i),
    decreases i - from,
{
    if from < i {
        lemma_first_mark(body, from + 1, i);
    }
}

/// A batch is refused for its first span that lacks a trace id or a span id, by
/// its number.
pub proof fn law_the_first_unkeyed_span(spans: Seq<Span>, i: int)
    requires
        0 <= i < spans.len(),
        forall|j: int|
            0 <= j < i ==> (#[trigger] spans[j]).trace_id@.len() > 0 && spans[j].span_id@.len() > 0,
        spans[i].trace_id@.len() == 0 || spans[i].span_id@.len() == 0,
    ensures
        first_unkeyed(spans, 0) == i,
        !all_keyed(spans),
        spans[i].trace_id@.len() == 0 ==> unkeyed(spans, i) == "span "@ + dec(i as nat)
            + ": trace_id is empty"@,
        spans[i].trace_id@.len() > 0 ==> unkeyed(spans, i) == "span "@ + dec(i as nat)
            + ": span_id is empty"@,
{
    lemma_first_unkeyed(spans, 0, i);
    assert(!is_keyed(spans[i]));
}

proof fn lemma_first_unkeyed(spans: Seq<Span>, from: int, i: int)
    requires
        0 <= from <= i < spans.len(),
        forall|j: int|
            0 <= j < i ==> (#[trigger] spans[j]).trace_id@.len() > 0 && spans[j].span_id@.len() > 0,
        !is_keyed(spans[i]),
    ensures
        first_unkeyed(spans, from) == i,
    decreases i - from,
{
    if from < i {
        assert(is_keyed(spans[from]));
        lemma_first_unkeyed(spans, from + 1, i);
    }
}

/// A batch in which every span has both ids is not refused.
pub proof fn law_a_keyed_batch_passes(spans: Seq<Span>)
    ensures
        all_keyed(spans) <==> forall|i: int|
            0 <= i < spans.len() ==> (#[trigger] spans[i]).trace_id@.len() > 0
                && spans[i].span_id@.len() > 0,
{
    if all_keyed(spans) {
        assert forall|i: int| 0 <= i < spans.len() implies (#[trigger] spans[i]).trace_id@.len() > 0
            && spans[i].span_id@.len() > 0 by {
            assert(is_keyed(spans[i]));
        }
    }
}

/// What an ingest, a check and a backup answer, field by field.
pub proof fn law_what_writes_answer(
    count: nat,
    durability: Durability,
    generation: u64,
    problems: Seq<Seq<char>>,
    label: Seq<char>,
    path: Seq<char>,
)
    ensures
        ({
            let a = accepted(count, durability);
            &&& a.status == 200
            &&& a.body.field("accepted"@) == Some(JsonView::Number(dec(count)))
            &&& a.body.field("durability"@) == Some(JsonView::Text(durability_name(durability)))
        }),
        ({
            let a = checked(generation, problems);
            &&& a.status == 200
            &&& a.body.field("generation"@) == Some(JsonView::Number(dec(generation as nat)))
            &&& a.body.field("intact"@) == Some(JsonView::Bool(problems.len() == 0))
            &&& a.body.field("problems"@) == Some(texts_view(problems))
        }),
        ({
            let a = freed(label);
            &&& a.status == 200
            &&& a.body.field("released"@) == Some(JsonView::Bool(true))
            &&& a.body.field("backup"@) == Some(JsonView::Text(label))
        }),
        ({
            let a = backed_up(label, generation, path);
            &&& a.status == 201
            &&& a.body.field("backup"@) == Some(JsonView::Text(label))
            &&& a.body.field("generation"@) == Some(JsonView::Number(dec(generation as nat)))
            &&& a.body.field("path"@) == Some(JsonView::Text(path))
            &&& a.body.field("verified"@) == Some(JsonView::Bool(true))
        }),
        broken_backup(problems).status == 500,
        broken_backup(problems).body.field("problems"@) == Some(texts_view(problems)),
{
    lemma_field_names();
    reveal_with_fuel(crate::json::entry_from, 5);
}

/// A page offers a cursor to go on with where it is full, and nowhere else: the
/// token of its last span.
pub proof fn law_when_a_page_goes_on(limit: Option<usize>, page: Page)
    ensures
        limit is None ==> next_cursor(limit, page) is Null,
        limit is Some && page.spans@.len() < limit->0 ==> next_cursor(limit, page) is Null,
        limit is Some && page.spans@.len() >= limit->0 && page.last is Some ==> next_cursor(
            limit,
            page,
        ) == JsonView::Text(cursor_token((page.last->0)@)),
        page.last is None ==> next_cursor(limit, page) is Null,
{
}

/// What a search and a trace answer, field by field.
pub proof fn law_what_reads_answer(
    limit: Option<usize>,
    page: Page,
    id: Seq<char>,
    found: FoundTrace,
)
    ensures
        ({
            let a = paged(limit, page);
            let cost = cost_view(page);
            &&& a.status == 200
            &&& a.body.field("spans"@) == Some(JsonView::Array(items_view(page.spans@)))
            &&& a.body.field("next_cursor"@) == Some(next_cursor(limit, page))
            &&& a.body.field("cost"@) == Some(cost)
            &&& cost.field("elapsed_ns"@) == Some(JsonView::Number(dec(page.elapsed_ns as nat)))
            &&& cost.field("segments_examined"@) == Some(
                JsonView::Number(dec(page.segments_examined as nat)),
            )
            &&& cost.field("segments_pruned"@) == Some(
                JsonView::Number(dec(page.segments_pruned as nat)),
            )
        }),
        ({
            let a = traced(id, found);
            &&& a.status == 200
            &&& a.body.field("trace_id"@) == Some(JsonView::Text(id))
            &&& a.body.field("spans"@) == Some(JsonView::Array(items_view(found.spans@)))
            &&& a.body.field("annotations"@) == Some(found.annotations@)
        }),
{
    lemma_field_names();
    reveal_with_fuel(crate::json::entry_from, 4);
}

/// What the statistics answer, field by field.
pub proof fn law_what_statistics_answer(s: StorageStats)
    ensures
        ({
            let v = stats_view(s);
            &&& v.field("record_count"@) == Some(JsonView::Number(dec(s.total_records as nat)))
            &&& v.field("segment_count"@) == Some(JsonView::Number(dec(s.segment_count as nat)))
            &&& v.field("bytes_on_disk"@) == Some(JsonView::Number(dec(s.disk_bytes as nat)))
            &&& v.field("buffered_records"@) == Some(
                JsonView::Number(dec(s.buffered_records as nat)),
            )
            &&& v.field("persisted_records"@) == Some(
                JsonView::Number(dec(s.persisted_records as nat)),
            )
            &&& v.field("total_records"@) == Some(JsonView::Number(dec(s.total_records as nat)))
            &&& v.field("durability"@) == Some(JsonView::Text(durability_name(s.durability)))
            &&& v.field("wal_bytes"@) == Some(JsonView::Number(dec(s.wal_bytes as nat)))
            &&& s.buffer_age_seconds is None ==> v.field("buffer_age_seconds"@) == Some(
                JsonView::Null,
            )
            &&& s.buffer_age_seconds is Some ==> v.field("buffer_age_seconds"@) == Some(
                JsonView::Number(dec(s.buffer_age_seconds->0 as nat)),
            )
        }),
{
    lemma_field_names();
    reveal_with_fuel(crate::json::entry_from, 10);
}

/// What the durations answer, field by field.
pub proof fn law_what_durations_answer(d: DurationReport, i: int)
    requires
        0 <= i < d.occupied@.len(),
    ensures
        ({
            let v = duration_view(d);
            let bucket = bucket_view(d.occupied@[i]);
            &&& v.field("count"@) == Some(JsonView::Number(dec(d.count as nat)))
            &&& v.field("min_ns"@) == Some(JsonView::Number(dec(d.min_ns as nat)))
            &&& v.field("max_ns"@) == Some(JsonView::Number(dec(d.max_ns as nat)))
            &&& v.field("mean_ns"@) == Some(JsonView::Number(dec(d.mean_ns as nat)))
            &&& v.field("p50_ns"@) == Some(JsonView::Number(dec(d.p50_ns as nat)))
            &&& v.field("p75_ns"@) == Some(JsonView::Number(dec(d.p75_ns as nat)))
            &&& v.field("p90_ns"@) == Some(JsonView::Number(dec(d.p90_ns as nat)))
            &&& v.field("p95_ns"@) == Some(JsonView::Number(dec(d.p95_ns as nat)))
            &&& v.field("p99_ns"@) == Some(JsonView::Number(dec(d.p99_ns as nat)))
            &&& v.field("buckets"@) is Some && v.field("buckets"@)->0 is Array && (v.field(
                "buckets"@,
            )->0)->Array_0[i] == bucket
            &&& bucket.field("upper_ns"@) == Some(JsonView::Number(dec(d.occupied@[i].0 as nat)))
            &&& bucket.field("count"@) == Some(JsonView::Number(dec(d.occupied@[i].1 as nat)))
        }),
{
    lemma_field_names();
    reveal_with_fuel(crate::json::entry_from, 11);
}

/// The rows of an aggregate are cut to the limit from the front.
pub proof fn law_rows_are_cut_to_the_limit(rows: Seq<JsonView>, limit: Option<usize>, i: int)
    requires
        0 <= i < first_rows(rows, limit).len(),
    ensures
        first_rows(rows, limit)[i] == rows[i],
        limit is None ==> first_rows(rows, limit).len() == rows.len(),
        limit is Some && limit->0 <= rows.len() ==> first_rows(rows, limit).len() == limit->0,
        limit is Some && limit->0 > rows.len() ==> first_rows(rows, limit).len() == rows.len(),
{
}

} // verus!
