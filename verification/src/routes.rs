//! Which request asks for what.
//!
//! A request becomes either an answer at once, because its parameters cannot
//! be read, or the one thing that the engine has to do for it.

use vstd::prelude::*;

use crate::analytics::LlmGroupBy;
use crate::answers::{fail, failure, Answer, AnswerView};
use crate::filter::{FilterView, SpanFilter};
use crate::http::{decoded, parameters, percent_decode, split_target, target_parts};
use crate::json::{json_document, read_json, Json, JsonView};
use crate::mcp::ENDPOINT;
use crate::queries::{
    analytics_query, annotation_query, export_of, export_query_from, filter_from_query, filter_of,
    read_of, read_u64, series_of, series_query_from, span_query_from, tail_of, tail_query_from,
    u64_of, AnalyticsQuery, AnnotationSearch, AnnotationSearchView, ExportRequest, ExportView,
    SeriesRequest, SpanQuery, SpanQueryView, TailRequest, TailView,
};
use crate::text::{
    chars_of, copy, ends_with, same, starts_with, strip_prefix, text_after, text_ends_with, text_of,
    text_starts_with,
};

verus! {

/// What the engine has to do for a request.
#[derive(Debug)]
pub enum Action {
    /// The agent-facing endpoint.
    Mcp,
    /// Decode and ingest native spans.
    IngestSpans,
    /// Decode and ingest OTLP spans.
    IngestOtlp { protobuf: bool },
    Flush,
    Checkpoint,
    /// Check the live generation.
    Verify,
    ReleaseBackup { label: String },
    PinBackup { label: String },
    /// Erase the subject that the document spells.
    Erase { subject: Json },
    ListErasures,
    VerifyErasure { id: u64 },
    ErasureStatus { id: u64 },
    Search { query: SpanQuery },
    MetricsJson,
    Metrics,
    Stats,
    Trace { id: String },
    Sessions { since: Option<u64>, until: Option<u64>, limit: usize },
    Session { id: String },
    /// Decode and record an annotation.
    Annotate,
    SearchAnnotations { query: AnnotationSearch },
    Payload { reference: String },
    Export { request: ExportRequest },
    Tail { request: TailRequest },
    LlmStats {
        group_by: LlmGroupBy,
        since: Option<u64>,
        until: Option<u64>,
        limit: Option<usize>,
    },
    Series { filter: SpanFilter, since_ns: u64, until_ns: u64, buckets: usize },
    Duration { filter: SpanFilter },
    Failures { filter: SpanFilter, limit: usize },
    Slowest { filter: SpanFilter, limit: usize },
}

pub enum ActionView {
    Mcp,
    IngestSpans,
    IngestOtlp { protobuf: bool },
    Flush,
    Checkpoint,
    Verify,
    ReleaseBackup { label: Seq<char> },
    PinBackup { label: Seq<char> },
    Erase { subject: JsonView },
    ListErasures,
    VerifyErasure { id: u64 },
    ErasureStatus { id: u64 },
    Search { query: SpanQueryView },
    MetricsJson,
    Metrics,
    Stats,
    Trace { id: Seq<char> },
    Sessions { since: Option<u64>, until: Option<u64>, limit: usize },
    Session { id: Seq<char> },
    Annotate,
    SearchAnnotations { query: AnnotationSearchView },
    Payload { reference: Seq<char> },
    Export { request: ExportView },
    Tail { request: TailView },
    LlmStats {
        group_by: LlmGroupBy,
        since: Option<u64>,
        until: Option<u64>,
        limit: Option<usize>,
    },
    Series { filter: FilterView, since_ns: u64, until_ns: u64, buckets: usize },
    Duration { filter: FilterView },
    Failures { filter: FilterView, limit: usize },
    Slowest { filter: FilterView, limit: usize },
}

impl View for Action {
    type V = ActionView;

    open spec fn view(&self) -> ActionView {
        match self {
            Action::Mcp => ActionView::Mcp,
            Action::IngestSpans => ActionView::IngestSpans,
            Action::IngestOtlp { protobuf } => ActionView::IngestOtlp { protobuf: *protobuf },
            Action::Flush => ActionView::Flush,
            Action::Checkpoint => ActionView::Checkpoint,
            Action::Verify => ActionView::Verify,
            Action::ReleaseBackup { label } => ActionView::ReleaseBackup { label: label@ },
            Action::PinBackup { label } => ActionView::PinBackup { label: label@ },
            Action::Erase { subject } => ActionView::Erase { subject: subject@ },
            Action::ListErasures => ActionView::ListErasures,
            Action::VerifyErasure { id } => ActionView::VerifyErasure { id: *id },
            Action::ErasureStatus { id } => ActionView::ErasureStatus { id: *id },
            Action::Search { query } => ActionView::Search { query: query@ },
            Action::MetricsJson => ActionView::MetricsJson,
            Action::Metrics => ActionView::Metrics,
            Action::Stats => ActionView::Stats,
            Action::Trace { id } => ActionView::Trace { id: id@ },
            Action::Sessions { since, until, limit } => ActionView::Sessions {
                since: *since,
                until: *until,
                limit: *limit,
            },
            Action::Session { id } => ActionView::Session { id: id@ },
            Action::Annotate => ActionView::Annotate,
            Action::SearchAnnotations { query } => ActionView::SearchAnnotations { query: query@ },
            Action::Payload { reference } => ActionView::Payload { reference: reference@ },
            Action::Export { request } => ActionView::Export { request: request@ },
            Action::Tail { request } => ActionView::Tail { request: request@ },
            Action::LlmStats { group_by, since, until, limit } => ActionView::LlmStats {
                group_by: *group_by,
                since: *since,
                until: *until,
                limit: *limit,
            },
            Action::Series { filter, since_ns, until_ns, buckets } => ActionView::Series {
                filter: filter@,
                since_ns: *since_ns,
                until_ns: *until_ns,
                buckets: *buckets,
            },
            Action::Duration { filter } => ActionView::Duration { filter: filter@ },
            Action::Failures { filter, limit } => ActionView::Failures {
                filter: filter@,
                limit: *limit,
            },
            Action::Slowest { filter, limit } => ActionView::Slowest {
                filter: filter@,
                limit: *limit,
            },
        }
    }
}

/// What becomes of a request.
#[derive(Debug)]
pub enum Plan {
    Answer(Answer),
    Run(Action),
}

pub enum PlanView {
    Answer(AnswerView),
    Run(ActionView),
}

impl View for Plan {
    type V = PlanView;

    open spec fn view(&self) -> PlanView {
        match self {
            Plan::Answer(answer) => PlanView::Answer(answer@),
            Plan::Run(action) => PlanView::Run(action@),
        }
    }
}

/// A request that is refused for what it says.
pub open spec fn bad(message: Seq<char>) -> PlanView {
    PlanView::Answer(failure(400, message))
}

fn refuse(message: &str) -> (r: Plan)
    ensures
        r@ == bad(message@),
{
    Plan::Answer(fail(400, message))
}

pub open spec fn nowhere() -> PlanView {
    PlanView::Answer(failure(404, "not found"@))
}

// ------------------------------------------------------------------------ POST

/// A backup's label, and whether the request frees it.
pub open spec fn backup_plan(rest: Seq<char>) -> PlanView {
    if ends_with(rest, "/release"@) {
        PlanView::Run(ActionView::ReleaseBackup { label: rest.take(rest.len() - "/release"@.len()) })
    } else {
        PlanView::Run(ActionView::PinBackup { label: rest })
    }
}

fn plan_backup(rest: &str) -> (r: Plan)
    ensures
        r@ == backup_plan(rest@),
{
    if text_ends_with(rest, "/release") {
        let chars = chars_of(rest);
        let suffix = chars_of("/release");
        let label = text_of(&chars, 0, chars.len() - suffix.len());
        assert(label@ == rest@.take(rest@.len() - "/release"@.len()));
        Plan::Run(Action::ReleaseBackup { label })
    } else {
        Plan::Run(Action::PinBackup { label: copy(rest) })
    }
}

pub open spec fn erase_plan(body: Seq<u8>) -> PlanView {
    match json_document(body) {
        Err(message) => bad(message),
        Ok(document) => match document.field("subject"@) {
            Some(subject) => PlanView::Run(ActionView::Erase { subject }),
            None => bad(
                "body must be {\"subject\": {\"kind\": \"trace\"|\"span\"|\"session\"|\"payload\", ...}}"@,
            ),
        },
    }
}

fn plan_erase(body: &[u8]) -> (r: Plan)
    ensures
        r@ == erase_plan(body@),
{
    match read_json(body) {
        Err(message) => refuse(message.as_str()),
        Ok(document) => match document.get("subject") {
            Some(subject) => Plan::Run(Action::Erase { subject: subject.copy() }),
            None => refuse(
                "body must be {\"subject\": {\"kind\": \"trace\"|\"span\"|\"session\"|\"payload\", ...}}",
            ),
        },
    }
}

/// What a `POST` asks for.
pub open spec fn post_plan(path: Seq<char>, content_type: Seq<char>, body: Seq<u8>) -> PlanView {
    if path == "/v1/spans"@ {
        PlanView::Run(ActionView::IngestSpans)
    } else if path == "/v1/traces"@ {
        PlanView::Run(
            ActionView::IngestOtlp { protobuf: starts_with(content_type, "application/x-protobuf"@) },
        )
    } else if path == "/v1/flush"@ {
        PlanView::Run(ActionView::Flush)
    } else if path == "/v1/checkpoint"@ {
        PlanView::Run(ActionView::Checkpoint)
    } else if let Some(rest) = strip_prefix(path, "/v1/backups/"@) {
        backup_plan(rest)
    } else if path == "/v1/erasures"@ {
        erase_plan(body)
    } else if path == "/v1/annotations"@ {
        PlanView::Run(ActionView::Annotate)
    } else {
        nowhere()
    }
}

fn plan_post(path: &str, content_type: &str, body: &[u8]) -> (r: Plan)
    ensures
        r@ == post_plan(path@, content_type@, body@),
{
    if same(path, "/v1/spans") {
        Plan::Run(Action::IngestSpans)
    } else if same(path, "/v1/traces") {
        let protobuf = text_starts_with(content_type, "application/x-protobuf");
        Plan::Run(Action::IngestOtlp { protobuf })
    } else if same(path, "/v1/flush") {
        Plan::Run(Action::Flush)
    } else if same(path, "/v1/checkpoint") {
        Plan::Run(Action::Checkpoint)
    } else if let Some(rest) = text_after(path, "/v1/backups/") {
        plan_backup(rest.as_str())
    } else if same(path, "/v1/erasures") {
        plan_erase(body)
    } else if same(path, "/v1/annotations") {
        Plan::Run(Action::Annotate)
    } else {
        Plan::Answer(fail(404, "not found"))
    }
}

// ------------------------------------------------------------------------- GET

/// What a path under `/v1/erasures/` asks for.
pub open spec fn erasure_plan(rest: Seq<char>) -> PlanView {
    let check = ends_with(rest, "/verify"@);
    let id = if check {
        rest.take(rest.len() - "/verify"@.len())
    } else {
        rest
    };
    match u64_of(id) {
        None => bad("erasure ids are decimal integers"@),
        Some(id) => if check {
            PlanView::Run(ActionView::VerifyErasure { id })
        } else {
            PlanView::Run(ActionView::ErasureStatus { id })
        },
    }
}

fn plan_erasure(rest: &str) -> (r: Plan)
    ensures
        r@ == erasure_plan(rest@),
{
    if text_ends_with(rest, "/verify") {
        let chars = chars_of(rest);
        let suffix = chars_of("/verify");
        let id = text_of(&chars, 0, chars.len() - suffix.len());
        assert(id@ == rest@.take(rest@.len() - "/verify"@.len()));
        match read_u64(id.as_str()) {
            Some(id) => Plan::Run(Action::VerifyErasure { id }),
            None => refuse("erasure ids are decimal integers"),
        }
    } else {
        match read_u64(rest) {
            Some(id) => Plan::Run(Action::ErasureStatus { id }),
            None => refuse("erasure ids are decimal integers"),
        }
    }
}

pub open spec fn search_plan(query: Seq<char>) -> PlanView {
    match read_of::<SpanQuery>(parameters(query)) {
        Ok(query) => PlanView::Run(ActionView::Search { query }),
        Err(message) => bad(message),
    }
}

fn plan_search(query: &str) -> (r: Plan)
    ensures
        r@ == search_plan(query@),
{
    match span_query_from(query) {
        Ok(query) => Plan::Run(Action::Search { query }),
        Err(message) => refuse(message.as_str()),
    }
}

pub open spec fn or_else(n: Option<usize>, other: usize) -> usize {
    match n {
        Some(n) => n,
        None => other,
    }
}

pub open spec fn sessions_plan(query: Seq<char>) -> PlanView {
    match read_of::<AnalyticsQuery>(parameters(query)) {
        Err(message) => bad(message),
        Ok(q) => if q.group_by.is_some() {
            bad("group_by is not a /v1/sessions parameter"@)
        } else {
            PlanView::Run(
                ActionView::Sessions {
                    since: q.since,
                    until: q.until,
                    limit: or_else(q.limit, 100),
                },
            )
        },
    }
}

fn plan_sessions(query: &str) -> (r: Plan)
    ensures
        r@ == sessions_plan(query@),
{
    match analytics_query(query) {
        Err(message) => refuse(message.as_str()),
        Ok(q) => {
            if q.group_by.is_some() {
                return refuse("group_by is not a /v1/sessions parameter");
            }
            let limit = match q.limit {
                Some(n) => n,
                None => 100,
            };
            Plan::Run(Action::Sessions { since: q.since, until: q.until, limit })
        },
    }
}

pub open spec fn llm_plan(query: Seq<char>) -> PlanView {
    match read_of::<AnalyticsQuery>(parameters(query)) {
        Err(message) => bad(message),
        Ok(q) => {
            let group = match q.group_by {
                None => Some(LlmGroupBy::Model),
                Some(name) => LlmGroupBy::named(name),
            };
            match group {
                None => bad("group_by must be model|provider|service|session|day"@),
                Some(group_by) => PlanView::Run(
                    ActionView::LlmStats {
                        group_by,
                        since: q.since,
                        until: q.until,
                        limit: q.limit,
                    },
                ),
            }
        },
    }
}

fn plan_llm(query: &str) -> (r: Plan)
    ensures
        r@ == llm_plan(query@),
{
    match analytics_query(query) {
        Err(message) => refuse(message.as_str()),
        Ok(q) => {
            let group = match &q.group_by {
                None => Some(LlmGroupBy::Model),
                Some(name) => LlmGroupBy::parse(name.as_str()),
            };
            match group {
                None => refuse("group_by must be model|provider|service|session|day"),
                Some(group_by) => Plan::Run(
                    Action::LlmStats { group_by, since: q.since, until: q.until, limit: q.limit },
                ),
            }
        },
    }
}

pub open spec fn series_plan(query: Seq<char>) -> PlanView {
    match series_of(parameters(query)) {
        Err(message) => bad(message),
        Ok(request) => match request.window {
            None => bad("since and until are required for a series"@),
            Some((since_ns, until_ns)) => if until_ns <= since_ns {
                bad("until must be after since"@)
            } else {
                PlanView::Run(
                    ActionView::Series {
                        filter: request.filter,
                        since_ns,
                        until_ns,
                        buckets: or_else(request.buckets, 24),
                    },
                )
            },
        },
    }
}

fn plan_series(query: &str) -> (r: Plan)
    ensures
        r@ == series_plan(query@),
{
    match series_query_from(query) {
        Err(message) => refuse(message.as_str()),
        Ok(request) => {
            let SeriesRequest { filter, buckets, window } = request;
            match window {
                None => refuse("since and until are required for a series"),
                Some((since_ns, until_ns)) => {
                    if until_ns <= since_ns {
                        return refuse("until must be after since");
                    }
                    let buckets = match buckets {
                        Some(n) => n,
                        None => 24,
                    };
                    Plan::Run(Action::Series { filter, since_ns, until_ns, buckets })
                },
            }
        },
    }
}

pub open spec fn annotations_plan(query: Seq<char>) -> PlanView {
    match read_of::<AnnotationSearch>(parameters(query)) {
        Ok(query) => PlanView::Run(ActionView::SearchAnnotations { query }),
        Err(message) => bad(message),
    }
}

fn plan_annotations(query: &str) -> (r: Plan)
    ensures
        r@ == annotations_plan(query@),
{
    match annotation_query(query) {
        Ok(query) => Plan::Run(Action::SearchAnnotations { query }),
        Err(message) => refuse(message.as_str()),
    }
}

pub open spec fn export_plan(query: Seq<char>) -> PlanView {
    match export_of(query) {
        Ok(request) => PlanView::Run(ActionView::Export { request }),
        Err(message) => bad(message),
    }
}

fn plan_export(query: &str) -> (r: Plan)
    ensures
        r@ == export_plan(query@),
{
    match export_query_from(query) {
        Ok(request) => Plan::Run(Action::Export { request }),
        Err(message) => refuse(message.as_str()),
    }
}

pub open spec fn tail_plan(query: Seq<char>) -> PlanView {
    match tail_of(parameters(query)) {
        Ok(request) => PlanView::Run(ActionView::Tail { request }),
        Err(message) => bad(message),
    }
}

fn plan_tail(query: &str) -> (r: Plan)
    ensures
        r@ == tail_plan(query@),
{
    match tail_query_from(query) {
        Ok(request) => Plan::Run(Action::Tail { request }),
        Err(message) => refuse(message.as_str()),
    }
}

pub open spec fn duration_plan(query: Seq<char>) -> PlanView {
    match filter_of(read_of::<SpanQuery>(parameters(query))) {
        Ok(filter) => PlanView::Run(ActionView::Duration { filter }),
        Err(message) => bad(message),
    }
}

fn plan_duration(query: &str) -> (r: Plan)
    ensures
        r@ == duration_plan(query@),
{
    match filter_from_query(query) {
        Ok(filter) => Plan::Run(Action::Duration { filter }),
        Err(message) => refuse(message.as_str()),
    }
}

pub open spec fn failures_plan(query: Seq<char>) -> PlanView {
    match filter_of(read_of::<SpanQuery>(parameters(query))) {
        Ok(filter) => PlanView::Run(
            ActionView::Failures { filter, limit: or_else(filter.limit, 100) },
        ),
        Err(message) => bad(message),
    }
}

fn plan_failures(query: &str) -> (r: Plan)
    ensures
        r@ == failures_plan(query@),
{
    match filter_from_query(query) {
        Ok(filter) => {
            let limit = match filter.limit {
                Some(n) => n,
                None => 100,
            };
            Plan::Run(Action::Failures { filter, limit })
        },
        Err(message) => refuse(message.as_str()),
    }
}

pub open spec fn slowest_plan(query: Seq<char>) -> PlanView {
    match filter_of(read_of::<SpanQuery>(parameters(query))) {
        Ok(filter) => PlanView::Run(ActionView::Slowest { filter, limit: or_else(filter.limit, 10) }),
        Err(message) => bad(message),
    }
}

fn plan_slowest(query: &str) -> (r: Plan)
    ensures
        r@ == slowest_plan(query@),
{
    match filter_from_query(query) {
        Ok(filter) => {
            let limit = match filter.limit {
                Some(n) => n,
                None => 10,
            };
            Plan::Run(Action::Slowest { filter, limit })
        },
        Err(message) => refuse(message.as_str()),
    }
}

/// What a `GET` of a path that names one thing asks for.
pub open spec fn lookup_plan(path: Seq<char>) -> Option<PlanView> {
    if let Some(rest) = strip_prefix(path, "/v1/erasures/"@) {
        Some(erasure_plan(rest))
    } else if let Some(rest) = strip_prefix(path, "/v1/traces/"@) {
        Some(PlanView::Run(ActionView::Trace { id: decoded(rest) }))
    } else if let Some(rest) = strip_prefix(path, "/v1/sessions/"@) {
        Some(PlanView::Run(ActionView::Session { id: decoded(rest) }))
    } else if let Some(rest) = strip_prefix(path, "/v1/payloads/"@) {
        Some(PlanView::Run(ActionView::Payload { reference: decoded(rest) }))
    } else {
        None
    }
}

fn plan_lookup(path: &str) -> (r: Option<Plan>)
    ensures
        match r {
            Some(plan) => lookup_plan(path@) == Some(plan@),
            None => lookup_plan(path@).is_none(),
        },
{
    if let Some(rest) = text_after(path, "/v1/erasures/") {
        return Some(plan_erasure(rest.as_str()));
    }
    if let Some(rest) = text_after(path, "/v1/traces/") {
        return Some(Plan::Run(Action::Trace { id: percent_decode(rest.as_str()) }));
    }
    if let Some(rest) = text_after(path, "/v1/sessions/") {
        return Some(Plan::Run(Action::Session { id: percent_decode(rest.as_str()) }));
    }
    if let Some(rest) = text_after(path, "/v1/payloads/") {
        return Some(Plan::Run(Action::Payload { reference: percent_decode(rest.as_str()) }));
    }
    None
}

/// What a `GET` asks for.
pub open spec fn get_plan(path: Seq<char>, query: Seq<char>) -> PlanView {
    if path == "/v1/verify"@ {
        PlanView::Run(ActionView::Verify)
    } else if path == "/v1/erasures"@ {
        PlanView::Run(ActionView::ListErasures)
    } else if path == "/v1/spans"@ {
        search_plan(query)
    } else if path == "/v1/metrics.json"@ {
        PlanView::Run(ActionView::MetricsJson)
    } else if path == "/v1/metrics"@ {
        PlanView::Run(ActionView::Metrics)
    } else if path == "/v1/stats"@ {
        PlanView::Run(ActionView::Stats)
    } else if path == "/v1/sessions"@ {
        sessions_plan(query)
    } else if path == "/v1/annotations"@ {
        annotations_plan(query)
    } else if path == "/v1/export"@ {
        export_plan(query)
    } else if path == "/v1/tail"@ {
        tail_plan(query)
    } else if path == "/v1/stats/llm"@ {
        llm_plan(query)
    } else if path == "/v1/stats/series"@ {
        series_plan(query)
    } else if path == "/v1/stats/duration"@ {
        duration_plan(query)
    } else if path == "/v1/stats/failures"@ {
        failures_plan(query)
    } else if path == "/v1/stats/slowest"@ {
        slowest_plan(query)
    } else {
        match lookup_plan(path) {
            Some(plan) => plan,
            None => nowhere(),
        }
    }
}

fn plan_get(path: &str, query: &str) -> (r: Plan)
    ensures
        r@ == get_plan(path@, query@),
{
    if same(path, "/v1/verify") {
        Plan::Run(Action::Verify)
    } else if same(path, "/v1/erasures") {
        Plan::Run(Action::ListErasures)
    } else if same(path, "/v1/spans") {
        plan_search(query)
    } else if same(path, "/v1/metrics.json") {
        Plan::Run(Action::MetricsJson)
    } else if same(path, "/v1/metrics") {
        Plan::Run(Action::Metrics)
    } else if same(path, "/v1/stats") {
        Plan::Run(Action::Stats)
    } else if same(path, "/v1/sessions") {
        plan_sessions(query)
    } else if same(path, "/v1/annotations") {
        plan_annotations(query)
    } else if same(path, "/v1/export") {
        plan_export(query)
    } else if same(path, "/v1/tail") {
        plan_tail(query)
    } else if same(path, "/v1/stats/llm") {
        plan_llm(query)
    } else if same(path, "/v1/stats/series") {
        plan_series(query)
    } else if same(path, "/v1/stats/duration") {
        plan_duration(query)
    } else if same(path, "/v1/stats/failures") {
        plan_failures(query)
    } else if same(path, "/v1/stats/slowest") {
        plan_slowest(query)
    } else {
        match plan_lookup(path) {
            Some(plan) => plan,
            None => Plan::Answer(fail(404, "not found")),
        }
    }
}

// ------------------------------------------------------------------------- all

/// What a request asks for.
pub open spec fn plan_of(
    method: Seq<char>,
    target: Seq<char>,
    content_type: Seq<char>,
    body: Seq<u8>,
) -> PlanView {
    let (path, query) = target_parts(target);
    if path == ENDPOINT@ {
        PlanView::Run(ActionView::Mcp)
    } else if method == "POST"@ {
        post_plan(path, content_type, body)
    } else if method == "GET"@ {
        get_plan(path, query)
    } else {
        nowhere()
    }
}

/// A target whose path is `/v1/erasures/verify`: it names a check of no
/// erasure at all, and is not answered.
pub open spec fn names_no_erasure(method: Seq<char>, target: Seq<char>) -> bool {
    method == "GET"@ && target_parts(target).0 == "/v1/erasures/verify"@
}

/// Decides what a request asks for.
pub fn serve_request(method: &str, target: &str, content_type: &str, body: &[u8]) -> (r: Plan)
    requires
        !names_no_erasure(method@, target@),
    ensures
        r@ == plan_of(method@, target@, content_type@, body@),
{
    let (path, query) = split_target(target);
    if same(path.as_str(), ENDPOINT) {
        Plan::Run(Action::Mcp)
    } else if same(method, "POST") {
        plan_post(path.as_str(), content_type, body)
    } else if same(method, "GET") {
        plan_get(path.as_str(), query.as_str())
    } else {
        Plan::Answer(fail(404, "not found"))
    }
}

// ------------------------------------------------------------------------ laws

/// What a request that changes nothing may ask for.
pub open spec fn is_read(action: ActionView) -> bool {
    match action {
        ActionView::IngestSpans => false,
        ActionView::IngestOtlp { .. } => false,
        ActionView::Flush => false,
        ActionView::Checkpoint => false,
        ActionView::ReleaseBackup { .. } => false,
        ActionView::PinBackup { .. } => false,
        ActionView::Erase { .. } => false,
        ActionView::Annotate => false,
        _ => true,
    }
}

/// Outside the agent-facing endpoint, only a `POST` changes anything.
pub proof fn law_only_a_post_changes_anything(
    method: Seq<char>,
    target: Seq<char>,
    content_type: Seq<char>,
    body: Seq<u8>,
)
    requires
        method != "POST"@,
    ensures
        plan_of(method, target, content_type, body) matches PlanView::Run(action) ==> is_read(
            action,
        ),
{
}

/// An erasure has one verb and one path.
pub proof fn law_an_erasure_has_one_verb(
    method: Seq<char>,
    target: Seq<char>,
    content_type: Seq<char>,
    body: Seq<u8>,
)
    requires
        plan_of(method, target, content_type, body) matches PlanView::Run(ActionView::Erase { .. }),
    ensures
        method == "POST"@,
        target_parts(target).0 == "/v1/erasures"@,
{
}

/// A method other than `GET` and `POST` is answered that there is nothing.
pub proof fn law_other_methods_find_nothing(
    method: Seq<char>,
    target: Seq<char>,
    content_type: Seq<char>,
    body: Seq<u8>,
)
    requires
        method != "GET"@,
        method != "POST"@,
        target_parts(target).0 != ENDPOINT@,
    ensures
        plan_of(method, target, content_type, body) == nowhere(),
{
}

proof fn lemma_paths()
    ensures
        "/v1/spans"@.len() == 9 && "/v1/spans"@[4] == 's' && "/v1/spans"@[5] == 'p',
        "/v1/traces"@.len() == 10 && "/v1/traces"@[4] == 't',
        "/v1/flush"@.len() == 9 && "/v1/flush"@[4] == 'f',
        "/v1/checkpoint"@.len() == 14 && "/v1/checkpoint"@[4] == 'c',
        "/v1/backups/"@.len() == 12 && "/v1/backups/"@[4] == 'b',
        "/v1/erasures"@.len() == 12 && "/v1/erasures"@[4] == 'e',
        "/v1/annotations"@.len() == 15 && "/v1/annotations"@[4] == 'a',
        "/v1/verify"@.len() == 10 && "/v1/verify"@[4] == 'v',
        "/v1/metrics.json"@.len() == 16 && "/v1/metrics.json"@[4] == 'm',
        "/v1/metrics"@.len() == 11 && "/v1/metrics"@[4] == 'm',
        "/v1/stats"@.len() == 9 && "/v1/stats"@[4] == 's' && "/v1/stats"@[5] == 't',
        "/v1/sessions"@.len() == 12 && "/v1/sessions"@[4] == 's',
        "/v1/export"@.len() == 10 && "/v1/export"@[4] == 'e',
        "/v1/tail"@.len() == 8,
        "/v1/stats/llm"@.len() == 13,
        "/v1/stats/series"@.len() == 16 && "/v1/stats/series"@[4] == 's',
        "/v1/stats/duration"@.len() == 18 && "/v1/stats/duration"@[10] == 'd',
        "/v1/stats/failures"@.len() == 18 && "/v1/stats/failures"@[10] == 'f',
        "/v1/stats/slowest"@.len() == 17,
        "/v1/mcp"@.len() == 7,
        "GET"@.len() == 3,
        "POST"@.len() == 4,
{
    reveal_strlit("/v1/spans");
    reveal_strlit("/v1/traces");
    reveal_strlit("/v1/flush");
    reveal_strlit("/v1/checkpoint");
    reveal_strlit("/v1/backups/");
    reveal_strlit("/v1/erasures");
    reveal_strlit("/v1/annotations");
    reveal_strlit("/v1/verify");
    reveal_strlit("/v1/metrics.json");
    reveal_strlit("/v1/metrics");
    reveal_strlit("/v1/stats");
    reveal_strlit("/v1/sessions");
    reveal_strlit("/v1/export");
    reveal_strlit("/v1/tail");
    reveal_strlit("/v1/stats/llm");
    reveal_strlit("/v1/stats/series");
    reveal_strlit("/v1/stats/duration");
    reveal_strlit("/v1/stats/failures");
    reveal_strlit("/v1/stats/slowest");
    reveal_strlit("/v1/mcp");
    reveal_strlit("GET");
    reveal_strlit("POST");
}

/// Where a `POST` goes: to the ingest of spans or of traces, to a flush, a
/// checkpoint, an erasure or an annotation, each under its own path.
pub proof fn law_where_a_post_goes(target: Seq<char>, content_type: Seq<char>, body: Seq<u8>)
    ensures
        ({
            let path = target_parts(target).0;
            let r = plan_of("POST"@, target, content_type, body);
            let binary = starts_with(content_type, "application/x-protobuf"@);
            &&& path == "/v1/spans"@ ==> r == PlanView::Run(ActionView::IngestSpans)
            &&& path == "/v1/traces"@ ==> r == PlanView::Run(
                ActionView::IngestOtlp { protobuf: binary },
            )
            &&& path == "/v1/flush"@ ==> r == PlanView::Run(ActionView::Flush)
            &&& path == "/v1/checkpoint"@ ==> r == PlanView::Run(ActionView::Checkpoint)
            &&& path == "/v1/erasures"@ ==> r == erase_plan(body)
            &&& path == "/v1/annotations"@ ==> r == PlanView::Run(ActionView::Annotate)
            &&& path == "/v1/mcp"@ ==> r == PlanView::Run(ActionView::Mcp)
        }),
{
    lemma_paths();
    let path = target_parts(target).0;
    assert(ENDPOINT@ == "/v1/mcp"@);
    if starts_with(path, "/v1/backups/"@) {
        assert(path.take(12)[4] == path[4]);
    }
}

/// What a `POST` below the backups does: with `/release` behind it the label is
/// released, and otherwise pinned.
pub proof fn law_backups(label: Seq<char>, content_type: Seq<char>, body: Seq<u8>)
    requires
        !label.contains('?'),
    ensures
        plan_of("POST"@, "/v1/backups/"@ + label + "/release"@, content_type, body)
            == PlanView::Run(ActionView::ReleaseBackup { label }),
        !ends_with(label, "/release"@) ==> plan_of(
            "POST"@,
            "/v1/backups/"@ + label,
            content_type,
            body,
        ) == PlanView::Run(ActionView::PinBackup { label }),
{
    lemma_paths();
    reveal_strlit("/v1/backups/");
    reveal_strlit("/release");
    let front = "/v1/backups/"@;
    let whole = front + label + "/release"@;
    let rest = label + "/release"@;
    assert(whole =~= front + rest);
    assert(!whole.contains('?')) by {
        if whole.contains('?') {
            let i = choose|i: int| 0 <= i < whole.len() && whole[i] == '?';
            if i < front.len() {
                assert(front[i] == '?');
            } else if i < front.len() + label.len() {
                assert(label[i - front.len()] == '?');
            } else {
                assert("/release"@[i - front.len() - label.len()] == '?');
            }
        }
    }
    let pinned = front + label;
    assert(!pinned.contains('?')) by {
        if pinned.contains('?') {
            let i = choose|i: int| 0 <= i < pinned.len() && pinned[i] == '?';
            if i < front.len() {
                assert(front[i] == '?');
            } else {
                assert(label[i - front.len()] == '?');
            }
        }
    }
    crate::http::law_targets(whole, seq![], seq![], seq![]);
    crate::http::law_targets(pinned, seq![], seq![], seq![]);
    crate::text::law_prefixes(front, rest, whole);
    crate::text::law_prefixes(front, label, pinned);
    crate::text::law_prefixes("/release"@, label, rest);
    assert(rest.take(rest.len() - 8) =~= label);
    assert(whole[4] == 'b' && pinned[4] == 'b');
    assert(ENDPOINT@ == "/v1/mcp"@);
}

/// An erasure is asked for with a body that holds its subject; any other body is
/// refused.
pub proof fn law_erasure_bodies(body: Seq<u8>)
    ensures
        ({
            let document = json_document(body);
            let r = erase_plan(body);
            &&& document is Err ==> r is Answer && r->Answer_0.status == 400
            &&& document is Ok && document->Ok_0.field("subject"@) is Some ==> r == PlanView::Run(
                ActionView::Erase { subject: document->Ok_0.field("subject"@)->0 },
            )
            &&& document is Ok && document->Ok_0.field("subject"@) is None ==> r is Answer
                && r->Answer_0.status == 400
        }),
{
}

/// Where a `GET` goes: each endpoint under its own path, with the parameters it
/// takes.
pub proof fn law_where_a_get_goes(target: Seq<char>, content_type: Seq<char>, body: Seq<u8>)
    ensures
        ({
            let path = target_parts(target).0;
            let query = target_parts(target).1;
            let r = plan_of("GET"@, target, content_type, body);
            &&& path == "/v1/verify"@ ==> r == PlanView::Run(ActionView::Verify)
            &&& path == "/v1/erasures"@ ==> r == PlanView::Run(ActionView::ListErasures)
            &&& path == "/v1/spans"@ ==> r == search_plan(query)
            &&& path == "/v1/metrics.json"@ ==> r == PlanView::Run(ActionView::MetricsJson)
            &&& path == "/v1/metrics"@ ==> r == PlanView::Run(ActionView::Metrics)
            &&& path == "/v1/stats"@ ==> r == PlanView::Run(ActionView::Stats)
            &&& path == "/v1/sessions"@ ==> r == sessions_plan(query)
            &&& path == "/v1/annotations"@ ==> r == annotations_plan(query)
            &&& path == "/v1/export"@ ==> r == export_plan(query)
            &&& path == "/v1/tail"@ ==> r == tail_plan(query)
            &&& path == "/v1/stats/llm"@ ==> r == llm_plan(query)
            &&& path == "/v1/stats/series"@ ==> r == series_plan(query)
            &&& path == "/v1/stats/duration"@ ==> r == duration_plan(query)
            &&& path == "/v1/stats/failures"@ ==> r == failures_plan(query)
            &&& path == "/v1/stats/slowest"@ ==> r == slowest_plan(query)
        }),
{
    lemma_paths();
    assert(ENDPOINT@ == "/v1/mcp"@);
}

/// What a `GET` of one thing asks for: an erasure by its number, with `/verify`
/// behind it to verify it, and a trace, a session or a payload by its id, with
/// the id's escapes resolved.
pub proof fn law_lookups(id: Seq<char>, n: u64)
    requires
        u64_of(id) == Some(n),
        !ends_with(id, "/verify"@),
    ensures
        lookup_plan("/v1/erasures/"@ + id) == Some(
            PlanView::Run(ActionView::ErasureStatus { id: n }),
        ),
        lookup_plan("/v1/erasures/"@ + id + "/verify"@) == Some(
            PlanView::Run(ActionView::VerifyErasure { id: n }),
        ),
        lookup_plan("/v1/traces/"@ + id) == Some(
            PlanView::Run(ActionView::Trace { id: decoded(id) }),
        ),
        lookup_plan("/v1/sessions/"@ + id) == Some(
            PlanView::Run(ActionView::Session { id: decoded(id) }),
        ),
        lookup_plan("/v1/payloads/"@ + id) == Some(
            PlanView::Run(ActionView::Payload { reference: decoded(id) }),
        ),
{
    reveal_strlit("/v1/erasures/");
    reveal_strlit("/v1/traces/");
    reveal_strlit("/v1/sessions/");
    reveal_strlit("/v1/payloads/");
    reveal_strlit("/verify");
    let e = "/v1/erasures/"@;
    let t = "/v1/traces/"@;
    let s = "/v1/sessions/"@;
    let p = "/v1/payloads/"@;
    let check = id + "/verify"@;
    crate::text::law_prefixes(e, id, id);
    crate::text::law_prefixes(e, check, id);
    crate::text::law_prefixes(t, id, id);
    crate::text::law_prefixes(s, id, id);
    crate::text::law_prefixes(p, id, id);
    crate::text::law_prefixes("/verify"@, id, check);
    assert(e + id + "/verify"@ =~= e + check);
    assert(check.take(check.len() - 7) =~= id);
    assert((t + id)[4] == 't' && (s + id)[4] == 's' && (p + id)[4] == 'p');
    assert(forall|x: Seq<char>| #[trigger] starts_with(x, e) ==> x[4] == 'e') by {
        assert forall|x: Seq<char>| #[trigger] starts_with(x, e) implies x[4] == 'e' by {
            assert(x.take(13)[4] == x[4]);
        }
    }
    assert(forall|x: Seq<char>| #[trigger] starts_with(x, t) ==> x[4] == 't') by {
        assert forall|x: Seq<char>| #[trigger] starts_with(x, t) implies x[4] == 't' by {
            assert(x.take(11)[4] == x[4]);
        }
    }
    assert(forall|x: Seq<char>| #[trigger] starts_with(x, s) ==> x[4] == 's') by {
        assert forall|x: Seq<char>| #[trigger] starts_with(x, s) implies x[4] == 's' by {
            assert(x.take(13)[4] == x[4]);
        }
    }
}

/// What the endpoints make of their parameters: sessions are listed a hundred at
/// a time where nothing is said, usage is grouped by model, a series has 24
/// buckets, failures come a hundred at a time and the slowest spans ten; a
/// series without a window, or with one that ends before it begins, is refused.
pub proof fn law_defaults(query: Seq<char>)
    ensures
        read_of::<AnalyticsQuery>(parameters(query)) matches Ok(q) ==> {
            &&& q.group_by is None ==> sessions_plan(query) == PlanView::Run(
                ActionView::Sessions {
                    since: q.since,
                    until: q.until,
                    limit: if q.limit is Some {
                        q.limit->0
                    } else {
                        100
                    },
                },
            )
            &&& q.group_by is Some ==> sessions_plan(query) is Answer
            &&& q.group_by is None ==> llm_plan(query) == PlanView::Run(
                ActionView::LlmStats {
                    group_by: LlmGroupBy::Model,
                    since: q.since,
                    until: q.until,
                    limit: q.limit,
                },
            )
            &&& q.group_by is Some && LlmGroupBy::named(q.group_by->0) is Some ==> llm_plan(query)
                == PlanView::Run(
                ActionView::LlmStats {
                    group_by: LlmGroupBy::named(q.group_by->0)->0,
                    since: q.since,
                    until: q.until,
                    limit: q.limit,
                },
            )
            &&& q.group_by is Some && LlmGroupBy::named(q.group_by->0) is None ==> llm_plan(
                query,
            ) is Answer
        },
        read_of::<AnalyticsQuery>(parameters(query)) matches Err(message) ==> sessions_plan(query)
            == PlanView::Answer(failure(400, message)) && llm_plan(query) == PlanView::Answer(
            failure(400, message),
        ),
        series_of(parameters(query)) matches Ok(s) ==> {
            &&& s.window is None ==> series_plan(query) is Answer
            &&& s.window is Some && (s.window->0).1 <= (s.window->0).0 ==> series_plan(
                query,
            ) is Answer
            &&& s.window is Some && (s.window->0).0 < (s.window->0).1 ==> series_plan(query)
                == PlanView::Run(
                ActionView::Series {
                    filter: s.filter,
                    since_ns: (s.window->0).0,
                    until_ns: (s.window->0).1,
                    buckets: if s.buckets is Some {
                        s.buckets->0
                    } else {
                        24
                    },
                },
            )
        },
        read_of::<SpanQuery>(parameters(query)) matches Ok(q) ==> {
            &&& search_plan(query) == PlanView::Run(ActionView::Search { query: q })
            &&& duration_plan(query) == PlanView::Run(ActionView::Duration { filter: q.filter })
            &&& failures_plan(query) == PlanView::Run(
                ActionView::Failures {
                    filter: q.filter,
                    limit: if q.filter.limit is Some {
                        q.filter.limit->0
                    } else {
                        100
                    },
                },
            )
            &&& slowest_plan(query) == PlanView::Run(
                ActionView::Slowest {
                    filter: q.filter,
                    limit: if q.filter.limit is Some {
                        q.filter.limit->0
                    } else {
                        10
                    },
                },
            )
        },
        read_of::<SpanQuery>(parameters(query)) matches Err(message) ==> {
            &&& search_plan(query) == PlanView::Answer(failure(400, message))
            &&& duration_plan(query) == PlanView::Answer(failure(400, message))
            &&& failures_plan(query) == PlanView::Answer(failure(400, message))
            &&& slowest_plan(query) == PlanView::Answer(failure(400, message))
        },
        read_of::<AnnotationSearch>(parameters(query)) matches Ok(q) ==> annotations_plan(query)
            == PlanView::Run(ActionView::SearchAnnotations { query: q }),
        tail_of(parameters(query)) matches Ok(t) ==> tail_plan(query) == PlanView::Run(
            ActionView::Tail { request: t },
        ),
        export_of(query) matches Ok(e) ==> export_plan(query) == PlanView::Run(
            ActionView::Export { request: e },
        ),
{
}

/// What a caller sees of a plan is what it says.
pub proof fn law_a_plan_shows_its_action(a: Action)
    ensures
        a is Mcp <==> a@ is Mcp,
        a is IngestSpans <==> a@ is IngestSpans,
        a is IngestOtlp <==> a@ is IngestOtlp,
        a is Flush <==> a@ is Flush,
        a is Checkpoint <==> a@ is Checkpoint,
        a is Verify <==> a@ is Verify,
        a is ReleaseBackup <==> a@ is ReleaseBackup,
        a is PinBackup <==> a@ is PinBackup,
        a is Erase <==> a@ is Erase,
        a is ListErasures <==> a@ is ListErasures,
        a is VerifyErasure <==> a@ is VerifyErasure,
        a is ErasureStatus <==> a@ is ErasureStatus,
        a is Search <==> a@ is Search,
        a is MetricsJson <==> a@ is MetricsJson,
        a is Metrics <==> a@ is Metrics,
        a is Stats <==> a@ is Stats,
        a is Trace <==> a@ is Trace,
        a is Sessions <==> a@ is Sessions,
        a is Session <==> a@ is Session,
        a is Annotate <==> a@ is Annotate,
        a is SearchAnnotations <==> a@ is SearchAnnotations,
        a is Payload <==> a@ is Payload,
        a is Export <==> a@ is Export,
        a is Tail <==> a@ is Tail,
        a is LlmStats <==> a@ is LlmStats,
        a is Series <==> a@ is Series,
        a is Duration <==> a@ is Duration,
        a is Failures <==> a@ is Failures,
        a is Slowest <==> a@ is Slowest,
{
}

} // verus!
