//! What the server decides about requests, and what it answers.

use traza::answers::{
    annotated, batch_defect, checkpointed, document, erased, erasure_status, erasure_verified, fail,
    flushed, ingested, listed, llm_rows, otlp_ingested, payload_answer, pinned, released, searched,
    session_answer, span_shape, stats_answer, subject_refused, trace_answer, verified, Answer,
    DurationReport, EngineError, FoundTrace, OtlpAnswer, Page, PayloadAnswer, Pinned, SpanShape,
    StorageStats,
};
use traza::args::{Durability, Limits, McpOptions, Profile};
use traza::auth::{AuthConfig, AuthFailure};
use traza::commands::{
    bridge_failure, bridge_path, choose_erasure, duties, owned_directory, forward_head, forward_reply,
    is_loopback_bind, mcp_notice, parse_bridge, parse_verify, profile_notice, split_url,
    startup_refusal, verify_exit, BridgeCommand, NoErasure, UrlDefect, VerifyCommand,
};
use traza::connection::{
    cut_short, handle_head, head_refused, receive_arrival, ui_path, Arrival, Connection, Gate,
    HeadEnd, HeadStep, MAX_REFUSAL_THREADS,
};
use traza::filter::{float_text, SpanCursor, SpanSort, TailCursor};
use traza::http::{HeadDefect, RequestHead};
use traza::json::{read_json, Json};
use traza::latency::Latency;
use traza::mcp::{authority_host, origin_allowed, serve_mcp, Access, McpGate, McpRequest};
use traza::metrics::{RouteClass, ServerMetrics};
use traza::queries::{
    analytics_query, annotation_query, export_query_from, filter_from_query, series_query_from,
    span_query_from, tail_query_from, DEFAULT_TAIL_BACKFILL,
};
use traza::responses::{
    accepted_head, denial, file_head, finish_export, hexadecimal, json_head, metrics_head,
    payload_head, protobuf_head, reason, refusal, write_chunk,
};
use traza::routes::{serve_request, Action, Plan};
use traza::span::{Facts, Span};
use traza::streams::{
    gap_frame, spans_frame, tail_limit, Export, ExportStep, Tail, TailFrame, EXPORT_PAGE,
};

fn show(value: &Json) -> String {
    match value {
        Json::Null => "null".to_owned(),
        Json::Bool(b) => b.to_string(),
        Json::Number(n) => n.clone(),
        Json::Text(t) => format!("{t:?}"),
        Json::Array(items) => {
            let shown: Vec<String> = items.iter().map(show).collect();
            format!("[{}]", shown.join(","))
        }
        Json::Object(entries) => {
            let shown: Vec<String> = entries
                .iter()
                .map(|(key, value)| format!("{key:?}:{}", show(value)))
                .collect();
            format!("{{{}}}", shown.join(","))
        }
    }
}

fn answer(a: &Answer) -> String {
    format!("{} {}", a.status, show(&a.body))
}

fn texts(argv: &[&str]) -> Vec<String> {
    argv.iter().map(|arg| (*arg).to_owned()).collect()
}

fn failed() -> EngineError {
    EngineError::Other("disk full".to_owned())
}

// ------------------------------------------------------------------------ routes

fn planned(method: &str, target: &str, body: &str) -> Plan {
    serve_request(method, target, "application/json", body.as_bytes())
}

fn told(plan: Plan) -> String {
    match plan {
        Plan::Answer(a) => answer(&a),
        Plan::Run(action) => panic!("runs {action:?}"),
    }
}

fn action(plan: Plan) -> Action {
    match plan {
        Plan::Answer(a) => panic!("answers {}", answer(&a)),
        Plan::Run(action) => action,
    }
}

#[test]
fn every_route_has_its_action() {
    assert!(matches!(action(planned("POST", "/v1/spans", "")), Action::IngestSpans));
    assert!(matches!(
        action(planned("POST", "/v1/traces", "")),
        Action::IngestOtlp { protobuf: false }
    ));
    assert!(matches!(
        action(serve_request("POST", "/v1/traces", "application/x-protobuf; v=1", b"")),
        Action::IngestOtlp { protobuf: true }
    ));
    assert!(matches!(action(planned("POST", "/v1/flush", "")), Action::Flush));
    assert!(matches!(action(planned("POST", "/v1/checkpoint", "")), Action::Checkpoint));
    assert!(matches!(action(planned("GET", "/v1/verify", "")), Action::Verify));
    assert!(matches!(action(planned("GET", "/v1/erasures", "")), Action::ListErasures));
    assert!(matches!(action(planned("GET", "/v1/metrics", "")), Action::Metrics));
    assert!(matches!(action(planned("GET", "/v1/metrics.json", "")), Action::MetricsJson));
    assert!(matches!(action(planned("GET", "/v1/stats", "")), Action::Stats));
    assert!(matches!(action(planned("POST", "/v1/annotations", "")), Action::Annotate));
    assert!(matches!(action(planned("PUT", "/v1/mcp", "")), Action::Mcp));
    match action(planned("POST", "/v1/backups/nightly", "")) {
        Action::PinBackup { label } => assert_eq!(label, "nightly"),
        other => panic!("{other:?}"),
    }
    match action(planned("POST", "/v1/backups/nightly/release", "")) {
        Action::ReleaseBackup { label } => assert_eq!(label, "nightly"),
        other => panic!("{other:?}"),
    }
    match action(planned("GET", "/v1/traces/a%2Fb", "")) {
        Action::Trace { id } => assert_eq!(id, "a/b"),
        other => panic!("{other:?}"),
    }
    match action(planned("GET", "/v1/sessions/s+1", "")) {
        Action::Session { id } => assert_eq!(id, "s 1"),
        other => panic!("{other:?}"),
    }
    match action(planned("GET", "/v1/payloads/sha256/ab", "")) {
        Action::Payload { reference } => assert_eq!(reference, "sha256/ab"),
        other => panic!("{other:?}"),
    }
}

#[test]
fn unknown_routes_and_methods_find_nothing() {
    for (method, target) in [
        ("GET", "/v1/nothing"),
        ("POST", "/v1/stats"),
        ("DELETE", "/v1/spans"),
        ("PUT", "/v1/flush"),
    ] {
        assert_eq!(told(planned(method, target, "")), "404 {\"error\":\"not found\"}");
    }
}

#[test]
fn an_erasure_has_one_verb() {
    match action(planned("POST", "/v1/erasures", "{\"subject\":{\"kind\":\"trace\"}}")) {
        Action::Erase { subject } => assert_eq!(show(&subject), "{\"kind\":\"trace\"}"),
        other => panic!("{other:?}"),
    }
    assert!(told(planned("POST", "/v1/erasures", "{}")).starts_with("400 "));
    assert!(told(planned("POST", "/v1/erasures", "{")).starts_with("400 "));
    assert!(matches!(
        action(planned("GET", "/v1/erasures/7", "")),
        Action::ErasureStatus { id: 7 }
    ));
    assert!(matches!(
        action(planned("GET", "/v1/erasures/7/verify", "")),
        Action::VerifyErasure { id: 7 }
    ));
    assert_eq!(
        told(planned("GET", "/v1/erasures/x", "")),
        "400 {\"error\":\"erasure ids are decimal integers\"}"
    );
}

#[test]
fn a_series_needs_a_window() {
    assert_eq!(
        told(planned("GET", "/v1/stats/series", "")),
        "400 {\"error\":\"since and until are required for a series\"}"
    );
    assert_eq!(
        told(planned("GET", "/v1/stats/series?since=5&until=5", "")),
        "400 {\"error\":\"until must be after since\"}"
    );
    match action(planned("GET", "/v1/stats/series?since=5&until=9", "")) {
        Action::Series { since_ns, until_ns, buckets, .. } => {
            assert_eq!((since_ns, until_ns, buckets), (5, 9, 24));
        }
        other => panic!("{other:?}"),
    }
}

// ----------------------------------------------------------------------- queries

#[test]
fn a_search_reads_its_parameters() {
    let query = span_query_from(
        "service=api&status=error&attr.http.method=GET&min_duration_ms=2&limit=7&since=3&until=9",
    )
    .expect("a query");
    assert_eq!(query.filter.service.as_deref(), Some("api"));
    assert_eq!(query.filter.status.as_deref(), Some("error"));
    assert_eq!(query.filter.min_duration_ns, Some(2_000_000));
    assert_eq!(query.filter.limit, Some(7));
    assert_eq!(query.filter.attributes.len(), 1);
    assert!(query.cursor.is_none());
}

#[test]
fn unknown_and_malformed_parameters_are_refused() {
    assert!(span_query_from("bogus=1").expect_err("unknown").contains("bogus"));
    assert!(span_query_from("limit=x").is_err());
    assert!(span_query_from("sort=sideways").is_err());
    assert!(span_query_from("cursor=nonsense").is_err());
    assert!(analytics_query("since=x").is_err());
    assert!(annotation_query("bogus=1").is_err());
    assert!(filter_from_query("bogus=1").is_err());
    assert!(series_query_from("buckets=x").is_err());
    assert!(tail_query_from("cursor=x").is_err());
    assert!(export_query_from("bogus=1").is_err());
}

#[test]
fn a_tail_and_an_export_have_their_own_defaults() {
    let tail = tail_query_from("service=api").expect("a tail");
    assert_eq!(tail.backfill, DEFAULT_TAIL_BACKFILL);
    assert!(tail.cursor.is_none());
    assert_eq!(tail.filter.service.as_deref(), Some("api"));
    let export = export_query_from("service=api").expect("an export");
    assert_eq!(export.user_limit, None);
    let export = export_query_from("limit=10").expect("an export");
    assert_eq!(export.user_limit, Some(10));
}

#[test]
fn an_annotation_search_reads_its_parameters() {
    let search = annotation_query("trace_id=t&name=score&limit=3").expect("a search");
    assert_eq!(search.trace_id.as_deref(), Some("t"));
    assert_eq!(search.name.as_deref(), Some("score"));
    assert_eq!(search.limit, Some(3));
}

#[test]
fn cursors_read_back() {
    let cursor = SpanCursor {
        start_ns: 5,
        end_ns: 9,
        trace_id: "a:b".to_owned(),
        span_id: "c d".to_owned(),
    };
    let read = SpanCursor::from_token(&cursor.to_token()).expect("reads back");
    assert_eq!(read.start_ns, 5);
    assert_eq!(read.end_ns, 9);
    assert_eq!(read.trace_id, "a:b");
    assert_eq!(read.span_id, "c d");
    assert!(SpanCursor::from_token("").is_none());
    let tail = TailCursor { sequence: 17 };
    assert_eq!(TailCursor::parse(&tail.to_token()).expect("reads back").sequence, 17);
    assert!(TailCursor::parse("x").is_none());
}

#[test]
fn sorts_and_floats_are_recognised() {
    assert!(SpanSort::parse("nonsense").is_none());
    assert!(SpanSort::parse("duration").is_some());
    for text in ["1", "-1.5", "1e9", ".5", "5.", "inf", "NaN", "+infinity"] {
        assert!(float_text(text), "{text}");
        assert!(text.parse::<f64>().is_ok(), "{text}");
    }
    for text in ["", ".", "1e", "x", "1.2.3", "- 1"] {
        assert!(!float_text(text), "{text}");
        assert!(text.parse::<f64>().is_err(), "{text}");
    }
}

// ----------------------------------------------------------------------- answers

fn span(trace: &str, id: &str) -> Span {
    Span {
        trace_id: trace.to_owned(),
        span_id: id.to_owned(),
        parent_span_id: None,
        tenant: String::new(),
        name: "n".to_owned(),
        service: "s".to_owned(),
        status: "ok".to_owned(),
        start_time_ns: 1,
        end_time_ns: 2,
        attributes: vec![],
        events: vec![],
        links: vec![],
        facts: Facts::none(),
    }
}

#[test]
fn ingest_is_answered() {
    assert_eq!(
        answer(&ingested(Ok(()), 3, Durability::Wal)),
        "200 {\"accepted\":3,\"durability\":\"wal\"}"
    );
    assert_eq!(
        answer(&ingested(Err(EngineError::Invalid("bad".to_owned())), 3, Durability::Wal)),
        "503 {\"error\":\"bad\"}"
    );
    assert!(answer(&ingested(Err(failed()), 3, Durability::Wal)).starts_with("503 "));
    assert!(matches!(otlp_ingested(Ok(()), true), OtlpAnswer::Protobuf));
    assert!(matches!(otlp_ingested(Ok(()), false), OtlpAnswer::Json(a) if a.status == 200));
    assert!(batch_defect(&vec![span("t", "s")]).is_none());
    assert_eq!(
        answer(&batch_defect(&vec![span("t", "s"), span("", "x")]).expect("a defect")),
        "400 {\"error\":\"span 1: trace_id is empty\"}"
    );
    assert_eq!(
        answer(&batch_defect(&vec![span("t", "")]).expect("a defect")),
        "400 {\"error\":\"span 0: span_id is empty\"}"
    );
    assert!(matches!(span_shape(b"  [1]"), Some(SpanShape::Array)));
    assert!(matches!(span_shape(b"\n{}"), Some(SpanShape::Envelope)));
    assert!(span_shape(b"7").is_none());
    assert!(span_shape(b"").is_none());
}

#[test]
fn maintenance_is_answered() {
    assert_eq!(flushed(Ok(())).status, 200);
    assert!(answer(&flushed(Err(failed()))).contains("disk full"));
    assert_eq!(checkpointed(Ok(4)).status, 200);
    assert_eq!(
        answer(&verified(3, Ok(vec![]))),
        "200 {\"generation\":3,\"intact\":true,\"problems\":[]}"
    );
    assert_eq!(
        answer(&verified(3, Ok(vec!["torn".to_owned()]))),
        "200 {\"generation\":3,\"intact\":false,\"problems\":[\"torn\"]}"
    );
    assert_eq!(released("a", Ok(())).status, 200);
    let whole = Pinned { generation: 2, check: Ok(vec![]) };
    assert!(answer(&pinned("a", "/p", Ok(whole))).starts_with("201 "));
    let broken = Pinned { generation: 2, check: Ok(vec!["torn".to_owned()]) };
    assert_eq!(
        answer(&pinned("a", "/p", Ok(broken))),
        "500 {\"error\":\"the pinned backup does not verify\",\"problems\":[\"torn\"]}"
    );
    assert_eq!(pinned("a", "/p", Err(failed())).status, 409);
}

#[test]
fn erasures_are_answered() {
    assert_eq!(subject_refused("no kind").status, 400);
    assert_eq!(erased(Ok(Json::Bool(true))).status, 200);
    assert_eq!(
        answer(&erased(Err(EngineError::Invalid("empty".to_owned())))),
        "400 {\"error\":\"empty\"}"
    );
    assert_eq!(
        answer(&listed("erasures", Ok(Json::Null))),
        "200 {\"erasures\":null}"
    );
    assert_eq!(
        erasure_verified(Err(EngineError::NotFound("no".to_owned()))).status,
        404
    );
    assert_eq!(erasure_status(9, Ok(None)).status, 404);
    assert_eq!(answer(&erasure_status(9, Ok(Some(Json::Null)))), "200 null");
}

#[test]
fn reads_are_answered() {
    let page = |count: usize, last: Option<SpanCursor>| Page {
        spans: (0..count).map(|_| Json::Null).collect(),
        last,
        elapsed_ns: 5,
        segments_examined: 2,
        segments_pruned: 1,
    };
    let last = || {
        Some(SpanCursor {
            start_ns: 1,
            end_ns: 2,
            trace_id: "t".to_owned(),
            span_id: "s".to_owned(),
        })
    };
    assert_eq!(
        answer(&searched(Some(2), Ok(page(1, last())))),
        "200 {\"spans\":[null],\"next_cursor\":null,\"cost\":{\"elapsed_ns\":5,\"segments_examined\":2,\"segments_pruned\":1}}"
    );
    let token = last().expect("a cursor").to_token();
    assert!(answer(&searched(Some(2), Ok(page(2, last())))).contains(&format!("{token:?}")));
    assert_eq!(
        searched(Some(2), Err(EngineError::TooBroad("narrow it".to_owned()))).status,
        400
    );
    let none = FoundTrace { spans: vec![], annotations: Json::Null };
    assert_eq!(trace_answer("t", Ok(none)).status, 404);
    let found = FoundTrace { spans: vec![Json::Null], annotations: Json::Array(vec![]) };
    assert_eq!(trace_answer("t", Ok(found)).status, 200);
    assert_eq!(session_answer(Ok(None)).status, 404);
    assert_eq!(annotated(Err(EngineError::Invalid("x".to_owned()))).status, 400);
    assert_eq!(annotated(Ok(())).status, 200);
    assert!(matches!(payload_answer(Ok(Some(vec![7]))), PayloadAnswer::Bytes(b) if b == [7]));
    assert!(matches!(payload_answer(Ok(None)), PayloadAnswer::Json(a) if a.status == 404));
    assert_eq!(document(Ok(Json::Null)).status, 200);
    let rows = vec![Json::Bool(true), Json::Bool(false)];
    assert!(answer(&llm_rows(Some(1), Ok(rows))).contains("[true]"));
    assert_eq!(answer(&fail(418, "no")), "418 {\"error\":\"no\"}");
}

#[test]
fn statistics_are_answered() {
    let stats = StorageStats {
        total_records: 10,
        segment_count: 2,
        disk_bytes: 300,
        buffered_records: 4,
        persisted_records: 6,
        durability: Durability::Buffered,
        wal_bytes: 0,
        buffer_age_seconds: None,
    };
    let shown = answer(&stats_answer(Ok(stats)));
    assert!(shown.contains("\"record_count\":10"), "{shown}");
    assert!(shown.contains("\"durability\":\"buffered\""), "{shown}");
    let report = DurationReport {
        count: 1,
        min_ns: 1,
        max_ns: 1,
        mean_ns: 1,
        p50_ns: 1,
        p75_ns: 1,
        p90_ns: 1,
        p95_ns: 1,
        p99_ns: 1,
        occupied: vec![(1, 1)],
    };
    assert_eq!(traza::answers::duration_answer(Ok(report)).status, 200);
    assert_eq!(traza::answers::duration_answer(Err(failed())).status, 503);
}

// -------------------------------------------------------------------- connections

fn request(text: &str) -> RequestHead {
    let mut connection = Connection::new();
    connection.receive(text.as_bytes());
    match connection.read_head() {
        HeadStep::Ready(head) => head,
        other => panic!("{other:?}"),
    }
}

#[test]
fn a_connection_reads_requests_one_by_one() {
    let mut connection = Connection::new();
    assert_eq!(connection.head_end(), HeadEnd::Clean);
    connection.receive(b"POST /v1/spans HTTP/1.1\r\nContent-Le");
    assert!(matches!(connection.read_head(), HeadStep::More));
    assert_eq!(connection.head_end(), HeadEnd::Incomplete);
    connection.receive(b"ngth: 4\r\n\r\nab");
    let head = match connection.read_head() {
        HeadStep::Ready(head) => head,
        other => panic!("{other:?}"),
    };
    assert!(connection.read_body(&head).is_none());
    connection.receive(b"cdGET / HTTP/1.1\r\n\r\n");
    assert_eq!(connection.read_body(&head).as_deref(), Some(b"abcd".as_slice()));
    match connection.read_head() {
        HeadStep::Ready(head) => assert_eq!(head.method, "GET"),
        other => panic!("{other:?}"),
    }
}

#[test]
fn a_refused_head_is_answered() {
    let mut connection = Connection::new();
    connection.receive(b"GET / HTTP/1.1\r\nTransfer-Encoding: chunked\r\n\r\n");
    match connection.read_head() {
        HeadStep::Refused(defect) => {
            assert_eq!(defect, HeadDefect::TransferEncoded);
            assert_eq!(head_refused(defect).status, 400);
        }
        other => panic!("{other:?}"),
    }
    assert_eq!(answer(&cut_short(true)), "400 {\"error\":\"incomplete body\"}");
    assert_eq!(answer(&cut_short(false)), "400 {\"error\":\"incomplete request\"}");
}

#[test]
fn a_head_is_let_through_or_not() {
    let get = request("GET /v1/stats HTTP/1.1\r\n\r\n");
    assert_eq!(ui_path(&get).as_deref(), Some("/v1/stats"));
    match handle_head(&get, false, "ui", None) {
        Gate::Serve { access, keep_alive } => {
            assert_eq!(access, Access::ReadWrite);
            assert!(keep_alive);
        }
        other => panic!("{other:?}"),
    }
    let auth = AuthConfig::parse("ro:reader,rw:writer").expect("a configuration");
    assert!(matches!(
        handle_head(&get, false, "ui", Some(&auth)),
        Gate::Denied { .. }
    ));
    let read = request("GET /v1/stats HTTP/1.1\r\nAuthorization: Bearer reader\r\n\r\n");
    assert!(matches!(
        handle_head(&read, false, "ui", Some(&auth)),
        Gate::Serve { .. }
    ));
    let tool = request("POST /v1/mcp HTTP/1.1\r\nAuthorization: Bearer reader\r\n\r\n");
    assert!(matches!(
        handle_head(&tool, false, "ui", Some(&auth)),
        Gate::Serve { access: Access::Read, .. }
    ));
    let write = request("POST /v1/flush HTTP/1.1\r\nAuthorization: Bearer reader\r\n\r\n");
    assert!(matches!(
        handle_head(&write, false, "ui", Some(&auth)),
        Gate::Denied { .. }
    ));
    assert!(matches!(
        handle_head(&get, true, "ui", Some(&auth)),
        Gate::File { keep_alive: true }
    ));
    let unread = request("GET /x.js HTTP/1.1\r\nContent-Length: 5\r\n\r\n");
    assert!(matches!(
        handle_head(&unread, true, "ui", None),
        Gate::File { keep_alive: false }
    ));
    let page = request("GET /dashboard HTTP/1.1\r\n\r\n");
    assert!(matches!(
        handle_head(&page, false, "ui", None),
        Gate::NoDashboard { .. }
    ));
}

#[test]
fn erasing_needs_a_token_that_was_issued_for_it() {
    let auth = AuthConfig::parse("ro:reader,rw:writer,admin:root").expect("a configuration");
    let asked = |line: &str, token: &str| {
        request(&format!("{line} HTTP/1.1\r\nAuthorization: Bearer {token}\r\n\r\n"))
    };
    let served = |line: &str, token: &str| {
        matches!(
            handle_head(&asked(line, token), false, "ui", Some(&auth)),
            Gate::Serve { .. }
        )
    };
    assert!(served("POST /v1/erasures", "root"));
    assert!(!served("POST /v1/erasures", "writer"));
    assert!(!served("POST /v1/erasures?x=1", "writer"));
    assert!(!served("POST /v1/erasures", "reader"));
    assert!(served("GET /v1/erasures", "reader"));
    assert!(served("POST /v1/spans", "writer"));
    match handle_head(&asked("POST /v1/erasures", "writer"), false, "ui", Some(&auth)) {
        Gate::Denied { response } => assert!(response.starts_with("HTTP/1.1 403 Forbidden\r\n")),
        other => panic!("{other:?}"),
    }
    assert!(matches!(
        handle_head(&asked("POST /v1/erasures", "writer"), false, "ui", None),
        Gate::Serve { .. }
    ));
}

#[test]
fn arrivals_are_served_refused_or_dropped() {
    assert_eq!(receive_arrival(3, 4, 0), Arrival::Serve);
    assert_eq!(receive_arrival(4, 4, 0), Arrival::Refuse);
    assert_eq!(receive_arrival(4, 4, MAX_REFUSAL_THREADS), Arrival::Drop);
}

// ---------------------------------------------------------------------- responses

#[test]
fn heads_are_written() {
    let head = json_head(404, 5, true);
    assert!(head.starts_with("HTTP/1.1 404 Not Found\r\n"), "{head}");
    assert!(head.contains("Content-Length: 5\r\n"), "{head}");
    assert!(head.contains("Connection: keep-alive\r\n"), "{head}");
    assert!(head.ends_with("\r\n\r\n"), "{head}");
    assert!(json_head(200, 5, false).contains("Connection: close\r\n"));
    assert!(accepted_head(true).starts_with("HTTP/1.1 202 "));
    assert!(file_head("text/css", 1, true).contains("Content-Type: text/css"));
    assert!(protobuf_head(true).contains("application/x-protobuf"));
    assert!(metrics_head(1, true).contains("text/plain"));
    assert!(payload_head(1, true).contains("application/octet-stream"));
    assert!(refusal().starts_with("HTTP/1.1 503 "));
    assert!(denial(AuthFailure::Unauthorized).starts_with("HTTP/1.1 401 "));
    assert!(denial(AuthFailure::Forbidden).starts_with("HTTP/1.1 403 "));
    assert_eq!(reason(200), "OK");
}

#[test]
fn chunks_are_framed() {
    assert_eq!(hexadecimal(255), "FF");
    assert_eq!(hexadecimal(0), "0");
    assert_eq!(write_chunk(b"hello, world! 16"), b"10\r\nhello, world! 16\r\n");
    let end = finish_export(true, 12);
    assert!(end.starts_with("0\r\n"), "{end}");
    assert!(end.contains("X-Traza-Export-Count: 12\r\n"), "{end}");
}

// ------------------------------------------------------------------------ streams

#[test]
fn an_export_goes_page_by_page() {
    let mut export = Export::new(Some(5_000));
    assert_eq!(export.step(), ExportStep::Fetch { page_size: EXPORT_PAGE });
    for _ in 0..EXPORT_PAGE {
        export.sent();
    }
    assert_eq!(
        export.after_page(EXPORT_PAGE, EXPORT_PAGE),
        ExportStep::Fetch { page_size: 5_000 - EXPORT_PAGE }
    );
    for _ in EXPORT_PAGE..5_000 {
        export.sent();
    }
    assert_eq!(export.step(), ExportStep::Finish { complete: true });
    let mut short = Export::new(None);
    short.sent();
    assert_eq!(
        short.after_page(1, EXPORT_PAGE),
        ExportStep::Finish { complete: true }
    );
    assert_eq!(short.failed(), ExportStep::Finish { complete: false });
}

#[test]
fn a_tail_moves_its_cursor() {
    let mut tail = Tail::new(None, 200);
    assert_eq!(tail.backfill, 200);
    assert_eq!(tail.batch(false, TailCursor { sequence: 9 }), TailFrame::Spans);
    assert_eq!(tail.cursor.map(|c| c.sequence), Some(9));
    assert_eq!(tail.batch(true, TailCursor { sequence: 9 }), TailFrame::Tick);
    tail.gap();
    assert!(tail.cursor.is_none());
    assert!(spans_frame("[]").ends_with("\n\n"));
    assert!(gap_frame(3).contains('3'));
    assert!(tail_limit(None) > 0);
}

// ------------------------------------------------------------------------ metrics

#[test]
fn requests_are_classed() {
    for (method, path, label) in [
        ("POST", "/v1/spans", "ingest"),
        ("POST", "/v1/traces", "ingest"),
        ("GET", "/v1/spans", "search"),
        ("GET", "/v1/traces/x", "lookup"),
        ("GET", "/v1/stats/llm", "stats"),
        ("GET", "/v1/tail", "stream"),
        ("POST", "/v1/mcp", "mcp"),
        ("POST", "/v1/flush", "other"),
    ] {
        assert_eq!(RouteClass::of(method, path).label(), label, "{method} {path}");
    }
}

#[test]
fn observations_are_counted_and_rendered() {
    let mut metrics = ServerMetrics::new();
    metrics.observe(RouteClass::Ingest, 1_000, 200);
    metrics.observe(RouteClass::Search, 2_000, 404);
    metrics.observe(RouteClass::Search, 3_000, 503);
    assert_eq!(metrics.requests, 3);
    assert_eq!(
        (metrics.status_2xx, metrics.status_4xx, metrics.status_5xx),
        (1, 1, 1)
    );
    let mut text = "# before\n".to_owned();
    metrics.render_prometheus(60, &mut text);
    assert!(text.starts_with("# before\n"));
    assert!(text.contains("traza_http_requests_total 3\n"), "{text}");
}

#[test]
fn a_latency_distribution_is_tight() {
    let mut latency = Latency::new();
    for value in [1_000, 2_000, 3_000, 4_000] {
        latency.record(value);
    }
    assert_eq!(latency.count, 4);
    assert_eq!(latency.max_ns, 4_000);
    assert_eq!(latency.mean_ns(), 2_500);
    let median = latency.percentile_ns(50);
    assert!((2_000..=2_125).contains(&median), "{median}");
    let mut counted = Latency::new();
    counted.count_only();
    assert_eq!(counted.count, 1);
}

// ---------------------------------------------------------------------------- mcp

fn mcp(enabled: bool, origins: &[&str]) -> McpOptions {
    McpOptions {
        enabled,
        annotations: false,
        limits: Limits { max_result_bytes: 4_096, max_payload_bytes: 4_096 },
        allowed_origins: texts(origins),
    }
}

fn message(method: &str, origin: Option<&str>, version: Option<&str>, body: &str) -> McpRequest {
    McpRequest {
        method: method.to_owned(),
        origin: origin.map(str::to_owned),
        version: version.map(str::to_owned),
        body: body.as_bytes().to_vec(),
    }
}

fn status(gate: McpGate) -> u16 {
    match gate {
        McpGate::Refuse(a) => a.status,
        McpGate::Handle(_) => 0,
    }
}

#[test]
fn the_tool_endpoint_is_guarded() {
    let on = mcp(true, &["https://tools.example"]);
    assert_eq!(status(serve_mcp(&mcp(false, &[]), &message("POST", None, None, "{}"))), 404);
    assert_eq!(status(serve_mcp(&on, &message("POST", Some("https://evil"), None, "{}"))), 403);
    assert_eq!(status(serve_mcp(&on, &message("POST", None, Some("1999"), "{}"))), 400);
    assert_eq!(status(serve_mcp(&on, &message("GET", None, None, "{}"))), 405);
    assert_eq!(status(serve_mcp(&on, &message("POST", None, None, "{"))), 400);
    assert_eq!(status(serve_mcp(&on, &message("POST", None, None, "[]"))), 400);
    assert_eq!(
        status(serve_mcp(&on, &message("POST", Some("https://tools.example"), None, "{}"))),
        0
    );
    assert_eq!(
        status(serve_mcp(&on, &message("POST", Some("http://localhost:9"), None, "{}"))),
        0
    );
}

#[test]
fn origins_are_compared_by_host() {
    assert!(origin_allowed("http://127.0.0.1:3000", &vec![]));
    assert!(origin_allowed("http://[::1]:3000", &vec![]));
    assert!(!origin_allowed("null", &vec![]));
    assert!(!origin_allowed("http://localhost.evil", &vec![]));
    assert!(origin_allowed("https://a.example", &texts(&["https://a.example"])));
    assert_eq!(authority_host("[::1]:80"), "::1");
    assert_eq!(authority_host("host:80"), "host");
}

// ----------------------------------------------------------------------- commands

#[test]
fn the_verify_command_is_read() {
    match parse_verify(&texts(&["--data-dir", "d", "--erasure", "latest", "--json"])) {
        Ok(VerifyCommand::Verify { data_dir, erasure, as_json }) => {
            assert_eq!((data_dir.as_str(), erasure.as_str(), as_json), ("d", "latest", true));
        }
        other => panic!("{other:?}"),
    }
    assert!(matches!(parse_verify(&texts(&["--help"])), Ok(VerifyCommand::Help)));
    assert!(parse_verify(&texts(&["--bogus"])).is_err());
    assert_eq!(choose_erasure("latest", &vec![3, 9, 5]), Ok(5));
    assert_eq!(choose_erasure("7", &vec![]), Ok(7));
    assert_eq!(choose_erasure("latest", &vec![]), Err(NoErasure::NoneRecorded));
    assert_eq!(choose_erasure("x", &vec![1]), Err(NoErasure::NotAnId));
    assert_eq!(
        NoErasure::NoneRecorded.message("latest"),
        "the tombstone log records no erasures"
    );
    assert_eq!(
        NoErasure::NotAnId.message("a\"b"),
        "--erasure takes a decimal id or 'latest' (got \"a\\\"b\")"
    );
    assert!(owned_directory("data").starts_with("data is owned by a live traza-server; "));
    assert_eq!(verify_exit("erased"), 0);
    assert_eq!(verify_exit("residue"), 2);
}

#[test]
fn an_open_bind_needs_tokens() {
    assert!(is_loopback_bind("localhost", false));
    assert!(is_loopback_bind("127.0.0.1", true));
    assert!(!is_loopback_bind("0.0.0.0", false));
    assert!(startup_refusal(false, false, false, "0.0.0.0")
        .expect("refused")
        .contains("0.0.0.0"));
    assert!(startup_refusal(true, false, false, "0.0.0.0").is_none());
    assert!(startup_refusal(false, true, false, "127.0.0.1").is_none());
    assert!(startup_refusal(false, false, true, "0.0.0.0").is_none());
}

#[test]
fn notices_say_what_runs() {
    assert!(profile_notice(Profile::Latency, 5_000, None).contains("latency"));
    assert!(profile_notice(Profile::Throughput, 30_000, Some(1_000)).contains("1000"));
    assert!(mcp_notice(&mcp(false, &[])).is_none());
    assert!(mcp_notice(&mcp(true, &[])).is_some());
}

#[test]
fn duties_come_round() {
    assert_eq!((duties(60, true).expire, duties(60, true).checkpoint), (true, true));
    assert_eq!((duties(12, true).expire, duties(12, true).checkpoint), (true, false));
    assert_eq!((duties(12, false).expire, duties(7, true).expire), (false, false));
}

#[test]
fn the_bridge_reads_its_url() {
    let url = split_url("http://host:81/x").expect("a url");
    assert_eq!((url.host.as_str(), url.port, url.path.as_str()), ("host", 81, "/x"));
    let url = split_url("host").expect("a url");
    assert_eq!((url.host.as_str(), url.port, url.path.as_str()), ("host", 80, "/"));
    assert_eq!(split_url("https://host").expect_err("tls"), UrlDefect::Https);
    assert_eq!(split_url("http://host:x").expect_err("port"), UrlDefect::Port);
    assert_eq!(split_url("http://:80").expect_err("host"), UrlDefect::NoHost);
    assert_eq!(bridge_path("/"), "/v1/mcp");
    assert_eq!(bridge_path("/x"), "/x");
    match parse_bridge(&texts(&["--url", "http://h"]), Some("t".to_owned())) {
        Ok(BridgeCommand::Bridge { url, token }) => {
            assert_eq!(url, "http://h");
            assert_eq!(token.as_deref(), Some("t"));
        }
        other => panic!("{other:?}"),
    }
    assert!(parse_bridge(&[], None).is_err());
}

#[test]
fn the_bridge_forwards_and_reads_replies() {
    let head = forward_head("h", 80, "/v1/mcp", Some("t"), 7);
    assert!(head.starts_with("POST /v1/mcp HTTP/1.1\r\n"), "{head}");
    assert!(head.contains("Authorization: Bearer t\r\n"), "{head}");
    assert!(head.contains("Content-Length: 7\r\n"), "{head}");
    assert_eq!(
        forward_reply(b"HTTP/1.1 200 OK\r\n\r\n{\"id\":1}"),
        Ok(Some("{\"id\":1}".to_owned()))
    );
    assert_eq!(forward_reply(b"HTTP/1.1 202 Accepted\r\n\r\n"), Ok(None));
    assert!(forward_reply(b"garbage").is_err());
    let owed = bridge_failure("{\"id\":1,\"method\":\"x\"}", "refused").expect("an answer");
    assert!(show(&owed).contains("refused"));
    assert!(bridge_failure("{\"method\":\"x\"}", "refused").is_none());
}

#[test]
fn documents_are_read_as_they_stand() {
    let document = read_json(b"{\"a\":[1,-2.5,true,null,\"x\\u0041\"]}").expect("a document");
    assert_eq!(show(&document), "{\"a\":[1,-2.5,true,null,\"xA\"]}");
    assert!(read_json(b"{\"a\":}").is_err());
}
