//! The benchmarks and the seeder.

use traza::args::{Config, Durability};
use traza::canonical_record::{record, CanonicalRun, Percentiles};
use traza::client::{
    get_head, holds_records, merges_total, metric_value, post_head, read_reply, read_reply_head,
    remote_post_head, request_head, stat, take_reply, text_lines, ReplyDefect, ReplyStep,
};
use traza::content_bench::{
    best_of, comparison, content_config, first_disagreement, load_average, query, repeats_of, span,
    text, Compared, IndexCosts, Lcg, Prose, PROSE_BATCH, PROSE_SEED, RARE_WORD,
};
use traza::ingest_bench::{
    decode_counts, failed_row, group_commit, parse, read_records, read_startup, record_head,
    refused_connections, result_row, scenarios, stage_summary, text_or, verdict, BenchCommand,
    Happened, HttpRun, Mode, Next, Phase, Protocol, Rates, Records, Startup,
};
use traza::json::{read_json, Json};
use traza::measure::{
    canonical_configuration, canonical_query_run, default_max_segment_bytes, filter_path,
    first_number, first_word, machine, machine_context, pass, percentile, positive_setting,
    publication, span_count, trace_path, verify_trace_response, Publication, Settled, Settling,
    Shape, QUIET_MS, SETTLE_DEADLINE_MS,
};
use traza::memory_bench::{
    cells, cost_by_key, make_span, matrix, offload_defect, report, resident_bytes, store_config,
    templated_value, value_id, void_defect, Cell, KeyCost, MemoryCommand, MemoryRow, Order, TextKind,
};
use traza::memory_report::{
    cell_report, number, on_disk, probe_arguments, probe_report, read_probe, CellRun, Compacted,
    DiskTotals, Probe, SegmentFile,
};
use traza::query_bench::{
    next_batch, queries, render, total_ns, verify, Churn, Conditions, Measured, RowsDefect,
};
use traza::seeding::{
    check_post, chunks, destination, seed_config, Destination, SeedCommand, CHUNK_WINDOW_NS,
};
use traza::storage_bench::{
    batch_ranges, directory_bytes, has_extension, keeps_data, measurement, number_setting,
    DirectoryBytes, Figures, Profile, Quiescence,
};

fn texts(argv: &[&str]) -> Vec<String> {
    argv.iter().map(|arg| (*arg).to_owned()).collect()
}

fn owned(text: &str) -> String {
    text.to_owned()
}

fn document(text: &str) -> Json {
    read_json(text.as_bytes()).expect("a document")
}

// ------------------------------------------------------------------------- client

#[test]
fn lines_are_read_without_their_ends() {
    assert_eq!(text_lines("a\r\nb\n\nc"), ["a", "b", "", "c"]);
    assert_eq!(text_lines("a\n"), ["a"]);
    assert!(text_lines("").is_empty());
    for text in ["a\r\nb\n\nc", "a\n", "", "\r", "x\r\r\n", "\n\n"] {
        let expected: Vec<&str> = text.lines().collect();
        assert_eq!(text_lines(text), expected, "{text:?}");
    }
}

#[test]
fn requests_are_written() {
    assert_eq!(
        request_head("POST", "/v1/spans", 3),
        "POST /v1/spans HTTP/1.1\r\nHost: 127.0.0.1\r\nContent-Type: application/json\r\nContent-Length: 3\r\nConnection: close\r\n\r\n"
    );
    assert!(post_head("/p", "text/x", 2, true).ends_with("Content-Type: text/x\r\nContent-Length: 2\r\nConnection: keep-alive\r\n\r\n"));
    assert!(get_head("/p", false).ends_with("Connection: close\r\n\r\n"));
    assert!(!remote_post_head("h", "/p", "", 1).contains("Authorization"));
    assert!(remote_post_head("h", "/p", "t", 1).contains("Authorization: Bearer t\r\n"));
}

#[test]
fn replies_are_read() {
    let reply = read_reply(b"HTTP/1.1 204 No Content\r\nX: y\r\n\r\nrest").expect("a reply");
    assert_eq!(reply.status, 204);
    assert_eq!(reply.body, b"rest");
    assert_eq!(read_reply(b"HTTP/1.1 200").expect_err("short"), ReplyDefect::Malformed);
    assert_eq!(read_reply(b"\xff\r\n\r\n").expect_err("bytes"), ReplyDefect::NotUtf8);
    assert_eq!(read_reply(b"HTTP/1.1\r\n\r\n").expect_err("bare"), ReplyDefect::NoStatus);
    let head = read_reply_head("HTTP/1.1 200 OK\r\ncontent-length: x\r\nContent-Length: 4\r\nConnection: a, Close\r\n\r\n")
        .expect("a head");
    assert_eq!((head.status, head.length, head.closing), (200, 4, true));
}

#[test]
fn replies_are_taken_from_a_buffer() {
    let mut buffer = b"HTTP/1.1 200 OK\r\nContent-Length: 2\r\n\r\n".to_vec();
    assert!(matches!(take_reply(&mut buffer), ReplyStep::MoreBody));
    buffer.extend_from_slice(b"abHTTP/1.1");
    match take_reply(&mut buffer) {
        ReplyStep::Ready { head, body } => {
            assert_eq!(head.status, 200);
            assert_eq!(body, b"ab");
        }
        other => panic!("{other:?}"),
    }
    assert_eq!(buffer, b"HTTP/1.1");
    assert!(matches!(take_reply(&mut buffer), ReplyStep::MoreHead));
    let mut bad = b"nonsense\r\n\r\n".to_vec();
    assert!(matches!(take_reply(&mut bad), ReplyStep::NoStatus));
}

#[test]
fn reports_are_read() {
    let metrics = "# x\ntraza_a 5\ntraza_a_b 6\ntraza_segment_merges_total 9\n";
    assert_eq!(metric_value(metrics, "traza_a"), Some(5));
    assert_eq!(metric_value(metrics, "traza_c"), None);
    assert_eq!(merges_total(200, metrics.as_bytes()), Some(9));
    assert_eq!(merges_total(503, metrics.as_bytes()), None);
    assert_eq!(stat(200, b"{\"segment_count\":4}", "segment_count"), Some(4));
    assert_eq!(stat(500, b"{\"segment_count\":4}", "segment_count"), None);
    assert_eq!(stat(200, b"[", "segment_count"), None);
    assert_eq!(holds_records(200, b"{\"record_count\":4}", 4), Ok(true));
    assert_eq!(holds_records(200, b"{\"record_count\":3}", 4), Ok(false));
    assert_eq!(holds_records(500, b"", 4), Ok(false));
    assert!(holds_records(200, b"", 4).is_err());
}

// ------------------------------------------------------------------------ measure

#[test]
fn percentiles_are_nearest_rank() {
    let values: Vec<u64> = (1..=100).rev().collect();
    assert_eq!(percentile(&values, 50), 50);
    assert_eq!(percentile(&values, 95), 95);
    assert_eq!(percentile(&values, 99), 99);
    assert_eq!(percentile(&values, 100), 100);
    assert_eq!(percentile(&values, 0), 1);
    assert_eq!(percentile(&vec![10, 20, 30], 50), 20);
    assert_eq!(percentile(&vec![7], 1), 7);
}

#[test]
fn only_the_canonical_run_is_gated() {
    let ceiling = default_max_segment_bytes();
    assert!(canonical_configuration(1_000_000, "4", &ceiling));
    assert!(!canonical_configuration(999, "4", &ceiling));
    assert!(!canonical_configuration(1_000_000, "0", &ceiling));
    assert!(!canonical_configuration(1_000_000, "4", "1"));
    assert!(canonical_query_run(1_000_000, 8, "4", &ceiling));
    assert!(!canonical_query_run(1_000_000, 1, "4", &ceiling));
    assert_eq!(publication(true, 750_000, 6_000_000), Publication::Written);
    assert_eq!(
        publication(true, 750_001, 6_000_000),
        Publication::Refused { trace: true, filter: false }
    );
    assert_eq!(
        publication(true, 750_001, 6_000_001),
        Publication::Refused { trace: true, filter: true }
    );
    assert_eq!(publication(false, u64::MAX, u64::MAX), Publication::Experiment);
    assert_eq!((pass(true), pass(false)), ("PASS", "MISS"));
}

#[test]
fn settings_are_read() {
    assert_eq!(span_count(None), Ok(1_000_000));
    assert_eq!(span_count(Some("5")), Ok(5));
    assert_eq!(
        span_count(Some("5k")),
        Err(owned("TRAZA_BENCH_SPANS is set to \"5k\", which is not a span count"))
    );
    assert_eq!(positive_setting(Some("0"), 8), 8);
    assert_eq!(positive_setting(Some("3"), 8), 3);
    assert_eq!(positive_setting(Some("x"), 8), 8);
    assert_eq!(number_setting(Some("0"), 8), 0);
    assert_eq!(number_setting(None, 8), 8);
    assert!(keeps_data(Some("1")));
    assert!(!keeps_data(Some("0")));
    assert!(!keeps_data(None));
}

#[test]
fn samples_name_their_traces() {
    assert_eq!(trace_path(1, 1_000_000), format!("/v1/traces/{:032x}", 516));
    assert_eq!(trace_path(3, 100), format!("/v1/traces/{:032x}", (3 * 499 + 17) % 10));
    assert_eq!(
        filter_path(7, 100),
        "/v1/spans?attr.benchmark.group=group-7&limit=100"
    );
    assert!(verify_trace_response(b"{\"spans\":[0,0,0,0,0,0,0,0,0,0]}").is_ok());
    assert_eq!(
        verify_trace_response(b"{\"spans\":[0]}"),
        Err(owned("trace query returned 1 spans, expected 10"))
    );
    assert_eq!(
        verify_trace_response(b"{}"),
        Err(owned("trace query returned 0 spans, expected 10"))
    );
    assert!(verify_trace_response(b"{").is_err());
}

#[test]
fn the_host_is_described() {
    assert_eq!(first_word("0.31 0.20 0.1 1/2 3\n").as_deref(), Some("0.31"));
    assert_eq!(first_word(" "), None);
    assert_eq!(first_number("{ 1.5 2.0 }").as_deref(), Some("1.5"));
    assert_eq!(first_number("none"), None);
    assert_eq!(
        machine_context("linux", "x86_64", 4),
        "linux/x86_64, 4 available hardware threads"
    );
    assert_eq!(machine("linux", "arm", 2, "M"), "linux/arm, 2 hardware threads, M");
    assert_eq!(text_or(Some(owned(" x\n")), "unknown"), "x");
    assert_eq!(text_or(Some(owned(" \n")), "unknown"), "unknown");
    assert_eq!(text_or(None, "unknown"), "unknown");
}

#[test]
fn a_store_comes_to_rest() {
    let shape = |segments, merges| Shape { segments, merges };
    let mut settling = Settling::new(shape(4, 1));
    assert_eq!(settling.observe(shape(4, 1), 250), Settled::NotYet);
    assert_eq!(settling.observe(shape(4, 2), QUIET_MS), Settled::NotYet);
    assert_eq!(settling.observe(shape(4, 2), 2 * QUIET_MS - 1), Settled::NotYet);
    assert_eq!(settling.observe(shape(4, 2), 2 * QUIET_MS), Settled::At { segments: 4 });
    assert_eq!(settling.observe(shape(5, 2), SETTLE_DEADLINE_MS), Settled::Never);
}

// -------------------------------------------------------------------- aggregation

#[test]
fn aggregates_are_checked() {
    let rows = document("{\"rows\":[{\"spans\":2},{\"spans\":3},{}]}");
    assert_eq!(verify(&rows, Some(5)), Ok(()));
    assert_eq!(
        verify(&rows, Some(6)),
        Err(RowsDefect::Wrong { total: 5, expected: 6 })
    );
    assert_eq!(verify(&rows, None), Ok(()));
    assert_eq!(verify(&document("{\"rows\":[]}"), None), Err(RowsDefect::Nothing));
    assert_eq!(verify(&document("{\"rows\":1}"), None), Err(RowsDefect::NoRows));
    assert_eq!(verify(&document("{\"sessions\":[1]}"), None), Ok(()));
    assert!(RowsDefect::Wrong { total: 5, expected: 6 }
        .message()
        .starts_with("rows sum to 5 spans, expected 6 \u{2014} the aggregate"));
    assert!(RowsDefect::Nothing.message().contains("nothing"));
}

#[test]
fn windows_lie_in_the_middle() {
    let total = total_ns(1_001);
    assert_eq!(total, 1_000_000_000);
    let all = queries(1_001, total, 100_000_000, 10_000_000);
    assert_eq!(all.len(), 5);
    assert_eq!(
        all[1].path,
        "/v1/stats/llm?group_by=model&since_ns=1700000000450000000&until_ns=1700000000550000000"
    );
    assert_eq!(all[0].expected_spans, Some(1_001));
    assert_eq!(all[4].expected_spans, None);
    assert_eq!(total_ns(0), 0);
}

#[test]
fn clients_share_the_corpus() {
    let mut seen = vec![0; 2_500];
    for client in 0..3 {
        let mut index = client;
        loop {
            let batch = next_batch(index, 3, 2_500);
            if batch.is_empty() {
                break;
            }
            for span in &batch {
                seen[*span] += 1;
            }
            index = batch[batch.len() - 1] + 3;
        }
    }
    assert!(seen.iter().all(|count| *count == 1));
    assert_eq!(next_batch(0, 1, 2_500).len(), 1_000);
}

#[test]
fn the_query_record_is_laid_out() {
    let results = vec![Measured {
        label: owned("stats"),
        path: owned("/v1/`stats`"),
        note: owned("why"),
        cold: owned("9.0"),
        warm_p50: owned("1.0"),
        warm_p95: owned("2.0"),
        ratio: owned("9"),
    }];
    let conditions = Conditions {
        churn: Churn {
            samples: 3,
            merges: 1,
            p50: owned("1.5"),
            p95: owned("2.5"),
            max: owned("3.5"),
            settled: owned("0.5"),
            penalty: owned("5.0"),
        },
        span_count: 77,
        models: 6,
        threads: 8,
        segments: 4,
        buffered: 0,
        ingest: owned("12.34"),
        disk: owned("0.50"),
        sidecar: owned("1.2"),
        sidecar_share: owned("0.2"),
        fanout: owned("4"),
        ceiling: owned("268435456"),
        measured_at: 1_700_000_000,
        context: owned("linux/x86_64"),
    };
    let record = render(&results, &conditions);
    assert!(record.starts_with("# Traza Query Benchmarks\n\nThese values were measured by"));
    assert!(record.contains("| stats | 9.0 ms | 1.0 ms | 2.0 ms | 9x |\n"), "{record}");
    assert!(record.contains("- Corpus: 77 LLM spans, 6 models, 4 providers, 8 services"), "{record}");
    assert!(record.contains("- `/v1/stats` \u{2014} why\n"), "{record}");
    assert!(record.contains("| Queries fired during ingest | 3 |\n| Merge events observed | 1 |\n"));
    assert!(record.contains("compaction fan-out 4 with a 268435456-byte segment ceiling."));
}

// ------------------------------------------------------------------------- storage

#[test]
fn bytes_are_counted_by_what_they_are() {
    let entries = vec![
        (owned("segment-1.seg"), 10),
        (owned("segment-2.tmp"), 1),
        (owned("wal.log"), 20),
        (owned("payloads"), 30),
        (owned("lock"), 2),
    ];
    assert_eq!(
        directory_bytes(&entries),
        DirectoryBytes { segments: 10, log: 20, payloads: 30, other: 3, total: 63 }
    );
    let stats = document("{\"record_count\":5,\"segment_count\":2}");
    let m = measurement(Profile::Generic, 5, 99, &entries, &stats).expect("a measurement");
    assert_eq!((m.segment_count, m.held.total, m.ingested_bytes), (2, 63, 99));
    assert_eq!(
        measurement(Profile::Generic, 6, 99, &entries, &stats).expect_err("short"),
        "store holds 5 records, expected 6"
    );
    assert!(has_extension("a.rollup", "rollup"));
    assert!(!has_extension(".rollup", "rollup"));
    assert!(!has_extension("rollup", "rollup"));
}

#[test]
fn profiles_have_their_settings() {
    assert_eq!(
        Profile::PinnedContext.spans_setting(),
        "TRAZA_STORAGE_BENCH_PINNED_CONTEXT_SPANS"
    );
    assert_eq!(Profile::Llm.default_spans(), 200_000);
    assert_eq!(Profile::PinnedContext.batch_size(), 100);
    assert!(Profile::Generic.description().starts_with("Service traces: 10-span"));
}

#[test]
fn batches_cover_the_corpus() {
    assert_eq!(batch_ranges(2_500, 1_000), [(0, 1_000), (1_000, 2_000), (2_000, 2_500)]);
    assert_eq!(batch_ranges(1_000, 1_000), [(0, 1_000)]);
    assert!(batch_ranges(0, 1_000).is_empty());
}

#[test]
fn rest_is_three_more_of_the_same() {
    let stats = |n: u64| document(&format!("{{\"segment_count\":{n},\"bytes_on_disk\":7}}"));
    let mut watch = Quiescence::new();
    assert!(!watch.observe(200, &stats(1)));
    assert!(!watch.observe(200, &stats(1)));
    assert!(!watch.observe(200, &stats(1)));
    assert!(!watch.observe(500, &stats(2)));
    assert!(watch.observe(200, &stats(1)));
    assert!(!watch.observe(200, &stats(2)));
}

#[test]
fn the_storage_record_is_laid_out() {
    let entries = vec![(owned("segment-1.seg"), 10)];
    let stats = document("{\"record_count\":5,\"segment_count\":2}");
    let figures = Figures {
        measured: measurement(Profile::Llm, 5, 99, &entries, &stats).expect("a measurement"),
        ingested: owned("1.0"),
        segments: owned("2.0"),
        log: owned("3.0"),
        payloads: owned("4.0"),
        other: owned("5.00"),
        total: owned("6.0"),
        ratio: owned("0.50"),
        amplification: owned("2.00"),
        per_span: owned("42"),
        stored: owned("0.01"),
        single: owned("0.001"),
        replicated: owned("0.002"),
        stats: owned("{}"),
    };
    let record = traza::storage_bench::render(&vec![figures], 17, "here");
    assert!(record.starts_with("# Traza Storage Benchmark\n"));
    assert!(record.contains("| `llm` | 5 | 1.0 MiB | 6.0 MiB | 0.50 : 1 | 2.00x | 42 |\n"));
    assert!(record.contains("| `llm` | 2.0 MiB | 3.0 MiB | 4.0 MiB | 5.00 MiB | 6.0 MiB | 2 |\n"));
    assert!(record.contains("| `llm` | 0.01 GiB | $0.001 | $0.002 |\n"));
    assert!(record.contains("at $0.023/GiB-month would cost 3.5x less."));
    assert!(record.contains("Timestamp: Unix 17.\n- Machine context: here.\n"));
    assert!(record.ends_with(
        "  - `llm`: 5 spans, 99 bytes ingested, 10 bytes on disk (10 segments, 0 write-ahead log, 0 payload store, 0 other).\n"
    ));
}

// -------------------------------------------------------------------------- ingest

#[test]
fn the_scenarios_are_a_matrix() {
    let all = scenarios(&vec![2, 4], 10, 100);
    let labels: Vec<&str> = all.iter().map(|s| s.label.as_str()).collect();
    assert_eq!(
        labels,
        [
            "direct-engine-wal",
            "direct-engine-buffered",
            "http-native-json-wal-keepalive-off",
            "http-native-json-wal-keepalive-on",
            "http-native-json-wal-c2",
            "http-otlp-json-wal-c2",
            "http-otlp-protobuf-wal-c2",
            "http-native-json-wal-c4",
            "http-otlp-json-wal-c4",
            "http-otlp-protobuf-wal-c4",
        ]
    );
    assert_eq!(all[0].mode, Mode::Direct);
    assert_eq!(
        all[0].describe(),
        "direct engine, durability=wal, batch=10, concurrency=8"
    );
    assert_eq!(
        all[6].describe(),
        "http otlp-protobuf -> /v1/traces, keep-alive=on, durability=wal, batch=10, concurrency=2"
    );
    assert!(all[6].selected(&Some(owned("proto"))));
    assert!(!all[0].selected(&Some(owned("proto"))));
    assert!(all[0].selected(&None));
    assert_eq!(Protocol::OtlpProtobuf.content_type(), "application/x-protobuf");
}

#[test]
fn bench_arguments_are_read() {
    match parse(&texts(&["--spans", "5", "--concurrency", "2", "--only", "WAL"])) {
        Ok(BenchCommand::Run(options)) => {
            assert_eq!(options.spans, 5);
            assert_eq!(options.runs, 5);
            assert_eq!(options.concurrencies, [2]);
            assert_eq!(options.only.as_deref(), Some("wal"));
        }
        other => panic!("{other:?}"),
    }
    match parse(&[]) {
        Ok(BenchCommand::Run(options)) => assert_eq!(options.concurrencies, [1, 4, 8, 16]),
        other => panic!("{other:?}"),
    }
    assert!(matches!(parse(&texts(&["-h"])), Ok(BenchCommand::Help)));
    assert_eq!(parse(&texts(&["--runs"])).expect_err("bare"), "--runs requires a value");
    assert_eq!(parse(&texts(&["--runs", "x"])).expect_err("bad"), "--runs must be a number");
    assert_eq!(parse(&texts(&["--only"])).expect_err("bare"), "--only requires a substring");
    assert_eq!(parse(&texts(&["--x"])).expect_err("unknown"), "unknown argument: --x");
}

#[test]
fn a_run_is_a_result_only_after_its_restart() {
    let all = scenarios(&vec![1], 10, 100);
    let mut run = HttpRun::new(&all[4]);
    assert!(matches!(run.step(Happened::Sent { failed: 0 }), Next::Count));
    assert!(matches!(run.step(Happened::Counted { records: 100 }), Next::Scrape));
    assert!(matches!(run.step(Happened::Scraped { refused: 0 }), Next::Restart));
    assert!(matches!(
        run.step(Happened::Counted { records: 100 }),
        Next::Done { stored: 100, refused: 0 }
    ));
    assert_eq!(run.phase, Phase::Over);

    let mut run = HttpRun::new(&all[4]);
    match run.step(Happened::Sent { failed: 2 }) {
        Next::Fail { message } => assert_eq!(message, "2 batches failed; the run is not a result"),
        other => panic!("{other:?}"),
    }
    assert!(matches!(run.step(Happened::Counted { records: 1 }), Next::Nothing));

    let mut run = HttpRun::new(&all[4]);
    run.step(Happened::Sent { failed: 0 });
    run.step(Happened::Counted { records: 100 });
    run.step(Happened::Scraped { refused: 0 });
    match run.step(Happened::Counted { records: 99 }) {
        Next::Fail { message } => assert_eq!(
            message,
            "durability check failed: acknowledged 100 spans, recovered 99"
        ),
        other => panic!("{other:?}"),
    }

    let mut run = HttpRun { spans: 100, durability: "wal", phase: Phase::Recovering { stored: 1, refused: 0 } };
    match run.step(Happened::NotCounted { message: owned("late") }) {
        Next::Fail { message } => {
            assert_eq!(message, "durability check failed after restart (wal): late");
        }
        other => panic!("{other:?}"),
    }

    let mut run = HttpRun { spans: 100, durability: "buffered", phase: Phase::Scraping { stored: 100 } };
    assert!(matches!(
        run.step(Happened::Scraped { refused: 3 }),
        Next::Done { stored: 100, refused: 3 }
    ));
}

#[test]
fn runs_are_judged() {
    assert_eq!(verdict(0, 100, 100), None);
    assert_eq!(
        verdict(2, 100, 100).as_deref(),
        Some("server shed 2 connections; the rate is not sustained")
    );
    assert_eq!(verdict(0, 99, 100).as_deref(), Some("stored 99 of 100 spans"));
    assert_eq!(read_startup("traza-server listening on 127.0.0.1:4318\n"), Startup::Port(4318));
    assert_eq!(read_startup("traza-server listening on 127.0.0.1:x"), Startup::Malformed);
    assert_eq!(read_startup("hello"), Startup::Other);
    assert!(matches!(read_records(200, b"{\"record_count\":5}", 5, true), Records::Stored(5)));
    assert!(matches!(read_records(200, b"{\"record_count\":4}", 5, false), Records::Again));
    assert!(matches!(read_records(500, b"", 5, true), Records::Again));
    assert!(matches!(
        read_records(200, b"{\"record_count\":4}", 5, true),
        Records::Failed(message) if message == "only 4 of 5 spans stored"
    ));
    assert!(matches!(read_records(200, b"", 5, false), Records::Failed(_)));
}

#[test]
fn stages_are_ranked_by_what_they_took() {
    let metrics = "traza_http_decode_ns_sum 50\ntraza_http_decode_ns_count 5\ntraza_wal_fsync_ns_sum 900\ntraza_wal_fsync_ns_count 3\ntraza_wal_encode_ns_sum 7\ntraza_wal_commits_total 12\ntraza_http_decoded_spans_total 10\ntraza_http_connections_refused_total 4\n";
    let stages = stage_summary(metrics);
    let labels: Vec<&str> = stages.iter().map(|stage| stage.label).collect();
    assert_eq!(labels, ["wal fsync", "decode (wire -> spans)"]);
    assert_eq!(group_commit(metrics), Some((12, 3)));
    assert_eq!(group_commit(""), None);
    assert_eq!(decode_counts(metrics), Some((50, 10)));
    assert_eq!(decode_counts("traza_http_decode_ns_sum 5\n"), None);
    assert_eq!(refused_connections(metrics), 4);
}

#[test]
fn the_ingest_record_is_laid_out() {
    let all = scenarios(&vec![1], 10, 100);
    let head = record_head(5, "machine", "abc", 100, 10);
    assert!(head.starts_with(
        "# Traza Ingest Benchmark\n\nEvery row is the MEDIAN of 5 runs, each on a fresh data directory. Payloads"
    ));
    assert!(head.contains("- Machine: machine\n- Commit: `abc`\n- Corpus: 100 spans per run, batch 10\n- Compaction: disabled"));
    assert!(head.ends_with("|---|---|---|---|---:|---:|---:|---:|---:|---:|\n"));
    assert_eq!(
        failed_row(&all[4], "why"),
        "| http-native-json-wal-c1 | native-json | /v1/spans | true | 1 | FAILED: why | | | | |\n"
    );
    let rates = Rates {
        median: owned("3"),
        min: owned("1"),
        max: owned("5"),
        bytes_per_span: owned("300"),
        decode_ns: None,
    };
    assert_eq!(
        result_row(&all[4], &rates),
        "| http-native-json-wal-c1 | native-json | /v1/spans | true | 1 | **3** | 1 | 5 | 300 | \u{2014} |\n"
    );
    assert_eq!(
        result_row(&all[0], &rates),
        "| direct-engine-wal | \u{2014} | \u{2014} | n/a | 8 | **3** | 1 | 5 | \u{2014} | \u{2014} |\n"
    );
}

// ------------------------------------------------------------------------- content

#[test]
fn prose_is_the_same_every_time() {
    let mut expected = PROSE_SEED;
    let mut rng = Lcg { state: PROSE_SEED };
    for _ in 0..100 {
        expected = expected
            .wrapping_mul(6_364_136_223_846_793_005)
            .wrapping_add(1_442_695_040_888_963_407);
        assert_eq!(rng.next(), expected);
    }
    assert_eq!(rng.below(1), 0);
    let mut one = Lcg { state: PROSE_SEED };
    let (prompt, completion) = text(&mut one, 0, 5);
    assert!(prompt.ends_with(" ticket0"), "{prompt}");
    assert_eq!(prompt.split(' ').count(), 6);
    assert!(completion.ends_with(RARE_WORD));
    let (_, other) = text(&mut one, 1, 5);
    assert!(!other.contains(RARE_WORD));
}

#[test]
fn a_corpus_comes_in_batches() {
    let mut first = Prose::new(3);
    let mut second = Prose::new(3);
    let batch = first.next_batch(2_500);
    assert_eq!(batch.len(), PROSE_BATCH);
    assert_eq!(format!("{batch:?}"), format!("{:?}", second.next_batch(2_500)));
    assert_eq!(first.next_batch(2_500).len(), PROSE_BATCH);
    assert_eq!(first.next_batch(2_500).len(), 500);
    assert!(first.next_batch(2_500).is_empty());
    let mut bytes = 0;
    let mut rng = Lcg { state: PROSE_SEED };
    for index in 0..2_500 {
        let (prompt, completion) = text(&mut rng, index, 3);
        bytes += (prompt.len() + completion.len()) as u128;
    }
    assert_eq!(first.text_bytes(), bytes);
    let json = span(9, owned("p"), owned("c"));
    assert_eq!(json.text_at("span_id"), Some("s9"));
    assert_eq!(json.text_at("trace_id"), Some("t2"));
}

#[test]
fn two_runs_are_held_against_each_other() {
    assert_eq!(query(0), ("rare", RARE_WORD));
    assert_eq!(query(3), ("absent", "zygomorphic"));
    assert_eq!(best_of(&vec![5, 3, 9]), 3);
    assert_eq!((repeats_of(0), repeats_of(4)), (1, 4));
    assert_eq!(first_disagreement(&vec![1, 2], &vec![1, 2]), None);
    assert_eq!(first_disagreement(&vec![1, 2], &vec![1, 3]), Some(1));
    let config = content_config(false);
    assert_eq!(config.durability, Durability::Buffered);
    assert_eq!(config.compaction, None);
    assert!(!config.content_index);
    assert_eq!(config.tail_ring_spans, Config::default().tail_ring_spans);
}

#[test]
fn content_arguments_are_read() {
    let options = traza::content_bench::parse(&texts(&["--spans", "9", "--words", "2"])).expect("ok");
    assert_eq!((options.spans, options.words, options.repeats), (9, 2, 3));
    assert_eq!(
        traza::content_bench::parse(&texts(&["--spans"])).expect_err("bare"),
        "--spans needs a value"
    );
    assert_eq!(
        traza::content_bench::parse(&texts(&["--spans", "x"])).expect_err("bad"),
        "--spans needs an integer"
    );
    assert_eq!(
        traza::content_bench::parse(&texts(&["x"])).expect_err("unknown"),
        "unknown argument x"
    );
    assert_eq!(load_average("up 3 days, load averages: 1.0 2.0 3.0\n"), "1.0 2.0 3.0");
    assert_eq!(load_average("up 3 days, load average: 1.0, 2.0\n"), "1.0, 2.0");
    assert_eq!(load_average("up"), "unknown");
}

// -------------------------------------------------------------------------- memory

fn cell(order: Order, spans: usize, unique_pct: u32) -> Cell {
    Cell {
        value_bytes: 200,
        unique_pct,
        attrs: 2,
        enum_attrs: 1,
        flush_spans: 10_000,
        order,
        spans,
    }
}

#[test]
fn values_have_their_size_and_their_own_part() {
    let short = templated_value(TextKind::Prompt, 5, 20);
    assert_eq!(short, "[prompt req 00000000");
    let value = templated_value(TextKind::Completion, 100, 2_000);
    assert_eq!(value.len(), 2_000);
    assert!(value.starts_with("[completion req 000000000100 tenant t0003 session s"));
    let head = value.find("] ").expect("a head") + 2;
    let filler = &value[head..head + 260];
    assert!(filler.starts_with("You are a careful assistant."));
    assert!(filler.ends_with("Context follows. "), "{filler}");
    assert_eq!(value[head + 260..head + 520], *filler);
    assert_ne!(value, templated_value(TextKind::Completion, 101, 2_000));
}

#[test]
fn values_are_interleaved_or_blocked() {
    let interleaved = cell(Order::Interleaved, 100, 10);
    assert_eq!(interleaved.distinct(), 10);
    assert_eq!(value_id(13, &interleaved), 3);
    let blocked = cell(Order::Blocked, 100, 10);
    assert_eq!((value_id(0, &blocked), value_id(9, &blocked), value_id(99, &blocked)), (0, 0, 9));
    assert_eq!(cell(Order::Blocked, 100, 0).distinct(), 1);
    assert_eq!(interleaved.label(), "200B/10%/2attr+1enum/flush10000/interleaved");
    assert_eq!(interleaved.directory(), "cell-200B-10--2attr+1enum-flush10000-interleaved");
    let made = make_span(13, &interleaved);
    assert_eq!(made.text_at("span_id"), Some("span-000000000013"));
    let attributes = made.get("attributes").expect("attributes");
    assert_eq!(attributes.text_at("deployment.dimension0"), Some("v1"));
    assert_eq!(
        attributes.text_at("gen_ai.prompt"),
        Some(templated_value(TextKind::Prompt, 3, 200).as_str())
    );
}

#[test]
fn the_matrix_has_its_arms() {
    let all = matrix(268_435_456);
    assert_eq!(all.len(), 26);
    assert_eq!(all[0].label(), "512B/0%/1attr/flush10000/interleaved");
    assert_eq!(all[0].spans, 524_288);
    assert_eq!(all[16].order, Order::Blocked);
    assert_eq!(all[25].flush_spans, 1_000);
    assert_eq!(matrix(0)[0].spans, 1_000);
}

#[test]
fn memory_arguments_are_read() {
    let read = |argv: &[&str]| traza::memory_bench::parse(&texts(argv));
    match read(&["--value-bytes", "512", "--blocked", "--spans", "7", "--text-budget-mib", "2"]) {
        Ok(MemoryCommand::Run(options)) => {
            assert_eq!(options.value_bytes, 512);
            assert_eq!(options.text_budget, 2 * 1024 * 1024);
            let chosen = cells(&options);
            assert_eq!(chosen.len(), 1);
            assert_eq!((chosen[0].spans, chosen[0].order), (7, Order::Blocked));
        }
        other => panic!("{other:?}"),
    }
    match read(&["--matrix"]) {
        Ok(MemoryCommand::Run(options)) => assert_eq!(cells(&options).len(), 26),
        other => panic!("{other:?}"),
    }
    assert!(matches!(read(&["--help"]), Ok(MemoryCommand::Help)));
    assert_eq!(read(&["--probe"]).expect_err("bare"), "--probe needs a value");
    assert_eq!(read(&["--attrs", "x"]).expect_err("bad"), "--attrs needs an integer");
    assert_eq!(read(&["--x"]).expect_err("unknown"), "unknown argument: --x");
}

#[test]
fn a_void_measurement_is_refused() {
    assert_eq!(offload_defect(false, 100, 99), None);
    assert_eq!(offload_defect(true, 100, 100), None);
    assert_eq!(offload_defect(false, 0, 100), None);
    assert!(offload_defect(false, 100, 100)
        .expect("refused")
        .starts_with("value_bytes 100 is not below the offload threshold 100: "));
    let one = cell(Order::Interleaved, 10, 100);
    assert_eq!(void_defect(false, &one, 0), None);
    assert!(void_defect(false, &one, 3).expect("void").contains(" offloaded 3 payload files"));
    assert_eq!(store_config(5, 0).payload_threshold, None);
    assert_eq!(store_config(5, 9).payload_threshold, Some(9));
}

#[test]
fn costs_are_added_up_by_key() {
    let cost = |key: &str, values, bytes| KeyCost { key: owned(key), values, bytes };
    let totals = cost_by_key(&vec![cost("b", 1, 10), cost("a", 2, 20), cost("b", 3, 30)]);
    let shown: Vec<(String, u128, u128)> =
        totals.into_iter().map(|t| (t.key, t.values, t.bytes)).collect();
    assert_eq!(shown, [(owned("a"), 2, 20), (owned("b"), 4, 40)]);
    assert_eq!(resident_bytes(" 12 \n"), Some(12_288));
    assert_eq!(resident_bytes("x"), None);
    assert_eq!(
        traza::memory_bench::load_average("up, load averages: 1.0 2.0\n"),
        "1.0 2.0"
    );
    assert_eq!(traza::memory_bench::load_average("up"), "unknown");
    let row = MemoryRow {
        label: owned("l"),
        spans: owned("1"),
        distinct: owned("2"),
        text: owned("3"),
        disk: owned("4"),
        disk_index: owned("5"),
        index: owned("6"),
        reopened: owned("7"),
        compacted: owned("8"),
        per_gb: owned("9"),
    };
    assert!(report(&vec![row]).ends_with("\n| l | 1 | 2 | 3 | 4 | 5 | 6 | 7 | 8 | 9 MiB |\n"));
}

#[test]
fn a_canonical_run_is_recorded() {
    let latencies = |p95_ns, samples| Percentiles {
        p50: owned("0.1"),
        p95: owned("0.2"),
        p99: owned("0.3"),
        p95_ns,
        samples,
    };
    let run = CanonicalRun {
        fanout: owned("4"),
        ceiling: owned("99"),
        rate: owned("60000"),
        rate_met: true,
        trace: latencies(49_999_999, 200),
        filter: latencies(300_000_000, 100),
        limit: 100,
        measured_at: 7,
        context: owned("os/arch"),
        load: owned("1.5"),
        stats: owned("{}"),
        trace_gate: owned("0.25"),
        filter_gate: owned("5"),
    };
    let text = record(&run);
    assert!(text.starts_with("# Traza Benchmarks\n\nThese values were measured by `cargo run --release --bin bench`; "));
    assert!(text.contains(
        "| Sustained batched HTTP ingest (durability=wal, compaction fanout=4, max segment bytes=99) | 60000 spans/s | >= 50,000 spans/s | PASS |\n\
         | Trace-by-id p95 | 0.2 ms | < 50 ms | PASS |\n\
         | Attribute-filtered query p95 | 0.2 ms | < 300 ms | MISS |\n\n"
    ));
    assert!(text.contains("| Trace by ID | 0.1 ms | 0.2 ms | 0.3 ms | 200 |\n| Attribute filter | "));
    assert!(text.contains("\n- Corpus: 1000000 spans, 100,000 traces with 10 spans each, "));
    assert!(text.contains("queries with `limit=100`; each response"));
    assert!(text.contains("Timestamp: Unix 7.\n- Machine context: os/arch.\n"));
    assert!(text.contains(
        "The ingest threshold is PASS. The trace p95 threshold is PASS. The filtered-query p95 threshold is MISS. "
    ));
    assert!(text.contains("trace-lookup p50 <= 0.25 ms and attribute-filter p50 <= 5 ms on this canonical corpus. "));
    assert!(text.ends_with("exits non-zero and writes nothing.\n"));
}

#[test]
fn segment_files_are_summed() {
    let file = |bytes, attribute_index_bytes, records| SegmentFile {
        bytes,
        attribute_index_bytes,
        records,
    };
    assert_eq!(
        on_disk(&vec![file(u64::MAX, 3, 2), file(1, 4, 5)]),
        DiskTotals {
            attribute_index_bytes: 7,
            bytes: u128::from(u64::MAX) + 1,
            segments: 2,
            records: 7,
        }
    );
    assert_eq!(on_disk(&Vec::new()).segments, 0);
}

#[test]
fn a_probe_reports_what_opening_cost() {
    let mut probe = Probe {
        rss_start: 1,
        rss_open: 2,
        index_bytes: 3,
        index_entries: 4,
        payload_bytes: 5,
        segments: 6,
        records: 7,
        by_key: cost_by_key(&vec![KeyCost { key: owned("k"), values: 8, bytes: 9 }]),
        compacted: None,
    };
    let opened = probe_report(&probe);
    let at = |report: &Json, path: &[&str]| number(report, &texts(path));
    assert_eq!(at(&opened, &["rss_open"]), "2");
    assert_eq!(at(&opened, &["resident_attribute_index_entries"]), "4");
    assert_eq!(at(&opened, &["by_attribute_key", "k", "bytes"]), "9");
    assert_eq!(at(&opened, &["by_attribute_key", "other", "bytes"]), "0");
    assert!(opened.get("compacted_away").is_none());
    probe.compacted = Some(Compacted {
        merged: 10,
        seconds: owned("0.5"),
        rss: 11,
        index_bytes: 12,
        segments: 1,
    });
    let compacted = probe_report(&probe);
    assert_eq!(at(&compacted, &["records"]), "7");
    assert_eq!(at(&compacted, &["compact_seconds"]), "0.5");
    assert_eq!(at(&compacted, &["rss_compacted"]), "11");
    assert_eq!(at(&compacted, &["segments_compacted"]), "1");
}

#[test]
fn a_failed_probe_reports_nothing() {
    let at = |report: &Json| number(report, &texts(&["rss_open"]));
    assert_eq!(at(&read_probe(true, b"  {\"rss_open\": 12}\n")), "12");
    assert_eq!(at(&read_probe(false, b"{\"rss_open\": 12}")), "0");
    assert_eq!(at(&read_probe(true, b"no report")), "0");
    assert_eq!(at(&read_probe(true, b"\xff")), "0");
    assert_eq!(number(&document("3"), &Vec::new()), "3");
    assert_eq!(
        probe_arguments("/tmp/d", 5, 9, false),
        ["--probe", "/tmp/d", "--flush-spans", "5", "--payload-threshold", "9"]
    );
    assert_eq!(probe_arguments("/tmp/d", 5, 9, true).last(), Some(&owned("--compact")));
}

#[test]
fn a_cell_reports_its_probes() {
    let one = cell(Order::Blocked, 10, 50);
    let report = cell_report(&CellRun {
        cell: one,
        ingest_seconds: owned("1.25"),
        rss_base: 1,
        rss_after_ingest: 2,
        disk: DiskTotals { attribute_index_bytes: 3, bytes: 4, segments: 5, records: 6 },
        offloaded: 0,
        load_average: owned("0.1"),
        reopen: document("{\"rss_open\": 7}"),
        compacted: document("{}"),
    });
    let at = |path: &[&str]| number(&report, &texts(path));
    assert_eq!(report.text_at("order"), Some("blocked"));
    assert_eq!(report.text_at("label"), Some(one.label().as_str()));
    assert_eq!(at(&["distinct_values"]), "5");
    assert_eq!(
        at(&["ingested_text_bytes"]),
        (one.value_bytes * one.attrs * one.spans).to_string()
    );
    assert_eq!(at(&["disk_bytes"]), "4");
    assert_eq!(at(&["on_disk_attribute_index_bytes"]), "3");
    assert_eq!(at(&["reopen", "rss_open"]), "7");
    assert_eq!(at(&["compacted", "rss_compacted"]), "0");
}

#[test]
fn the_index_is_compared_with_its_absence() {
    let rows = vec![Compared {
        label: owned("rare"),
        matches: 1,
        with_index: owned("0.100"),
        without_index: owned("1.000"),
        speedup: owned("10.0"),
    }];
    let pair = |with: &str, without: &str| (owned(with), owned(without));
    let mut costs = IndexCosts {
        text: owned("2.0"),
        segments: 3,
        ingest: pair("1.00", "0.90"),
        disk: pair("4.0", "3.0"),
        resident: pair("0.50", "0.40"),
        filters: pair("0.10", "0.00"),
        fill: Some(owned("12.5")),
        overhead: owned("33.3"),
    };
    assert_eq!(
        comparison(&rows, &costs),
        "\ntext ingested: 2.0 MiB across 3 segments\n\n\
         | query | matches | with index | without index | speedup |\n\
         |---|---:|---:|---:|---:|\n\
         | rare | 1 | 0.100 ms | 1.000 ms | 10.0x |\n\
         \n| cost | with index | without index |\n\
         |---|---:|---:|\n\
         | ingest + seal | 1.00 s | 0.90 s |\n\
         | segment bytes | 4.0 MiB | 3.0 MiB |\n\
         | resident index | 0.50 MiB | 0.40 MiB |\n\
         | of which content filters | 0.10 MiB | 0.00 MiB |\n\
         \nsummary filter fill: 12.5% (a filter approaching 100% has saturated and stopped pruning)\n\
         index overhead on disk: 33.3%\n"
    );
    costs.fill = None;
    assert!(comparison(&rows, &costs).contains("\nno content index was built\n"));
}

// ------------------------------------------------------------------------- seeding

#[test]
fn a_load_goes_to_one_place() {
    let read = |argv: &[&str]| match traza::seeding::parse(&texts(argv)) {
        Ok(SeedCommand::Run(args)) => args,
        other => panic!("{other:?}"),
    };
    assert!(matches!(
        destination(&read(&["--data-dir", "d"])),
        Ok(Destination::Directory(d)) if d == "d"
    ));
    match destination(&read(&["--url", "http://h:81/x"])) {
        Ok(Destination::Server(url)) => {
            assert_eq!((url.host.as_str(), url.port, url.path.as_str()), ("h", 81, "/x"));
        }
        other => panic!("{other:?}"),
    }
    assert_eq!(
        destination(&read(&[])).expect_err("nowhere"),
        "pass --data-dir DIR or --url http://host:port"
    );
    assert_eq!(
        destination(&read(&["--data-dir", "d", "--url", "http://h"])).expect_err("both"),
        "pass either --data-dir or --url, not both"
    );
    assert_eq!(
        destination(&read(&["--url", "https://h"])).expect_err("tls"),
        "--url must start with http:// (TLS is reverse-proxy territory)"
    );
    assert!(destination(&read(&["--url", "http://h:x"])).is_err());
    assert_eq!(read(&["--batch", "0"]).batch, 1);
    assert_eq!(read(&["--scale", "7", "--seed", "3"]).seed, Some(3));
    assert_eq!(
        traza::seeding::parse(&texts(&["--scale"])).expect_err("bare"),
        "--scale needs a value"
    );
    assert!(traza::seeding::parse(&texts(&["--scale", "x"])).is_err());
    assert!(matches!(traza::seeding::parse(&texts(&["-h"])), Ok(SeedCommand::Help)));
    assert_eq!(
        traza::seeding::parse(&texts(&["x"])).expect_err("unknown"),
        "unknown argument: x"
    );
}

#[test]
fn a_load_comes_in_chunks() {
    let all = chunks(60, 1_000, u64::MAX);
    let shown: Vec<(usize, u64, u64, &str)> = all
        .iter()
        .map(|chunk| (chunk.scale, chunk.start_time_ns, chunk.seed, chunk.namespace.as_str()))
        .collect();
    assert_eq!(
        shown,
        [
            (25, 1_000, u64::MAX, "b0"),
            (25, 1_000 + CHUNK_WINDOW_NS, 0, "b1"),
            (10, 1_000 + 2 * CHUNK_WINDOW_NS, 1, "b2"),
        ]
    );
    let one = chunks(0, 0, 5);
    assert_eq!((one.len(), one[0].scale, one[0].namespace.as_str()), (1, 1, ""));
    assert_eq!(chunks(25, 0, 5).len(), 1);
    assert_eq!(seed_config(0).payload_threshold, None);
    assert_eq!(seed_config(9).tail_ring_spans, 1);
}

#[test]
fn posts_are_checked() {
    assert!(check_post("/p", b"HTTP/1.1 201 Created\r\n\r\n").is_ok());
    assert_eq!(
        check_post("/p", b"HTTP/1.1 500 No\r\n\r\nx").expect_err("failed"),
        "POST /p failed with 500: HTTP/1.1 500 No\r\n\r\nx"
    );
    assert_eq!(check_post("/p", b"").expect_err("empty"), "malformed HTTP response");
}
