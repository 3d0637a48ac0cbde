use traza::analytics::{fold_analytics, LlmGroupBy, Segment, SessionOrder, Window};
use traza::days::day_bucket;
use traza::erasure::{EraseRecord, Subject};
use traza::json::Json;
use traza::rollup::{key_hash, prefer_key, Bounds, Counters, Micros, SegmentRollup};
use traza::sessions::{narrow_to_session, session, session_values, sessions};
use traza::sets::Distinct;
use traza::span::{Facts, SessionKey, Span};
use traza::table::Hashes;
use traza::tombstones::Mask;
use traza::upkeep::{live_payload_refs, shadowed_tail_suffix, Binding, RollupCache, TailSegment};
use traza::usage::llm_aggregate;

const ALL: Window = Window {
    since_ns: None,
    until_ns: None,
};

fn span(trace: &str, id: &str, start: u64, end: u64) -> Span {
    Span {
        trace_id: trace.to_owned(),
        span_id: id.to_owned(),
        parent_span_id: None,
        tenant: String::new(),
        name: format!("{trace}/{id}"),
        service: "svc".to_owned(),
        status: String::new(),
        start_time_ns: start,
        end_time_ns: end,
        attributes: Vec::new(),
        events: Vec::new(),
        links: Vec::new(),
        facts: Facts::none(),
    }
}

fn call(trace: &str, id: &str, start: u64, session: &str, tokens: u64, cost: u64) -> Span {
    let mut s = span(trace, id, start, start + 5);
    s.facts.is_llm = true;
    s.facts.model = Some("m".to_owned());
    s.facts.provider = Some("p".to_owned());
    s.facts.session = Some(session.to_owned());
    s.facts.session_key = Some(SessionKey {
        name: "session.id".to_owned(),
        rank: 0,
    });
    s.facts.prompt_tokens = Some(tokens);
    s.facts.total_tokens = tokens;
    s.facts.cost_bits = Some(cost);
    s
}

fn seal(spans: Vec<Span>) -> Segment<Micros> {
    Segment::seal(spans)
}

#[test]
fn a_rollup_is_looked_for_before_it_is_built() {
    let mut cache: RollupCache<Micros> = RollupCache::new();
    let binding = Binding { segment_bytes: 1, record_count: 1, min_start_ns: 5, max_start_ns: 5 };
    assert!(!cache.find_rollup("a.seg", binding, None));
    assert!(cache.cached_rollup("a.seg", binding).is_none());
    cache.build_rollup("a.seg", binding, &[span("t", "s", 5, 9)]);
    assert!(cache.find_rollup("a.seg", binding, None));
    let built = cache.cached_rollup("a.seg", binding).expect("built");
    assert_eq!(built.bounds().min_start_ns, 5);
    assert_eq!(built.bounds().max_end_ns, 9);
    let sidecar: SegmentRollup<Micros> = SegmentRollup::build(&[span("t", "s", 7, 8)]);
    assert!(cache.find_rollup("b.seg", binding, Some(sidecar)));
    let loaded = cache.cached_rollup("b.seg", binding).expect("loaded");
    assert_eq!(loaded.bounds().min_start_ns, 7);
    let stale: SegmentRollup<Micros> = SegmentRollup::build(&[span("t", "s", 1, 2)]);
    assert!(cache.find_rollup("a.seg", binding, Some(stale)));
    let kept = cache.cached_rollup("a.seg", binding).expect("kept");
    assert_eq!(kept.bounds().min_start_ns, 5);
}

#[test]
fn a_cached_rollup_answers_only_for_the_segment_it_was_built_from() {
    let mut cache: RollupCache<Micros> = RollupCache::new();
    let path = "segment-00000000000000000000.seg";
    let binding = Binding {
        segment_bytes: 4_096,
        record_count: 10,
        min_start_ns: 1_000,
        max_start_ns: 9_000,
    };
    let nothing = Bounds {
        min_start_ns: 0,
        max_start_ns: 0,
        min_end_ns: 0,
        max_end_ns: 0,
    };
    cache.insert(path, binding, SegmentRollup::empty(nothing));
    assert!(
        cache.cached_rollup(path, binding).is_some(),
        "the identical binding must hit"
    );
    for (label, other) in [
        (
            "bytes",
            Binding {
                segment_bytes: 4_097,
                ..binding
            },
        ),
        (
            "record count",
            Binding {
                record_count: 9,
                ..binding
            },
        ),
        (
            "min start",
            Binding {
                min_start_ns: 1_001,
                ..binding
            },
        ),
        (
            "max start",
            Binding {
                max_start_ns: 9_001,
                ..binding
            },
        ),
    ] {
        assert!(
            cache.cached_rollup(path, other).is_none(),
            "a rollup built from a segment with a different {label} must \
             not be served for this one"
        );
    }
    assert!(cache
        .cached_rollup("segment-00000000000000000001.seg", binding)
        .is_none());

    let mut live: Distinct<String> = Distinct::new();
    live.insert("elsewhere".to_owned());
    cache.retain(&live);
    assert!(cache.cached_rollup(path, binding).is_none());
}

#[test]
fn a_replaced_span_counts_once_in_its_newest_version() {
    let old = seal(vec![call("t", "s", 10, "a", 10, 100)]);
    let new = seal(vec![call("t", "s", 20, "a", 20, 200)]);
    let rows = llm_aggregate(&[], &[old, new], &ALL, None, LlmGroupBy::Model);
    assert_eq!(rows.len(), 1);
    assert_eq!(rows[0].key, "m");
    assert_eq!(rows[0].counters.llm_calls, 1);
    assert_eq!(rows[0].counters.total_tokens, 20);
    assert_eq!(rows[0].counters.cost, Micros { millionths: 200 });
}

#[test]
fn the_buffer_wins_over_every_segment_even_outside_the_window() {
    let sealed = seal(vec![call("t", "s", 10, "a", 10, 1), call("t", "u", 11, "a", 1, 1)]);
    let buffer = vec![call("t", "s", 900, "a", 99, 1)];
    let window = Window {
        since_ns: Some(0),
        until_ns: Some(100),
    };
    let segments = [sealed];
    let folded = fold_analytics(&buffer, &segments, &window, None);
    assert_eq!(folded.visits.len(), 1);
    assert!(!folded.shadowing, "the buffer shadows, no segment does");
    let rows = llm_aggregate(&buffer, &segments, &window, None, LlmGroupBy::Service);
    assert_eq!(rows[0].counters.spans, 1);
    assert_eq!(rows[0].counters.total_tokens, 1);
}

#[test]
fn segments_that_share_keys_are_noted() {
    let segments = [
        seal(vec![call("t", "s", 10, "a", 10, 1)]),
        seal(vec![call("t", "s", 11, "a", 10, 1)]),
    ];
    assert!(fold_analytics(&[], &segments, &ALL, None).shadowing);
    let outside = Window {
        since_ns: Some(11),
        until_ns: None,
    };
    assert!(!fold_analytics(&[], &segments, &outside, None).shadowing);
}

#[test]
fn a_partial_window_counts_only_what_it_covers() {
    let segments = [seal(vec![
        call("t", "a", 10, "x", 1, 0),
        call("t", "b", 20, "x", 2, 0),
        call("t", "c", 30, "x", 4, 0),
    ])];
    let window = Window {
        since_ns: Some(20),
        until_ns: Some(29),
    };
    let rows = llm_aggregate(&[], &segments, &window, None, LlmGroupBy::Provider);
    assert_eq!(rows[0].counters.total_tokens, 2);
}

#[test]
fn a_pending_erasure_is_not_counted() {
    let segments = [seal(vec![
        call("t", "a", 10, "x", 1, 0),
        call("u", "b", 20, "x", 2, 0),
    ])];
    let mask = Mask::for_pending(&vec![EraseRecord {
        schema: 2,
        id: 1,
        requested_unix_ns: 1,
        subject: Subject::Trace {
            trace_id: "t".into(),
            tenant: String::new(),
        },
        span_keys: Vec::new(),
        payload_refs: Vec::new(),
        eval_datasets: Vec::new(),
        eval_experiments: Vec::new(),
    }]);
    let rows = llm_aggregate(&[], &segments, &ALL, Some(&mask), LlmGroupBy::Service);
    assert_eq!(rows[0].counters.spans, 1);
    assert_eq!(rows[0].counters.total_tokens, 2);
}

#[test]
fn sessions_are_ranked_before_they_are_cut() {
    let mut failed = call("t2", "s", 5, "failing", 1, 1);
    failed.status = "error".to_owned();
    let buffer = vec![
        call("t1", "s", 100, "recent", 1, 1),
        failed,
        call("t3", "s", 6, "costly", 2, 500),
        call("t4", "s", 7, "wordy", 900, 2),
    ];
    let ids = |order: SessionOrder, limit: usize| {
        sessions::<Micros>(&buffer, &[], &ALL, None, limit, order)
            .iter()
            .map(|s| s.session_id.clone())
            .collect::<Vec<_>>()
    };
    assert_eq!(ids(SessionOrder::Recent, 1), vec!["recent"]);
    assert_eq!(ids(SessionOrder::Cost, 1), vec!["costly"]);
    assert_eq!(ids(SessionOrder::Errors, 1), vec!["failing"]);
    assert_eq!(ids(SessionOrder::Tokens, 1), vec!["wordy"]);
    assert_eq!(
        ids(SessionOrder::Errors, 10),
        vec!["failing", "costly", "recent", "wordy"],
        "the id breaks ties"
    );
}

#[test]
fn a_session_spans_sources() {
    let segments = [seal(vec![call("t1", "a", 50, "x", 1, 1)])];
    let mut other = call("t2", "b", 10, "x", 2, 2);
    other.facts.session_key = Some(SessionKey {
        name: "gen_ai.conversation.id".to_owned(),
        rank: 1,
    });
    let found = sessions(&[other], &segments, &ALL, None, 10, SessionOrder::default());
    assert_eq!(found.len(), 1);
    assert_eq!(found[0].trace_count, 2);
    assert_eq!(found[0].span_count, 2);
    assert_eq!(found[0].first_start_ns, 10);
    assert_eq!(found[0].last_end_ns, 55);
    assert_eq!(found[0].session_attribute, "session.id");
    assert_eq!(found[0].cost, Micros { millionths: 3 });
}

#[test]
fn a_session_opens_into_its_traces() {
    assert!(session::<Micros>(&[], "x").is_none());
    let mut root = call("b", "1", 7, "x", 3, 1);
    root.name = "root".to_owned();
    let spans = vec![
        call("a", "1", 9, "x", 1, 1),
        call("b", "2", 8, "x", 2, 1),
        root,
    ];
    let detail = session::<Micros>(&spans, "x").expect("spans");
    assert_eq!(detail.summary.span_count, 3);
    assert_eq!(detail.summary.trace_count, 2);
    assert_eq!(detail.traces.len(), 2);
    assert_eq!(detail.traces[0].trace_id, "b");
    assert_eq!(detail.traces[0].root_name, "root");
    assert_eq!(detail.traces[0].counters.total_tokens, 5);
    assert_eq!(detail.traces[1].trace_id, "a");
    assert_eq!(detail.traces[1].last_end_ns, 14);
}

#[test]
fn rows_rank_by_cost_then_tokens_then_key() {
    let mut one = call("t", "1", 1, "x", 5, 10);
    one.facts.model = Some("b".to_owned());
    let mut two = call("t", "2", 1, "x", 5, 10);
    two.facts.model = Some("a".to_owned());
    let mut three = call("t", "3", 1, "x", 6, 10);
    three.facts.model = Some("c".to_owned());
    let mut four = call("t", "4", 1, "x", 1, 11);
    four.facts.model = Some("d".to_owned());
    let rows = llm_aggregate::<Micros>(
        &[one, two, three, four],
        &[],
        &ALL,
        None,
        LlmGroupBy::Model,
    );
    let keys: Vec<&str> = rows.iter().map(|r| r.key.as_str()).collect();
    assert_eq!(keys, vec!["d", "c", "a", "b"]);
}

#[test]
fn days_are_utc_dates() {
    const DAY: u64 = 86_400_000_000_000;
    assert_eq!(day_bucket(0), "1970-01-01");
    assert_eq!(day_bucket(DAY - 1), "1970-01-01");
    assert_eq!(day_bucket(DAY), "1970-01-02");
    assert_eq!(day_bucket(951_782_400 * 1_000_000_000), "2000-02-29");
    assert_eq!(day_bucket(1_709_251_199 * 1_000_000_000), "2024-02-29");
    assert_eq!(day_bucket(1_709_251_200 * 1_000_000_000), "2024-03-01");
    assert_eq!(day_bucket(1_767_225_599 * 1_000_000_000), "2025-12-31");
    assert_eq!(day_bucket(u64::MAX), "2554-07-21");
    let rows = llm_aggregate::<Micros>(
        &[span("t", "s", DAY * 365, 0)],
        &[],
        &ALL,
        None,
        LlmGroupBy::Day,
    );
    assert_eq!(rows[0].key, "1971-01-01");
}

#[test]
fn wire_names_read_back() {
    for order in [
        SessionOrder::Recent,
        SessionOrder::Cost,
        SessionOrder::Errors,
        SessionOrder::Tokens,
    ] {
        assert_eq!(SessionOrder::parse(order.as_str()), Some(order));
    }
    assert_eq!(SessionOrder::parse("Recent"), None);
    assert_eq!(LlmGroupBy::parse("day"), Some(LlmGroupBy::Day));
    assert_eq!(LlmGroupBy::parse("session"), Some(LlmGroupBy::Session));
    assert_eq!(LlmGroupBy::parse("week"), None);
}

#[test]
fn counters_saturate_and_merging_counts_together() {
    let mut a: Counters<Micros> = Counters::zero();
    a.absorb(&call("t", "1", 1, "x", u64::MAX, 1));
    let mut b: Counters<Micros> = Counters::zero();
    b.absorb(&call("t", "2", 1, "x", 7, 2));
    a.merge(&b);
    assert_eq!(a.total_tokens, u64::MAX);
    assert_eq!(a.spans, 2);
    assert_eq!(a.llm_duration_ns, 10);
    assert_eq!(a.cost, Micros { millionths: 3 });
}

#[test]
fn the_earlier_recognized_key_is_preferred() {
    let key = |name: &str, rank: usize| {
        Some(SessionKey {
            name: name.to_owned(),
            rank,
        })
    };
    let name = |k: Option<SessionKey>| k.map(|k| k.name).unwrap_or_default();
    assert_eq!(name(prefer_key(&key("b", 2), &key("a", 1))), "a");
    assert_eq!(name(prefer_key(&key("a", 1), &key("b", 2))), "a");
    assert_eq!(name(prefer_key(&key("a", 1), &key("z", 1))), "a");
    assert_eq!(name(prefer_key(&None, &key("b", 2))), "b");
    assert_eq!(name(prefer_key(&None, &None)), "");
}

#[test]
fn keys_hash_with_a_separator() {
    assert_eq!(key_hash("", ""), 0xaf63_bd4c_8601_b7df);
    assert_ne!(key_hash("ab", "c"), key_hash("a", "bc"));
}

#[test]
fn session_ids_have_text_and_number_encodings() {
    let numbers = |id: &str, float: Option<&str>| {
        let values = session_values(id, float.map(str::to_owned));
        assert!(matches!(&values[0], Json::Text(t) if t == id));
        values
            .iter()
            .skip(1)
            .map(|v| match v {
                Json::Number(n) => n.clone(),
                _ => panic!("a number"),
            })
            .collect::<Vec<_>>()
    };
    assert_eq!(numbers("4711", None), vec!["4711"]);
    assert_eq!(numbers("+4711", None), vec!["4711"]);
    assert_eq!(numbers("-12", None), vec!["-12"]);
    assert_eq!(numbers("-0", None), vec!["0"]);
    assert_eq!(
        numbers("-9223372036854775808", None),
        vec!["-9223372036854775808"]
    );
    assert!(numbers("-9223372036854775809", None).is_empty());
    assert_eq!(numbers("1.5", Some("1.5")), vec!["1.5"]);
    assert!(numbers("abc", None).is_empty());
}

#[test]
fn candidates_narrow_to_the_resolved_session() {
    let kept = narrow_to_session(
        vec![
            call("t", "1", 1, "x", 1, 1),
            call("t", "2", 1, "y", 1, 1),
            span("t", "3", 1, 2),
            call("t", "4", 1, "x", 1, 1),
        ],
        "x",
    );
    assert_eq!(
        kept.iter().map(|s| s.span_id.as_str()).collect::<Vec<_>>(),
        vec!["1", "4"]
    );
}

fn referring(reference: &str) -> Span {
    let mut s = span("t", reference, 1, 2);
    s.attributes = vec![(
        "p".to_owned(),
        Json::Object(vec![
            ("$payload".to_owned(), Json::Text(reference.to_owned())),
            ("erased".to_owned(), Json::Bool(true)),
        ]),
    )];
    s
}

#[test]
fn payloads_of_the_buffer_and_the_segments_are_live() {
    let sealed = seal(vec![referring("b"), referring("c")]);
    let refs = live_payload_refs(&[referring("a"), referring("b")], &vec![&sealed.rollup]);
    assert_eq!(refs.items(), &vec!["a", "b", "c"]);
}

#[test]
fn the_shadowed_tail_is_found_within_its_budget() {
    let hashes = |list: &[u64]| {
        let mut h = Hashes::new();
        for x in list {
            h.insert(*x);
        }
        h
    };
    let (a, b, c) = (hashes(&[1, 2]), hashes(&[3]), hashes(&[2, 9]));
    let tail = |x: Option<&Hashes>| {
        vec![
            TailSegment {
                bytes: 10,
                hashes: Some(&a),
            },
            TailSegment { bytes: 10, hashes: x.map(|_| &b) },
            TailSegment {
                bytes: 10,
                hashes: Some(&c),
            },
        ]
        .into_iter()
        .collect::<Vec<_>>()
    };
    assert_eq!(shadowed_tail_suffix(&tail(Some(&b)), 30), Some(0));
    assert_eq!(shadowed_tail_suffix(&tail(Some(&b)), 29), None);
    assert_eq!(shadowed_tail_suffix(&tail(None), 30), None, "no hashes at hand");
}
