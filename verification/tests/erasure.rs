use traza::annotations::Annotation;
use traza::erasure::{
    payload_refs_of, payload_unredacted, redact_payload, Action, EraseRecord, Error, LogRecord,
    RecordedKey, SettleRecord, Subject, SCHEMA,
};
use traza::json::Json;
use traza::jsonl::{record_lines, Damage, Healing};
use traza::receipt::{
    classify_matches, count_in, is_zero, pin_labels, DomainReport, OccurrenceCounter, Receipt,
};
use traza::sets::Distinct;
use traza::span::{Event, Facts, Span};
use traza::tombstones::{ErasureLog, Mask};

fn span(trace: &str, id: &str) -> Span {
    Span {
        trace_id: trace.to_owned(),
        span_id: id.to_owned(),
        parent_span_id: None,
        tenant: String::new(),
        name: "n".to_owned(),
        service: "svc".to_owned(),
        status: String::new(),
        start_time_ns: 1,
        end_time_ns: 2,
        attributes: Vec::new(),
        events: Vec::new(),
        links: Vec::new(),
        facts: Facts::none(),
    }
}

fn trace_subject(trace_id: &str) -> Subject {
    Subject::Trace {
        trace_id: trace_id.into(),
        tenant: String::new(),
    }
}

fn span_subject(trace_id: &str, span_id: &str) -> Subject {
    Subject::Span {
        trace_id: trace_id.into(),
        span_id: span_id.into(),
        tenant: String::new(),
    }
}

fn erase_record(id: u64, subject: Subject) -> EraseRecord {
    EraseRecord {
        schema: SCHEMA,
        id,
        requested_unix_ns: 1,
        subject,
        span_keys: vec![(String::new(), "t1".into(), "s1".into())],
        payload_refs: Vec::new(),
        eval_datasets: Vec::new(),
        eval_experiments: Vec::new(),
    }
}

fn settle_record(id: u64) -> SettleRecord {
    SettleRecord {
        schema: SettleRecord::schema_now(),
        id,
        settled_unix_ns: 2,
        generation: 3,
        spans_removed: 1,
        spans_redacted: 0,
        annotations_removed: 0,
        payloads_removed: Vec::new(),
        payloads_retained: Vec::new(),
        eval_records_removed: 0,
    }
}

fn object(entries: &[(&str, Json)]) -> Json {
    Json::Object(
        entries
            .iter()
            .map(|(key, value)| (key.to_string(), value.copy()))
            .collect(),
    )
}

fn text(value: &str) -> Json {
    Json::Text(value.to_owned())
}

fn number(value: &str) -> Json {
    Json::Number(value.to_owned())
}

const ERASE_LINE: &str = "{\"op\":\"erase\",\"schema\":2,\"id\":1,\"requested_unix_ns\":1,\"subject\":{\"kind\":\"trace\",\"trace_id\":\"t1\"},\"span_keys\":[[\"\",\"t1\",\"s1\"]],\"payload_refs\":[]}\n";
const SETTLE_LINE: &str = "{\"op\":\"settle\",\"schema\":2,\"id\":1,\"settled_unix_ns\":2,\"generation\":3,\"spans_removed\":1,\"spans_redacted\":0,\"annotations_removed\":0,\"payloads_removed\":[],\"payloads_retained\":[]}\n";

/// The record of one of the two lines above; any other line spells none.
fn read_line(line: &[u8]) -> Option<LogRecord> {
    if line == ERASE_LINE.as_bytes() {
        Some(LogRecord::Erase(erase_record(1, trace_subject("t1"))))
    } else if line == SETTLE_LINE.as_bytes() {
        Some(LogRecord::Settle(settle_record(1)))
    } else {
        assert!(serde_json::from_slice::<serde_json::Value>(line).is_err());
        None
    }
}

fn open(contents: &[u8]) -> Result<(ErasureLog, Healing), Damage> {
    let read = record_lines(contents)
        .into_iter()
        .map_while(|(from, to)| read_line(&contents[from..to]))
        .collect();
    ErasureLog::open(contents, read)
}

#[test]
fn the_log_round_trips_and_pending_is_erase_without_settle() {
    let (mut log, _) = open(b"").expect("opens");
    let begun = log.begin(
        1,
        trace_subject("t1"),
        vec![(String::new(), "t1".into(), "s1".into())],
        Vec::new(),
        Vec::new(),
        Vec::new(),
    );
    assert_eq!(begun.id, 1, "the first erasure takes id 1");
    assert_eq!(log.pending().len(), 1);
    assert!(log.mask().is_some(), "a pending erasure masks");

    log.record_settle(settle_record(1));
    assert!(log.pending().is_empty());
    assert!(log.mask().is_none(), "a settled erasure stops masking");

    // Replay reproduces the same state, and the id counter resumes past every
    // recorded id.
    drop(log);
    let written = format!("{ERASE_LINE}{SETTLE_LINE}");
    let (mut log, healing) = open(written.as_bytes()).expect("reopens");
    assert_eq!(healing, Healing::Nothing);
    assert!(log.pending().is_empty());
    let next = log.begin(
        2,
        trace_subject("t2"),
        Vec::new(),
        Vec::new(),
        Vec::new(),
        Vec::new(),
    );
    assert_eq!(next.id, 2, "ids resume past every recorded id");
    let listed = log.list();
    assert_eq!(listed.len(), 2);
    assert!(listed[0].settle.is_some());
    assert!(listed[1].settle.is_none());
    assert_eq!(log.get(2).map(|status| status.erase.requested_unix_ns), Some(2));
    assert!(log.get(3).is_none());
}

#[test]
fn a_torn_trailing_append_heals_and_an_interior_tear_refuses() {
    let mut bytes = ERASE_LINE.as_bytes().to_vec();
    let valid = bytes.len();
    bytes.extend_from_slice(b"{\"op\":\"erase\",\"schema\":1,\"id\":2");
    let (log, healing) = open(&bytes).expect("heals the torn tail");
    assert_eq!(log.list().len(), 1);
    assert_eq!(healing, Healing::Truncate { valid_len: valid });

    // Interior damage is corruption, not a tail.
    bytes.truncate(valid);
    bytes.splice(0..1, b"X".iter().copied());
    assert!(open(&bytes).is_err());
}

#[test]
fn the_mask_covers_by_key_trace_session_and_payload() {
    let mut by_key = erase_record(1, span_subject("t1", "s1"));
    by_key.span_keys = vec![(String::new(), "t1".into(), "s1".into())];
    let mut by_session = erase_record(
        2,
        Subject::Session {
            session_id: "sess-9".into(),
            tenant: String::new(),
        },
    );
    by_session.span_keys = Vec::new();
    let mask = Mask::for_pending(&vec![by_key, by_session]);

    let mut covered = span("t1", "s1");
    assert!(mask.covers(&covered));
    covered.span_id = "s2".into();
    assert!(!mask.covers(&covered));
    covered.facts.session = Some("sess-9".into());
    assert!(mask.covers(&covered), "session subjects mask by resolution");
}

#[test]
fn a_span_subject_masks_from_its_subject_even_with_no_resolved_keys() {
    let mut record = erase_record(1, span_subject("t1", "s1"));
    record.span_keys = Vec::new();
    let mask = Mask::for_pending(&vec![record]);
    assert!(mask.covers(&span("t1", "s1")));
}

#[test]
fn the_mask_covers_annotations_and_payload_files() {
    let trace = erase_record(1, trace_subject("t1"));
    let reference = format!("sha256/{}", "c".repeat(64));
    let mut with_refs = erase_record(2, span_subject("t9", "s9"));
    with_refs.span_keys = vec![(String::new(), "t9".into(), "s9".into())];
    with_refs.payload_refs = vec![reference.clone()];
    let mask = Mask::for_pending(&vec![trace, with_refs]);

    let annotation = |trace_id: &str, span_id: &str| Annotation {
        trace_id: trace_id.to_owned(),
        span_id: span_id.to_owned(),
        tenant: String::new(),
        session_id: String::new(),
        experiment_id: None,
        example_id: String::new(),
        name: "note".into(),
        value: Json::Bool(true),
        source: String::new(),
        comment: String::new(),
        timestamp_ns: 0,
    };
    assert!(
        mask.covers_annotation(&annotation("t1", "")),
        "trace-level annotation"
    );
    assert!(
        mask.covers_annotation(&annotation("t1", "any")),
        "span under the trace"
    );
    assert!(
        mask.covers_annotation(&annotation("t9", "s9")),
        "covered key"
    );
    assert!(!mask.covers_annotation(&annotation("t9", "other")));
    assert!(
        mask.covers_payload_file(&reference),
        "a payload the erasure must account for is withheld while pending"
    );
    assert!(!mask.covers_payload_file("sha256/absent"));
}

#[test]
fn payload_ref_collection_skips_redaction_markers() {
    let reference = format!("sha256/{}", "d".repeat(64));
    let held = format!("sha256/{}", "e".repeat(64));
    let mut one = span("t", "s");
    one.attributes = vec![
        (
            "gone".to_owned(),
            object(&[
                ("$payload", text(&reference)),
                ("bytes", number("9")),
                ("erased", Json::Bool(true)),
            ]),
        ),
        (
            "held".to_owned(),
            object(&[
                ("$payload", text(&held)),
                ("bytes", number("9")),
                ("preview", text("still here")),
            ]),
        ),
    ];
    let mut refs: Distinct<String> = Distinct::new();
    payload_refs_of(&one, &mut refs);
    assert!(
        !refs.contains(&reference),
        "a marker records that content is gone; it is not a reference"
    );
    assert_eq!(refs.len(), 1);
}

#[test]
fn redaction_drops_the_preview_and_marks_the_value() {
    let reference = format!("sha256/{}", "a".repeat(64));
    let mut one = span("t", "s");
    one.attributes = vec![
        (
            "prompt".to_owned(),
            object(&[
                ("$payload", text(&reference)),
                ("bytes", number("9000")),
                ("preview", text("the secret text")),
            ]),
        ),
        ("other".to_owned(), text("kept")),
    ];
    assert!(payload_unredacted(&one, &reference));
    assert!(redact_payload(&mut one, &reference));
    let value = &one.attributes[0].1;
    assert!(value.get("preview").is_none(), "the preview is content");
    assert!(matches!(value.get("erased"), Some(Json::Bool(true))));
    assert_eq!(value.uint_at("bytes"), Some(9000));
    assert!(!payload_unredacted(&one, &reference));
    assert!(
        !redact_payload(&mut one, &reference),
        "redaction is idempotent"
    );
    assert_eq!(one.attributes[1].1.as_str(), Some("kept"));
}

#[test]
fn a_preview_beside_the_mark_is_still_redacted() {
    let reference = format!("sha256/{}", "a".repeat(64));
    let mut one = span("t", "s");
    one.attributes = vec![(
        "prompt".to_owned(),
        object(&[
            ("$payload", text(&reference)),
            ("bytes", number("9")),
            ("erased", Json::Bool(true)),
            ("preview", text("the secret text")),
        ]),
    )];
    assert!(payload_unredacted(&one, &reference));
    let mut refs: Distinct<String> = Distinct::new();
    payload_refs_of(&one, &mut refs);
    assert!(refs.contains(&reference));
    assert!(redact_payload(&mut one, &reference));
    assert!(one.attributes[0].1.get("preview").is_none());
    assert!(!payload_unredacted(&one, &reference));
    let mut after: Distinct<String> = Distinct::new();
    payload_refs_of(&one, &mut after);
    assert_eq!(after.len(), 0);
}

#[test]
fn redaction_reaches_events() {
    let reference = format!("sha256/{}", "a".repeat(64));
    let mut one = span("t", "s");
    one.events = vec![Event {
        name: "e".to_owned(),
        timestamp_ns: 1,
        attributes: vec![(
            "body".to_owned(),
            object(&[("$payload", text(&reference)), ("preview", text("x"))]),
        )],
    }];
    assert!(redact_payload(&mut one, &reference));
    assert!(matches!(
        one.events[0].attributes[0].1.get("bytes"),
        Some(Json::Null)
    ));
    assert!(!payload_unredacted(&one, &reference));
}

fn occurrences_in(bytes: &[u8], chunk: usize, needles: &[&str]) -> usize {
    let mut counter =
        OccurrenceCounter::new(needles.iter().map(|n| n.as_bytes().to_vec()).collect());
    for piece in bytes.chunks(chunk) {
        counter.feed(piece);
    }
    counter.total()
}

#[test]
fn occurrence_counting_is_exact_across_chunk_boundaries() {
    // Straddle the 256 KiB chunk boundary deliberately.
    let mut bytes = vec![b'x'; 256 * 1024 - 3];
    bytes.extend_from_slice(b"needle-alpha");
    bytes.extend(vec![b'y'; 100]);
    bytes.extend_from_slice(b"needle-alpha");
    assert_eq!(occurrences_in(&bytes, 256 * 1024, &["needle-alpha"]), 2);
    assert_eq!(
        occurrences_in(b"", 256 * 1024, &["x"]),
        0,
        "absent bytes hold nothing"
    );

    // A short needle sitting in the final tail, beside a longer one that sets
    // the carry size.
    let mut bytes = vec![b'x'; 100];
    bytes.extend_from_slice(b"ab");
    let count = occurrences_in(&bytes, 256 * 1024, &["ab", "needle-alpha"]);
    assert_eq!(count, 1, "an occurrence in the final tail counts once");
}

#[test]
fn counting_does_not_depend_on_the_chunks() {
    let bytes = b"abababa-abab";
    for chunk in 1..=bytes.len() {
        assert_eq!(occurrences_in(bytes, chunk, &["aba", "b-"]), 4, "{chunk}");
    }
    assert_eq!(count_in(b"aaaa", b"aa"), 3, "overlapping ones count each");
    assert_eq!(count_in(b"aaaa", b""), 0);
}

#[test]
fn subjects_validate_and_classify() {
    assert!(trace_subject("").validate().is_err());
    assert!(
        Subject::Tenant {
            tenant: String::new()
        }
        .validate()
        .is_err(),
        "the default tenant is not erasable whole — that is the store"
    );
    assert!(
        Subject::Trace {
            trace_id: "t".into(),
            tenant: "Not-Valid".into(),
        }
        .validate()
        .is_err(),
        "subject tenants obey the same charset ingest enforces"
    );
    assert!(Subject::Tenant {
        tenant: "acme".into()
    }
    .validate()
    .is_ok());
    assert!(Subject::Payload {
        reference: "sha256/short".into()
    }
    .validate()
    .is_err());
    assert!(Subject::Payload {
        reference: format!("sha256/{}", "b".repeat(64))
    }
    .validate()
    .is_ok());
    let uppercase = Subject::Payload {
        reference: format!("sha256/{}", "B".repeat(64)),
    };
    assert!(uppercase.validate().is_err());
    let canonical = uppercase.canonicalized();
    assert!(canonical.validate().is_ok());
    assert_eq!(
        canonical,
        Subject::Payload {
            reference: format!("sha256/{}", "b".repeat(64))
        }
    );

    let mut erased: Distinct<(String, String, String)> = Distinct::new();
    erased.insert((String::new(), "t1".to_owned(), "s1".to_owned()));
    let classes = classify_matches(
        &erased,
        &vec![
            (String::new(), "t1".to_owned(), "s1".to_owned()),
            (String::new(), "t1".to_owned(), "s1".to_owned()),
            (String::new(), "t9".to_owned(), "s9".to_owned()),
        ],
    );
    assert_eq!(classes.re_delivered, 1, "duplicates count once");
    assert_eq!(classes.new_activity, 1);
}

#[test]
fn each_subject_refuses_with_its_own_message() {
    let message = |subject: Subject| match subject.validate() {
        Ok(()) => "",
        Err(Error::InvalidSpan(message)) => message,
    };
    assert_eq!(message(trace_subject("")), "trace_id is empty");
    assert_eq!(
        message(span_subject("t", "")),
        "trace_id and span_id must both be non-empty"
    );
    assert_eq!(
        message(Subject::Session {
            session_id: String::new(),
            tenant: String::new()
        }),
        "session_id is empty"
    );
    assert_eq!(
        message(Subject::Payload {
            reference: "x".into()
        }),
        "a payload reference is sha256/<64 lowercase hex characters>"
    );
    assert_eq!(
        message(Subject::Tenant {
            tenant: String::new()
        }),
        "a tenant subject names a non-empty tenant"
    );
    assert_eq!(
        message(Subject::Tenant {
            tenant: "-x".into()
        }),
        "tenant must be lowercase [a-z0-9][a-z0-9._-], at most 64 bytes"
    );
}

#[test]
fn subjects_describe_themselves_and_what_they_do() {
    let scoped = Subject::Span {
        trace_id: "t".into(),
        span_id: "s".into(),
        tenant: "acme".into(),
    };
    assert_eq!(scoped.describe(), "span t/s (tenant acme)");
    assert_eq!(scoped.tenant(), Some("acme"));
    assert_eq!(trace_subject("t").describe(), "trace t");
    let payload = Subject::Payload {
        reference: "sha256/x".into(),
    };
    assert_eq!(payload.describe(), "payload sha256/x");
    assert_eq!(payload.tenant(), None);
    assert_eq!(trace_subject("t").action(&span("t", "s")), Action::Drop);
    assert_eq!(trace_subject("t").action(&span("u", "s")), Action::Keep);
    let mut one = span("t", "s");
    one.attributes = vec![("p".into(), object(&[("$payload", text("sha256/x"))]))];
    assert_eq!(payload.action(&one), Action::Redact);
    assert_eq!(span_subject("trace", "12345678").needles().len(), 2);
    assert_eq!(span_subject("trace", "1234567").needles(), vec!["trace"]);
}

#[test]
fn earlier_keys_replay_under_the_default_tenant() {
    let pair = RecordedKey::Pair(("t".to_owned(), "s".to_owned()));
    assert_eq!(pair.into_triple(), (String::new(), "t".to_owned(), "s".to_owned()));
    let triple = RecordedKey::Triple(("acme".to_owned(), "t".to_owned(), "s".to_owned()));
    assert_eq!(triple.into_triple(), ("acme".to_owned(), "t".to_owned(), "s".to_owned()));
}

#[test]
fn a_settle_for_an_unknown_erasure_is_dropped() {
    let (log, _) = open(SETTLE_LINE.as_bytes()).expect("opens");
    assert!(log.list().is_empty());
}

#[test]
fn a_payload_subject_hides_but_does_not_drop() {
    let reference = format!("sha256/{}", "f".repeat(64));
    let mut record = erase_record(
        1,
        Subject::Payload {
            reference: reference.clone(),
        },
    );
    record.span_keys = Vec::new();
    let mask = Mask::for_pending(&vec![record]);
    let mut one = span("t", "s");
    one.attributes = vec![("p".into(), object(&[("$payload", text(&reference))]))];
    assert!(mask.covers(&one));
    assert!(!mask.covers_for_drop(&one));
    assert_eq!(mask.payload_subjects(), &vec![reference.clone()]);
    assert!(mask.covers_payload_file(&reference));
    assert!(!mask.covers_tenant("acme"));
}

#[test]
fn the_receipt_reads_as_a_report() {
    let mut held = DomainReport::clear("segments", "2 segments decoded".to_owned());
    held.result = "attention".to_owned();
    held.items = vec!["pin nightly".to_owned()];
    let mut receipt = Receipt {
        erasure_id: 7,
        subject: trace_subject("t1"),
        requested_unix_ns: 12,
        verified_unix_ns: 13,
        generation: Some(4),
        settled: true,
        domains: vec![held],
        result: "erased".to_owned(),
        conclusive: false,
    };
    let pad24 = format!("{:<24}", "segments");
    let pad20 = format!("{:<20}", "attention");
    let blank24 = " ".repeat(24);
    let blank20 = " ".repeat(20);
    assert_eq!(
        receipt.render_text(),
        format!(
            "erasure 7 — trace t1\nrequested 12 ns · settled: yes · published in generation 4\n\n  {pad24} {pad20} 2 segments decoded\n  {blank24} {blank20}   - pin nightly\n\nresult: erased (INCONCLUSIVE: occurrence scans found the subject's identifiers; see the attention domains above)\n"
        )
    );
    receipt.settled = false;
    receipt.generation = None;
    receipt.domains = Vec::new();
    receipt.conclusive = true;
    assert_eq!(
        receipt.render_text(),
        "erasure 7 — trace t1\nrequested 12 ns · settled: NO — purge has not completed\n\n\nresult: erased\n"
    );
    assert!(is_zero(&0) && !is_zero(&1));
}

#[test]
fn pins_are_visible_directories_in_order() {
    let entries = vec![
        ("weekly".to_owned(), true),
        (".tmp".to_owned(), true),
        ("file".to_owned(), false),
        ("daily".to_owned(), true),
    ];
    assert_eq!(pin_labels(&entries), vec!["daily", "weekly"]);
}
