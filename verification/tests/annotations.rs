use traza::annotations::{Annotation, AnnotationLog, AnnotationQuery, Cutoffs, Doom};
use traza::erasure::Error;
use traza::json::Json;
use traza::jsonl::{record_lines, recover, Damage, Healing};
use traza::sets::Distinct;

fn note(trace: &str, span: &str, name: &str, at: u64) -> Annotation {
    Annotation {
        trace_id: trace.to_owned(),
        span_id: span.to_owned(),
        tenant: String::new(),
        session_id: String::new(),
        experiment_id: None,
        example_id: String::new(),
        name: name.to_owned(),
        value: Json::Bool(true),
        source: "human:ada".to_owned(),
        comment: String::new(),
        timestamp_ns: at,
    }
}

fn score(experiment: u64, example: &str, at: u64) -> Annotation {
    let mut a = note("", "", "quality", at);
    a.experiment_id = Some(experiment);
    a.example_id = example.to_owned();
    a.source = "eval:judge".to_owned();
    a
}

fn refusal(a: &Annotation) -> &'static str {
    match a.validate_subject() {
        Ok(()) => "",
        Err(Error::InvalidSpan(message)) => message,
    }
}

fn names(list: &[Annotation]) -> Vec<&str> {
    list.iter().map(|a| a.name.as_str()).collect()
}

#[test]
fn every_misshapen_subject_is_named() {
    assert_eq!(refusal(&note("t", "", "n", 1)), "");
    assert_eq!(refusal(&note("t", "", "", 1)), "annotation name is empty");
    let mut bad = note("t", "", "n", 1);
    bad.tenant = "Not-Valid".into();
    assert_eq!(
        refusal(&bad),
        "annotation tenant must be lowercase [a-z0-9][a-z0-9._-], at most 64 bytes"
    );
    assert_eq!(
        refusal(&note("", "s", "n", 1)),
        "annotation span_id requires its trace_id"
    );
    let mut half = note("t", "", "n", 1);
    half.experiment_id = Some(1);
    assert_eq!(
        refusal(&half),
        "a score names both experiment_id and example_id"
    );
    let mut both = note("t", "", "n", 1);
    both.session_id = "s".into();
    assert_eq!(
        refusal(&both),
        "a session annotation names only its session_id"
    );
    assert_eq!(
        refusal(&note("", "", "n", 1)),
        "annotation must address a trace, a span, a session, or an experiment example"
    );
    assert!(!note("t", "", "n", 1).is_score());
    assert!(score(1, "e", 1).is_score());
    assert_eq!(refusal(&score(1, "e", 1)), "");
}

#[test]
fn a_refused_append_changes_nothing() {
    let mut log = AnnotationLog::new();
    assert!(log.append(note("", "", "n", 1)).is_err());
    assert_eq!(log.len(), 0);
    assert!(log.append(note("t", "", "n", 1)).is_ok());
    assert_eq!(log.len(), 1);
}

#[test]
fn a_search_is_newest_first_with_a_stable_tiebreak() {
    let mut log = AnnotationLog::new();
    for a in [
        note("b", "", "second", 5),
        note("a", "", "first", 5),
        note("c", "", "newest", 9),
        note("a", "", "oldest", 1),
    ] {
        log.append(a).expect("sound");
    }
    let found = log.search(&AnnotationQuery::default());
    assert_eq!(names(&found), vec!["newest", "first", "second", "oldest"]);
    let capped = log.search(&AnnotationQuery {
        limit: Some(2),
        ..AnnotationQuery::default()
    });
    assert_eq!(names(&capped), vec!["newest", "first"]);
}

#[test]
fn every_supplied_narrowing_must_match() {
    let mut log = AnnotationLog::new();
    let mut in_run = score(7, "e1", 4);
    in_run.trace_id = "t1".into();
    log.append(in_run).expect("sound");
    log.append(score(7, "e2", 5)).expect("sound");
    log.append(score(8, "e1", 6)).expect("sound");
    log.append(note("t1", "s1", "thumbs", 7)).expect("sound");
    let by_experiment = log.search(&AnnotationQuery {
        experiment_id: Some(7),
        ..AnnotationQuery::default()
    });
    assert_eq!(by_experiment.len(), 2);
    let by_both = log.search(&AnnotationQuery {
        experiment_id: Some(7),
        trace_id: Some("t1"),
        ..AnnotationQuery::default()
    });
    assert_eq!(by_both.len(), 1);
    assert_eq!(by_both[0].example_id, "e1");
    let humans = log.search(&AnnotationQuery {
        source_prefix: Some("human:"),
        ..AnnotationQuery::default()
    });
    assert_eq!(names(&humans), vec!["thumbs"]);
    let window = log.search(&AnnotationQuery {
        since_ns: Some(5),
        until_ns: Some(6),
        ..AnnotationQuery::default()
    });
    assert_eq!(window.len(), 2);
    assert_eq!(log.query(None, "t1", None, None).len(), 2);
    assert_eq!(log.query(None, "t1", Some("s1"), Some("thumbs")).len(), 1);
    assert_eq!(log.query(Some("acme"), "t1", None, None).len(), 0);
    assert_eq!(log.query(None, "absent", None, None).len(), 0);
}

#[test]
fn expiry_spares_scores() {
    let mut log = AnnotationLog::new();
    log.append(note("t", "", "old", 1)).expect("sound");
    log.append(score(1, "e", 1)).expect("sound");
    let mut kept = note("t", "", "kept", 1);
    kept.tenant = "acme".into();
    log.append(kept).expect("sound");
    log.append(note("t", "", "new", 10)).expect("sound");
    let cutoffs = Cutoffs {
        by_tenant: vec![("acme".to_owned(), None)],
        otherwise: Some(5),
    };
    assert_eq!(log.drop_older_than(&cutoffs), 1);
    assert_eq!(log.len(), 3);
    assert_eq!(log.drop_older_than(&cutoffs), 0);
    assert_eq!(log.query(None, "t", None, None).len(), 2, "the index follows");
}

#[test]
fn an_erasure_reaches_what_it_is_about() {
    let mut log = AnnotationLog::new();
    log.append(note("t1", "s1", "key", 1)).expect("sound");
    log.append(note("t1", "", "trace-level", 2)).expect("sound");
    let mut session = note("", "", "session", 3);
    session.session_id = "sess".into();
    log.append(session).expect("sound");
    let mut theirs = note("t1", "s1", "theirs", 4);
    theirs.tenant = "acme".into();
    log.append(theirs).expect("sound");

    let mut keys: Distinct<(String, String, String)> = Distinct::new();
    keys.insert((String::new(), "t1".to_owned(), "s1".to_owned()));
    let by_key = Doom {
        keys: &keys,
        whole_trace: None,
        whole_session: None,
        whole_tenant: None,
    };
    assert_eq!(log.drop_for_subject(&by_key), 1);
    let none: Distinct<(String, String, String)> = Distinct::new();
    let by_session = Doom {
        keys: &none,
        whole_trace: None,
        whole_session: Some(("", "sess")),
        whole_tenant: None,
    };
    assert_eq!(log.drop_for_subject(&by_session), 1);
    let by_trace = Doom {
        keys: &none,
        whole_trace: Some(("", "t1")),
        whole_session: None,
        whole_tenant: None,
    };
    assert_eq!(log.drop_for_subject(&by_trace), 1);
    let by_tenant = Doom {
        keys: &none,
        whole_trace: None,
        whole_session: None,
        whole_tenant: Some("acme"),
    };
    assert_eq!(log.drop_for_subject(&by_tenant), 1);
    assert_eq!(log.len(), 0);
}

/// The annotation of a line of the shapes written below.
fn read_line(line: &[u8]) -> Option<Annotation> {
    let document = serde_json::from_slice::<serde_json::Value>(line).ok()?;
    let name = document.get("name")?.as_str()?;
    let mut one = note(document.get("trace_id")?.as_str()?, "", name, 0);
    if let Some(tenant) = document.get("$tenant") {
        one.tenant = tenant.as_str()?.to_owned();
    }
    Some(one)
}

fn open(contents: &[u8]) -> Result<(AnnotationLog, Healing), Damage> {
    let read = record_lines(contents)
        .into_iter()
        .map_while(|(from, to)| read_line(&contents[from..to]))
        .collect();
    AnnotationLog::open(contents, read)
}

#[test]
fn an_annotation_log_replays_and_heals() {
    let whole = "{\"trace_id\":\"t\",\"name\":\"a\",\"value\":1}\n \t\n{\"$tenant\":\"acme\",\"trace_id\":\"t\",\"name\":\"b\",\"value\":null,\"timestamp_ns\":9}\n";
    let torn = format!("{whole}{{\"trace_id\":\"t\",\"na");
    let (log, healing) = open(torn.as_bytes()).expect("heals");
    assert_eq!(log.len(), 2);
    assert_eq!(
        healing,
        Healing::Truncate {
            valid_len: whole.len()
        }
    );
    assert_eq!(log.query(Some("acme"), "t", None, None).len(), 1);
    let (log, healing) = open(whole.as_bytes()).expect("opens");
    assert_eq!((log.len(), healing), (2, Healing::Nothing));
    let (log, healing) = open(whole.trim_end().as_bytes()).expect("a lost newline is no loss");
    assert_eq!((log.len(), healing), (2, Healing::Terminate));
    let damaged = format!("X{torn}\n");
    assert!(matches!(open(damaged.as_bytes()), Err(Damage { at: 0 })));
    let ended = format!("{torn}\n");
    assert!(
        matches!(open(ended.as_bytes()), Err(damage) if damage.at == whole.len()),
        "a malformed record that has its newline is no torn tail"
    );
}

#[test]
fn an_append_after_healing_is_its_own_line() {
    let mut contents = b"{\"a\":1}\n\n{\"b\":2}".to_vec();
    assert_eq!(record_lines(&contents), vec![(0, 8), (9, 16)]);
    assert_eq!(recover(&contents, 2), Ok(Healing::Terminate));
    contents.push(b'\n');
    assert_eq!(recover(&contents, 2), Ok(Healing::Nothing));
    contents.extend_from_slice(b"{}\n");
    assert_eq!(record_lines(&contents), vec![(0, 8), (9, 17), (17, 20)]);
    assert_eq!(recover(&contents, 1), Err(Damage { at: 9 }));
    assert_eq!(recover(b"", 0), Ok(Healing::Nothing));
    assert_eq!(recover(b" ", 0), Ok(Healing::Terminate));
    assert_eq!(recover(b"x", 0), Ok(Healing::Truncate { valid_len: 0 }));
}
