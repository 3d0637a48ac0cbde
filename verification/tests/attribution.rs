use traza::attribution::{
    classify, declared_retry, diagnose, leaf_error_cause, self_depths, session_outcome,
    token_trend, Outcome, OutcomeSource, Shape, TokenTrend, MIN_SELF_DEPTH,
};
use traza::json::Json;
use traza::span::{Facts, Link, Span};

fn span(trace: &str, id: &str, parent: Option<&str>, name: &str, start: u64, end: u64) -> Span {
    Span {
        trace_id: trace.to_owned(),
        span_id: id.to_owned(),
        parent_span_id: parent.map(str::to_owned),
        tenant: String::new(),
        name: name.to_owned(),
        service: "agent".to_owned(),
        status: String::new(),
        start_time_ns: start,
        end_time_ns: end,
        attributes: Vec::new(),
        events: Vec::new(),
        links: Vec::new(),
        facts: Facts::none(),
    }
}

fn erroring(mut span: Span) -> Span {
    span.status = "error".into();
    span
}

fn with_tokens(mut span: Span, prompt: u64) -> Span {
    span.facts.model = Some("m".into());
    span.facts.is_llm = true;
    span.facts.prompt_tokens = Some(prompt);
    span.facts.total_tokens = prompt;
    span.facts.context_tokens = Some(prompt);
    span
}

const IDLE: u64 = 900_000_000_000;
const NOW: u64 = 10_000_000_000_000;

#[test]
fn a_recovered_run_is_a_success_that_still_reports_its_errors() {
    let spans = vec![
        erroring(span("t", "a", None, "call", 1, 2)),
        span("t", "b", None, "call", 3, 4),
    ];
    let outcome = session_outcome(&spans, NOW, IDLE);
    assert_eq!(outcome.outcome, Outcome::Success);
    assert_eq!(outcome.reason, "last_span_succeeded");
    assert_eq!(
        outcome.error_count, 1,
        "the retry that healed it does not hide the failure it healed"
    );
}

#[test]
fn a_still_running_session_is_unknown_not_successful() {
    let spans = vec![span("t", "a", None, "call", 1, NOW - 1)];
    let outcome = session_outcome(&spans, NOW, IDLE);
    assert_eq!(outcome.outcome, Outcome::Unknown);
    assert_eq!(outcome.reason, "still_active");
    assert_eq!(outcome.source, OutcomeSource::Derived);
}

#[test]
fn an_alternating_agent_loop_is_seen_as_depth() {
    let mut spans = Vec::new();
    let mut parent: Option<String> = None;
    for turn in 0..12_u64 {
        let name = if turn % 2 == 0 { "reflect" } else { "search" };
        let id = format!("s{turn}");
        spans.push(span(
            "t",
            &id,
            parent.as_deref(),
            name,
            turn * 10,
            turn * 10 + 5,
        ));
        parent = Some(id);
    }
    let depths = self_depths(&spans);
    assert!(
        depths.iter().copied().max().unwrap_or(0) >= MIN_SELF_DEPTH,
        "alternating ancestry is still self-similar: {depths:?}"
    );
    assert_eq!(depths[11], 5);
}

#[test]
fn absent_usage_never_reads_as_healthy_iteration() {
    let spans: Vec<Span> = (0..8_u64)
        .map(|turn| {
            span(
                "t",
                &format!("s{turn}"),
                Some("root"),
                "step",
                turn * 100,
                turn * 100 + 50,
            )
        })
        .collect();
    let members: Vec<&Span> = spans.iter().collect();
    let finding = classify(&members, 0);
    assert_eq!(finding.token_trend, TokenTrend::Absent);
    assert_eq!(
        finding.shape,
        Shape::Inconclusive,
        "absence of evidence is not evidence of health"
    );
    assert!(!finding.missing.is_empty(), "and it says what it lacked");
    assert_eq!(
        finding.missing,
        vec![
            "context tokens on too few attempts to read a trend",
            "no attempt failed"
        ]
    );
}

#[test]
fn a_growing_context_repeat_is_a_runaway_and_a_flat_one_is_not() {
    let growing: Vec<Span> = (0..8_u64)
        .map(|turn| {
            with_tokens(
                span(
                    "t",
                    &format!("s{turn}"),
                    Some("root"),
                    "step",
                    turn * 100,
                    turn * 100 + 50,
                ),
                1_000 + turn * 2_000,
            )
        })
        .collect();
    let members: Vec<&Span> = growing.iter().collect();
    assert_eq!(classify(&members, 0).shape, Shape::ContextRunaway);

    let flat: Vec<Span> = (0..8_u64)
        .map(|turn| {
            with_tokens(
                span(
                    "t",
                    &format!("s{turn}"),
                    Some("root"),
                    "step",
                    turn * 100,
                    turn * 100 + 50,
                ),
                1_000,
            )
        })
        .collect();
    let members: Vec<&Span> = flat.iter().collect();
    assert_eq!(classify(&members, 0).shape, Shape::Iteration);
}

#[test]
fn the_cause_is_the_earliest_leaf_error_not_the_parent_that_propagated_it() {
    let spans = vec![
        erroring(span("t", "root", None, "workflow", 0, 100)),
        erroring(span("t", "child", Some("root"), "tool", 10, 40)),
        erroring(span("t", "later", Some("root"), "tool", 50, 60)),
    ];
    let cause = leaf_error_cause(&spans).expect("a cause");
    assert_eq!(
        spans[cause].span_id, "child",
        "the root only failed because its child did"
    );
}

#[test]
fn a_conversation_is_not_a_runaway() {
    let spans: Vec<Span> = (0..20_u64)
        .map(|turn| {
            with_tokens(
                span(
                    &format!("trace-{turn}"),
                    "s",
                    None,
                    "openai.chat",
                    turn * 1_000,
                    turn * 1_000 + 500,
                ),
                400 + turn * 500,
            )
        })
        .collect();
    let diagnosis = diagnose(&spans, NOW, IDLE, false);
    assert!(
        diagnosis.findings.is_empty(),
        "a healthy conversation produces no finding: {:?}",
        diagnosis.findings
    );
}

#[test]
fn no_spans_say_nothing() {
    let outcome = session_outcome(&[], NOW, IDLE);
    assert_eq!(outcome.outcome, Outcome::Unknown);
    assert_eq!(outcome.source, OutcomeSource::Unknown);
    assert_eq!(outcome.reason, "no_spans");
    assert_eq!(outcome.span_count, 0);
}

#[test]
fn the_newest_declaration_stands() {
    let mut first = span("t", "a", None, "call", 1, 5);
    first.facts.outcome = Some("Failed".into());
    first.facts.goal = Some("ship it".into());
    let mut second = span("t", "b", None, "call", 2, 9);
    second.facts.outcome = Some("RESOLVED".into());
    let third = erroring(span("t", "c", None, "call", 3, 20));
    let outcome = session_outcome(&[second, first, third], NOW, IDLE);
    assert_eq!(outcome.outcome, Outcome::Success);
    assert_eq!(outcome.source, OutcomeSource::Declared);
    assert_eq!(outcome.declared.as_deref(), Some("RESOLVED"));
    assert_eq!(outcome.goal.as_deref(), Some("ship it"));
    for (text, expected) in [
        ("ok", Outcome::Success),
        ("failure", Outcome::Failure),
        ("error", Outcome::Failure),
        ("timeout", Outcome::Abandoned),
        ("Canceled", Outcome::Abandoned),
        ("maybe", Outcome::Unknown),
    ] {
        let mut only = span("t", "a", None, "call", 1, 5);
        only.facts.outcome = Some(text.into());
        assert_eq!(session_outcome(&[only], NOW, IDLE).outcome, expected, "{text}");
    }
}

#[test]
fn a_failed_end_is_a_failure() {
    let spans = vec![
        span("t", "a", None, "call", 1, 2),
        erroring(span("t", "b", None, "call", 3, 4)),
    ];
    let outcome = session_outcome(&spans, NOW, IDLE);
    assert_eq!(outcome.outcome, Outcome::Failure);
    assert_eq!(outcome.reason, "last_span_failed");
}

#[test]
fn trends_read_growth_flatness_and_variation() {
    let some = |values: &[u64]| values.iter().map(|v| Some(*v)).collect::<Vec<_>>();
    assert_eq!(
        token_trend(&some(&[100, 150, 200])),
        (TokenTrend::Growing, Some(100), Some(200))
    );
    assert_eq!(
        token_trend(&some(&[40_000, 50_000, 60_000])).0,
        TokenTrend::Growing,
        "absolute growth is enough"
    );
    assert_eq!(token_trend(&some(&[1_000, 900, 1_050])).0, TokenTrend::Flat);
    assert_eq!(token_trend(&some(&[1_000, 4_000, 1_500])).0, TokenTrend::Varying);
    assert_eq!(
        token_trend(&vec![Some(1), None, Some(2)]),
        (TokenTrend::Absent, None, None)
    );
    assert_eq!(
        token_trend(&vec![Some(1), None, Some(2), Some(3)]),
        (TokenTrend::Growing, Some(1), Some(3))
    );
    assert_eq!(
        token_trend(&some(&[0, 0, 0])),
        (TokenTrend::Flat, Some(0), Some(0)),
        "what did not grow is not growing"
    );
    assert_eq!(
        token_trend(&some(&[99, 100, 100])),
        (TokenTrend::Flat, Some(99), Some(100))
    );
    assert_eq!(token_trend(&some(&[u64::MAX, u64::MAX, u64::MAX])).0, TokenTrend::Flat);
    assert_eq!(token_trend(&some(&[0, 1, 1])).0, TokenTrend::Growing);
    assert_eq!(token_trend(&some(&[10, 9, 9])).0, TokenTrend::Flat, "exactly ten percent");
    assert_eq!(token_trend(&some(&[10, 8, 8])).0, TokenTrend::Varying);
}

#[test]
fn attempts_without_tokens_are_no_runaway() {
    let spans: Vec<Span> = (0..8_u64)
        .map(|i| with_tokens(span("t", &format!("s{i}"), None, "call", i * 10, i * 10 + 5), 0))
        .collect();
    let members: Vec<&Span> = spans.iter().collect();
    let finding = classify(&members, 0);
    assert_eq!(finding.token_trend, TokenTrend::Flat);
    assert_eq!(finding.shape, Shape::Iteration);
}

#[test]
fn usage_that_cannot_be_read_leaves_no_trend() {
    let mut spans: Vec<Span> = (0..8_u64)
        .map(|i| {
            let one = span("t", &format!("s{i}"), None, "call", i * 10, i * 10 + 5);
            with_tokens(one, 1_000 * (i + 1))
        })
        .collect();
    {
        let members: Vec<&Span> = spans.iter().collect();
        assert_eq!(classify(&members, 0).shape, Shape::ContextRunaway);
    }
    spans[3].facts.context_tokens = None;
    let members: Vec<&Span> = spans.iter().collect();
    let finding = classify(&members, 0);
    assert_eq!(finding.token_trend, TokenTrend::Unknown);
    assert_eq!((finding.context_first, finding.context_last), (None, None));
    assert_eq!(finding.shape, Shape::Inconclusive);
    assert_eq!(
        finding.missing,
        ["a caching convention whose token arithmetic is not known", "no attempt failed"]
    );
}

#[test]
fn a_cause_names_only_its_own_repetition() {
    let mut spans = vec![erroring(span("t", "early", None, "a", 0, 1))];
    spans.extend((0..5_u64).map(|i| {
        erroring(span("t", &format!("b{i}"), None, "b", 10 + i * 10, 15 + i * 10))
    }));
    let diagnosis = diagnose(&spans, NOW, IDLE, false);
    assert_eq!(diagnosis.findings.len(), 1);
    assert_eq!(diagnosis.findings[0].name, "b");
    assert_eq!(diagnosis.findings[0].shape, Shape::RetryStorm);
    let cause = diagnosis.cause.expect("a cause");
    assert_eq!(cause.name, "a");
    assert_eq!(cause.rule, "leaf_error");

    // The same step of another service, or in another trace, is not it either.
    let mut other = erroring(span("t", "early", None, "b", 0, 1));
    other.service = "elsewhere".into();
    spans[0] = other;
    assert_eq!(diagnose(&spans, NOW, IDLE, false).cause.expect("a cause").rule, "leaf_error");
    spans[0] = erroring(span("u", "early", None, "b", 0, 1));
    assert_eq!(diagnose(&spans, NOW, IDLE, false).cause.expect("a cause").rule, "leaf_error");

    spans[0] = erroring(span("t", "early", None, "b", 0, 1));
    let diagnosis = diagnose(&spans, NOW, IDLE, false);
    let cause = diagnosis.cause.expect("a cause");
    assert_eq!(cause.rule, "repeated_fault");
    assert_eq!(diagnosis.findings[0].count, 6);
    assert!(cause.because.ends_with("repeats 6 times in this trace (6 of them failing)"));
}

#[test]
fn a_parent_cycle_does_not_trap_the_walk() {
    let spans = vec![
        span("t", "a", Some("b"), "x", 0, 1),
        span("t", "b", Some("a"), "x", 0, 1),
        span("u", "b", Some("a"), "x", 0, 1),
    ];
    assert_eq!(self_depths(&spans), vec![2, 2, 0]);
}

#[test]
fn a_deep_chain_is_a_finding_and_names_the_cause() {
    let mut spans = vec![];
    for i in 0..7_u64 {
        let parent = if i == 0 { None } else { Some(format!("s{}", i - 1)) };
        let mut one = span("t", &format!("s{i}"), parent.as_deref(), "plan", i, 100 - i);
        if i == 6 {
            one.status = "ERROR".into();
        }
        spans.push(one);
    }
    let diagnosis = diagnose(&spans, NOW, IDLE, true);
    assert_eq!(diagnosis.findings.len(), 1);
    assert_eq!(diagnosis.findings[0].shape, Shape::SelfSimilarChain);
    assert_eq!(diagnosis.findings[0].self_depth, 6);
    assert_eq!(diagnosis.findings[0].count, 7);
    assert_eq!(diagnosis.findings[0].spans.len(), 5);
    assert_eq!(diagnosis.findings[0].spans[4].span_id, "s6");
    assert!(diagnosis.truncated);
    let cause = diagnosis.cause.expect("a cause");
    assert_eq!(cause.rule, "repeated_fault");
    assert_eq!(cause.confidence, "structural");
    assert_eq!(cause.span.span_id, "s6");
    assert_eq!(
        cause.because,
        "it is the earliest step that failed without a failing child, and its operation repeats 7 times in this trace (1 of them failing)"
    );
}

#[test]
fn a_single_failure_is_a_leaf_error() {
    let spans = vec![erroring(span("t", "a", None, "call", 1, 2))];
    let cause = diagnose(&spans, NOW, IDLE, false).cause.expect("a cause");
    assert_eq!(cause.rule, "leaf_error");
    assert_eq!(cause.confidence, "statistical");
}

#[test]
fn serial_failures_are_a_retry_storm_and_overlap_is_iteration() {
    let failing: Vec<Span> = (0..6_u64)
        .map(|i| erroring(span("t", &format!("s{i}"), None, "call", i * 10, i * 10 + 5)))
        .collect();
    let members: Vec<&Span> = failing.iter().collect();
    let finding = classify(&members, 0);
    assert_eq!(finding.shape, Shape::RetryStorm);
    assert_eq!((finding.serial, finding.pairs), (5, 5));
    let fan: Vec<Span> = (0..6_u64)
        .map(|i| erroring(span("t", &format!("s{i}"), None, "call", i, 100)))
        .collect();
    let members: Vec<&Span> = fan.iter().collect();
    assert_eq!(classify(&members, 0).shape, Shape::Iteration);
}

#[test]
fn a_labelled_retry_is_declared() {
    let mut spans: Vec<Span> = (0..5_u64)
        .map(|i| span("t", &format!("s{i}"), None, "call", i, i + 1))
        .collect();
    spans[3].links.push(Link {
        trace_id: "t".into(),
        span_id: "s0".into(),
        attributes: vec![("relation".into(), Json::Text("retry-of".into()))],
    });
    {
        let members: Vec<&Span> = spans.iter().collect();
        assert!(declared_retry(&members));
        assert_eq!(classify(&members, 0).shape, Shape::DeclaredRetry);
    }
    spans[3].links[0].span_id = "elsewhere".into();
    let members: Vec<&Span> = spans.iter().collect();
    assert!(!declared_retry(&members));
}

#[test]
fn faults_stand_before_ordinary_work() {
    let mut spans: Vec<Span> = (0..8_u64)
        .map(|i| span("t", &format!("f{i}"), None, "fan", i, 1000))
        .collect();
    spans.extend(
        (0..5_u64).map(|i| erroring(span("t", &format!("r{i}"), None, "call", i * 10, i * 10 + 5))),
    );
    let findings = diagnose(&spans, NOW, IDLE, false).findings;
    assert_eq!(findings.len(), 2);
    assert_eq!(findings[0].shape, Shape::RetryStorm);
    assert_eq!(findings[1].shape, Shape::Iteration);
    assert!(findings[0].shape.is_fault() && !findings[1].shape.is_fault());
}
