//! What the benchmark accepts as the answer to a filtered search.

use traza::oracle::verify_filter_response;

/// The honest answer for one group, built from the corpus rule without the
/// library's own arithmetic.
fn honest_response(group: usize, span_count: usize, limit: usize) -> Vec<u8> {
    let spans: Vec<String> = (group..span_count)
        .step_by(100)
        .take(limit)
        .map(|index| honest_span(index, &format!("group-{group}")))
        .collect();
    body(&spans)
}

fn honest_span(index: usize, group_value: &str) -> String {
    format!(
        "{{\"trace_id\":\"{:032x}\",\"span_id\":\"{:016x}\",\"attributes\":{{\"benchmark.group\":\"{group_value}\"}}}}",
        index / 10 + 1,
        index + 1
    )
}

fn body(spans: &[String]) -> Vec<u8> {
    format!("{{\"spans\":[{}]}}", spans.join(",")).into_bytes()
}

#[test]
fn the_oracle_accepts_the_generators_exact_answer() {
    verify_filter_response(&honest_response(7, 1_000_000, 100), 7, 1_000_000, 100)
        .expect("the honest canonical answer passes");
}

#[test]
fn the_oracle_derives_the_expected_count_from_the_corpus() {
    verify_filter_response(&honest_response(30, 250, 100), 30, 250, 100)
        .expect("a short group's exact population passes");
    verify_filter_response(&honest_response(30, 250, 100), 30, 230, 100)
        .expect_err("a count the corpus does not define is refused");
}

#[test]
fn the_oracle_rejects_a_parseable_empty_answer() {
    let refusal = verify_filter_response(&body(&[]), 7, 1_000_000, 100)
        .expect_err("an empty answer is wrong, however parseable");
    assert!(
        refusal.contains("0 spans"),
        "the refusal names the wrong count: {refusal}"
    );
}

#[test]
fn the_oracle_rejects_a_span_from_the_wrong_group() {
    let mut spans: Vec<String> = (7..1_000_000)
        .step_by(100)
        .take(100)
        .map(|index| honest_span(index, "group-7"))
        .collect();
    spans[41] = honest_span(4_107, "group-8");
    verify_filter_response(&body(&spans), 7, 1_000_000, 100)
        .expect_err("a span carrying another group's value is refused");
}

#[test]
fn the_oracle_rejects_substituted_span_ids() {
    let spans: Vec<String> = (107..1_000_000)
        .step_by(100)
        .take(100)
        .map(|index| honest_span(index, "group-7"))
        .collect();
    verify_filter_response(&body(&spans), 7, 1_000_000, 100)
        .expect_err("the exact expected ids are part of the answer");
}

#[test]
fn the_oracle_says_what_is_wrong() {
    let refuse = |text: &str, span_count: usize| {
        verify_filter_response(text.as_bytes(), 0, span_count, 100).expect_err("refused")
    };
    assert!(refuse("nonsense", 1).starts_with("group-0 response is not JSON: "));
    assert_eq!(refuse("{}", 1), "group-0 response carries no spans array");
    assert_eq!(
        refuse("{\"spans\":[]}", 1),
        "group-0 returned 0 spans, the corpus defines exactly 1"
    );
    assert_eq!(
        refuse("{\"spans\":[{}]}", 1),
        "group-0 returned a span carrying benchmark.group None"
    );
    assert_eq!(
        refuse(
            "{\"spans\":[{\"attributes\":{\"benchmark.group\":\"group-1\"}}]}",
            1
        ),
        "group-0 returned a span carrying benchmark.group Some(\"group-1\")"
    );
    assert_eq!(
        refuse(
            "{\"spans\":[{\"attributes\":{\"benchmark.group\":\"group-0\"}}]}",
            1
        ),
        "group-0 returned a span without a span_id"
    );
    let twice = honest_span(0, "group-0");
    assert_eq!(
        verify_filter_response(&body(&[twice.clone(), twice]), 0, 101, 100).expect_err("twice"),
        "group-0 returned span 0000000000000001, which is not among the expected ids (or is a duplicate)"
    );
}

#[test]
fn an_answer_within_the_limit_is_the_whole_answer() {
    verify_filter_response(&honest_response(3, 1_000, 4), 3, 1_000, 4).expect("the first four");
    verify_filter_response(&honest_response(3, 1_000, 5), 3, 1_000, 4)
        .expect_err("one past the limit");
    verify_filter_response(&honest_response(3, 3, 4), 3, 3, 4).expect("a group with no spans");
}
