//! The benchmark corpora and their encodings.

use traza::batches::{canonical_json, json_batch, otlp_json_batch};
use traza::corpus::{decimal_padded, hex_padded, http_method, resource_runs, seed};
use traza::json::Json;
use traza::llm::{call_json, call_tokens, chat_json, pinned_context, pinned_json};
use traza::protobuf::{delimited, fixed64, protobuf_batch, string_attribute, tag, unhex, varint};

fn text(value: &Json, key: &str) -> String {
    value
        .get(key)
        .and_then(|value| value.as_str())
        .unwrap_or_else(|| panic!("no text {key}"))
        .to_owned()
}

fn number(value: &Json, key: &str) -> u64 {
    value.uint_at(key).unwrap_or_else(|| panic!("no number {key}"))
}

fn items(value: &Json) -> &Vec<Json> {
    match value {
        Json::Array(items) => items,
        other => panic!("{other:?}"),
    }
}

#[test]
fn numbers_are_padded() {
    assert_eq!(hex_padded(255, 4), "00ff");
    assert_eq!(hex_padded(0xabcdef, 2), "abcdef");
    assert_eq!(decimal_padded(7, 3), "007");
}

#[test]
fn a_seed_is_the_same_in_every_encoding() {
    let data = seed(123);
    assert_eq!(data.trace_id, format!("{:032x}", 13));
    assert_eq!(data.span_id, format!("{:016x}", 124));
    assert_eq!(data.name, "operation");
    assert_eq!(data.service, "service-2");
    assert_eq!(data.group, "group-23");
    assert_eq!(data.start_ns, 1_700_000_000_123_000_000);
    assert_eq!(data.end_ns, data.start_ns + 500_000 + 23 * 20_000);
    assert_eq!(http_method(2), "GET");
    assert_eq!(http_method(3), "POST");
    let native = json_batch(123, 124);
    let span = &items(&native)[0];
    assert_eq!(text(span, "span_id"), data.span_id);
    assert_eq!(number(span, "end_ns"), data.end_ns);
    let otlp = otlp_json_batch(123, 124);
    let resources = items(otlp.get("resourceSpans").expect("resources"));
    assert_eq!(resources.len(), 1);
}

#[test]
fn runs_follow_the_service() {
    let runs = resource_runs(45, 152);
    assert_eq!(
        runs,
        [
            ("service-0".to_owned(), 45, 50),
            ("service-1".to_owned(), 50, 100),
            ("service-2".to_owned(), 100, 150),
            ("service-3".to_owned(), 150, 152),
        ]
    );
    assert!(resource_runs(5, 5).is_empty());
}

#[test]
fn the_canonical_span_has_its_quirks() {
    let first = canonical_json(0);
    assert!(matches!(first.get("parent_span_id"), Some(Json::Null)));
    assert_eq!(text(&first, "status"), "error");
    assert_eq!(text(&first, "name"), "request");
    assert_eq!(items(first.get("events").expect("events")).len(), 1);
    let next = canonical_json(1);
    assert_eq!(text(&next, "parent_span_id"), format!("{:016x}", 1));
    assert_eq!(text(&next, "service"), "service-1");
    assert!(items(next.get("events").expect("events")).is_empty());
}

#[test]
fn protobuf_fields_are_encoded() {
    let mut out = Vec::new();
    varint(&mut out, 300);
    assert_eq!(out, [0xac, 0x02]);
    let mut out = Vec::new();
    tag(&mut out, 15, 2);
    assert_eq!(out, [0x7a]);
    let mut out = Vec::new();
    delimited(&mut out, 1, b"abc");
    assert_eq!(out, [0x0a, 3, b'a', b'b', b'c']);
    let mut out = Vec::new();
    fixed64(&mut out, 7, 1);
    assert_eq!(out, [0x39, 1, 0, 0, 0, 0, 0, 0, 0]);
    assert_eq!(unhex("00ffA0"), [0, 255, 160]);
    assert_eq!(
        string_attribute("k", "v"),
        [0x0a, 1, b'k', 0x12, 3, 0x0a, 1, b'v']
    );
}

#[test]
fn a_protobuf_batch_has_one_resource_per_run() {
    let request = protobuf_batch(49, 51);
    assert_eq!(request[0], 0x0a);
    let first = request[1] as usize & 0x7f | (request[2] as usize) << 7;
    assert_eq!(request[3 + first], 0x0a);
    let service = b"service-0";
    assert!(request.windows(service.len()).any(|window| window == service));
    let group = b"group-50";
    assert!(request.windows(group.len()).any(|window| window == group));
    assert!(protobuf_batch(3, 3).is_empty());
}

#[test]
fn model_calls_go_through_the_models_in_turn() {
    let models = vec!["m-a".to_owned(), "m-b".to_owned()];
    let call = call_json(3, &models, "0.00038");
    let attributes = call.get("attributes").expect("attributes");
    assert_eq!(text(attributes, "gen_ai.request.model"), "m-b");
    assert_eq!(text(attributes, "gen_ai.system"), "meta");
    assert_eq!(text(attributes, "session.id"), "session-0");
    assert!(matches!(attributes.get("gen_ai.usage.cost"), Some(Json::Number(n)) if n == "0.00038"));
    assert_eq!(call_tokens(901).prompt, 101);
    assert_eq!(call_tokens(401).completion, 21);
    assert_eq!(text(&call_json(89, &models, "0"), "status"), "error");
}

#[test]
fn conversations_name_their_order() {
    let models = vec!["gpt-x".to_owned(), "other".to_owned()];
    let chat = chat_json(5, &models, "0.1");
    let attributes = chat.get("attributes").expect("attributes");
    assert_eq!(text(attributes, "gen_ai.system"), "anthropic");
    assert!(text(attributes, "gen_ai.prompt.1.content").starts_with("Order 4100005: the customer"));
    assert!(text(attributes, "gen_ai.completion.0.content")
        .starts_with("Thanks for confirming order 4100005. I can see"));
    let gpt = chat_json(4, &models, "0.1");
    assert_eq!(
        text(gpt.get("attributes").expect("attributes"), "gen_ai.system"),
        "openai"
    );
    assert!(matches!(gpt.get("parent_span_id"), Some(Json::Null)));
}

#[test]
fn the_pinned_context_crosses_the_threshold() {
    let context = pinned_context();
    assert!(context.is_ascii());
    assert!(context.len() >= 320 * 1024);
    assert!(context.len() < 321 * 1024);
    assert!(context.starts_with("Policy section 0. Refunds are issued"));
    let call = pinned_json(2, "m", &context);
    let attributes = call.get("attributes").expect("attributes");
    assert_eq!(text(attributes, "gen_ai.prompt.0.content"), context);
    assert_eq!(number(attributes, "gen_ai.usage.total_tokens"), 82_002 + 122);
}
