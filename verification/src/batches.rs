//! The benchmark corpora as JSON documents.

use vstd::prelude::*;

use crate::corpus::{
    ends_at, group_of, hex_padded, http_method, in_time, method_of, name_of, padded_hex,
    resource_runs, runs_of, runs_view, seed, service_of, span_id_of, starts_at, trace_id_of,
};
use crate::json::{
    array, entries_view, entry, items_view, object, object1, single, text_json, uint_json,
    uint_view, Json, JsonView,
};
use crate::text::{copy, dec, decimal};

verus! {

pub open spec fn text_view(s: Seq<char>) -> JsonView {
    JsonView::Text(s)
}

// ----------------------------------------------------------------------- native

/// The attributes of the span at an index.
pub open spec fn attributes_view(index: int) -> JsonView {
    JsonView::Object(
        seq![
            ("benchmark.group"@, text_view(group_of(index))),
            ("http.method"@, text_view(method_of(index))),
        ],
    )
}

/// The span at an index as the native route takes it.
pub open spec fn native_span(index: int) -> JsonView {
    JsonView::Object(
        seq![
            ("trace_id"@, text_view(trace_id_of(index))),
            ("span_id"@, text_view(span_id_of(index))),
            ("name"@, text_view(name_of(index))),
            ("service"@, text_view(service_of(index))),
            ("start_ns"@, uint_view(starts_at(index) as nat)),
            ("end_ns"@, uint_view(ends_at(index) as nat)),
            ("status"@, text_view("ok"@)),
            ("attributes"@, attributes_view(index)),
        ],
    )
}

fn native_json(index: usize) -> (r: Json)
    requires
        in_time(index as int),
    ensures
        r@ == native_span(index as int),
{
    let data = seed(index);
    let mut attributes: Vec<(String, Json)> = Vec::new();
    attributes.push(entry("benchmark.group", text_json(data.group.as_str())));
    attributes.push(entry("http.method", text_json(http_method(index))));
    assert(entries_view(attributes@) =~= attributes_view(index as int)->Object_0);
    let held = object(attributes);
    let mut entries: Vec<(String, Json)> = Vec::new();
    entries.push(entry("trace_id", text_json(data.trace_id.as_str())));
    entries.push(entry("span_id", text_json(data.span_id.as_str())));
    entries.push(entry("name", text_json(data.name)));
    entries.push(entry("service", text_json(data.service.as_str())));
    entries.push(entry("start_ns", uint_json(data.start_ns)));
    entries.push(entry("end_ns", uint_json(data.end_ns)));
    entries.push(entry("status", text_json("ok")));
    entries.push(entry("attributes", held));
    assert(entries_view(entries@) =~= native_span(index as int)->Object_0);
    object(entries)
}

/// The spans from `start` to `end` as the native route takes them.
pub fn json_batch(start: usize, end: usize) -> (r: Json)
    requires
        start <= end,
        forall|i: int| start <= i < end ==> #[trigger] in_time(i),
    ensures
        r@ == JsonView::Array(
            Seq::new((end - start) as nat, |k: int| native_span(start + k)),
        ),
{
    let mut items: Vec<Json> = Vec::new();
    let mut index: usize = start;
    while index < end
        invariant
            start <= index <= end,
            forall|i: int| start <= i < end ==> #[trigger] in_time(i),
            items@.len() == index - start,
            forall|k: int|
                0 <= k < index - start ==> (#[trigger] items@[k])@ == native_span(start + k),
        decreases end - index,
    {
        assert(in_time(index as int));
        items.push(native_json(index));
        index += 1;
    }
    assert(items_view(items@) =~= Seq::new(
        (end - start) as nat,
        |k: int| native_span(start + k),
    ));
    array(items)
}

// ------------------------------------------------------------------------- OTLP

/// An attribute with a text, as OTLP writes it.
pub open spec fn otlp_attribute(key: Seq<char>, value: Seq<char>) -> JsonView {
    JsonView::Object(
        seq![("key"@, text_view(key)), ("value"@, object1("stringValue"@, text_view(value)))],
    )
}

fn attribute_json(key: &str, value: &str) -> (r: Json)
    ensures
        r@ == otlp_attribute(key@, value@),
{
    let held = single("stringValue", text_json(value));
    let mut entries: Vec<(String, Json)> = Vec::new();
    entries.push(entry("key", text_json(key)));
    entries.push(entry("value", held));
    assert(entries_view(entries@) =~= otlp_attribute(key@, value@)->Object_0);
    object(entries)
}

/// The span at an index as OTLP writes it: times as texts, the status by its
/// name.
pub open spec fn otlp_span(index: int) -> JsonView {
    JsonView::Object(
        seq![
            ("traceId"@, text_view(trace_id_of(index))),
            ("spanId"@, text_view(span_id_of(index))),
            ("name"@, text_view(name_of(index))),
            ("startTimeUnixNano"@, text_view(dec(starts_at(index) as nat))),
            ("endTimeUnixNano"@, text_view(dec(ends_at(index) as nat))),
            ("status"@, object1("code"@, text_view("STATUS_CODE_OK"@))),
            (
                "attributes"@,
                JsonView::Array(
                    seq![
                        otlp_attribute("benchmark.group"@, group_of(index)),
                        otlp_attribute("http.method"@, method_of(index)),
                    ],
                ),
            ),
        ],
    )
}

fn otlp_json(index: usize) -> (r: Json)
    requires
        in_time(index as int),
    ensures
        r@ == otlp_span(index as int),
{
    let data = seed(index);
    let start = decimal(data.start_ns);
    let end = decimal(data.end_ns);
    let mut attributes: Vec<Json> = Vec::new();
    attributes.push(attribute_json("benchmark.group", data.group.as_str()));
    attributes.push(attribute_json("http.method", http_method(index)));
    assert(items_view(attributes@) =~= seq![
        otlp_attribute("benchmark.group"@, group_of(index as int)),
        otlp_attribute("http.method"@, method_of(index as int)),
    ]);
    let held = array(attributes);
    let mut entries: Vec<(String, Json)> = Vec::new();
    entries.push(entry("traceId", text_json(data.trace_id.as_str())));
    entries.push(entry("spanId", text_json(data.span_id.as_str())));
    entries.push(entry("name", text_json(data.name)));
    entries.push(entry("startTimeUnixNano", text_json(start.as_str())));
    entries.push(entry("endTimeUnixNano", text_json(end.as_str())));
    entries.push(entry("status", single("code", text_json("STATUS_CODE_OK"))));
    entries.push(entry("attributes", held));
    assert(entries_view(entries@) =~= otlp_span(index as int)->Object_0);
    object(entries)
}

/// The spans of one service under their resource.
pub open spec fn otlp_resource(run: (Seq<char>, int, int)) -> JsonView {
    JsonView::Object(
        seq![
            (
                "resource"@,
                object1(
                    "attributes"@,
                    JsonView::Array(seq![otlp_attribute("service.name"@, run.0)]),
                ),
            ),
            (
                "scopeSpans"@,
                JsonView::Array(
                    seq![
                        object1(
                            "spans"@,
                            JsonView::Array(
                                Seq::new((run.2 - run.1) as nat, |k: int| otlp_span(run.1 + k)),
                            ),
                        ),
                    ],
                ),
            ),
        ],
    )
}

fn one(item: Json) -> (r: Json)
    ensures
        r@ == JsonView::Array(seq![item@]),
{
    let mut items: Vec<Json> = Vec::new();
    items.push(item);
    assert(items_view(items@) =~= seq![item@]);
    array(items)
}

fn resource_json(service: &str, start: usize, end: usize) -> (r: Json)
    requires
        start <= end,
        forall|i: int| start <= i < end ==> #[trigger] in_time(i),
    ensures
        r@ == otlp_resource((service@, start as int, end as int)),
{
    let mut spans: Vec<Json> = Vec::new();
    let mut index: usize = start;
    while index < end
        invariant
            start <= index <= end,
            forall|i: int| start <= i < end ==> #[trigger] in_time(i),
            spans@.len() == index - start,
            forall|k: int|
                0 <= k < index - start ==> (#[trigger] spans@[k])@ == otlp_span(start + k),
        decreases end - index,
    {
        assert(in_time(index as int));
        spans.push(otlp_json(index));
        index += 1;
    }
    assert(items_view(spans@) =~= Seq::new((end - start) as nat, |k: int| otlp_span(start + k)));
    let scope = one(single("spans", array(spans)));
    let resource = single("attributes", one(attribute_json("service.name", service)));
    let mut entries: Vec<(String, Json)> = Vec::new();
    entries.push(entry("resource", resource));
    entries.push(entry("scopeSpans", scope));
    assert(entries_view(entries@) =~= otlp_resource(
        (service@, start as int, end as int),
    )->Object_0);
    object(entries)
}

/// The spans from `start` to `end` as one OTLP export request.
pub fn otlp_json_batch(start: usize, end: usize) -> (r: Json)
    requires
        start <= end,
        forall|i: int| start <= i < end ==> #[trigger] in_time(i),
    ensures
        r@ == object1(
            "resourceSpans"@,
            JsonView::Array(
                Seq::new(
                    runs_of(start as int, end as int).len(),
                    |k: int| otlp_resource(runs_of(start as int, end as int)[k]),
                ),
            ),
        ),
{
    let runs = resource_runs(start, end);
    let ghost views = runs_of(start as int, end as int);
    proof {
        assert(runs_view(runs@).len() == runs@.len());
        if start < end {
            crate::protobuf::lemma_run_bounds(start as int, end as int);
        }
    }
    let mut items: Vec<Json> = Vec::new();
    let mut i: usize = 0;
    while i < runs.len()
        invariant
            i <= runs@.len(),
            views == runs_view(runs@),
            forall|k: int| start <= k < end ==> #[trigger] in_time(k),
            forall|k: int|
                0 <= k < views.len() ==> start <= (#[trigger] views[k]).1 <= views[k].2 <= end,
            items@.len() == i,
            forall|k: int| 0 <= k < i ==> (#[trigger] items@[k])@ == otlp_resource(views[k]),
        decreases runs@.len() - i,
    {
        let ghost run = views[i as int];
        assert(run == (runs@[i as int].0@, runs@[i as int].1 as int, runs@[i as int].2 as int));
        items.push(resource_json(runs[i].0.as_str(), runs[i].1, runs[i].2));
        i += 1;
    }
    assert(items_view(items@) =~= Seq::new(views.len(), |k: int| otlp_resource(views[k])));
    single("resourceSpans", array(items))
}

// -------------------------------------------------------------------- canonical

pub open spec fn bool_view(b: bool) -> JsonView {
    JsonView::Bool(b)
}

/// The service of a span of the canonical corpus: in turn, not in runs.
pub open spec fn turn_service(index: int) -> Seq<char> {
    "service-"@ + dec((index % 20) as nat)
}

pub open spec fn canonical_parent(index: int) -> JsonView {
    if index % 10 == 0 {
        JsonView::Null
    } else {
        text_view(padded_hex(index as nat, 16))
    }
}

pub open spec fn canonical_attributes(index: int) -> JsonView {
    JsonView::Object(
        seq![
            ("benchmark.group"@, text_view(group_of(index))),
            ("benchmark.hot"@, bool_view(index % 25 == 0)),
            ("http.method"@, text_view(method_of(index))),
        ],
    )
}

pub open spec fn canonical_events(index: int) -> JsonView {
    if index % 50 == 0 {
        JsonView::Array(
            seq![
                JsonView::Object(
                    seq![
                        ("name"@, text_view("checkpoint"@)),
                        ("timestamp_ns"@, uint_view((starts_at(index) + 250_000) as nat)),
                        ("attributes"@, object1("sequence"@, uint_view(index as nat))),
                    ],
                ),
            ],
        )
    } else {
        JsonView::Array(seq![])
    }
}

/// The span at an index of the canonical corpus.
pub open spec fn canonical_span(index: int) -> JsonView {
    JsonView::Object(
        seq![
            ("trace_id"@, text_view(trace_id_of(index))),
            ("span_id"@, text_view(span_id_of(index))),
            ("parent_span_id"@, canonical_parent(index)),
            ("name"@, text_view(name_of(index))),
            ("start_ns"@, uint_view(starts_at(index) as nat)),
            ("end_ns"@, uint_view(ends_at(index) as nat)),
            (
                "status"@,
                text_view(
                    if index % 97 == 0 {
                        "error"@
                    } else {
                        "ok"@
                    },
                ),
            ),
            ("service"@, text_view(turn_service(index))),
            ("attributes"@, canonical_attributes(index)),
            ("events"@, canonical_events(index)),
        ],
    )
}

fn canonical_attributes_json(index: usize, group: &str) -> (r: Json)
    requires
        group@ == group_of(index as int),
    ensures
        r@ == canonical_attributes(index as int),
{
    let mut entries: Vec<(String, Json)> = Vec::new();
    entries.push(entry("benchmark.group", text_json(group)));
    entries.push(entry("benchmark.hot", Json::Bool(index % 25 == 0)));
    entries.push(entry("http.method", text_json(http_method(index))));
    assert(entries_view(entries@) =~= canonical_attributes(index as int)->Object_0);
    object(entries)
}

fn canonical_events_json(index: usize, start_ns: u64) -> (r: Json)
    requires
        in_time(index as int),
        start_ns == starts_at(index as int),
    ensures
        r@ == canonical_events(index as int),
{
    if index % 50 == 0 {
        let mut entries: Vec<(String, Json)> = Vec::new();
        entries.push(entry("name", text_json("checkpoint")));
        entries.push(entry("timestamp_ns", uint_json(start_ns + 250_000)));
        entries.push(entry("attributes", single("sequence", uint_json(index as u64))));
        assert(entries_view(entries@) =~= canonical_events(index as int)->Array_0[0]->Object_0);
        one(object(entries))
    } else {
        let none: Vec<Json> = Vec::new();
        assert(items_view(none@) =~= Seq::<JsonView>::empty());
        array(none)
    }
}

/// The span at an index of the canonical corpus.
pub fn canonical_json(index: usize) -> (r: Json)
    requires
        in_time(index as int),
    ensures
        r@ == canonical_span(index as int),
{
    let data = seed(index);
    let parent = if index % 10 == 0 {
        Json::Null
    } else {
        Json::Text(hex_padded(index as u64, 16))
    };
    let mut service = copy("service-");
    let turn = decimal((index % 20) as u64);
    service.push_str(turn.as_str());
    let mut entries: Vec<(String, Json)> = Vec::new();
    entries.push(entry("trace_id", text_json(data.trace_id.as_str())));
    entries.push(entry("span_id", text_json(data.span_id.as_str())));
    entries.push(entry("parent_span_id", parent));
    entries.push(entry("name", text_json(data.name)));
    entries.push(entry("start_ns", uint_json(data.start_ns)));
    entries.push(entry("end_ns", uint_json(data.end_ns)));
    entries.push(
        entry(
            "status",
            text_json(
                if index % 97 == 0 {
                    "error"
                } else {
                    "ok"
                },
            ),
        ),
    );
    entries.push(entry("service", text_json(service.as_str())));
    entries.push(entry("attributes", canonical_attributes_json(index, data.group.as_str())));
    entries.push(entry("events", canonical_events_json(index, data.start_ns)));
    assert(entries_view(entries@) =~= canonical_span(index as int)->Object_0);
    object(entries)
}

proof fn lemma_batch_names()
    ensures
        "benchmark.group"@.len() == 15 && "benchmark.group"@[0] == 'b',
        "http.method"@.len() == 11 && "http.method"@[0] == 'h',
        "trace_id"@.len() == 8 && "trace_id"@[0] == 't',
        "span_id"@.len() == 7 && "span_id"@[0] == 's' && "span_id"@[1] == 'p',
        "name"@.len() == 4 && "name"@[0] == 'n',
        "service"@.len() == 7 && "service"@[0] == 's' && "service"@[1] == 'e',
        "start_ns"@.len() == 8 && "start_ns"@[0] == 's' && "start_ns"@[1] == 't',
        "end_ns"@.len() == 6 && "end_ns"@[0] == 'e' && "end_ns"@[1] == 'n',
        "status"@.len() == 6 && "status"@[0] == 's' && "status"@[1] == 't',
        "attributes"@.len() == 10 && "attributes"@[0] == 'a',
        "key"@.len() == 3,
        "value"@.len() == 5 && "value"@[0] == 'v',
        "stringValue"@.len() == 11 && "stringValue"@[0] == 's',
        "traceId"@.len() == 7 && "traceId"@[0] == 't',
        "spanId"@.len() == 6 && "spanId"@[0] == 's' && "spanId"@[1] == 'p',
        "startTimeUnixNano"@.len() == 17,
        "endTimeUnixNano"@.len() == 15 && "endTimeUnixNano"@[0] == 'e',
        "code"@.len() == 4 && "code"@[0] == 'c',
        "resource"@.len() == 8 && "resource"@[0] == 'r',
        "scopeSpans"@.len() == 10 && "scopeSpans"@[0] == 's',
        "spans"@.len() == 5 && "spans"@[0] == 's',
        "benchmark.hot"@.len() == 13,
        "timestamp_ns"@.len() == 12,
        "sequence"@.len() == 8 && "sequence"@[0] == 's' && "sequence"@[1] == 'e',
        "parent_span_id"@.len() == 14,
        "events"@.len() == 6 && "events"@[0] == 'e' && "events"@[1] == 'v',
{
    reveal_strlit("benchmark.group");
    reveal_strlit("http.method");
    reveal_strlit("trace_id");
    reveal_strlit("span_id");
    reveal_strlit("name");
    reveal_strlit("service");
    reveal_strlit("start_ns");
    reveal_strlit("end_ns");
    reveal_strlit("status");
    reveal_strlit("attributes");
    reveal_strlit("key");
    reveal_strlit("value");
    reveal_strlit("stringValue");
    reveal_strlit("traceId");
    reveal_strlit("spanId");
    reveal_strlit("startTimeUnixNano");
    reveal_strlit("endTimeUnixNano");
    reveal_strlit("code");
    reveal_strlit("resource");
    reveal_strlit("scopeSpans");
    reveal_strlit("spans");
    reveal_strlit("benchmark.hot");
    reveal_strlit("timestamp_ns");
    reveal_strlit("sequence");
    reveal_strlit("parent_span_id");
    reveal_strlit("events");
}

/// What a span of the corpus holds as the store's own document.
pub proof fn law_a_native_span(index: int)
    ensures
        ({
            let v = native_span(index);
            let a = attributes_view(index);
            &&& v.field("trace_id"@) == Some(JsonView::Text(trace_id_of(index)))
            &&& v.field("span_id"@) == Some(JsonView::Text(span_id_of(index)))
            &&& v.field("name"@) == Some(JsonView::Text(name_of(index)))
            &&& v.field("service"@) == Some(JsonView::Text(service_of(index)))
            &&& v.field("start_ns"@) == Some(JsonView::Number(dec((1_700_000_000_000_000_000 + index * 1_000_000) as nat)))
            &&& v.field("end_ns"@) == Some(JsonView::Number(dec((1_700_000_000_000_000_000 + index * 1_000_000 + 500_000 + 20_000 * (index % 100)) as nat)))
            &&& v.field("status"@) == Some(JsonView::Text("ok"@))
            &&& v.field("attributes"@) == Some(a)
            &&& a.field("benchmark.group"@) == Some(JsonView::Text(group_of(index)))
            &&& a.field("http.method"@) == Some(JsonView::Text(method_of(index)))
        }),
{
    lemma_batch_names();
    reveal_with_fuel(crate::json::entry_from, 9);
}

/// What a span of the corpus holds in OTLP: times are texts, and attributes are
/// pairs of a key and a value.
pub proof fn law_an_otlp_span(index: int, key: Seq<char>, value: Seq<char>)
    ensures
        ({
            let v = otlp_span(index);
            let p = otlp_attribute(key, value);
            &&& v.field("traceId"@) == Some(JsonView::Text(trace_id_of(index)))
            &&& v.field("spanId"@) == Some(JsonView::Text(span_id_of(index)))
            &&& v.field("name"@) == Some(JsonView::Text(name_of(index)))
            &&& v.field("startTimeUnixNano"@) == Some(JsonView::Text(dec((1_700_000_000_000_000_000 + index * 1_000_000) as nat)))
            &&& v.field("endTimeUnixNano"@) == Some(JsonView::Text(dec((1_700_000_000_000_000_000 + index * 1_000_000 + 500_000 + 20_000 * (index % 100)) as nat)))
            &&& v.field("status"@) == Some(object1("code"@, JsonView::Text("STATUS_CODE_OK"@)))
            &&& v.field("attributes"@) == Some(JsonView::Array(seq![otlp_attribute("benchmark.group"@, group_of(index)), otlp_attribute("http.method"@, method_of(index))]))
            &&& p.field("key"@) == Some(JsonView::Text(key))
            &&& p.field("value"@) == Some(object1("stringValue"@, JsonView::Text(value)))
        }),
{
    lemma_batch_names();
    reveal_with_fuel(crate::json::entry_from, 8);
}

/// What a run of spans holds in OTLP: the service as a resource, and under it the
/// spans of the run in their order.
pub proof fn law_an_otlp_resource(service: Seq<char>, start: int, end: int)
    ensures
        ({
            let v = otlp_resource((service, start, end));
            let spans = Seq::new((end - start) as nat, |k: int| otlp_span(start + k));
            &&& v.field("resource"@) == Some(object1("attributes"@, JsonView::Array(seq![otlp_attribute("service.name"@, service)])))
            &&& v.field("scopeSpans"@) == Some(JsonView::Array(seq![object1("spans"@, JsonView::Array(spans))]))
        }),
{
    lemma_batch_names();
    reveal_with_fuel(crate::json::entry_from, 3);
}

/// What a span of the canonical corpus holds: a parent for all but the first of
/// ten, an error for every 97th, a checkpoint on every fiftieth, and a mark on
/// every 25th.
pub proof fn law_a_canonical_span(index: int)
    ensures
        ({
            let v = canonical_span(index);
            let a = canonical_attributes(index);
            &&& v.field("trace_id"@) == Some(JsonView::Text(trace_id_of(index)))
            &&& v.field("span_id"@) == Some(JsonView::Text(span_id_of(index)))
            &&& v.field("name"@) == Some(JsonView::Text(name_of(index)))
            &&& v.field("start_ns"@) == Some(JsonView::Number(dec((1_700_000_000_000_000_000 + index * 1_000_000) as nat)))
            &&& v.field("end_ns"@) == Some(JsonView::Number(dec((1_700_000_000_000_000_000 + index * 1_000_000 + 500_000 + 20_000 * (index % 100)) as nat)))
            &&& v.field("attributes"@) == Some(a)
            &&& v.field("events"@) == Some(canonical_events(index))
            &&& v.field("parent_span_id"@) == Some(canonical_parent(index))
            &&& v.field("service"@) == Some(JsonView::Text("service-"@ + dec((index % 20) as nat)))
            &&& a.field("benchmark.group"@) == Some(JsonView::Text(group_of(index)))
            &&& a.field("http.method"@) == Some(JsonView::Text(method_of(index)))
            &&& a.field("benchmark.hot"@) == Some(JsonView::Bool(index % 25 == 0))
        }),
{
    lemma_batch_names();
    reveal_with_fuel(crate::json::entry_from, 11);
}

/// Which spans of the canonical corpus differ: every 97th fails, the first of ten
/// has no parent and any other the span before it, and every fiftieth has one
/// event, a quarter of a millisecond in.
pub proof fn law_what_sets_canonical_spans_apart(index: int)
    requires
        0 <= index,
    ensures
        index % 97 == 0 ==> canonical_span(index).field("status"@) == Some(
            JsonView::Text("error"@),
        ),
        index % 97 != 0 ==> canonical_span(index).field("status"@) == Some(JsonView::Text("ok"@)),
        index % 10 == 0 ==> canonical_parent(index) is Null,
        index % 10 != 0 ==> canonical_parent(index) == JsonView::Text(span_id_of(index - 1)),
        index % 50 != 0 ==> canonical_events(index) == JsonView::Array(seq![]),
        index % 50 == 0 ==> ({
            &&& canonical_events(index) is Array
            &&& canonical_events(index)->Array_0.len() == 1
            &&& canonical_events(index)->Array_0[0].field("name"@) == Some(
                JsonView::Text("checkpoint"@),
            )
            &&& canonical_events(index)->Array_0[0].field("timestamp_ns"@) == Some(
                JsonView::Number(dec((starts_at(index) + 250_000) as nat)),
            )
        }),
{
    lemma_batch_names();
    reveal_with_fuel(crate::json::entry_from, 11);
}

} // verus!
