//! What the canonical benchmark demands of an answer before it times it, and
//! of its timings before it publishes them.

use vstd::prelude::*;

use crate::corpus::{hex_padded, span_id_of};
use crate::json::{json_document, read_json, Json, JsonView};
use crate::text::{copy, debug_text, dec, decimal, opt_view, quoted, same};

verus! {

// ----------------------------------------------------------------------- answer

/// How many spans of the corpus carry a group.
pub open spec fn population(group: nat, span_count: nat) -> nat {
    if group < span_count {
        ((span_count - group - 1) / 100 + 1) as nat
    } else {
        0
    }
}

/// How many spans a limited query for a group returns.
pub open spec fn expected_count(group: nat, span_count: nat, limit: nat) -> nat {
    if population(group, span_count) < limit {
        population(group, span_count)
    } else {
        limit
    }
}

/// Whether an id is that of one of the first `expected` spans of a group.
pub open spec fn is_expected_id(id: Seq<char>, group: nat, expected: nat) -> bool {
    exists|k: int| 0 <= k < expected && id == #[trigger] span_id_of(group + 100 * k)
}

/// The group that a span of a response carries.
pub open spec fn held_group(span: JsonView) -> Option<Seq<char>> {
    match span.field("attributes"@) {
        Some(attributes) => attributes.text_field("benchmark.group"@),
        None => None,
    }
}

/// Whether an id occurs among the first `n` spans.
pub open spec fn seen_before(spans: Seq<JsonView>, n: int, id: Seq<char>) -> bool {
    exists|j: int| 0 <= j < n && (#[trigger] spans[j]).text_field("span_id"@) == Some(id)
}

pub open spec fn about(group: nat, rest: Seq<char>) -> Seq<char> {
    "group-"@ + dec(group) + rest
}

/// What `{:?}` prints of an optional text.
pub open spec fn debug_opt(text: Option<Seq<char>>) -> Seq<char> {
    match text {
        Some(text) => "Some("@ + debug_text(text) + ")"@,
        None => "None"@,
    }
}

/// What is wrong with span `i` of a response, if anything is.
pub open spec fn span_fault(spans: Seq<JsonView>, i: int, group: nat, expected: nat) -> Option<
    Seq<char>,
> {
    let held = held_group(spans[i]);
    if held != Some("group-"@ + dec(group)) {
        Some(about(group, " returned a span carrying benchmark.group "@ + debug_opt(held)))
    } else {
        match spans[i].text_field("span_id"@) {
            None => Some(about(group, " returned a span without a span_id"@)),
            Some(id) => if is_expected_id(id, group, expected) && !seen_before(spans, i, id) {
                None
            } else {
                Some(
                    about(
                        group,
                        " returned span "@ + id
                            + ", which is not among the expected ids (or is a duplicate)"@,
                    ),
                )
            },
        }
    }
}

/// The first fault from span `i` on.
pub open spec fn first_fault(spans: Seq<JsonView>, i: int, group: nat, expected: nat) -> Option<
    Seq<char>,
>
    decreases spans.len() - i,
{
    if i < 0 || i >= spans.len() {
        None
    } else {
        match span_fault(spans, i, group, expected) {
            Some(fault) => Some(fault),
            None => first_fault(spans, i + 1, group, expected),
        }
    }
}

/// What is wrong with a response, if anything is: it has to hold exactly the
/// spans that the corpus defines.
pub open spec fn answer_fault(
    response: Result<JsonView, Seq<char>>,
    group: nat,
    span_count: nat,
    limit: nat,
) -> Option<Seq<char>> {
    let expected = expected_count(group, span_count, limit);
    match response {
        Err(error) => Some(about(group, " response is not JSON: "@ + error)),
        Ok(document) => match document.field("spans"@) {
            Some(JsonView::Array(spans)) => if spans.len() != expected {
                Some(
                    about(
                        group,
                        " returned "@ + dec(spans.len())
                            + " spans, the corpus defines exactly "@ + dec(expected),
                    ),
                )
            } else {
                first_fault(spans, 0, group, expected)
            },
            _ => Some(about(group, " response carries no spans array"@)),
        },
    }
}

fn message(group: usize, rest: &str) -> (r: String)
    ensures
        r@ == about(group as nat, rest@),
{
    let mut r = copy("group-");
    let digits = decimal(group as u64);
    r.push_str(digits.as_str());
    r.push_str(rest);
    r
}

fn count_expected(group: usize, span_count: usize, limit: usize) -> (r: usize)
    ensures
        r == expected_count(group as nat, span_count as nat, limit as nat),
{
    let held = if group < span_count {
        (span_count - group - 1) / 100 + 1
    } else {
        0
    };
    if held < limit {
        held
    } else {
        limit
    }
}

fn expected_id(id: &str, group: usize, span_count: usize, expected: usize) -> (r: bool)
    requires
        expected <= population(group as nat, span_count as nat),
    ensures
        r == is_expected_id(id@, group as nat, expected as nat),
{
    let mut k: usize = 0;
    while k < expected
        invariant
            k <= expected <= population(group as nat, span_count as nat),
            forall|j: int| 0 <= j < k ==> id@ != #[trigger] span_id_of(group + 100 * j),
        decreases expected - k,
    {
        assert(group + 100 * k < span_count) by (nonlinear_arith)
            requires
                group < span_count,
                k < (span_count - group - 1) / 100 + 1,
        ;
        let wanted = hex_padded((group + 100 * k + 1) as u64, 16);
        assert(wanted@ == span_id_of(group + 100 * k));
        if same(id, wanted.as_str()) {
            return true;
        }
        k += 1;
    }
    false
}

fn occurs_before(spans: &Vec<Json>, n: usize, id: &str) -> (r: bool)
    requires
        n <= spans@.len(),
    ensures
        r == seen_before(crate::json::items_view(spans@), n as int, id@),
{
    let ghost views = crate::json::items_view(spans@);
    let mut j: usize = 0;
    while j < n
        invariant
            j <= n <= spans@.len(),
            views == crate::json::items_view(spans@),
            forall|k: int|
                0 <= k < j ==> (#[trigger] views[k]).text_field("span_id"@) != Some(id@),
        decreases n - j,
    {
        assert(views[j as int] == spans@[j as int]@);
        if let Some(held) = spans[j].text_at("span_id") {
            if same(held, id) {
                return true;
            }
        }
        j += 1;
    }
    false
}

fn carried_group(span: &Json) -> (r: Option<&str>)
    ensures
        crate::json::str_opt(r) == held_group(span@),
{
    match span.get("attributes") {
        Some(attributes) => attributes.text_at("benchmark.group"),
        None => None,
    }
}

fn wrong_group(group: usize, held: Option<&str>) -> (r: String)
    ensures
        r@ == about(
            group as nat,
            " returned a span carrying benchmark.group "@ + debug_opt(
                crate::json::str_opt(held),
            ),
        ),
{
    let mut rest = copy(" returned a span carrying benchmark.group ");
    match held {
        Some(text) => {
            let mut shown = copy("Some(");
            let inner = quoted(text);
            shown.push_str(inner.as_str());
            shown.push_str(")");
            rest.push_str(shown.as_str());
        },
        None => {
            rest.push_str("None");
        },
    }
    message(group, rest.as_str())
}

fn check_span(spans: &Vec<Json>, i: usize, group: usize, span_count: usize, expected: usize) -> (r:
    Option<String>)
    requires
        i < spans@.len(),
        expected <= population(group as nat, span_count as nat),
    ensures
        opt_view(r) == span_fault(
            crate::json::items_view(spans@),
            i as int,
            group as nat,
            expected as nat,
        ),
{
    let span = &spans[i];
    assert(crate::json::items_view(spans@)[i as int] == span@);
    let wanted = message(group, "");
    proof {
        reveal_strlit("");
        assert(wanted@ =~= "group-"@ + dec(group as nat));
    }
    let held = carried_group(span);
    let right = match held {
        Some(text) => same(text, wanted.as_str()),
        None => false,
    };
    if !right {
        return Some(wrong_group(group, held));
    }
    let id = match span.text_at("span_id") {
        Some(id) => id,
        None => {
            return Some(message(group, " returned a span without a span_id"));
        },
    };
    if expected_id(id, group, span_count, expected) && !occurs_before(spans, i, id) {
        return None;
    }
    let mut rest = copy(" returned span ");
    rest.push_str(id);
    rest.push_str(", which is not among the expected ids (or is a duplicate)");
    Some(message(group, rest.as_str()))
}

fn wrong_count(group: usize, found: usize, expected: usize) -> (r: String)
    ensures
        r@ == about(
            group as nat,
            " returned "@ + dec(found as nat) + " spans, the corpus defines exactly "@ + dec(
                expected as nat,
            ),
        ),
{
    let mut rest = copy(" returned ");
    let digits = decimal(found as u64);
    rest.push_str(digits.as_str());
    rest.push_str(" spans, the corpus defines exactly ");
    let digits = decimal(expected as u64);
    rest.push_str(digits.as_str());
    message(group, rest.as_str())
}

/// Checks the response to a filtered query against the corpus: a latency
/// measured on a wrong answer is not a measurement of the store.
pub fn verify_filter_response(body: &[u8], group: usize, span_count: usize, limit: usize) -> (r:
    Result<(), String>)
    ensures
        match r {
            Ok(_) => answer_fault(
                json_document(body@),
                group as nat,
                span_count as nat,
                limit as nat,
            ).is_none(),
            Err(fault) => answer_fault(
                json_document(body@),
                group as nat,
                span_count as nat,
                limit as nat,
            ) == Some(fault@),
        },
{
    let parsed = match read_json(body) {
        Ok(parsed) => parsed,
        Err(error) => {
            let mut rest = copy(" response is not JSON: ");
            rest.push_str(error.as_str());
            return Err(message(group, rest.as_str()));
        },
    };
    let expected = count_expected(group, span_count, limit);
    match parsed.get("spans") {
        Some(Json::Array(spans)) => {
            let ghost views = crate::json::items_view(spans@);
            assert(Json::Array(*spans)@->Array_0 =~= views);
            if spans.len() != expected {
                return Err(wrong_count(group, spans.len(), expected));
            }
            let mut i: usize = 0;
            while i < spans.len()
                invariant
                    i <= spans@.len(),
                    views == crate::json::items_view(spans@),
                    expected <= population(group as nat, span_count as nat),
                    expected == expected_count(group as nat, span_count as nat, limit as nat),
                    answer_fault(
                        json_document(body@),
                        group as nat,
                        span_count as nat,
                        limit as nat,
                    ) == first_fault(views, 0, group as nat, expected as nat),
                    first_fault(views, i as int, group as nat, expected as nat) == first_fault(
                        views,
                        0,
                        group as nat,
                        expected as nat,
                    ),
                decreases spans@.len() - i,
            {
                if let Some(fault) = check_span(spans, i, group, span_count, expected) {
                    return Err(fault);
                }
                i += 1;
            }
            Ok(())
        },
        _ => Err(message(group, " response carries no spans array")),
    }
}

// ------------------------------------------------------------------------- laws

/// An index belongs to a group exactly where it is one of the group's
/// population, so that the expected ids are those of the corpus.
pub proof fn law_a_group_is_every_hundredth_span(group: nat, span_count: nat, index: nat)
    requires
        group < 100,
    ensures
        (index < span_count && index % 100 == group) == (exists|k: int|
            0 <= k < population(group, span_count) && index == #[trigger] stride(group, k)),
{
    if index < span_count && index % 100 == group {
        let k = ((index - group) / 100) as int;
        assert(index == stride(group, k));
        assert(k < population(group, span_count));
    }
    if exists|k: int|
        0 <= k < population(group, span_count) && index == #[trigger] stride(group, k) {
        let k = choose|k: int|
            0 <= k < population(group, span_count) && index == #[trigger] stride(group, k);
        assert(index < span_count && index % 100 == group);
    }
}

pub open spec fn stride(group: nat, k: int) -> int {
    group + 100 * k
}

proof fn lemma_no_fault(spans: Seq<JsonView>, i: int, group: nat, expected: nat)
    requires
        0 <= i <= spans.len(),
        first_fault(spans, i, group, expected).is_none(),
    ensures
        forall|j: int| i <= j < spans.len() ==> span_fault(spans, j, group, expected).is_none(),
    decreases spans.len() - i,
{
    if i < spans.len() {
        lemma_no_fault(spans, i + 1, group, expected);
    }
}

/// An accepted response names every span of the group's first `expected`, each
/// exactly once: no span is missing, and none is foreign.
pub proof fn law_an_accepted_answer_is_the_whole_answer(
    spans: Seq<JsonView>,
    group: nat,
    expected: nat,
    k: int,
)
    requires
        spans.len() == expected,
        first_fault(spans, 0, group, expected).is_none(),
        0 <= k < expected,
    ensures
        seen_before(spans, spans.len() as int, span_id_of(group + 100 * k)),
{
    lemma_no_fault(spans, 0, group, expected);
    let n = expected as int;
    assert forall|j: int| 0 <= j < n implies 0 <= #[trigger] place_of(spans, group, expected, j) < n
        && spans[j].text_field("span_id"@) == Some(
        span_id_of(group + 100 * place_of(spans, group, expected, j)),
    ) by {
        assert(span_fault(spans, j, group, expected).is_none());
        let id = spans[j].text_field("span_id"@).unwrap();
        assert(is_expected_id(id, group, expected));
        let w = choose|w: int| 0 <= w < expected && id == #[trigger] span_id_of(group + 100 * w);
        assert(0 <= w < expected && id == span_id_of(group + 100 * w));
    }
    assert forall|a: int, b: int| 0 <= a < b < n implies #[trigger] place_of(
        spans,
        group,
        expected,
        a,
    ) != #[trigger] place_of(spans, group, expected, b) by {
        if place_of(spans, group, expected, a) == place_of(spans, group, expected, b) {
            let id = spans[b].text_field("span_id"@).unwrap();
            assert(spans[a].text_field("span_id"@) == Some(id));
            assert(span_fault(spans, b, group, expected).is_none());
            assert(seen_before(spans, b, id));
        }
    }
    let places = Seq::new(expected, |j: int| place_of(spans, group, expected, j));
    lemma_every_place(places, n, k);
    let j = choose|j: int| 0 <= j < places.len() && places[j] == k;
    assert(place_of(spans, group, expected, j) == k);
    assert(spans[j].text_field("span_id"@) == Some(span_id_of(group + 100 * k)));
}

/// Which of the expected spans a span of the response is.
spec fn place_of(spans: Seq<JsonView>, group: nat, expected: nat, j: int) -> int {
    choose|w: int|
        0 <= w < expected && spans[j].text_field("span_id"@) == Some(
            #[trigger] span_id_of(group + 100 * w),
        )
}

/// `n` different places below `n` are all of them.
proof fn lemma_every_place(places: Seq<int>, n: int, k: int)
    requires
        places.len() == n,
        forall|j: int| 0 <= j < n ==> 0 <= #[trigger] places[j] < n,
        forall|a: int, b: int| 0 <= a < b < n ==> places[a] != places[b],
        0 <= k < n,
    ensures
        exists|j: int| 0 <= j < places.len() && places[j] == k,
{
    if forall|j: int| 0 <= j < n ==> places[j] != k {
        let all = places.to_set();
        places.unique_seq_to_set();
        let range = vstd::set_lib::set_int_range(0, n);
        vstd::set_lib::lemma_int_range(0, n);
        assert(all.subset_of(range.remove(k))) by {
            assert forall|p: int| all.contains(p) implies range.remove(k).contains(p) by {
                let j = choose|j: int| 0 <= j < places.len() && places[j] == p;
                assert(places[j] == p);
            }
        }
        vstd::set_lib::lemma_len_subset(all, range.remove(k));
    }
}

/// How many spans an answer must hold: those of the group among the spans
/// numbered below the count, as far as the limit lets them through.
pub proof fn law_expected_counts(group: nat, span_count: nat, limit: nat)
    requires
        group < 100,
    ensures
        population(group, 0) == 0,
        population(group, span_count + 1) == population(group, span_count) + (if span_count % 100
            == group {
            1nat
        } else {
            0nat
        }),
        expected_count(group, span_count, limit) <= limit,
        expected_count(group, span_count, limit) <= population(group, span_count),
        expected_count(group, span_count, limit) == limit || expected_count(
            group,
            span_count,
            limit,
        ) == population(group, span_count),
{
}

/// A span is in order when it carries the group asked for, and its id is one of
/// the group's first and stands on no span before it.
pub proof fn law_spans_in_order(spans: Seq<JsonView>, i: int, group: nat, expected: nat)
    requires
        0 <= i < spans.len(),
    ensures
        span_fault(spans, i, group, expected).is_none() <==> ({
            &&& spans[i].field("attributes"@) is Some
            &&& spans[i].field("attributes"@)->0.text_field("benchmark.group"@) == Some(
                "group-"@ + dec(group),
            )
            &&& spans[i].text_field("span_id"@) is Some
            &&& exists|k: int|
                0 <= k < expected && spans[i].text_field("span_id"@)->0 == #[trigger] span_id_of(
                    group + 100 * k,
                )
            &&& forall|j: int|
                0 <= j < i ==> (#[trigger] spans[j]).text_field("span_id"@)
                    != spans[i].text_field("span_id"@)
        }),
{
    let at = spans[i].text_field("span_id"@);
    if at is Some {
        let id = at->0;
        if seen_before(spans, i, id) {
            let j = choose|j: int|
                0 <= j < i && (#[trigger] spans[j]).text_field("span_id"@) == Some(id);
            assert(spans[j].text_field("span_id"@) == at);
        }
    }
}

proof fn lemma_first_fault(spans: Seq<JsonView>, i: int, group: nat, expected: nat)
    requires
        0 <= i <= spans.len(),
    ensures
        first_fault(spans, i, group, expected).is_none() <==> forall|j: int|
            i <= j < spans.len() ==> (#[trigger] span_fault(spans, j, group, expected)).is_none(),
    decreases spans.len() - i,
{
    if i < spans.len() {
        lemma_first_fault(spans, i + 1, group, expected);
    }
}

/// An answer passes when it is a document whose spans are as many as expected and
/// each in order; it fails otherwise.
pub proof fn law_which_answers_pass(document: JsonView, group: nat, span_count: nat, limit: nat)
    ensures
        answer_fault(Ok(document), group, span_count, limit).is_none() <==> ({
            let expected = expected_count(group, span_count, limit);
            &&& document.field("spans"@) is Some
            &&& document.field("spans"@)->0 is Array
            &&& document.field("spans"@)->0->Array_0.len() == expected
            &&& forall|j: int|
                0 <= j < expected ==> (#[trigger] span_fault(
                    document.field("spans"@)->0->Array_0,
                    j,
                    group,
                    expected,
                )).is_none()
        }),
        forall|error: Seq<char>|
            #[trigger] answer_fault(Err(error), group, span_count, limit) == Some(
                "group-"@ + dec(group) + (" response is not JSON: "@ + error),
            ),
{
    match document.field("spans"@) {
        Some(JsonView::Array(spans)) => {
            lemma_first_fault(spans, 0, group, expected_count(group, span_count, limit));
        },
        _ => {},
    }
}

} // verus!
