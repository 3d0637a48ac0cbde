//! The query strings of the HTTP API.
//!
//! Each parser reads the parameters in order, refuses the first one that it
//! does not know or cannot read, and lets a parameter given twice count as it
//! was given last.

use vstd::prelude::*;
use vstd::utf8::encode_utf8;

use crate::filter::{
    cursor_opt, float_text, is_float, no_filter, sort_named, token_cursor, token_number, CursorView,
    FilterView, SpanCursor, SpanFilter, SpanSort, TailCursor,
};
use crate::http::{
    decode_parameter, decoded_parameter, key_value, parameters, split_parameter, split_query,
};
use crate::json::{json_document, read_json, Json, JsonView};
use crate::text::{
    copy, lemma_texts_push, number_to, opt_view, parse_number, same, split, split_text, starts_with,
    text_after, text_starts_with, texts,
};

verus! {

// -------------------------------------------------------------------- numbers

pub open spec fn as_u64(n: Option<nat>) -> Option<u64> {
    match n {
        Some(n) => Some(n as u64),
        None => None,
    }
}

pub open spec fn as_usize(n: Option<nat>) -> Option<usize> {
    match n {
        Some(n) => Some(n as usize),
        None => None,
    }
}

/// The `u64` that a value reads as.
pub open spec fn u64_of(value: Seq<char>) -> Option<u64> {
    as_u64(number_to(value, u64::MAX as nat))
}

/// The `usize` that a value reads as.
pub open spec fn usize_of(value: Seq<char>) -> Option<usize> {
    as_usize(number_to(value, usize::MAX as nat))
}

pub fn read_u64(value: &str) -> (r: Option<u64>)
    ensures
        r == u64_of(value@),
{
    parse_number(value, u64::MAX)
}

pub fn read_usize(value: &str) -> (r: Option<usize>)
    ensures
        r == usize_of(value@),
{
    match parse_number(value, usize::MAX as u64) {
        Some(n) => Some(n as usize),
        None => None,
    }
}

/// `head` followed by `tail`.
pub fn joined(head: &str, tail: &str) -> (r: String)
    ensures
        r@ == head@ + tail@,
{
    let mut r = copy(head);
    r.push_str(tail);
    r
}

pub open spec fn unknown_parameter(key: Seq<char>) -> Seq<char> {
    "unknown query parameter: "@ + key
}

// -------------------------------------------------------------------- reading

/// What a parser's result says.
pub open spec fn outcome<T: View>(r: Result<T, String>) -> Result<T::V, Seq<char>> {
    match r {
        Ok(value) => Ok(value@),
        Err(message) => Err(message@),
    }
}

/// A query that is read parameter by parameter.
pub trait Reading: Sized + View {
    /// The query without parameters.
    spec fn nothing() -> Self::V;

    /// What one more parameter, as it was sent, makes of the query.
    spec fn step(before: Self::V, parameter: Seq<char>) -> Result<Self::V, Seq<char>>;

    fn empty() -> (r: Self)
        ensures
            r@ == Self::nothing(),
    ;

    fn take(self, parameter: &str) -> (r: Result<Self, String>)
        ensures
            outcome(r) == Self::step(self@, parameter@),
    ;
}

/// The query that the given parameters make: the first one that is refused
/// refuses the whole.
pub open spec fn read_of<Q: Reading>(given: Seq<Seq<char>>) -> Result<Q::V, Seq<char>>
    decreases given.len(),
{
    if given.len() == 0 {
        Ok(Q::nothing())
    } else {
        match read_of::<Q>(given.drop_last()) {
            Err(message) => Err(message),
            Ok(before) => Q::step(before, given.last()),
        }
    }
}

proof fn lemma_refused<Q: Reading>(given: Seq<Seq<char>>, i: int)
    requires
        0 <= i <= given.len(),
        read_of::<Q>(given.take(i)).is_err(),
    ensures
        read_of::<Q>(given) == read_of::<Q>(given.take(i)),
    decreases given.len(),
{
    if i == given.len() {
        assert(given.take(i) == given);
    } else {
        assert(given.drop_last().take(i) == given.take(i));
        lemma_refused::<Q>(given.drop_last(), i);
    }
}

/// Reads a query from its parameters.
pub fn read_query<Q: Reading>(given: &Vec<String>) -> (r: Result<Q, String>)
    ensures
        outcome(r) == read_of::<Q>(texts(given@)),
{
    let ghost all = texts(given@);
    let mut q = Q::empty();
    let mut i: usize = 0;
    while i < given.len()
        invariant
            i <= given@.len(),
            all == texts(given@),
            read_of::<Q>(all.take(i as int)) == Ok::<Q::V, Seq<char>>(q@),
        decreases given@.len() - i,
    {
        proof {
            assert(all.take(i + 1).drop_last() == all.take(i as int));
            assert(all.take(i + 1).last() == given@[i as int]@);
        }
        match q.take(given[i].as_str()) {
            Ok(next) => {
                q = next;
            },
            Err(message) => {
                proof {
                    lemma_refused::<Q>(all, i + 1);
                }
                return Err(message);
            },
        }
        i += 1;
    }
    assert(all.take(i as int) == all);
    Ok(q)
}

/// A parameter that is refused whatever came before it refuses every query
/// that holds it.
pub proof fn law_a_refused_parameter_refuses_the_query<Q: Reading>(
    given: Seq<Seq<char>>,
    parameter: Seq<char>,
)
    requires
        given.contains(parameter),
        forall|before: Q::V| (#[trigger] Q::step(before, parameter)).is_err(),
    ensures
        read_of::<Q>(given).is_err(),
    decreases given.len(),
{
    if given.last() != parameter {
        let i = choose|i: int| 0 <= i < given.len() && given[i] == parameter;
        assert(given.drop_last()[i] == parameter);
        law_a_refused_parameter_refuses_the_query::<Q>(given.drop_last(), parameter);
    }
}

// ------------------------------------------------------------------ analytics

/// The parameters of the analytics endpoints.
#[derive(Debug)]
pub struct AnalyticsQuery {
    pub since: Option<u64>,
    pub until: Option<u64>,
    pub limit: Option<usize>,
    pub group_by: Option<String>,
}

pub struct AnalyticsView {
    pub since: Option<u64>,
    pub until: Option<u64>,
    pub limit: Option<usize>,
    pub group_by: Option<Seq<char>>,
}

impl View for AnalyticsQuery {
    type V = AnalyticsView;

    open spec fn view(&self) -> AnalyticsView {
        AnalyticsView {
            since: self.since,
            until: self.until,
            limit: self.limit,
            group_by: opt_view(self.group_by),
        }
    }
}

pub open spec fn analytics_step(q: AnalyticsView, key: Seq<char>, value: Seq<char>) -> Result<
    AnalyticsView,
    Seq<char>,
> {
    if key == "since"@ || key == "since_ns"@ {
        match u64_of(value) {
            Some(n) => Ok(AnalyticsView { since: Some(n), ..q }),
            None => Err("invalid since"@),
        }
    } else if key == "until"@ || key == "until_ns"@ {
        match u64_of(value) {
            Some(n) => Ok(AnalyticsView { until: Some(n), ..q }),
            None => Err("invalid until"@),
        }
    } else if key == "limit"@ {
        match usize_of(value) {
            Some(n) => Ok(AnalyticsView { limit: Some(n), ..q }),
            None => Err("invalid limit"@),
        }
    } else if key == "group_by"@ {
        Ok(AnalyticsView { group_by: Some(value), ..q })
    } else {
        Err(unknown_parameter(key))
    }
}

fn take_analytics(q: AnalyticsQuery, key: &str, value: String) -> (r: Result<AnalyticsQuery, String>)
    ensures
        outcome(r) == analytics_step(q@, key@, value@),
{
    let mut q = q;
    if same(key, "since") || same(key, "since_ns") {
        match read_u64(value.as_str()) {
            Some(n) => {
                q.since = Some(n);
                Ok(q)
            },
            None => Err(copy("invalid since")),
        }
    } else if same(key, "until") || same(key, "until_ns") {
        match read_u64(value.as_str()) {
            Some(n) => {
                q.until = Some(n);
                Ok(q)
            },
            None => Err(copy("invalid until")),
        }
    } else if same(key, "limit") {
        match read_usize(value.as_str()) {
            Some(n) => {
                q.limit = Some(n);
                Ok(q)
            },
            None => Err(copy("invalid limit")),
        }
    } else if same(key, "group_by") {
        q.group_by = Some(value);
        Ok(q)
    } else {
        Err(joined("unknown query parameter: ", key))
    }
}

impl Reading for AnalyticsQuery {
    open spec fn nothing() -> AnalyticsView {
        AnalyticsView { since: None, until: None, limit: None, group_by: None }
    }

    open spec fn step(before: AnalyticsView, parameter: Seq<char>) -> Result<
        AnalyticsView,
        Seq<char>,
    > {
        analytics_step(before, decoded_parameter(parameter).0, decoded_parameter(parameter).1)
    }

    fn empty() -> AnalyticsQuery {
        AnalyticsQuery { since: None, until: None, limit: None, group_by: None }
    }

    fn take(self, parameter: &str) -> (r: Result<AnalyticsQuery, String>) {
        let (key, value) = decode_parameter(parameter);
        take_analytics(self, key.as_str(), value)
    }
}

/// Reads the parameters of an analytics endpoint.
pub fn analytics_query(raw_query: &str) -> (r: Result<AnalyticsQuery, String>)
    ensures
        outcome(r) == read_of::<AnalyticsQuery>(parameters(raw_query@)),
{
    let given = split_query(raw_query);
    read_query(&given)
}

// --------------------------------------------------------------- span searches

/// A search and where its previous page stopped.
#[derive(Debug)]
pub struct SpanQuery {
    pub filter: SpanFilter,
    pub cursor: Option<SpanCursor>,
}

pub struct SpanQueryView {
    pub filter: FilterView,
    pub cursor: Option<CursorView>,
}

impl View for SpanQuery {
    type V = SpanQueryView;

    open spec fn view(&self) -> SpanQueryView {
        SpanQueryView { filter: self.filter@, cursor: cursor_opt(self.cursor) }
    }
}

/// An attribute's value as a query gives it: a JSON document, or else the text
/// as it stands.
pub open spec fn attribute_value(value: Seq<char>) -> JsonView {
    match json_document(encode_utf8(value)) {
        Ok(document) => document,
        Err(_) => JsonView::Text(value),
    }
}

/// Milliseconds in nanoseconds, no larger than a `u64` holds.
pub open spec fn ms_to_ns(ms: u64) -> u64 {
    if ms * 1_000_000 <= u64::MAX {
        (ms * 1_000_000) as u64
    } else {
        u64::MAX
    }
}

/// What a parameter that names an attribute adds to a search.
pub open spec fn attribute_step(q: FilterView, key: Seq<char>, value: Seq<char>) -> Option<
    Result<FilterView, Seq<char>>,
> {
    if starts_with(key, "attr."@) {
        Some(
            Ok(
                FilterView {
                    attributes: q.attributes.push(
                        (key.skip("attr."@.len() as int), attribute_value(value)),
                    ),
                    ..q
                },
            ),
        )
    } else if starts_with(key, "not_attr."@) {
        Some(
            Ok(
                FilterView {
                    excluded_attributes: q.excluded_attributes.push(
                        (key.skip("not_attr."@.len() as int), attribute_value(value)),
                    ),
                    ..q
                },
            ),
        )
    } else if starts_with(key, "min_attr."@) {
        let attribute = key.skip("min_attr."@.len() as int);
        if is_float(value) {
            Some(Ok(FilterView { min_attributes: q.min_attributes.push((attribute, value)), ..q }))
        } else {
            Some(Err("min_attr."@ + attribute + " must be a number"@))
        }
    } else if starts_with(key, "max_attr."@) {
        let attribute = key.skip("max_attr."@.len() as int);
        if is_float(value) {
            Some(Ok(FilterView { max_attributes: q.max_attributes.push((attribute, value)), ..q }))
        } else {
            Some(Err("max_attr."@ + attribute + " must be a number"@))
        }
    } else {
        None
    }
}

pub open spec fn sort_names() -> Seq<char> {
    "sort must be one of duration|-duration|start|-start (or the long forms duration_asc, duration_desc, start_asc, start_desc)"@
}

/// What a parameter that bounds a search in time or number adds to it.
pub open spec fn bound_step(q: FilterView, key: Seq<char>, value: Seq<char>) -> Option<
    Result<FilterView, Seq<char>>,
> {
    if key == "min_duration_ms"@ {
        match u64_of(value) {
            Some(ms) => Some(Ok(FilterView { min_duration_ns: Some(ms_to_ns(ms)), ..q })),
            None => Some(Err("invalid min_duration_ms"@)),
        }
    } else if key == "min_duration_ns"@ {
        match u64_of(value) {
            Some(n) => Some(Ok(FilterView { min_duration_ns: Some(n), ..q })),
            None => Some(Err("invalid min_duration_ns"@)),
        }
    } else if key == "since"@ || key == "since_ns"@ {
        match u64_of(value) {
            Some(n) => Some(Ok(FilterView { since_ns: Some(n), ..q })),
            None => Some(Err("invalid since"@)),
        }
    } else if key == "until"@ || key == "until_ns"@ {
        match u64_of(value) {
            Some(n) => Some(Ok(FilterView { until_ns: Some(n), ..q })),
            None => Some(Err("invalid until"@)),
        }
    } else if key == "max_duration_ms"@ {
        match u64_of(value) {
            Some(ms) => Some(Ok(FilterView { max_duration_ns: Some(ms_to_ns(ms)), ..q })),
            None => Some(Err("invalid max_duration_ms"@)),
        }
    } else if key == "max_duration_ns"@ {
        match u64_of(value) {
            Some(n) => Some(Ok(FilterView { max_duration_ns: Some(n), ..q })),
            None => Some(Err("invalid max_duration_ns"@)),
        }
    } else if key == "sort"@ {
        match sort_named(value) {
            Some(sort) => Some(Ok(FilterView { sort: Some(sort), ..q })),
            None => Some(Err(sort_names())),
        }
    } else if key == "limit"@ {
        match usize_of(value) {
            Some(n) => Some(Ok(FilterView { limit: Some(n), ..q })),
            None => Some(Err("invalid limit"@)),
        }
    } else {
        None
    }
}

/// What a parameter that names a part of a span adds to a search.
pub open spec fn field_step(q: FilterView, key: Seq<char>, value: Seq<char>) -> Option<FilterView> {
    if key == "service"@ {
        Some(FilterView { service: Some(value), ..q })
    } else if key == "name"@ {
        Some(FilterView { name: Some(value), ..q })
    } else if key == "status"@ {
        Some(FilterView { status: Some(value), ..q })
    } else if key == "not_status"@ {
        Some(FilterView { excluded_statuses: q.excluded_statuses.push(value), ..q })
    } else if key == "content"@ || key == "q"@ {
        Some(FilterView { content: Some(value), ..q })
    } else if key == "session"@ {
        Some(FilterView { session: Some(value), ..q })
    } else {
        None
    }
}

pub open spec fn with_filter(q: SpanQueryView, r: Result<FilterView, Seq<char>>) -> Result<
    SpanQueryView,
    Seq<char>,
> {
    match r {
        Ok(filter) => Ok(SpanQueryView { filter, ..q }),
        Err(message) => Err(message),
    }
}

/// What one parameter adds to a search.
pub open spec fn span_step(q: SpanQueryView, key: Seq<char>, value: Seq<char>) -> Result<
    SpanQueryView,
    Seq<char>,
> {
    match attribute_step(q.filter, key, value) {
        Some(r) => with_filter(q, r),
        None => match field_step(q.filter, key, value) {
            Some(filter) => Ok(SpanQueryView { filter, ..q }),
            None => match bound_step(q.filter, key, value) {
                Some(r) => with_filter(q, r),
                None => if key == "cursor"@ {
                    match token_cursor(value) {
                        Some(cursor) => Ok(SpanQueryView { cursor: Some(cursor), ..q }),
                        None => Err("cursor is not a token this server issued"@),
                    }
                } else {
                    Err(unknown_parameter(key))
                },
            },
        },
    }
}

/// A search of at most a hundred spans that asks for nothing in particular.
pub open spec fn default_span_query() -> SpanQueryView {
    SpanQueryView { filter: FilterView { limit: Some(100), ..no_filter() }, cursor: None }
}

fn read_attribute_value(value: String) -> (r: Json)
    ensures
        r@ == attribute_value(value@),
{
    match read_json(value.as_str().as_bytes()) {
        Ok(document) => document,
        Err(_) => Json::Text(value),
    }
}

fn saturating_ns(ms: u64) -> (r: u64)
    ensures
        r == ms_to_ns(ms),
{
    if ms <= u64::MAX / 1_000_000 {
        ms * 1_000_000
    } else {
        u64::MAX
    }
}

fn not_a_number(prefix: &str, attribute: &str) -> (r: String)
    ensures
        r@ == prefix@ + attribute@ + " must be a number"@,
{
    let mut r = copy(prefix);
    r.push_str(attribute);
    r.push_str(" must be a number");
    r
}

fn take_attribute(f: SpanFilter, key: &str, value: &str) -> (r: Result<SpanFilter, String>)
    requires
        attribute_step(f@, key@, value@).is_some(),
    ensures
        attribute_step(f@, key@, value@) == Some(outcome(r)),
{
    let mut f = f;
    let ghost before = f@;
    if let Some(attribute) = text_after(key, "attr.") {
        let document = read_attribute_value(copy(value));
        f.attributes.push((attribute, document));
        assert(f@.attributes =~= before.attributes.push((attribute@, document@)));
        return Ok(f);
    }
    if let Some(attribute) = text_after(key, "not_attr.") {
        let document = read_attribute_value(copy(value));
        f.excluded_attributes.push((attribute, document));
        assert(f@.excluded_attributes =~= before.excluded_attributes.push((attribute@, document@)));
        return Ok(f);
    }
    if let Some(attribute) = text_after(key, "min_attr.") {
        if !float_text(value) {
            return Err(not_a_number("min_attr.", attribute.as_str()));
        }
        let bound = copy(value);
        f.min_attributes.push((attribute, bound));
        assert(f@.min_attributes =~= before.min_attributes.push((attribute@, bound@)));
        return Ok(f);
    }
    if let Some(attribute) = text_after(key, "max_attr.") {
        if !float_text(value) {
            return Err(not_a_number("max_attr.", attribute.as_str()));
        }
        let bound = copy(value);
        f.max_attributes.push((attribute, bound));
        assert(f@.max_attributes =~= before.max_attributes.push((attribute@, bound@)));
    }
    Ok(f)
}

fn names_attribute(key: &str) -> (r: bool)
    ensures
        forall|q: FilterView, value: Seq<char>|
            #![trigger attribute_step(q, key@, value)]
            r == attribute_step(q, key@, value).is_some(),
{
    text_starts_with(key, "attr.") || text_starts_with(key, "not_attr.") || text_starts_with(
        key,
        "min_attr.",
    ) || text_starts_with(key, "max_attr.")
}

fn names_field(key: &str) -> (r: bool)
    ensures
        forall|q: FilterView, value: Seq<char>|
            #![trigger field_step(q, key@, value)]
            r == field_step(q, key@, value).is_some(),
{
    same(key, "service") || same(key, "name") || same(key, "status") || same(key, "not_status")
        || same(key, "content") || same(key, "q") || same(key, "session")
}

fn take_field(f: SpanFilter, key: &str, value: String) -> (r: SpanFilter)
    requires
        field_step(f@, key@, value@).is_some(),
    ensures
        field_step(f@, key@, value@) == Some(r@),
{
    let mut f = f;
    if same(key, "service") {
        f.service = Some(value);
    } else if same(key, "name") {
        f.name = Some(value);
    } else if same(key, "status") {
        f.status = Some(value);
    } else if same(key, "not_status") {
        proof {
            lemma_texts_push(f.excluded_statuses@, value);
        }
        f.excluded_statuses.push(value);
    } else if same(key, "content") || same(key, "q") {
        f.content = Some(value);
    } else {
        f.session = Some(value);
    }
    f
}

fn take_bound(f: SpanFilter, key: &str, value: &str) -> (r: Result<SpanFilter, String>)
    ensures
        bound_step(f@, key@, value@) == Some(outcome(r)) || bound_step(f@, key@, value@).is_none()
            && outcome(r) == Err::<FilterView, Seq<char>>(unknown_parameter(key@)),
{
    let mut f = f;
    if same(key, "min_duration_ms") {
        match read_u64(value) {
            Some(ms) => f.min_duration_ns = Some(saturating_ns(ms)),
            None => return Err(copy("invalid min_duration_ms")),
        }
    } else if same(key, "min_duration_ns") {
        match read_u64(value) {
            Some(n) => f.min_duration_ns = Some(n),
            None => return Err(copy("invalid min_duration_ns")),
        }
    } else if same(key, "since") || same(key, "since_ns") {
        match read_u64(value) {
            Some(n) => f.since_ns = Some(n),
            None => return Err(copy("invalid since")),
        }
    } else if same(key, "until") || same(key, "until_ns") {
        match read_u64(value) {
            Some(n) => f.until_ns = Some(n),
            None => return Err(copy("invalid until")),
        }
    } else if same(key, "max_duration_ms") {
        match read_u64(value) {
            Some(ms) => f.max_duration_ns = Some(saturating_ns(ms)),
            None => return Err(copy("invalid max_duration_ms")),
        }
    } else if same(key, "max_duration_ns") {
        match read_u64(value) {
            Some(n) => f.max_duration_ns = Some(n),
            None => return Err(copy("invalid max_duration_ns")),
        }
    } else if same(key, "sort") {
        match SpanSort::parse(value) {
            Some(sort) => f.sort = Some(sort),
            None => return Err(
                copy(
                    "sort must be one of duration|-duration|start|-start (or the long forms duration_asc, duration_desc, start_asc, start_desc)",
                ),
            ),
        }
    } else if same(key, "limit") {
        match read_usize(value) {
            Some(n) => f.limit = Some(n),
            None => return Err(copy("invalid limit")),
        }
    } else {
        return Err(joined("unknown query parameter: ", key));
    }
    Ok(f)
}

fn take_parameter(q: SpanQuery, key: &str, value: String) -> (r: Result<SpanQuery, String>)
    ensures
        outcome(r) == span_step(q@, key@, value@),
{
    let mut q = q;
    if names_attribute(key) {
        let SpanQuery { filter, cursor } = q;
        match take_attribute(filter, key, value.as_str()) {
            Ok(filter) => Ok(SpanQuery { filter, cursor }),
            Err(message) => Err(message),
        }
    } else if names_field(key) {
        let SpanQuery { filter, cursor } = q;
        let filter = take_field(filter, key, value);
        Ok(SpanQuery { filter, cursor })
    } else if same(key, "cursor") {
        assert(bound_step(q@.filter, "cursor"@, value@).is_none()) by {
            reveal_strlit("cursor");
            reveal_strlit("min_duration_ms");
            reveal_strlit("min_duration_ns");
            reveal_strlit("since");
            reveal_strlit("since_ns");
            reveal_strlit("until");
            reveal_strlit("until_ns");
            reveal_strlit("max_duration_ms");
            reveal_strlit("max_duration_ns");
            reveal_strlit("sort");
            reveal_strlit("limit");
            let c = "cursor"@;
            assert(c.len() == 6 && c[0] == 'c');
            assert("since"@.len() == 5 && "until"@.len() == 5 && "sort"@.len() == 4
                && "limit"@.len() == 5);
        }
        match SpanCursor::from_token(value.as_str()) {
            Some(cursor) => {
                q.cursor = Some(cursor);
                Ok(q)
            },
            None => Err(copy("cursor is not a token this server issued")),
        }
    } else {
        let SpanQuery { filter, cursor } = q;
        match take_bound(filter, key, value.as_str()) {
            Ok(filter) => Ok(SpanQuery { filter, cursor }),
            Err(message) => Err(message),
        }
    }
}

impl Reading for SpanQuery {
    open spec fn nothing() -> SpanQueryView {
        default_span_query()
    }

    open spec fn step(before: SpanQueryView, parameter: Seq<char>) -> Result<
        SpanQueryView,
        Seq<char>,
    > {
        span_step(before, decoded_parameter(parameter).0, decoded_parameter(parameter).1)
    }

    fn empty() -> SpanQuery {
        let mut filter = SpanFilter::any();
        filter.limit = Some(100);
        SpanQuery { filter, cursor: None }
    }

    fn take(self, parameter: &str) -> (r: Result<SpanQuery, String>) {
        let (key, value) = decode_parameter(parameter);
        take_parameter(self, key.as_str(), value)
    }
}

/// Reads a span search: the filter, and the cursor of the page before.
pub fn span_query_from(raw_query: &str) -> (r: Result<SpanQuery, String>)
    ensures
        outcome(r) == read_of::<SpanQuery>(parameters(raw_query@)),
{
    let given = split_query(raw_query);
    read_query(&given)
}

pub open spec fn filter_of(r: Result<SpanQueryView, Seq<char>>) -> Result<FilterView, Seq<char>> {
    match r {
        Ok(q) => Ok(q.filter),
        Err(message) => Err(message),
    }
}

/// Reads a span search that has no pages.
pub fn filter_from_query(raw_query: &str) -> (r: Result<SpanFilter, String>)
    ensures
        outcome(r) == filter_of(read_of::<SpanQuery>(parameters(raw_query@))),
{
    match span_query_from(raw_query) {
        Ok(q) => Ok(q.filter),
        Err(message) => Err(message),
    }
}

// --------------------------------------------------------------------- series

/// The parameters of a series that a search does not have, and the rest.
#[derive(Debug)]
pub struct SeriesParts {
    pub buckets: Option<usize>,
    pub rest: Vec<String>,
}

pub struct SeriesPartsView {
    pub buckets: Option<usize>,
    pub rest: Seq<Seq<char>>,
}

impl View for SeriesParts {
    type V = SeriesPartsView;

    open spec fn view(&self) -> SeriesPartsView {
        SeriesPartsView { buckets: self.buckets, rest: texts(self.rest@) }
    }
}

impl Reading for SeriesParts {
    open spec fn nothing() -> SeriesPartsView {
        SeriesPartsView { buckets: None, rest: seq![] }
    }

    open spec fn step(before: SeriesPartsView, parameter: Seq<char>) -> Result<
        SeriesPartsView,
        Seq<char>,
    > {
        let (key, value) = decoded_parameter(parameter);
        if key == "buckets"@ {
            match usize_of(value) {
                Some(n) => Ok(SeriesPartsView { buckets: Some(n), ..before }),
                None => Err("invalid buckets"@),
            }
        } else {
            Ok(SeriesPartsView { rest: before.rest.push(parameter), ..before })
        }
    }

    fn empty() -> (r: SeriesParts) {
        let r = SeriesParts { buckets: None, rest: Vec::new() };
        assert(texts(r.rest@) =~= Seq::<Seq<char>>::empty());
        r
    }

    fn take(self, parameter: &str) -> (r: Result<SeriesParts, String>) {
        let mut parts = self;
        let (key, value) = decode_parameter(parameter);
        if same(key.as_str(), "buckets") {
            match read_usize(value.as_str()) {
                Some(n) => {
                    parts.buckets = Some(n);
                    Ok(parts)
                },
                None => Err(copy("invalid buckets")),
            }
        } else {
            let kept = copy(parameter);
            proof {
                lemma_texts_push(parts.rest@, kept);
            }
            parts.rest.push(kept);
            Ok(parts)
        }
    }
}

/// A series: a search divided into buckets of time. Both ends of the window
/// have to be given.
#[derive(Debug)]
pub struct SeriesRequest {
    pub filter: SpanFilter,
    pub buckets: Option<usize>,
    pub window: Option<(u64, u64)>,
}

pub struct SeriesView {
    pub filter: FilterView,
    pub buckets: Option<usize>,
    pub window: Option<(u64, u64)>,
}

impl View for SeriesRequest {
    type V = SeriesView;

    open spec fn view(&self) -> SeriesView {
        SeriesView { filter: self.filter@, buckets: self.buckets, window: self.window }
    }
}

/// Both ends of a search's window, where both are given.
pub open spec fn window_of(filter: FilterView) -> Option<(u64, u64)> {
    match (filter.since_ns, filter.until_ns) {
        (Some(since), Some(until)) => Some((since, until)),
        _ => None,
    }
}

/// The series that the given parameters ask for.
pub open spec fn series_of(given: Seq<Seq<char>>) -> Result<SeriesView, Seq<char>> {
    match read_of::<SeriesParts>(given) {
        Err(message) => Err(message),
        Ok(parts) => match read_of::<SpanQuery>(parts.rest) {
            Err(message) => Err(message),
            Ok(q) => Ok(
                SeriesView {
                    filter: q.filter,
                    buckets: parts.buckets,
                    window: window_of(q.filter),
                },
            ),
        },
    }
}

/// Reads the parameters of a series.
pub fn series_query_from(raw_query: &str) -> (r: Result<SeriesRequest, String>)
    ensures
        outcome(r) == series_of(parameters(raw_query@)),
{
    let given = split_query(raw_query);
    let parts = match read_query::<SeriesParts>(&given) {
        Ok(parts) => parts,
        Err(message) => {
            return Err(message);
        },
    };
    match read_query::<SpanQuery>(&parts.rest) {
        Ok(q) => {
            let window = match (q.filter.since_ns, q.filter.until_ns) {
                (Some(since), Some(until)) => Some((since, until)),
                _ => None,
            };
            Ok(SeriesRequest { filter: q.filter, buckets: parts.buckets, window })
        },
        Err(message) => Err(message),
    }
}

// ----------------------------------------------------------------------- tail

/// Spans of history that a tail opens with when the client does not say.
pub const DEFAULT_TAIL_BACKFILL: usize = 200;

/// The parameters of a tail that a search does not have, and the rest.
#[derive(Debug)]
pub struct TailParts {
    pub cursor: Option<TailCursor>,
    pub backfill: usize,
    pub rest: Vec<String>,
}

pub struct TailPartsView {
    pub cursor: Option<TailCursor>,
    pub backfill: usize,
    pub rest: Seq<Seq<char>>,
}

impl View for TailParts {
    type V = TailPartsView;

    open spec fn view(&self) -> TailPartsView {
        TailPartsView { cursor: self.cursor, backfill: self.backfill, rest: texts(self.rest@) }
    }
}

/// Why a tail refuses a bound on event time.
pub open spec fn not_for_a_tail(key: Seq<char>) -> Seq<char> {
    key
        + " does not apply to a tail: it streams in admission order, not event-time order. Use /v1/spans for a time window."@
}

impl Reading for TailParts {
    open spec fn nothing() -> TailPartsView {
        TailPartsView { cursor: None, backfill: DEFAULT_TAIL_BACKFILL, rest: seq![] }
    }

    open spec fn step(before: TailPartsView, parameter: Seq<char>) -> Result<
        TailPartsView,
        Seq<char>,
    > {
        let (key, value) = decoded_parameter(parameter);
        if key == "cursor"@ {
            match token_number(value) {
                Some(n) => Ok(
                    TailPartsView { cursor: Some(TailCursor { sequence: n as u64 }), ..before },
                ),
                None => Err("cursor is not a token this server issued"@),
            }
        } else if key == "backfill"@ {
            match usize_of(value) {
                Some(n) => Ok(TailPartsView { backfill: n, ..before }),
                None => Err("invalid backfill"@),
            }
        } else if key == "since"@ || key == "since_ns"@ || key == "until"@ || key == "until_ns"@ {
            Err(not_for_a_tail(key_value(parameter).0))
        } else {
            Ok(TailPartsView { rest: before.rest.push(parameter), ..before })
        }
    }

    fn empty() -> (r: TailParts) {
        let r = TailParts { cursor: None, backfill: DEFAULT_TAIL_BACKFILL, rest: Vec::new() };
        assert(texts(r.rest@) =~= Seq::<Seq<char>>::empty());
        r
    }

    fn take(self, parameter: &str) -> (r: Result<TailParts, String>) {
        let mut parts = self;
        let (key, value) = decode_parameter(parameter);
        if same(key.as_str(), "cursor") {
            match TailCursor::parse(value.as_str()) {
                Some(cursor) => {
                    parts.cursor = Some(cursor);
                    Ok(parts)
                },
                None => Err(copy("cursor is not a token this server issued")),
            }
        } else if same(key.as_str(), "backfill") {
            match read_usize(value.as_str()) {
                Some(n) => {
                    parts.backfill = n;
                    Ok(parts)
                },
                None => Err(copy("invalid backfill")),
            }
        } else if same(key.as_str(), "since") || same(key.as_str(), "since_ns") || same(
            key.as_str(),
            "until",
        ) || same(key.as_str(), "until_ns") {
            let (sent, _) = split_parameter(parameter);
            Err(
                joined(
                    sent.as_str(),
                    " does not apply to a tail: it streams in admission order, not event-time order. Use /v1/spans for a time window.",
                ),
            )
        } else {
            let kept = copy(parameter);
            proof {
                lemma_texts_push(parts.rest@, kept);
            }
            parts.rest.push(kept);
            Ok(parts)
        }
    }
}

/// A tail: spans as they are admitted.
#[derive(Debug)]
pub struct TailRequest {
    pub filter: SpanFilter,
    pub cursor: Option<TailCursor>,
    pub backfill: usize,
}

pub struct TailView {
    pub filter: FilterView,
    pub cursor: Option<TailCursor>,
    pub backfill: usize,
}

impl View for TailRequest {
    type V = TailView;

    open spec fn view(&self) -> TailView {
        TailView { filter: self.filter@, cursor: self.cursor, backfill: self.backfill }
    }
}

/// The tail that the given parameters ask for.
pub open spec fn tail_of(given: Seq<Seq<char>>) -> Result<TailView, Seq<char>> {
    match read_of::<TailParts>(given) {
        Err(message) => Err(message),
        Ok(parts) => match read_of::<SpanQuery>(parts.rest) {
            Err(message) => Err(message),
            Ok(q) => Ok(
                TailView { filter: q.filter, cursor: parts.cursor, backfill: parts.backfill },
            ),
        },
    }
}

/// Reads the parameters of a tail.
pub fn tail_query_from(raw_query: &str) -> (r: Result<TailRequest, String>)
    ensures
        outcome(r) == tail_of(parameters(raw_query@)),
{
    let given = split_query(raw_query);
    let parts = match read_query::<TailParts>(&given) {
        Ok(parts) => parts,
        Err(message) => {
            return Err(message);
        },
    };
    match read_query::<SpanQuery>(&parts.rest) {
        Ok(q) => Ok(
            TailRequest { filter: q.filter, cursor: parts.cursor, backfill: parts.backfill },
        ),
        Err(message) => Err(message),
    }
}

// --------------------------------------------------------------------- export

/// Whether a query sets a limit of its own.
pub open spec fn sets_limit(query: Seq<char>) -> bool {
    exists|i: int|
        0 <= i < split(query, '&').len() && starts_with(#[trigger] split(query, '&')[i], "limit"@)
}

fn limit_given(query: &str) -> (r: bool)
    ensures
        r == sets_limit(query@),
{
    let pieces = split_text(query, '&');
    let ghost views = split(query@, '&');
    let mut i: usize = 0;
    while i < pieces.len()
        invariant
            i <= pieces@.len(),
            views == split(query@, '&'),
            views == texts(pieces@),
            forall|k: int| 0 <= k < i ==> !starts_with(#[trigger] views[k], "limit"@),
        decreases pieces@.len() - i,
    {
        assert(views[i as int] == pieces@[i as int]@);
        if text_starts_with(pieces[i].as_str(), "limit") {
            return true;
        }
        i += 1;
    }
    false
}

/// An export: a search without a page size, and the most rows it may emit.
#[derive(Debug)]
pub struct ExportRequest {
    pub filter: SpanFilter,
    pub user_limit: Option<usize>,
}

pub struct ExportView {
    pub filter: FilterView,
    pub user_limit: Option<usize>,
}

impl View for ExportRequest {
    type V = ExportView;

    open spec fn view(&self) -> ExportView {
        ExportView { filter: self.filter@, user_limit: self.user_limit }
    }
}

/// The export that a query asks for: unlike a search it has no limit unless
/// the query sets one.
pub open spec fn export_of(query: Seq<char>) -> Result<ExportView, Seq<char>> {
    match read_of::<SpanQuery>(parameters(query)) {
        Err(message) => Err(message),
        Ok(q) => Ok(
            ExportView {
                filter: FilterView { limit: None, ..q.filter },
                user_limit: if sets_limit(query) {
                    q.filter.limit
                } else {
                    None
                },
            },
        ),
    }
}

/// Reads the parameters of an export.
pub fn export_query_from(raw_query: &str) -> (r: Result<ExportRequest, String>)
    ensures
        outcome(r) == export_of(raw_query@),
{
    match filter_from_query(raw_query) {
        Ok(found) => {
            let mut filter = found;
            let user_limit = if limit_given(raw_query) {
                filter.limit
            } else {
                None
            };
            filter.limit = None;
            Ok(ExportRequest { filter, user_limit })
        },
        Err(message) => Err(message),
    }
}

// ---------------------------------------------------------------- annotations

/// A search for annotations; every part that is given must match.
#[derive(Debug)]
pub struct AnnotationSearch {
    pub trace_id: Option<String>,
    pub span_id: Option<String>,
    pub name: Option<String>,
    pub source_prefix: Option<String>,
    pub since_ns: Option<u64>,
    pub until_ns: Option<u64>,
    pub limit: Option<usize>,
}

pub struct AnnotationSearchView {
    pub trace_id: Option<Seq<char>>,
    pub span_id: Option<Seq<char>>,
    pub name: Option<Seq<char>>,
    pub source_prefix: Option<Seq<char>>,
    pub since_ns: Option<u64>,
    pub until_ns: Option<u64>,
    pub limit: Option<usize>,
}

impl View for AnnotationSearch {
    type V = AnnotationSearchView;

    open spec fn view(&self) -> AnnotationSearchView {
        AnnotationSearchView {
            trace_id: opt_view(self.trace_id),
            span_id: opt_view(self.span_id),
            name: opt_view(self.name),
            source_prefix: opt_view(self.source_prefix),
            since_ns: self.since_ns,
            until_ns: self.until_ns,
            limit: self.limit,
        }
    }
}

impl Reading for AnnotationSearch {
    open spec fn nothing() -> AnnotationSearchView {
        AnnotationSearchView {
            trace_id: None,
            span_id: None,
            name: None,
            source_prefix: None,
            since_ns: None,
            until_ns: None,
            limit: None,
        }
    }

    open spec fn step(before: AnnotationSearchView, parameter: Seq<char>) -> Result<
        AnnotationSearchView,
        Seq<char>,
    > {
        let (key, value) = decoded_parameter(parameter);
        if key == "trace_id"@ {
            Ok(AnnotationSearchView { trace_id: Some(value), ..before })
        } else if key == "span_id"@ {
            Ok(AnnotationSearchView { span_id: Some(value), ..before })
        } else if key == "name"@ {
            Ok(AnnotationSearchView { name: Some(value), ..before })
        } else if key == "source"@ {
            Ok(AnnotationSearchView { source_prefix: Some(value), ..before })
        } else if key == "since"@ || key == "since_ns"@ {
            match u64_of(value) {
                Some(n) => Ok(AnnotationSearchView { since_ns: Some(n), ..before }),
                None => Err("invalid since"@),
            }
        } else if key == "until"@ || key == "until_ns"@ {
            match u64_of(value) {
                Some(n) => Ok(AnnotationSearchView { until_ns: Some(n), ..before }),
                None => Err("invalid until"@),
            }
        } else if key == "limit"@ {
            match usize_of(value) {
                Some(n) => Ok(AnnotationSearchView { limit: Some(n), ..before }),
                None => Err("invalid limit"@),
            }
        } else {
            Err(unknown_parameter(key))
        }
    }

    fn empty() -> AnnotationSearch {
        AnnotationSearch {
            trace_id: None,
            span_id: None,
            name: None,
            source_prefix: None,
            since_ns: None,
            until_ns: None,
            limit: None,
        }
    }

    fn take(self, parameter: &str) -> (r: Result<AnnotationSearch, String>) {
        let mut q = self;
        let (key, value) = decode_parameter(parameter);
        if same(key.as_str(), "trace_id") {
            q.trace_id = Some(value);
        } else if same(key.as_str(), "span_id") {
            q.span_id = Some(value);
        } else if same(key.as_str(), "name") {
            q.name = Some(value);
        } else if same(key.as_str(), "source") {
            q.source_prefix = Some(value);
        } else if same(key.as_str(), "since") || same(key.as_str(), "since_ns") {
            match read_u64(value.as_str()) {
                Some(n) => q.since_ns = Some(n),
                None => return Err(copy("invalid since")),
            }
        } else if same(key.as_str(), "until") || same(key.as_str(), "until_ns") {
            match read_u64(value.as_str()) {
                Some(n) => q.until_ns = Some(n),
                None => return Err(copy("invalid until")),
            }
        } else if same(key.as_str(), "limit") {
            match read_usize(value.as_str()) {
                Some(n) => q.limit = Some(n),
                None => return Err(copy("invalid limit")),
            }
        } else {
            return Err(joined("unknown query parameter: ", key.as_str()));
        }
        Ok(q)
    }
}

/// Reads the parameters of a search for annotations.
pub fn annotation_query(raw_query: &str) -> (r: Result<AnnotationSearch, String>)
    ensures
        outcome(r) == read_of::<AnnotationSearch>(parameters(raw_query@)),
{
    let given = split_query(raw_query);
    read_query(&given)
}

proof fn lemma_names()
    ensures
        "service"@.len() == 7 && "service"@[0] == 's' && "service"@[1] == 'e'
            && "service"@[2] == 'r' && "service"@[4] == 'i' && "service"@[5] == 'c'
            && "service"@[6] == 'e',
        "name"@.len() == 4 && "name"@[0] == 'n' && "name"@[1] == 'a' && "name"@[2] == 'm'
            && "name"@[3] == 'e',
        "status"@.len() == 6 && "status"@[0] == 's' && "status"@[1] == 't' && "status"@[2] == 'a'
            && "status"@[4] == 'u' && "status"@[5] == 's',
        "not_status"@.len() == 10 && "not_status"@[0] == 'n' && "not_status"@[1] == 'o'
            && "not_status"@[2] == 't' && "not_status"@[4] == 's' && "not_status"@[8] == 'u'
            && "not_status"@[9] == 's',
        "content"@.len() == 7 && "content"@[0] == 'c' && "content"@[1] == 'o'
            && "content"@[2] == 'n' && "content"@[4] == 'e' && "content"@[5] == 'n'
            && "content"@[6] == 't',
        "q"@.len() == 1 && "q"@[0] == 'q',
        "session"@.len() == 7 && "session"@[0] == 's' && "session"@[1] == 'e'
            && "session"@[2] == 's' && "session"@[4] == 'i' && "session"@[5] == 'o'
            && "session"@[6] == 'n',
        "min_duration_ms"@.len() == 15 && "min_duration_ms"@[0] == 'm'
            && "min_duration_ms"@[1] == 'i' && "min_duration_ms"@[2] == 'n'
            && "min_duration_ms"@[4] == 'd' && "min_duration_ms"@[13] == 'm'
            && "min_duration_ms"@[14] == 's',
        "min_duration_ns"@.len() == 15 && "min_duration_ns"@[0] == 'm'
            && "min_duration_ns"@[1] == 'i' && "min_duration_ns"@[2] == 'n'
            && "min_duration_ns"@[4] == 'd' && "min_duration_ns"@[13] == 'n'
            && "min_duration_ns"@[14] == 's',
        "since"@.len() == 5 && "since"@[0] == 's' && "since"@[1] == 'i' && "since"@[2] == 'n'
            && "since"@[3] == 'c' && "since"@[4] == 'e',
        "since_ns"@.len() == 8 && "since_ns"@[0] == 's' && "since_ns"@[1] == 'i'
            && "since_ns"@[2] == 'n' && "since_ns"@[4] == 'e' && "since_ns"@[6] == 'n'
            && "since_ns"@[7] == 's',
        "until"@.len() == 5 && "until"@[0] == 'u' && "until"@[1] == 'n' && "until"@[2] == 't'
            && "until"@[3] == 'i' && "until"@[4] == 'l',
        "until_ns"@.len() == 8 && "until_ns"@[0] == 'u' && "until_ns"@[1] == 'n'
            && "until_ns"@[2] == 't' && "until_ns"@[4] == 'l' && "until_ns"@[6] == 'n'
            && "until_ns"@[7] == 's',
        "max_duration_ms"@.len() == 15 && "max_duration_ms"@[0] == 'm'
            && "max_duration_ms"@[1] == 'a' && "max_duration_ms"@[2] == 'x'
            && "max_duration_ms"@[4] == 'd' && "max_duration_ms"@[13] == 'm'
            && "max_duration_ms"@[14] == 's',
        "max_duration_ns"@.len() == 15 && "max_duration_ns"@[0] == 'm'
            && "max_duration_ns"@[1] == 'a' && "max_duration_ns"@[2] == 'x'
            && "max_duration_ns"@[4] == 'd' && "max_duration_ns"@[13] == 'n'
            && "max_duration_ns"@[14] == 's',
        "sort"@.len() == 4 && "sort"@[0] == 's' && "sort"@[1] == 'o' && "sort"@[2] == 'r'
            && "sort"@[3] == 't',
        "limit"@.len() == 5 && "limit"@[0] == 'l' && "limit"@[1] == 'i' && "limit"@[2] == 'm'
            && "limit"@[3] == 'i' && "limit"@[4] == 't',
        "cursor"@.len() == 6 && "cursor"@[0] == 'c' && "cursor"@[1] == 'u' && "cursor"@[2] == 'r'
            && "cursor"@[4] == 'o' && "cursor"@[5] == 'r',
        "group_by"@.len() == 8 && "group_by"@[0] == 'g' && "group_by"@[1] == 'r'
            && "group_by"@[2] == 'o' && "group_by"@[4] == 'p' && "group_by"@[6] == 'b'
            && "group_by"@[7] == 'y',
        "buckets"@.len() == 7 && "buckets"@[0] == 'b' && "buckets"@[1] == 'u'
            && "buckets"@[2] == 'c' && "buckets"@[4] == 'e' && "buckets"@[5] == 't'
            && "buckets"@[6] == 's',
        "backfill"@.len() == 8 && "backfill"@[0] == 'b' && "backfill"@[1] == 'a'
            && "backfill"@[2] == 'c' && "backfill"@[4] == 'f' && "backfill"@[6] == 'l'
            && "backfill"@[7] == 'l',
        "trace_id"@.len() == 8 && "trace_id"@[0] == 't' && "trace_id"@[1] == 'r'
            && "trace_id"@[2] == 'a' && "trace_id"@[4] == 'e' && "trace_id"@[6] == 'i'
            && "trace_id"@[7] == 'd',
        "span_id"@.len() == 7 && "span_id"@[0] == 's' && "span_id"@[1] == 'p'
            && "span_id"@[2] == 'a' && "span_id"@[4] == '_' && "span_id"@[5] == 'i'
            && "span_id"@[6] == 'd',
        "source"@.len() == 6 && "source"@[0] == 's' && "source"@[1] == 'o' && "source"@[2] == 'u'
            && "source"@[4] == 'c' && "source"@[5] == 'e',
        "attr."@.len() == 5 && "attr."@[0] == 'a' && "attr."@[1] == 't' && "attr."@[2] == 't'
            && "attr."@[3] == 'r' && "attr."@[4] == '.',
        "not_attr."@.len() == 9 && "not_attr."@[0] == 'n' && "not_attr."@[1] == 'o'
            && "not_attr."@[2] == 't' && "not_attr."@[4] == 'a' && "not_attr."@[7] == 'r'
            && "not_attr."@[8] == '.',
        "min_attr."@.len() == 9 && "min_attr."@[0] == 'm' && "min_attr."@[1] == 'i'
            && "min_attr."@[2] == 'n' && "min_attr."@[4] == 'a' && "min_attr."@[7] == 'r'
            && "min_attr."@[8] == '.',
        "max_attr."@.len() == 9 && "max_attr."@[0] == 'm' && "max_attr."@[1] == 'a'
            && "max_attr."@[2] == 'x' && "max_attr."@[4] == 'a' && "max_attr."@[7] == 'r'
            && "max_attr."@[8] == '.',
{
    reveal_strlit("service");
    reveal_strlit("name");
    reveal_strlit("status");
    reveal_strlit("not_status");
    reveal_strlit("content");
    reveal_strlit("q");
    reveal_strlit("session");
    reveal_strlit("min_duration_ms");
    reveal_strlit("min_duration_ns");
    reveal_strlit("since");
    reveal_strlit("since_ns");
    reveal_strlit("until");
    reveal_strlit("until_ns");
    reveal_strlit("max_duration_ms");
    reveal_strlit("max_duration_ns");
    reveal_strlit("sort");
    reveal_strlit("limit");
    reveal_strlit("cursor");
    reveal_strlit("group_by");
    reveal_strlit("buckets");
    reveal_strlit("backfill");
    reveal_strlit("trace_id");
    reveal_strlit("span_id");
    reveal_strlit("source");
    reveal_strlit("attr.");
    reveal_strlit("not_attr.");
    reveal_strlit("min_attr.");
    reveal_strlit("max_attr.");
}

proof fn lemma_no_attribute(key: Seq<char>)
    requires
        key.len() > 0,
        key[0] != 'a',
        key.len() > 4 ==> key[4] != 'a' || (key[0] != 'n' && key[0] != 'm'),
    ensures
        !starts_with(key, "attr."@),
        !starts_with(key, "not_attr."@),
        !starts_with(key, "min_attr."@),
        !starts_with(key, "max_attr."@),
{
    lemma_names();
    if starts_with(key, "attr."@) {
        assert(key.take(5)[0] == key[0]);
    }
    if starts_with(key, "not_attr."@) {
        assert(key.take(9)[4] == key[4] && key.take(9)[0] == key[0]);
    }
    if starts_with(key, "min_attr."@) {
        assert(key.take(9)[4] == key[4] && key.take(9)[0] == key[0]);
    }
    if starts_with(key, "max_attr."@) {
        assert(key.take(9)[4] == key[4] && key.take(9)[0] == key[0]);
    }
}

/// The parameters of a span search that name a field each narrow that field and
/// nothing else; a status to leave out is added to those left out before.
pub proof fn law_search_fields(q: SpanQueryView, value: Seq<char>)
    ensures
        ({
            let f = q.filter;
            let with = |filter: FilterView| Ok::<SpanQueryView, Seq<char>>(
                SpanQueryView { filter, cursor: q.cursor },
            );
            &&& span_step(q, "service"@, value) == with(FilterView { service: Some(value), ..f })
            &&& span_step(q, "name"@, value) == with(FilterView { name: Some(value), ..f })
            &&& span_step(q, "status"@, value) == with(FilterView { status: Some(value), ..f })
            &&& span_step(q, "not_status"@, value) == with(
                FilterView { excluded_statuses: f.excluded_statuses.push(value), ..f },
            )
            &&& span_step(q, "content"@, value) == with(FilterView { content: Some(value), ..f })
            &&& span_step(q, "q"@, value) == with(FilterView { content: Some(value), ..f })
            &&& span_step(q, "session"@, value) == with(FilterView { session: Some(value), ..f })
        }),
{
    lemma_names();
    lemma_no_attribute("service"@);
    lemma_no_attribute("name"@);
    lemma_no_attribute("status"@);
    lemma_no_attribute("not_status"@);
    lemma_no_attribute("content"@);
    lemma_no_attribute("q"@);
    lemma_no_attribute("session"@);
}

/// The bounds of a span search each bound their own quantity: how long a span
/// took, in milliseconds or nanoseconds, when it started, how many are asked
/// for. What is no number is refused.
pub proof fn law_search_bounds(q: SpanQueryView, value: Seq<char>, n: u64)
    requires
        u64_of(value) == Some(n),
        usize_of(value) == Some(n as usize),
    ensures
        ({
            let f = q.filter;
            let with = |filter: FilterView| Ok::<SpanQueryView, Seq<char>>(
                SpanQueryView { filter, cursor: q.cursor },
            );
            let ns = if n * 1_000_000 <= u64::MAX {
                (n * 1_000_000) as u64
            } else {
                u64::MAX
            };
            &&& span_step(q, "min_duration_ms"@, value) == with(
                FilterView { min_duration_ns: Some(ns), ..f },
            )
            &&& span_step(q, "min_duration_ns"@, value) == with(
                FilterView { min_duration_ns: Some(n), ..f },
            )
            &&& span_step(q, "max_duration_ms"@, value) == with(
                FilterView { max_duration_ns: Some(ns), ..f },
            )
            &&& span_step(q, "max_duration_ns"@, value) == with(
                FilterView { max_duration_ns: Some(n), ..f },
            )
            &&& span_step(q, "since"@, value) == with(FilterView { since_ns: Some(n), ..f })
            &&& span_step(q, "since_ns"@, value) == with(FilterView { since_ns: Some(n), ..f })
            &&& span_step(q, "until"@, value) == with(FilterView { until_ns: Some(n), ..f })
            &&& span_step(q, "until_ns"@, value) == with(FilterView { until_ns: Some(n), ..f })
            &&& span_step(q, "limit"@, value) == with(FilterView { limit: Some(n as usize), ..f })
        }),
{
    lemma_names();
    lemma_no_attribute("min_duration_ms"@);
    lemma_no_attribute("min_duration_ns"@);
    lemma_no_attribute("max_duration_ms"@);
    lemma_no_attribute("max_duration_ns"@);
    lemma_no_attribute("since"@);
    lemma_no_attribute("since_ns"@);
    lemma_no_attribute("until"@);
    lemma_no_attribute("until_ns"@);
    lemma_no_attribute("limit"@);
}

/// A bound that is no number is refused, and so are an order that is none, a
/// cursor that is no token, and a parameter that is not known.
pub proof fn law_search_refusals(q: SpanQueryView, value: Seq<char>, key: Seq<char>)
    ensures
        ({
            let no = |message: Seq<char>| Err::<SpanQueryView, Seq<char>>(message);
            &&& u64_of(value) is None ==> {
                &&& span_step(q, "min_duration_ms"@, value) == no("invalid min_duration_ms"@)
                &&& span_step(q, "min_duration_ns"@, value) == no("invalid min_duration_ns"@)
                &&& span_step(q, "max_duration_ms"@, value) == no("invalid max_duration_ms"@)
                &&& span_step(q, "max_duration_ns"@, value) == no("invalid max_duration_ns"@)
                &&& span_step(q, "since"@, value) == no("invalid since"@)
                &&& span_step(q, "until"@, value) == no("invalid until"@)
            }
            &&& usize_of(value) is None ==> span_step(q, "limit"@, value) == no("invalid limit"@)
            &&& sort_named(value) is None ==> span_step(q, "sort"@, value) is Err
            &&& sort_named(value) is Some ==> span_step(q, "sort"@, value) == Ok::<
                SpanQueryView,
                Seq<char>,
            >(
                SpanQueryView {
                    filter: FilterView { sort: sort_named(value), ..q.filter },
                    cursor: q.cursor,
                },
            )
            &&& token_cursor(value) is None ==> span_step(q, "cursor"@, value) == no(
                "cursor is not a token this server issued"@,
            )
            &&& token_cursor(value) is Some ==> span_step(q, "cursor"@, value) == Ok::<
                SpanQueryView,
                Seq<char>,
            >(SpanQueryView { filter: q.filter, cursor: token_cursor(value) })
            &&& key.len() > 0 && 'A' <= key[0] <= 'Z' ==> span_step(q, key, value) == no(
                "unknown query parameter: "@ + key,
            )
        }),
{
    lemma_names();
    lemma_no_attribute("min_duration_ms"@);
    lemma_no_attribute("min_duration_ns"@);
    lemma_no_attribute("max_duration_ms"@);
    lemma_no_attribute("max_duration_ns"@);
    lemma_no_attribute("since"@);
    lemma_no_attribute("until"@);
    lemma_no_attribute("limit"@);
    lemma_no_attribute("sort"@);
    lemma_no_attribute("cursor"@);
    if key.len() > 0 && 'A' <= key[0] <= 'Z' {
        lemma_no_attribute(key);
    }
}

/// The parameters of a span search that name an attribute: one that it must
/// hold, one that it must not, and its least and largest number.
pub proof fn law_search_attributes(q: SpanQueryView, name: Seq<char>, value: Seq<char>)
    ensures
        ({
            let f = q.filter;
            let with = |filter: FilterView| Ok::<SpanQueryView, Seq<char>>(
                SpanQueryView { filter, cursor: q.cursor },
            );
            let no = |message: Seq<char>| Err::<SpanQueryView, Seq<char>>(message);
            &&& span_step(q, "attr."@ + name, value) == with(
                FilterView { attributes: f.attributes.push((name, attribute_value(value))), ..f },
            )
            &&& span_step(q, "not_attr."@ + name, value) == with(
                FilterView {
                    excluded_attributes: f.excluded_attributes.push(
                        (name, attribute_value(value)),
                    ),
                    ..f
                },
            )
            &&& is_float(value) ==> span_step(q, "min_attr."@ + name, value) == with(
                FilterView { min_attributes: f.min_attributes.push((name, value)), ..f },
            ) && span_step(q, "max_attr."@ + name, value) == with(
                FilterView { max_attributes: f.max_attributes.push((name, value)), ..f },
            )
            &&& !is_float(value) ==> span_step(q, "min_attr."@ + name, value) == no(
                "min_attr."@ + name + " must be a number"@,
            ) && span_step(q, "max_attr."@ + name, value) == no(
                "max_attr."@ + name + " must be a number"@,
            )
        }),
{
    lemma_names();
    let a = "attr."@ + name;
    let b = "not_attr."@ + name;
    let c = "min_attr."@ + name;
    let d = "max_attr."@ + name;
    crate::text::law_prefixes("attr."@, name, a);
    crate::text::law_prefixes("not_attr."@, name, b);
    crate::text::law_prefixes("min_attr."@, name, c);
    crate::text::law_prefixes("max_attr."@, name, d);
    assert(a.skip(5) =~= name && b.skip(9) =~= name && c.skip(9) =~= name && d.skip(9) =~= name);
    assert(b[0] == 'n' && c[0] == 'm' && d[0] == 'm' && c[1] == 'i' && d[1] == 'a');
    assert(b[1] == 'o');
    if starts_with(b, "attr."@) {
        assert(b.take(5)[0] == b[0]);
    }
    if starts_with(c, "attr."@) {
        assert(c.take(5)[0] == c[0]);
    }
    if starts_with(c, "not_attr."@) {
        assert(c.take(9)[0] == c[0]);
    }
    if starts_with(d, "attr."@) {
        assert(d.take(5)[0] == d[0]);
    }
    if starts_with(d, "not_attr."@) {
        assert(d.take(9)[0] == d[0]);
    }
    if starts_with(d, "min_attr."@) {
        assert(d.take(9)[1] == d[1]);
    }
}

/// An attribute's value is the JSON that it spells, or the text itself.
pub proof fn law_attribute_values(value: Seq<char>)
    ensures
        json_document(encode_utf8(value)) matches Ok(v) ==> attribute_value(value) == v,
        json_document(encode_utf8(value)) is Err ==> attribute_value(value) == JsonView::Text(value),
{
}

/// Parameters are taken one after the other, from nothing; the first that is
/// refused refuses the query with its message.
pub proof fn law_parameters_are_taken_in_turn<Q: Reading>(
    given: Seq<Seq<char>>,
    parameter: Seq<char>,
)
    ensures
        read_of::<Q>(Seq::empty()) == Ok::<Q::V, Seq<char>>(Q::nothing()),
        read_of::<Q>(given) matches Ok(before) ==> read_of::<Q>(given.push(parameter)) == Q::step(
            before,
            parameter,
        ),
        read_of::<Q>(given) matches Err(message) ==> read_of::<Q>(given.push(parameter)) == Err::<
            Q::V,
            Seq<char>,
        >(message),
{
    assert(given.push(parameter).drop_last() =~= given);
}

/// A search that says nothing asks for the first hundred spans, whatever they
/// are; every parameter is read with its escapes resolved.
pub proof fn law_searches(q: SpanQueryView, key: Seq<char>, value: Seq<char>)
    requires
        !key.contains('='),
    ensures
        ({
            let all = <SpanQuery as Reading>::nothing();
            &&& all.cursor is None
            &&& all.filter.limit == Some(100usize)
            &&& all.filter.attributes.len() == 0 && all.filter.excluded_attributes.len() == 0
            &&& all.filter.min_attributes.len() == 0 && all.filter.max_attributes.len() == 0
            &&& all.filter.service is None && all.filter.name is None && all.filter.status is None
            &&& all.filter.tenant is None && all.filter.excluded_statuses.len() == 0
            &&& all.filter.content is None && all.filter.session is None
            &&& all.filter.min_duration_ns is None && all.filter.max_duration_ns is None
            &&& all.filter.since_ns is None && all.filter.until_ns is None
            &&& all.filter.sort is None
        }),
        <SpanQuery as Reading>::step(q, key.push('=') + value) == span_step(
            q,
            crate::http::decoded(key),
            crate::http::decoded(value),
        ),
{
    crate::http::law_parameters(key, value);
}

/// The parameters of an analytics endpoint: a window, a limit and a dimension.
pub proof fn law_analytics_parameters(q: AnalyticsView, value: Seq<char>, key: Seq<char>)
    ensures
        ({
            let with = |r: AnalyticsView| Ok::<AnalyticsView, Seq<char>>(r);
            let no = |message: Seq<char>| Err::<AnalyticsView, Seq<char>>(message);
            let n = u64_of(value);
            let c = usize_of(value);
            &&& n is Some ==> {
                &&& analytics_step(q, "since"@, value) == with(AnalyticsView { since: n, ..q })
                &&& analytics_step(q, "since_ns"@, value) == with(AnalyticsView { since: n, ..q })
                &&& analytics_step(q, "until"@, value) == with(AnalyticsView { until: n, ..q })
                &&& analytics_step(q, "until_ns"@, value) == with(AnalyticsView { until: n, ..q })
            }
            &&& n is None ==> {
                &&& analytics_step(q, "since"@, value) == no("invalid since"@)
                &&& analytics_step(q, "until"@, value) == no("invalid until"@)
            }
            &&& c is Some ==> analytics_step(q, "limit"@, value) == with(
                AnalyticsView { limit: c, ..q },
            )
            &&& c is None ==> analytics_step(q, "limit"@, value) == no("invalid limit"@)
            &&& analytics_step(q, "group_by"@, value) == with(
                AnalyticsView { group_by: Some(value), ..q },
            )
            &&& key.len() > 0 && 'A' <= key[0] <= 'Z' ==> analytics_step(q, key, value) == no(
                "unknown query parameter: "@ + key,
            )
        }),
        <AnalyticsQuery as Reading>::nothing() == (AnalyticsView {
            since: None,
            until: None,
            limit: None,
            group_by: None,
        }),
{
    lemma_names();
}

/// The parameters of an annotation search, each for its own field.
pub proof fn law_annotation_parameters(q: AnnotationSearchView, key: Seq<char>, value: Seq<char>)
    requires
        !key.contains('='),
    ensures
        ({
            let r = <AnnotationSearch as Reading>::step(q, key.push('=') + value);
            let name = crate::http::decoded(key);
            let held = crate::http::decoded(value);
            let with = |r: AnnotationSearchView| Ok::<AnnotationSearchView, Seq<char>>(r);
            let n = u64_of(held);
            &&& name == "trace_id"@ ==> r == with(
                AnnotationSearchView { trace_id: Some(held), ..q },
            )
            &&& name == "span_id"@ ==> r == with(AnnotationSearchView { span_id: Some(held), ..q })
            &&& name == "name"@ ==> r == with(AnnotationSearchView { name: Some(held), ..q })
            &&& name == "source"@ ==> r == with(
                AnnotationSearchView { source_prefix: Some(held), ..q },
            )
            &&& n is Some && (name == "since"@ || name == "since_ns"@) ==> r == with(
                AnnotationSearchView { since_ns: n, ..q },
            )
            &&& n is Some && (name == "until"@ || name == "until_ns"@) ==> r == with(
                AnnotationSearchView { until_ns: n, ..q },
            )
            &&& usize_of(held) is Some && name == "limit"@ ==> r == with(
                AnnotationSearchView { limit: usize_of(held), ..q },
            )
            &&& n is None && (name == "since"@ || name == "until"@) ==> r is Err
            &&& usize_of(held) is None && name == "limit"@ ==> r is Err
        }),
{
    lemma_names();
    crate::http::law_parameters(key, value);
}

/// A series takes its number of buckets and a search; its window is the
/// search's, where both ends are given.
pub proof fn law_series(given: Seq<Seq<char>>, filter: FilterView, a: u64, b: u64)
    ensures
        filter.since_ns == Some(a) && filter.until_ns == Some(b) ==> window_of(filter) == Some(
            (a, b),
        ),
        filter.since_ns is None || filter.until_ns is None ==> window_of(filter) is None,
        series_of(given) matches Ok(s) ==> {
            &&& read_of::<SeriesParts>(given) is Ok
            &&& s.buckets == read_of::<SeriesParts>(given)->Ok_0.buckets
            &&& read_of::<SpanQuery>(read_of::<SeriesParts>(given)->Ok_0.rest) is Ok
            &&& s.filter == read_of::<SpanQuery>(
                read_of::<SeriesParts>(given)->Ok_0.rest,
            )->Ok_0.filter
            &&& s.window == window_of(s.filter)
        },
{
}

/// What a series and a tail take for themselves: the number of buckets, the
/// cursor and how far back to begin, which is two hundred spans where nothing is
/// said; a tail has no window, and everything else is the search's.
pub proof fn law_series_and_tail_parameters(
    s: SeriesPartsView,
    t: TailPartsView,
    key: Seq<char>,
    value: Seq<char>,
)
    requires
        !key.contains('='),
    ensures
        ({
            let parameter = key.push('=') + value;
            let name = crate::http::decoded(key);
            let held = crate::http::decoded(value);
            let n = usize_of(held);
            let series = <SeriesParts as Reading>::step(s, parameter);
            let tail = <TailParts as Reading>::step(t, parameter);
            let mine = name == "cursor"@ || name == "backfill"@;
            let timed = name == "since"@ || name == "since_ns"@ || name == "until"@ || name
                == "until_ns"@;
            &&& name == "buckets"@ && n is Some ==> series == Ok::<SeriesPartsView, Seq<char>>(
                SeriesPartsView { buckets: n, rest: s.rest },
            )
            &&& name == "buckets"@ && n is None ==> series is Err
            &&& name != "buckets"@ ==> series == Ok::<SeriesPartsView, Seq<char>>(
                SeriesPartsView { buckets: s.buckets, rest: s.rest.push(parameter) },
            )
            &&& name == "backfill"@ && n is Some ==> tail == Ok::<TailPartsView, Seq<char>>(
                TailPartsView { cursor: t.cursor, backfill: n->0, rest: t.rest },
            )
            &&& name == "backfill"@ && n is None ==> tail is Err
            &&& name == "cursor"@ && token_number(held) is Some ==> tail == Ok::<
                TailPartsView,
                Seq<char>,
            >(
                TailPartsView {
                    cursor: Some(TailCursor { sequence: token_number(held)->0 as u64 }),
                    backfill: t.backfill,
                    rest: t.rest,
                },
            )
            &&& name == "cursor"@ && token_number(held) is None ==> tail is Err
            &&& timed ==> tail is Err
            &&& !mine && !timed ==> tail == Ok::<TailPartsView, Seq<char>>(
                TailPartsView {
                    cursor: t.cursor,
                    backfill: t.backfill,
                    rest: t.rest.push(parameter),
                },
            )
        }),
        <TailParts as Reading>::nothing() == (TailPartsView {
            cursor: None,
            backfill: 200,
            rest: seq![],
        }),
        <SeriesParts as Reading>::nothing() == (SeriesPartsView { buckets: None, rest: seq![] }),
{
    lemma_names();
    crate::http::law_parameters(key, value);
}

/// A tail is its own parameters and a search of the others.
pub proof fn law_tails(given: Seq<Seq<char>>)
    ensures
        tail_of(given) matches Ok(t) ==> {
            &&& read_of::<TailParts>(given) is Ok
            &&& t.cursor == read_of::<TailParts>(given)->Ok_0.cursor
            &&& t.backfill == read_of::<TailParts>(given)->Ok_0.backfill
            &&& read_of::<SpanQuery>(read_of::<TailParts>(given)->Ok_0.rest) is Ok
            &&& t.filter == read_of::<SpanQuery>(
                read_of::<TailParts>(given)->Ok_0.rest,
            )->Ok_0.filter
        },
{
}

/// An export is of everything that its search admits, and no more than the limit
/// that the query itself sets.
pub proof fn law_exports(query: Seq<char>)
    ensures
        read_of::<SpanQuery>(parameters(query)) matches Ok(q) ==> {
            &&& export_of(query) is Ok
            &&& export_of(query)->Ok_0.filter == (FilterView { limit: None, ..q.filter })
            &&& sets_limit(query) ==> export_of(query)->Ok_0.user_limit == q.filter.limit
            &&& !sets_limit(query) ==> export_of(query)->Ok_0.user_limit is None
        },
        read_of::<SpanQuery>(parameters(query)) is Err ==> export_of(query) is Err,
        sets_limit(query) <==> exists|i: int|
            0 <= i < split(query, '&').len() && starts_with(
                #[trigger] split(query, '&')[i],
                "limit"@,
            ),
{
}

/// Numbers in parameters are what their digits spell, as far as they fit.
pub proof fn law_numbers_in_parameters(n: nat)
    ensures
        n <= u64::MAX ==> u64_of(crate::text::dec(n)) == Some(n as u64),
        n > u64::MAX ==> u64_of(crate::text::dec(n)) is None,
        n <= usize::MAX ==> usize_of(crate::text::dec(n)) == Some(n as usize),
        n > usize::MAX ==> usize_of(crate::text::dec(n)) is None,
{
    crate::text::law_decimal_reads_back(n);
}

} // verus!
