//! Span searches: what a search may ask for, and where a page of it stopped.

use vstd::prelude::*;

use crate::json::{digits_only, entries_view, Json, JsonView};
use crate::text::{
    all_digits, as_nat, chars_of, copy, dec, decimal, digit_char, digits_value, find, is_digit,
    lemma_dec, lemma_find, lowered, opt_view, parse_number, same, split_once, split_text_once,
    text_of, texts, to_lower,
};

verus! {

// ---------------------------------------------------------------------- order

/// The order in which a search returns its spans.
#[derive(Clone, Copy, Debug, PartialEq, Eq, Structural)]
pub enum SpanSort {
    DurationAsc,
    DurationDesc,
    StartAsc,
    StartDesc,
}

pub open spec fn sort_named(name: Seq<char>) -> Option<SpanSort> {
    if name == "duration"@ || name == "duration_asc"@ {
        Some(SpanSort::DurationAsc)
    } else if name == "-duration"@ || name == "duration_desc"@ {
        Some(SpanSort::DurationDesc)
    } else if name == "start"@ || name == "start_asc"@ {
        Some(SpanSort::StartAsc)
    } else if name == "-start"@ || name == "start_desc"@ {
        Some(SpanSort::StartDesc)
    } else {
        None
    }
}

impl SpanSort {
    /// Reads an order's name, in its short or its long form.
    pub fn parse(name: &str) -> (r: Option<SpanSort>)
        ensures
            r == sort_named(name@),
    {
        if same(name, "duration") || same(name, "duration_asc") {
            Some(SpanSort::DurationAsc)
        } else if same(name, "-duration") || same(name, "duration_desc") {
            Some(SpanSort::DurationDesc)
        } else if same(name, "start") || same(name, "start_asc") {
            Some(SpanSort::StartAsc)
        } else if same(name, "-start") || same(name, "start_desc") {
            Some(SpanSort::StartDesc)
        } else {
            None
        }
    }
}

// -------------------------------------------------------------------- cursors

/// Where a page of spans stopped: the last span's place in the order.
#[derive(Debug)]
pub struct SpanCursor {
    pub start_ns: u64,
    pub end_ns: u64,
    pub trace_id: String,
    pub span_id: String,
}

pub struct CursorView {
    pub start_ns: nat,
    pub end_ns: nat,
    pub trace_id: Seq<char>,
    pub span_id: Seq<char>,
}

impl View for SpanCursor {
    type V = CursorView;

    open spec fn view(&self) -> CursorView {
        CursorView {
            start_ns: self.start_ns as nat,
            end_ns: self.end_ns as nat,
            trace_id: self.trace_id@,
            span_id: self.span_id@,
        }
    }
}

/// A decimal number as a token writes it: digits alone, no sign.
pub open spec fn token_number(s: Seq<char>) -> Option<nat> {
    if s.len() > 0 && all_digits(s) && digits_value(s) <= u64::MAX {
        Some(digits_value(s))
    } else {
        None
    }
}

fn read_token_number(text: &str) -> (r: Option<u64>)
    ensures
        as_nat(r) == token_number(text@),
{
    if !digits_only(text) {
        return None;
    }
    assert(is_digit(text@[0]));
    parse_number(text, u64::MAX)
}

/// A cursor's token: both times, the length of the trace id, and both ids,
/// separated by colons up to the ids, which follow one another directly.
pub open spec fn cursor_token(c: CursorView) -> Seq<char> {
    dec(c.start_ns).push(':') + (dec(c.end_ns).push(':') + (dec(c.trace_id.len()).push(':') + (
    c.trace_id + c.span_id)))
}

/// The number before the first colon of a token, and what follows it.
pub open spec fn token_head(s: Seq<char>) -> Option<(nat, Seq<char>)> {
    match split_once(s, ':') {
        Some((head, rest)) => match token_number(head) {
            Some(n) => Some((n, rest)),
            None => None,
        },
        None => None,
    }
}

/// The cursor that a token stands for.
pub open spec fn token_cursor(token: Seq<char>) -> Option<CursorView> {
    match token_head(token) {
        None => None,
        Some((start_ns, after_start)) => match token_head(after_start) {
            None => None,
            Some((end_ns, after_end)) => match token_head(after_end) {
                None => None,
                Some((len, ids)) => if len <= ids.len() {
                    Some(
                        CursorView {
                            start_ns,
                            end_ns,
                            trace_id: ids.take(len as int),
                            span_id: ids.skip(len as int),
                        },
                    )
                } else {
                    None
                },
            },
        },
    }
}

fn read_token_head(text: &str) -> (r: Option<(u64, String)>)
    ensures
        match r {
            Some((n, rest)) => token_head(text@) == Some((n as nat, rest@)),
            None => token_head(text@).is_none(),
        },
{
    match split_text_once(text, ':') {
        Some((head, rest)) => match read_token_number(head.as_str()) {
            Some(n) => Some((n, rest)),
            None => None,
        },
        None => None,
    }
}

pub open spec fn cursor_opt(c: Option<SpanCursor>) -> Option<CursorView> {
    match c {
        Some(cursor) => Some(cursor@),
        None => None,
    }
}

impl SpanCursor {
    /// The token that stands for this cursor.
    pub fn to_token(&self) -> (r: String)
        ensures
            r@ == cursor_token(self@),
    {
        let mut ids = copy(self.trace_id.as_str());
        ids.push_str(self.span_id.as_str());
        let len: usize = chars_of(self.trace_id.as_str()).len();
        let mut third = decimal(len as u64);
        third.push(':');
        third.push_str(ids.as_str());
        let mut second = decimal(self.end_ns);
        second.push(':');
        second.push_str(third.as_str());
        let mut token = decimal(self.start_ns);
        token.push(':');
        token.push_str(second.as_str());
        token
    }

    /// The cursor of a token, where the token is one.
    pub fn from_token(token: &str) -> (r: Option<SpanCursor>)
        ensures
            cursor_opt(r) == token_cursor(token@),
    {
        if let Some((start_ns, after_start)) = read_token_head(token) {
            if let Some((end_ns, after_end)) = read_token_head(after_start.as_str()) {
                if let Some((len, ids)) = read_token_head(after_end.as_str()) {
                    let chars = chars_of(ids.as_str());
                    let n: usize = chars.len();
                    if len <= n as u64 {
                        let trace_id = text_of(&chars, 0, len as usize);
                        let span_id = text_of(&chars, len as usize, n);
                        assert(trace_id@ == ids@.take(len as int));
                        assert(span_id@ == ids@.skip(len as int));
                        return Some(SpanCursor { start_ns, end_ns, trace_id, span_id });
                    }
                }
            }
        }
        None
    }
}

proof fn lemma_token_head(n: nat, rest: Seq<char>)
    requires
        n <= u64::MAX,
    ensures
        token_head(dec(n).push(':') + rest) == Some((n, rest)),
{
    lemma_dec(n);
    let s = dec(n).push(':') + rest;
    let len = dec(n).len() as int;
    lemma_find(s, ':', 0);
    assert(s[len] == ':');
    assert forall|k: int| 0 <= k < len implies s[k] != ':' by {
        assert(is_digit(dec(n)[k]));
        assert(s[k] == dec(n)[k]);
    }
    assert(find(s, ':') == len);
    assert(s.take(len) =~= dec(n));
    assert(s.skip(len + 1) =~= rest);
}

/// A cursor's token reads back as the cursor.
pub proof fn law_a_cursor_reads_back(c: CursorView)
    requires
        c.start_ns <= u64::MAX,
        c.end_ns <= u64::MAX,
        c.trace_id.len() <= u64::MAX,
    ensures
        token_cursor(cursor_token(c)) == Some(c),
{
    let ids = c.trace_id + c.span_id;
    let third = dec(c.trace_id.len()).push(':') + ids;
    let second = dec(c.end_ns).push(':') + third;
    lemma_token_head(c.start_ns, second);
    lemma_token_head(c.end_ns, third);
    lemma_token_head(c.trace_id.len(), ids);
    assert(ids.take(c.trace_id.len() as int) =~= c.trace_id);
    assert(ids.skip(c.trace_id.len() as int) =~= c.span_id);
}

/// Where a tail stopped: how many spans had been admitted.
#[derive(Clone, Copy, Debug, PartialEq, Eq, Structural)]
pub struct TailCursor {
    pub sequence: u64,
}

impl TailCursor {
    /// The token that stands for this cursor.
    pub fn to_token(self) -> (r: String)
        ensures
            r@ == dec(self.sequence as nat),
    {
        decimal(self.sequence)
    }

    /// The cursor of a token, where the token is one.
    pub fn parse(token: &str) -> (r: Option<TailCursor>)
        ensures
            match r {
                Some(cursor) => token_number(token@) == Some(cursor.sequence as nat),
                None => token_number(token@).is_none(),
            },
    {
        match read_token_number(token) {
            Some(sequence) => Some(TailCursor { sequence }),
            None => None,
        }
    }
}

/// A tail cursor's token reads back as the cursor.
pub proof fn law_a_tail_cursor_reads_back(cursor: TailCursor)
    ensures
        token_number(dec(cursor.sequence as nat)) == Some(cursor.sequence as nat),
{
    lemma_dec(cursor.sequence as nat);
}

// --------------------------------------------------------------------- filter

/// What a search asks for. Every part that is given must match; a bound on an
/// attribute is the decimal number that was written.
#[derive(Debug)]
pub struct SpanFilter {
    pub attributes: Vec<(String, Json)>,
    pub excluded_attributes: Vec<(String, Json)>,
    pub min_attributes: Vec<(String, String)>,
    pub max_attributes: Vec<(String, String)>,
    pub service: Option<String>,
    pub name: Option<String>,
    pub status: Option<String>,
    pub tenant: Option<String>,
    pub excluded_statuses: Vec<String>,
    pub content: Option<String>,
    pub session: Option<String>,
    pub min_duration_ns: Option<u64>,
    pub max_duration_ns: Option<u64>,
    pub since_ns: Option<u64>,
    pub until_ns: Option<u64>,
    pub sort: Option<SpanSort>,
    pub limit: Option<usize>,
}

pub struct FilterView {
    pub attributes: Seq<(Seq<char>, JsonView)>,
    pub excluded_attributes: Seq<(Seq<char>, JsonView)>,
    pub min_attributes: Seq<(Seq<char>, Seq<char>)>,
    pub max_attributes: Seq<(Seq<char>, Seq<char>)>,
    pub service: Option<Seq<char>>,
    pub name: Option<Seq<char>>,
    pub status: Option<Seq<char>>,
    pub tenant: Option<Seq<char>>,
    pub excluded_statuses: Seq<Seq<char>>,
    pub content: Option<Seq<char>>,
    pub session: Option<Seq<char>>,
    pub min_duration_ns: Option<u64>,
    pub max_duration_ns: Option<u64>,
    pub since_ns: Option<u64>,
    pub until_ns: Option<u64>,
    pub sort: Option<SpanSort>,
    pub limit: Option<usize>,
}

pub open spec fn bounds_view(bounds: Seq<(String, String)>) -> Seq<(Seq<char>, Seq<char>)> {
    Seq::new(bounds.len(), |i: int| (bounds[i].0@, bounds[i].1@))
}

impl View for SpanFilter {
    type V = FilterView;

    open spec fn view(&self) -> FilterView {
        FilterView {
            attributes: entries_view(self.attributes@),
            excluded_attributes: entries_view(self.excluded_attributes@),
            min_attributes: bounds_view(self.min_attributes@),
            max_attributes: bounds_view(self.max_attributes@),
            service: opt_view(self.service),
            name: opt_view(self.name),
            status: opt_view(self.status),
            tenant: opt_view(self.tenant),
            excluded_statuses: texts(self.excluded_statuses@),
            content: opt_view(self.content),
            session: opt_view(self.session),
            min_duration_ns: self.min_duration_ns,
            max_duration_ns: self.max_duration_ns,
            since_ns: self.since_ns,
            until_ns: self.until_ns,
            sort: self.sort,
            limit: self.limit,
        }
    }
}

/// A search that asks for nothing in particular.
pub open spec fn no_filter() -> FilterView {
    FilterView {
        attributes: seq![],
        excluded_attributes: seq![],
        min_attributes: seq![],
        max_attributes: seq![],
        service: None,
        name: None,
        status: None,
        tenant: None,
        excluded_statuses: seq![],
        content: None,
        session: None,
        min_duration_ns: None,
        max_duration_ns: None,
        since_ns: None,
        until_ns: None,
        sort: None,
        limit: None,
    }
}

impl SpanFilter {
    /// A search that asks for nothing in particular.
    pub fn any() -> (r: SpanFilter)
        ensures
            r@ == no_filter(),
    {
        let r = SpanFilter {
            attributes: Vec::new(),
            excluded_attributes: Vec::new(),
            min_attributes: Vec::new(),
            max_attributes: Vec::new(),
            service: None,
            name: None,
            status: None,
            tenant: None,
            excluded_statuses: Vec::new(),
            content: None,
            session: None,
            min_duration_ns: None,
            max_duration_ns: None,
            since_ns: None,
            until_ns: None,
            sort: None,
            limit: None,
        };
        assert(r@.attributes =~= no_filter().attributes);
        assert(r@.excluded_attributes =~= no_filter().excluded_attributes);
        assert(r@.min_attributes =~= no_filter().min_attributes);
        assert(r@.max_attributes =~= no_filter().max_attributes);
        assert(r@.excluded_statuses =~= no_filter().excluded_statuses);
        r
    }
}

// -------------------------------------------------------------------- decimals

/// A text without its leading sign.
pub open spec fn unsigned(s: Seq<char>) -> Seq<char> {
    if s.len() > 0 && (s[0] == '+' || s[0] == '-') {
        s.skip(1)
    } else {
        s
    }
}

/// Digits with a decimal point among them or not; at least one digit.
pub open spec fn is_mantissa(s: Seq<char>) -> bool {
    match split_once(s, '.') {
        Some((whole, part)) => all_digits(whole) && all_digits(part) && whole.len() + part.len()
            > 0,
        None => s.len() > 0 && all_digits(s),
    }
}

/// What reads as a floating-point number: infinity, not-a-number, or digits
/// with an optional decimal point and an optional exponent, under an optional
/// sign and in either case.
pub open spec fn is_float(s: Seq<char>) -> bool {
    let u = unsigned(lowered(s));
    ||| u == "inf"@
    ||| u == "infinity"@
    ||| u == "nan"@
    ||| match split_once(u, 'e') {
        Some((mantissa, exponent)) => is_mantissa(mantissa) && unsigned(exponent).len() > 0
            && all_digits(unsigned(exponent)),
        None => is_mantissa(u),
    }
}

fn without_sign(text: &str) -> (r: String)
    ensures
        r@ == unsigned(text@),
{
    let chars = chars_of(text);
    if chars.len() > 0 && (chars[0] == '+' || chars[0] == '-') {
        let r = text_of(&chars, 1, chars.len());
        assert(r@ == text@.skip(1));
        r
    } else {
        copy(text)
    }
}

fn only_digits(text: &str) -> (r: bool)
    ensures
        r == all_digits(text@),
{
    let chars = chars_of(text);
    let mut i: usize = 0;
    while i < chars.len()
        invariant
            i <= chars@.len(),
            chars@ == text@,
            forall|k: int| 0 <= k < i ==> is_digit(#[trigger] text@[k]),
        decreases chars@.len() - i,
    {
        if !digit_char(chars[i]) {
            return false;
        }
        i += 1;
    }
    true
}

fn mantissa(text: &str) -> (r: bool)
    ensures
        r == is_mantissa(text@),
{
    match split_text_once(text, '.') {
        Some((whole, part)) => {
            let a = chars_of(whole.as_str()).len();
            let b = chars_of(part.as_str()).len();
            only_digits(whole.as_str()) && only_digits(part.as_str()) && (a > 0 || b > 0)
        },
        None => digits_only(text),
    }
}

/// Whether a text reads as a floating-point number.
pub fn float_text(text: &str) -> (r: bool)
    ensures
        r == is_float(text@),
{
    let folded = to_lower(text);
    let u = without_sign(folded.as_str());
    if same(u.as_str(), "inf") || same(u.as_str(), "infinity") || same(u.as_str(), "nan") {
        return true;
    }
    match split_text_once(u.as_str(), 'e') {
        Some((head, exponent)) => {
            let exponent = without_sign(exponent.as_str());
            mantissa(head.as_str()) && digits_only(exponent.as_str())
        },
        None => mantissa(u.as_str()),
    }
}

/// The orders of a search by name, in their short and their long forms, and no
/// others.
pub proof fn law_sort_names(name: Seq<char>)
    ensures
        sort_named(name) == Some(SpanSort::DurationAsc) <==> name == "duration"@ || name
            == "duration_asc"@,
        sort_named(name) == Some(SpanSort::DurationDesc) <==> name == "-duration"@ || name
            == "duration_desc"@,
        sort_named(name) == Some(SpanSort::StartAsc) <==> name == "start"@ || name == "start_asc"@,
        sort_named(name) == Some(SpanSort::StartDesc) <==> name == "-start"@ || name
            == "start_desc"@,
{
    lemma_sort_names();
}

proof fn lemma_sort_names()
    ensures
        "duration"@.len() == 8,
        "duration_asc"@.len() == 12,
        "-duration"@.len() == 9 && "-duration"@[0] == '-',
        "duration_desc"@.len() == 13,
        "start"@.len() == 5,
        "start_asc"@.len() == 9 && "start_asc"@[0] == 's',
        "-start"@.len() == 6,
        "start_desc"@.len() == 10,
{
    reveal_strlit("duration");
    reveal_strlit("duration_asc");
    reveal_strlit("-duration");
    reveal_strlit("duration_desc");
    reveal_strlit("start");
    reveal_strlit("start_asc");
    reveal_strlit("-start");
    reveal_strlit("start_desc");
}

/// A cursor's token is the start, the end and the length of the trace id, each
/// with a colon behind it, and then the two ids.
pub proof fn law_cursor_tokens(c: CursorView)
    ensures
        cursor_token(c) == dec(c.start_ns).push(':') + (dec(c.end_ns).push(':') + (dec(
            c.trace_id.len(),
        ).push(':') + (c.trace_id + c.span_id))),
        token_number(dec(c.start_ns)) == (if c.start_ns <= u64::MAX {
            Some(c.start_ns)
        } else {
            None
        }),
{
    crate::text::lemma_dec(c.start_ns);
}

/// A filter shows its own fields.
pub proof fn law_a_filter_shows_its_fields(f: SpanFilter)
    ensures
        f.service is Some ==> f@.service == Some(f.service->0@),
        f.service is None ==> f@.service is None,
        f.name is Some ==> f@.name == Some(f.name->0@),
        f.name is None ==> f@.name is None,
        f.status is Some ==> f@.status == Some(f.status->0@),
        f.status is None ==> f@.status is None,
        f.tenant is Some ==> f@.tenant == Some(f.tenant->0@),
        f.tenant is None ==> f@.tenant is None,
        f.content is Some ==> f@.content == Some(f.content->0@),
        f.content is None ==> f@.content is None,
        f.session is Some ==> f@.session == Some(f.session->0@),
        f.session is None ==> f@.session is None,
        f@.min_duration_ns == f.min_duration_ns && f@.max_duration_ns == f.max_duration_ns,
        f@.since_ns == f.since_ns && f@.until_ns == f.until_ns,
        f@.limit == f.limit && f@.sort == f.sort,
        f@.attributes == entries_view(f.attributes@),
        f@.excluded_attributes == entries_view(f.excluded_attributes@),
        f@.min_attributes.len() == f.min_attributes@.len(),
        f@.max_attributes.len() == f.max_attributes@.len(),
        f@.excluded_statuses.len() == f.excluded_statuses@.len(),
{
}

/// What reads as a number with a fraction: digits, with a point among them or
/// not and an exponent behind them or not, infinity and not-a-number, each under
/// a sign or not and in either case. An empty text does not, nor a point alone.
pub proof fn law_float_texts(n: nat, m: nat)
    ensures
        is_float(dec(n)),
        is_float(dec(n).push('.') + dec(m)),
        is_float(seq!['-'] + dec(n)),
        !is_float(Seq::empty()),
        !is_float(seq!['.']),
        !is_float(seq!['-']),
{
    crate::text::lemma_dec(n);
    crate::text::lemma_dec(m);
    let a = dec(n);
    let b = dec(n).push('.') + dec(m);
    let c = seq!['-'] + dec(n);
    lemma_digits_lowered(a);
    lemma_plain(a);
    assert(is_digit(a[0]));
    assert(lowered(b) =~= b) by {
        assert forall|i: int| 0 <= i < b.len() implies lowered(b)[i] == b[i] by {
            if i < a.len() {
                assert(b[i] == a[i] && is_digit(a[i]));
            } else if i > a.len() {
                assert(b[i] == dec(m)[i - a.len() - 1] && is_digit(dec(m)[i - a.len() - 1]));
            }
        }
    }
    assert(b[0] == a[0]);
    assert(!b.contains('e')) by {
        if b.contains('e') {
            let i = choose|i: int| 0 <= i < b.len() && b[i] == 'e';
            if i < a.len() {
                assert(b[i] == a[i] && is_digit(a[i]));
            } else if i > a.len() {
                assert(b[i] == dec(m)[i - a.len() - 1] && is_digit(dec(m)[i - a.len() - 1]));
            }
        }
    }
    lemma_unsplit(b, 'e');
    lemma_unsplit(a, 'e');
    lemma_unsplit(a, '.');
    assert(!a.contains('.')) by {
        if a.contains('.') {
            let i = choose|i: int| 0 <= i < a.len() && a[i] == '.';
            assert(is_digit(a[i]));
        }
    }
    assert(!a.contains('e')) by {
        if a.contains('e') {
            let i = choose|i: int| 0 <= i < a.len() && a[i] == 'e';
            assert(is_digit(a[i]));
        }
    }
    lemma_split_here(a, dec(m), '.');
    assert(lowered(c) =~= c) by {
        assert forall|i: int| 0 <= i < c.len() implies lowered(c)[i] == c[i] by {
            if i > 0 {
                assert(c[i] == a[i - 1] && is_digit(a[i - 1]));
            }
        }
    }
    assert(c.skip(1) =~= a);
    reveal_strlit("inf");
    reveal_strlit("infinity");
    reveal_strlit("nan");
    let none = Seq::<char>::empty();
    assert(lowered(none) =~= none);
    lemma_unsplit(none, 'e');
    lemma_unsplit(none, '.');
    let point = seq!['.'];
    assert(lowered(point) =~= point);
    lemma_unsplit(point, 'e');
    lemma_split_here(none, none, '.');
    assert(none.push('.') + none =~= point);
    let minus = seq!['-'];
    assert(lowered(minus) =~= minus);
    assert(minus.skip(1) =~= none);
}

proof fn lemma_digits_lowered(s: Seq<char>)
    requires
        all_digits(s),
    ensures
        lowered(s) == s,
{
    assert forall|i: int| 0 <= i < s.len() implies lowered(s)[i] == s[i] by {
        assert(is_digit(s[i]));
    }
    assert(lowered(s) =~= s);
}

proof fn lemma_plain(s: Seq<char>)
    requires
        s.len() > 0,
        all_digits(s),
    ensures
        unsigned(s) == s,
{
    assert(is_digit(s[0]));
}

proof fn lemma_unsplit(s: Seq<char>, c: char)
    ensures
        !s.contains(c) ==> split_once(s, c) is None,
{
    crate::text::law_splitting_once(s, c);
    if let Some((head, tail)) = split_once(s, c) {
        assert(s[head.len() as int] == c);
    }
}

proof fn lemma_split_here(head: Seq<char>, tail: Seq<char>, c: char)
    ensures
        !head.contains(c) ==> split_once(head.push(c) + tail, c) == Some((head, tail)),
{
    if !head.contains(c) {
        let whole = head.push(c) + tail;
        crate::text::lemma_find(whole, c, 0);
        assert(whole[head.len() as int] == c);
        let k = crate::text::find(whole, c);
        if k < head.len() {
            assert(whole[k] == head[k]);
            assert(head.contains(c));
        }
        assert(whole.take(k) =~= head);
        assert(whole.skip(k + 1) =~= tail);
    }
}

} // verus!
