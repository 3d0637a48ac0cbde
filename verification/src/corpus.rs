//! The synthetic corpora that the benchmarks load: every span is a function of
//! its index, so that what a query must answer can be worked out.

use vstd::prelude::*;

use crate::text::{chars_of, copy, dec, decimal, same};

verus! {

// ------------------------------------------------------------------ hexadecimal

/// A digit of a lowercase hexadecimal number.
pub open spec fn nibble(d: int) -> char {
    if d < 10 {
        (48 + d) as char
    } else {
        (87 + d) as char
    }
}

/// A number in lowercase hexadecimal.
pub open spec fn hex_text(n: nat) -> Seq<char>
    decreases n,
{
    if n < 16 {
        seq![nibble(n as int)]
    } else {
        hex_text(n / 16).push(nibble((n % 16) as int))
    }
}

/// A text brought to a width by zeros in front.
pub open spec fn zero_padded(s: Seq<char>, width: nat) -> Seq<char> {
    if s.len() >= width {
        s
    } else {
        Seq::new((width - s.len()) as nat, |i: int| '0') + s
    }
}

/// A number in lowercase hexadecimal of at least the given width.
pub open spec fn padded_hex(n: nat, width: nat) -> Seq<char> {
    zero_padded(hex_text(n), width)
}

fn hex_digits(n: u64) -> (r: String)
    ensures
        r@ == hex_text(n as nat),
    decreases n,
{
    let mut r = if n < 16 {
        String::new()
    } else {
        hex_digits(n / 16)
    };
    let d = (n % 16) as u8;
    let c = if d < 10 {
        (48 + d) as char
    } else {
        (87 + d) as char
    };
    r.push(c);
    assert(n < 16 ==> r@ =~= hex_text(n as nat));
    r
}

/// A number in lowercase hexadecimal of at least the given width.
pub fn hex_padded(n: u64, width: usize) -> (r: String)
    ensures
        r@ == padded_hex(n as nat, width as nat),
{
    pad(hex_digits(n), width)
}

/// A number in decimal of at least the given width.
pub fn decimal_padded(n: u64, width: usize) -> (r: String)
    ensures
        r@ == zero_padded(dec(n as nat), width as nat),
{
    pad(decimal(n), width)
}

fn pad(digits: String, width: usize) -> (r: String)
    ensures
        r@ == zero_padded(digits@, width as nat),
{
    let len = chars_of(digits.as_str()).len();
    if len >= width {
        return digits;
    }
    let mut r = String::new();
    let mut i: usize = 0;
    let zeros = width - len;
    while i < zeros
        invariant
            i <= zeros,
            r@ == Seq::new(i as nat, |k: int| '0'),
        decreases zeros - i,
    {
        r.push('0');
        i += 1;
        assert(r@ =~= Seq::new(i as nat, |k: int| '0'));
    }
    r.push_str(digits.as_str());
    r
}

// ------------------------------------------------------------------------ spans

/// When the first span of a corpus starts.
pub const EPOCH_NS: u64 = 1_700_000_000_000_000_000;

/// Spans per service: services vary in contiguous runs, because OTLP carries
/// the service per resource.
pub const SPANS_PER_SERVICE: usize = 50;

/// Whether the times of the span at an index fit in a `u64`.
pub open spec fn in_time(index: int) -> bool {
    EPOCH_NS + index * 1_000_000 + 2_480_000 <= u64::MAX
}

/// When the span at an index starts.
pub open spec fn starts_at(index: int) -> int {
    EPOCH_NS + index * 1_000_000
}

/// When the span at an index ends.
pub open spec fn ends_at(index: int) -> int {
    starts_at(index) + 500_000 + (index % 100) * 20_000
}

/// One span's worth of source data, shared by every encoding so that they all
/// carry the same payload.
#[derive(Debug)]
pub struct SpanSeed {
    pub trace_id: String,
    pub span_id: String,
    pub name: &'static str,
    pub service: String,
    pub start_ns: u64,
    pub end_ns: u64,
    pub group: String,
}

pub open spec fn trace_id_of(index: int) -> Seq<char> {
    padded_hex((index / 10 + 1) as nat, 32)
}

pub open spec fn span_id_of(index: int) -> Seq<char> {
    padded_hex((index + 1) as nat, 16)
}

pub open spec fn name_of(index: int) -> Seq<char> {
    if index % 10 == 0 {
        "request"@
    } else {
        "operation"@
    }
}

pub open spec fn service_of(index: int) -> Seq<char> {
    "service-"@ + dec(((index / SPANS_PER_SERVICE as int) % 20) as nat)
}

pub open spec fn group_of(index: int) -> Seq<char> {
    "group-"@ + dec((index % 100) as nat)
}

pub open spec fn method_of(index: int) -> Seq<char> {
    if index % 2 == 0 {
        "GET"@
    } else {
        "POST"@
    }
}

/// A prefix and a number.
pub fn labelled(prefix: &str, n: usize) -> (r: String)
    ensures
        r@ == prefix@ + dec(n as nat),
{
    let mut r = copy(prefix);
    let digits = decimal(n as u64);
    r.push_str(digits.as_str());
    r
}

/// The source data of the span at an index.
pub fn seed(index: usize) -> (r: SpanSeed)
    requires
        in_time(index as int),
    ensures
        r.trace_id@ == trace_id_of(index as int),
        r.span_id@ == span_id_of(index as int),
        r.name@ == name_of(index as int),
        r.service@ == service_of(index as int),
        r.start_ns == starts_at(index as int),
        r.end_ns == ends_at(index as int),
        r.group@ == group_of(index as int),
{
    let n = index as u64;
    let start_ns = EPOCH_NS + n * 1_000_000;
    SpanSeed {
        trace_id: hex_padded(n / 10 + 1, 32),
        span_id: hex_padded(n + 1, 16),
        name: if index % 10 == 0 {
            "request"
        } else {
            "operation"
        },
        service: labelled("service-", (index / SPANS_PER_SERVICE) % 20),
        start_ns,
        end_ns: start_ns + 500_000 + (n % 100) * 20_000,
        group: labelled("group-", index % 100),
    }
}

/// The HTTP method that the span at an index carries.
pub fn http_method(index: usize) -> (r: &'static str)
    ensures
        r@ == method_of(index as int),
{
    if index % 2 == 0 {
        "GET"
    } else {
        "POST"
    }
}

// ------------------------------------------------------------------------- runs

/// The runs of one service among the spans from `start` to `end`: the service,
/// and where the run begins and ends.
pub open spec fn runs_of(start: int, end: int) -> Seq<(Seq<char>, int, int)>
    decreases end - start,
{
    if end <= start {
        seq![]
    } else {
        let before = runs_of(start, end - 1);
        if before.len() > 0 && before.last().0 == service_of(end - 1) {
            before.update(before.len() - 1, (before.last().0, before.last().1, end))
        } else {
            before.push((service_of(end - 1), end - 1, end))
        }
    }
}

pub open spec fn runs_view(runs: Seq<(String, usize, usize)>) -> Seq<(Seq<char>, int, int)> {
    Seq::new(runs.len(), |i: int| (runs[i].0@, runs[i].1 as int, runs[i].2 as int))
}

/// The runs of one service among the spans from `start` to `end`.
pub fn resource_runs(start: usize, end: usize) -> (runs: Vec<(String, usize, usize)>)
    requires
        forall|i: int| start <= i < end ==> #[trigger] in_time(i),
    ensures
        runs_view(runs@) == runs_of(start as int, if start <= end {
            end as int
        } else {
            start as int
        }),
{
    let mut runs: Vec<(String, usize, usize)> = Vec::new();
    let mut index: usize = start;
    assert(runs_view(runs@) =~= Seq::<(Seq<char>, int, int)>::empty());
    while index < end
        invariant
            start <= index,
            index <= end || index == start,
            forall|i: int| start <= i < end ==> #[trigger] in_time(i),
            runs_view(runs@) == runs_of(start as int, index as int),
        decreases end - index,
    {
        let ghost before = runs_view(runs@);
        assert(in_time(index as int));
        let service = seed(index).service;
        let n = runs.len();
        if n > 0 && same(runs[n - 1].0.as_str(), service.as_str()) {
            assert(before[n - 1] == before.last());
            runs[n - 1].2 = index + 1;
            assert(runs_view(runs@) =~= before.update(
                n - 1,
                (before.last().0, before.last().1, index + 1),
            ));
        } else {
            let ghost name = service@;
            assert(n > 0 ==> before.last() == before[n - 1]);
            runs.push((service, index, index + 1));
            assert(runs_view(runs@) =~= before.push((name, index as int, index + 1)));
        }
        index += 1;
    }
    runs
}

/// Every run holds spans of its one service, each begins where the one before
/// it ends, and together they are the spans that were asked for.
pub proof fn law_runs_cover_the_spans(start: int, end: int)
    requires
        start < end,
    ensures
        ({
            let runs = runs_of(start, end);
            &&& runs.len() > 0
            &&& runs[0].1 == start
            &&& runs.last().2 == end
            &&& forall|i: int|
                0 <= i < runs.len() ==> {
                    &&& (#[trigger] runs[i]).1 < runs[i].2
                    &&& forall|k: int| runs[i].1 <= k < runs[i].2 ==> #[trigger] service_of(k) == runs[i].0
                }
            &&& forall|i: int|
                0 < i < runs.len() ==> (#[trigger] runs[i]).1 == runs[i - 1].2
        }),
    decreases end - start,
{
    if end - 1 > start {
        law_runs_cover_the_spans(start, end - 1);
    }
    let before = runs_of(start, end - 1);
    let runs = runs_of(start, end);
    if before.len() > 0 && before.last().0 == service_of(end - 1) {
        let n = before.len() - 1;
        assert(before[n] == before.last());
        assert forall|i: int| 0 <= i < runs.len() implies {
            &&& (#[trigger] runs[i]).1 < runs[i].2
            &&& forall|k: int| runs[i].1 <= k < runs[i].2 ==> #[trigger] service_of(k) == runs[i].0
        } by {
            assert(before[i].1 < before[i].2);
        }
        assert forall|i: int| 0 < i < runs.len() implies (#[trigger] runs[i]).1 == runs[i - 1].2 by {
            assert(before[i].1 == before[i - 1].2);
        }
    } else {
        assert forall|i: int| 0 < i < runs.len() implies (#[trigger] runs[i]).1 == runs[i - 1].2 by {
            if i < before.len() {
                assert(before[i].1 == before[i - 1].2);
            } else {
                assert(before[i - 1] == before.last());
            }
        }
        assert forall|i: int| 0 <= i < runs.len() implies {
            &&& (#[trigger] runs[i]).1 < runs[i].2
            &&& forall|k: int| runs[i].1 <= k < runs[i].2 ==> #[trigger] service_of(k) == runs[i].0
        } by {
            if i < before.len() {
                assert(before[i].1 < before[i].2);
            }
        }
    }
}

/// The number that hexadecimal digits write.
pub open spec fn hex_value(s: Seq<char>) -> int
    decreases s.len(),
{
    if s.len() == 0 {
        0
    } else {
        hex_value(s.drop_last()) * 16 + hex_digit(s.last())
    }
}

/// What a hexadecimal digit stands for.
pub open spec fn hex_digit(c: char) -> int {
    if '0' <= c && c <= '9' {
        c as int - '0' as int
    } else {
        10 + (c as int - 'a' as int)
    }
}

proof fn lemma_hex_text(n: nat)
    ensures
        hex_value(hex_text(n)) == n,
        hex_text(n).len() > 0,
        forall|i: int|
            0 <= i < hex_text(n).len() ==> ('0' <= #[trigger] hex_text(n)[i] && hex_text(n)[i]
                <= '9') || ('a' <= hex_text(n)[i] && hex_text(n)[i] <= 'f'),
    decreases n,
{
    let s = hex_text(n);
    if n < 16 {
        assert(s.drop_last() =~= Seq::<char>::empty());
        assert(hex_value(s.drop_last()) == 0);
        assert(s.last() == nibble(n as int));
    } else {
        lemma_hex_text(n / 16);
        assert(s.drop_last() =~= hex_text(n / 16));
        assert(s.last() == nibble((n % 16) as int));
    }
}

proof fn lemma_padding(k: nat, s: Seq<char>)
    ensures
        hex_value(Seq::new(k, |i: int| '0') + s) == hex_value(s),
    decreases s.len() + k,
{
    let zeros = Seq::new(k, |i: int| '0');
    let whole = zeros + s;
    if s.len() > 0 {
        lemma_padding(k, s.drop_last());
        assert(whole.drop_last() =~= zeros + s.drop_last());
    } else if k > 0 {
        let fewer = Seq::new((k - 1) as nat, |i: int| '0');
        lemma_padding((k - 1) as nat, s);
        assert(whole.drop_last() =~= fewer + s);
        assert(whole.last() == '0');
    } else {
        assert(whole =~= s);
    }
}

/// An id in hexadecimal reads back, in lower case digits, filled up with noughts
/// to its width and no further; so no two numbers share one.
pub proof fn law_hexadecimal_reads_back(n: nat, m: nat, width: nat, i: int)
    ensures
        hex_value(padded_hex(n, width)) == n,
        padded_hex(n, width).len() >= width,
        padded_hex(n, width).len() > width ==> padded_hex(n, width) == padded_hex(n, 0),
        0 <= i < padded_hex(n, width).len() ==> ('0' <= padded_hex(n, width)[i] && padded_hex(
            n,
            width,
        )[i] <= '9') || ('a' <= padded_hex(n, width)[i] && padded_hex(n, width)[i] <= 'f'),
        padded_hex(n, width) == padded_hex(m, width) ==> n == m,
{
    lemma_hex_text(n);
    lemma_hex_text(m);
    let s = hex_text(n);
    let t = hex_text(m);
    if s.len() < width {
        lemma_padding((width - s.len()) as nat, s);
    }
    if t.len() < width {
        lemma_padding((width - t.len()) as nat, t);
    }
}

/// What is filled up ends in what it was, and begins in noughts.
pub proof fn law_filling_up(s: Seq<char>, width: nat, i: int)
    ensures
        s.len() >= width ==> zero_padded(s, width) == s,
        s.len() < width ==> zero_padded(s, width).len() == width && zero_padded(s, width).skip(
            width - s.len(),
        ) == s,
        s.len() < width && 0 <= i < width - s.len() ==> zero_padded(s, width)[i] == '0',
{
    if s.len() < width {
        assert(zero_padded(s, width).skip(width - s.len()) =~= s);
    }
}

/// Ten spans share a trace, and none their own id.
pub proof fn law_ids_of_the_corpus(i: int, j: int)
    requires
        0 <= i,
        0 <= j,
    ensures
        trace_id_of(i) == trace_id_of(j) <==> i / 10 == j / 10,
        span_id_of(i) == span_id_of(j) <==> i == j,
        hex_value(span_id_of(i)) == i + 1,
        hex_value(trace_id_of(i)) == i / 10 + 1,
{
    law_hexadecimal_reads_back((i / 10 + 1) as nat, (j / 10 + 1) as nat, 32, 0);
    law_hexadecimal_reads_back((i + 1) as nat, (j + 1) as nat, 16, 0);
}

/// The first of ten spans is the request; every other span is a GET; a hundred
/// groups take turns; fifty spans in a row are of one of twenty services.
pub proof fn law_turns_of_the_corpus(i: int, j: int)
    requires
        0 <= i,
        0 <= j,
    ensures
        name_of(10 * i) == "request"@,
        j % 10 != 0 ==> name_of(j) == "operation"@,
        i / 50 == j / 50 ==> service_of(i) == service_of(j),
        service_of(i + 1000) == service_of(i),
        group_of(i) == "group-"@ + dec((i % 100) as nat),
        method_of(2 * i) == "GET"@ && method_of(2 * i + 1) == "POST"@,
{
    assert((i + 1000) / 50 == i / 50 + 20);
}

/// Spans start a millisecond apart, and last from half a millisecond to two and a
/// half, in a hundred steps.
pub proof fn law_times_of_the_corpus(i: int)
    requires
        0 <= i,
    ensures
        starts_at(0) == 1_700_000_000_000_000_000,
        starts_at(i + 1) == starts_at(i) + 1_000_000,
        ends_at(i) - starts_at(i) == 500_000 + 20_000 * (i % 100),
{
}

/// Which service a span is of: the first fifty of the first.
pub proof fn law_services(i: int)
    requires
        0 <= i < 1000,
    ensures
        service_of(i) == "service-"@ + dec((i / 50) as nat),
{
}

} // verus!
