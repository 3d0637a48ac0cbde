//! The protobuf encoding of trace exports, written out by hand.

use vstd::prelude::*;
use vstd::utf8::encode_utf8;

use crate::corpus::{
    ends_at, group_of, hex_text, http_method, in_time, law_runs_cover_the_spans, method_of, name_of,
    padded_hex, resource_runs, runs_of, runs_view, seed, span_id_of, starts_at, trace_id_of,
};
use crate::responses::push_bytes;
use crate::text::chars_of;

verus! {

// ----------------------------------------------------------------------- fields

/// A number in groups of seven bits, the low ones first; every byte but the
/// last has its high bit set.
pub open spec fn varint_of(v: nat) -> Seq<u8>
    decreases v,
{
    if v < 128 {
        seq![v as u8]
    } else {
        seq![(v % 128 + 128) as u8] + varint_of(v / 128)
    }
}

/// Appends a number.
pub fn varint(out: &mut Vec<u8>, value: u64)
    ensures
        final(out)@ == old(out)@ + varint_of(value as nat),
{
    let ghost before = out@;
    let mut rest: u64 = value;
    while rest >= 128
        invariant
            out@ + varint_of(rest as nat) == before + varint_of(value as nat),
        decreases rest,
    {
        let ghost so_far = out@;
        let byte = (rest % 128) as u8 + 128;
        out.push(byte);
        proof {
            let tail = varint_of((rest / 128) as nat);
            assert(so_far.push(byte) + tail == so_far + (seq![byte] + tail));
        }
        rest = rest / 128;
    }
    let ghost so_far = out@;
    out.push(rest as u8);
    assert(so_far.push(rest as u8) == so_far + seq![rest as u8]);
}

/// What stands in front of a field: its number and how it is encoded.
pub open spec fn tag_of(field: nat, wire: nat) -> Seq<u8> {
    varint_of(field * 8 + wire)
}

/// Appends a field's tag.
pub fn tag(out: &mut Vec<u8>, field: u32, wire: u32)
    requires
        field < 0x1000_0000,
        wire < 8,
    ensures
        final(out)@ == old(out)@ + tag_of(field as nat, wire as nat),
{
    varint(out, field as u64 * 8 + wire as u64);
}

/// A field of bytes, behind their length.
pub open spec fn delimited_of(field: nat, payload: Seq<u8>) -> Seq<u8> {
    tag_of(field, 2) + varint_of(payload.len()) + payload
}

/// Appends a field of bytes.
pub fn delimited(out: &mut Vec<u8>, field: u32, payload: &[u8])
    requires
        field < 0x1000_0000,
    ensures
        final(out)@ == old(out)@ + delimited_of(field as nat, payload@),
{
    let ghost before = out@;
    let n: usize = payload.len();
    tag(out, field, 2);
    varint(out, n as u64);
    push_bytes(out, payload);
    assert(out@ =~= before + delimited_of(field as nat, payload@));
}

/// The `n` low bytes of a number, the lowest first.
pub open spec fn low_bytes(v: nat, n: nat) -> Seq<u8>
    decreases n,
{
    if n == 0 {
        seq![]
    } else {
        seq![(v % 256) as u8] + low_bytes(v / 256, (n - 1) as nat)
    }
}

/// A field of eight bytes.
pub open spec fn fixed64_of(field: nat, v: nat) -> Seq<u8> {
    tag_of(field, 1) + low_bytes(v, 8)
}

/// Appends a field of eight bytes.
pub fn fixed64(out: &mut Vec<u8>, field: u32, value: u64)
    requires
        field < 0x1000_0000,
    ensures
        final(out)@ == old(out)@ + fixed64_of(field as nat, value as nat),
{
    let ghost before = out@;
    tag(out, field, 1);
    let ghost tagged = out@;
    let mut rest: u64 = value;
    let mut i: usize = 0;
    while i < 8
        invariant
            i <= 8,
            out@ + low_bytes(rest as nat, (8 - i) as nat) == tagged + low_bytes(value as nat, 8),
        decreases 8 - i,
    {
        let ghost so_far = out@;
        let byte = (rest % 256) as u8;
        out.push(byte);
        proof {
            let tail = low_bytes((rest / 256) as nat, (7 - i) as nat);
            assert(so_far.push(byte) + tail == so_far + (seq![byte] + tail));
        }
        rest = rest / 256;
        i += 1;
    }
    assert(out@ + low_bytes(rest as nat, 0) == out@);
    assert(out@ =~= before + fixed64_of(field as nat, value as nat));
}

// ------------------------------------------------------------------ hexadecimal

pub open spec fn is_hex_digit(c: char) -> bool {
    '0' <= c <= '9' || 'a' <= c <= 'f'
}

pub open spec fn hex_digit_value(c: char) -> int {
    if c <= '9' {
        c as int - 48
    } else {
        c as int - 87
    }
}

pub open spec fn all_hex(s: Seq<char>) -> bool {
    forall|i: int| 0 <= i < s.len() ==> is_hex_digit(#[trigger] s[i])
}

/// The bytes that pairs of hexadecimal digits stand for.
pub open spec fn unhexed(s: Seq<char>) -> Seq<u8> {
    Seq::new(
        s.len() / 2,
        |i: int| (hex_digit_value(s[2 * i]) * 16 + hex_digit_value(s[2 * i + 1])) as u8,
    )
}

fn digit_value(c: char) -> (r: u8)
    requires
        is_hex_digit(c),
    ensures
        r == hex_digit_value(c),
        r < 16,
{
    if c <= '9' {
        c as u8 - 48
    } else {
        c as u8 - 87
    }
}

/// The bytes that pairs of hexadecimal digits stand for.
pub fn unhex(text: &str) -> (out: Vec<u8>)
    requires
        all_hex(text@),
        text@.len() % 2 == 0,
    ensures
        out@ == unhexed(text@),
{
    let chars = chars_of(text);
    let n: usize = chars.len();
    let mut out: Vec<u8> = Vec::new();
    let mut i: usize = 0;
    while i < n
        invariant
            chars@ == text@,
            n == chars@.len(),
            n % 2 == 0,
            i % 2 == 0,
            i <= n,
            all_hex(text@),
            out@.len() == i / 2,
            forall|k: int| 0 <= k < i / 2 ==> out@[k] == unhexed(text@)[k],
        decreases n - i,
    {
        assert(is_hex_digit(text@[i as int]) && is_hex_digit(text@[i + 1]));
        let high = digit_value(chars[i]);
        let low = digit_value(chars[i + 1]);
        out.push(high * 16 + low);
        assert(unhexed(text@)[(i / 2) as int] == high * 16 + low) by {
            assert(2 * (i / 2) == i);
        }
        i += 2;
    }
    assert(out@ =~= unhexed(text@));
    out
}

/// Sixteen to the power of `k`.
pub open spec fn sixteen(k: nat) -> nat
    decreases k,
{
    if k == 0 {
        1
    } else {
        16 * sixteen((k - 1) as nat)
    }
}

proof fn lemma_hex_text(n: nat, k: nat)
    requires
        k >= 1,
        n < sixteen(k),
    ensures
        1 <= hex_text(n).len() <= k,
        all_hex(hex_text(n)),
    decreases k,
{
    if n >= 16 {
        assert(k > 1) by {
            reveal_with_fuel(sixteen, 2);
        }
        lemma_hex_text(n / 16, (k - 1) as nat);
    }
}

proof fn lemma_padded(n: nat, width: nat)
    requires
        n <= u64::MAX,
        width >= 16,
    ensures
        padded_hex(n, width).len() == width,
        all_hex(padded_hex(n, width)),
{
    assert(sixteen(16) == 0x1_0000_0000_0000_0000) by {
        reveal_with_fuel(sixteen, 17);
    }
    lemma_hex_text(n, 16);
    let text = hex_text(n);
    let s = padded_hex(n, width);
    let pad = (width - text.len()) as nat;
    assert forall|i: int| 0 <= i < s.len() implies is_hex_digit(#[trigger] s[i]) by {
        if i >= pad {
            assert(s[i] == text[i - pad]);
        }
    }
}

// ----------------------------------------------------------------------- export

/// An attribute with a text.
pub open spec fn attribute_of(key: Seq<char>, value: Seq<char>) -> Seq<u8> {
    delimited_of(1, encode_utf8(key)) + delimited_of(2, delimited_of(1, encode_utf8(value)))
}

/// Encodes an attribute with a text.
pub fn string_attribute(key: &str, value: &str) -> (pair: Vec<u8>)
    ensures
        pair@ == attribute_of(key@, value@),
{
    let mut any: Vec<u8> = Vec::new();
    delimited(&mut any, 1, value.as_bytes());
    assert(any@ =~= delimited_of(1, encode_utf8(value@)));
    let mut pair: Vec<u8> = Vec::new();
    delimited(&mut pair, 1, key.as_bytes());
    delimited(&mut pair, 2, any.as_slice());
    assert(pair@ =~= attribute_of(key@, value@));
    pair
}

/// The status `ok`.
pub open spec fn ok_status() -> Seq<u8> {
    tag_of(3, 0) + varint_of(1)
}

/// The span at an index.
pub open spec fn span_bytes(index: int) -> Seq<u8> {
    delimited_of(1, unhexed(trace_id_of(index))) + delimited_of(2, unhexed(span_id_of(index)))
        + delimited_of(5, encode_utf8(name_of(index))) + fixed64_of(7, starts_at(index) as nat)
        + fixed64_of(8, ends_at(index) as nat) + delimited_of(
        9,
        attribute_of("benchmark.group"@, group_of(index)),
    ) + delimited_of(9, attribute_of("http.method"@, method_of(index))) + delimited_of(
        15,
        ok_status(),
    )
}

fn encode_span(index: usize) -> (span: Vec<u8>)
    requires
        in_time(index as int),
    ensures
        span@ == span_bytes(index as int),
{
    let data = seed(index);
    proof {
        lemma_padded((index / 10 + 1) as nat, 32);
        lemma_padded((index + 1) as nat, 16);
    }
    let trace = unhex(data.trace_id.as_str());
    let id = unhex(data.span_id.as_str());
    let group = string_attribute("benchmark.group", data.group.as_str());
    let method = string_attribute("http.method", http_method(index));
    let mut status: Vec<u8> = Vec::new();
    tag(&mut status, 3, 0);
    varint(&mut status, 1);
    assert(status@ =~= ok_status());
    let mut span: Vec<u8> = Vec::new();
    delimited(&mut span, 1, trace.as_slice());
    delimited(&mut span, 2, id.as_slice());
    delimited(&mut span, 5, data.name.as_bytes());
    fixed64(&mut span, 7, data.start_ns);
    fixed64(&mut span, 8, data.end_ns);
    delimited(&mut span, 9, group.as_slice());
    delimited(&mut span, 9, method.as_slice());
    delimited(&mut span, 15, status.as_slice());
    assert(span@ =~= span_bytes(index as int));
    span
}

/// The spans from `start` to `end`.
pub open spec fn spans_bytes(start: int, end: int) -> Seq<u8>
    decreases end - start,
{
    if end <= start {
        seq![]
    } else {
        spans_bytes(start, end - 1) + delimited_of(2, span_bytes(end - 1))
    }
}

fn encode_spans(start: usize, end: usize) -> (spans: Vec<u8>)
    requires
        start <= end,
        forall|i: int| start <= i < end ==> #[trigger] in_time(i),
    ensures
        spans@ == spans_bytes(start as int, end as int),
{
    let mut spans: Vec<u8> = Vec::new();
    let mut index: usize = start;
    while index < end
        invariant
            start <= index <= end,
            forall|i: int| start <= i < end ==> #[trigger] in_time(i),
            spans@ == spans_bytes(start as int, index as int),
        decreases end - index,
    {
        assert(in_time(index as int));
        let span = encode_span(index);
        delimited(&mut spans, 2, span.as_slice());
        index += 1;
    }
    spans
}

/// The spans of one service under their resource.
pub open spec fn resource_bytes(run: (Seq<char>, int, int)) -> Seq<u8> {
    delimited_of(1, delimited_of(1, attribute_of("service.name"@, run.0))) + delimited_of(
        2,
        spans_bytes(run.1, run.2),
    )
}

fn encode_resource(service: &str, start: usize, end: usize) -> (out: Vec<u8>)
    requires
        start <= end,
        forall|i: int| start <= i < end ==> #[trigger] in_time(i),
    ensures
        out@ == resource_bytes((service@, start as int, end as int)),
{
    let spans = encode_spans(start, end);
    let name = string_attribute("service.name", service);
    let mut resource: Vec<u8> = Vec::new();
    delimited(&mut resource, 1, name.as_slice());
    assert(resource@ =~= delimited_of(1, attribute_of("service.name"@, service@)));
    let mut out: Vec<u8> = Vec::new();
    delimited(&mut out, 1, resource.as_slice());
    delimited(&mut out, 2, spans.as_slice());
    assert(out@ =~= resource_bytes((service@, start as int, end as int)));
    out
}

/// The first `n` runs.
pub open spec fn request_bytes(runs: Seq<(Seq<char>, int, int)>, n: int) -> Seq<u8>
    decreases n,
{
    if n <= 0 {
        seq![]
    } else {
        request_bytes(runs, n - 1) + delimited_of(1, resource_bytes(runs[n - 1]))
    }
}

/// The spans from `start` to `end` as one export request.
pub fn protobuf_batch(start: usize, end: usize) -> (request: Vec<u8>)
    requires
        start <= end,
        forall|i: int| start <= i < end ==> #[trigger] in_time(i),
    ensures
        request@ == request_bytes(
            runs_of(start as int, end as int),
            runs_of(start as int, end as int).len() as int,
        ),
{
    let runs = resource_runs(start, end);
    let ghost views = runs_of(start as int, end as int);
    proof {
        assert(runs_view(runs@).len() == runs@.len());
        if start < end {
            law_runs_cover_the_spans(start as int, end as int);
            lemma_run_bounds(start as int, end as int);
        }
    }
    let mut request: Vec<u8> = Vec::new();
    let mut i: usize = 0;
    while i < runs.len()
        invariant
            i <= runs@.len(),
            views == runs_view(runs@),
            forall|k: int| start <= k < end ==> #[trigger] in_time(k),
            forall|k: int|
                0 <= k < views.len() ==> start <= (#[trigger] views[k]).1 <= views[k].2 <= end,
            request@ == request_bytes(views, i as int),
        decreases runs@.len() - i,
    {
        let ghost run = views[i as int];
        assert(run == (runs@[i as int].0@, runs@[i as int].1 as int, runs@[i as int].2 as int));
        let resource = encode_resource(runs[i].0.as_str(), runs[i].1, runs[i].2);
        delimited(&mut request, 1, resource.as_slice());
        i += 1;
    }
    request
}

pub proof fn lemma_run_bounds(start: int, end: int)
    requires
        start < end,
    ensures
        forall|k: int|
            0 <= k < runs_of(start, end).len() ==> start <= (#[trigger] runs_of(start, end)[k]).1
                <= runs_of(start, end)[k].2 <= end,
    decreases end - start,
{
    if end - 1 > start {
        lemma_run_bounds(start, end - 1);
    }
    let before = runs_of(start, end - 1);
    let runs = runs_of(start, end);
    assert forall|k: int| 0 <= k < runs.len() implies start <= (#[trigger] runs[k]).1 <= runs[k].2
        <= end by {
        if k < before.len() {
            assert(start <= before[k].1 <= before[k].2 <= end - 1);
        }
    }
}

// ------------------------------------------------------------------------- laws

/// The number at the front of some bytes, and what follows it.
pub open spec fn read_varint(bytes: Seq<u8>) -> Option<(nat, Seq<u8>)>
    decreases bytes.len(),
{
    if bytes.len() == 0 {
        None
    } else if bytes[0] < 128 {
        Some((bytes[0] as nat, bytes.skip(1)))
    } else {
        match read_varint(bytes.skip(1)) {
            Some((high, rest)) => Some(((bytes[0] - 128) as nat + 128 * high, rest)),
            None => None,
        }
    }
}

/// A number reads back, whatever follows it.
pub proof fn law_a_varint_reads_back(v: nat, rest: Seq<u8>)
    ensures
        read_varint(varint_of(v) + rest) == Some((v, rest)),
    decreases v,
{
    let bytes = varint_of(v) + rest;
    if v < 128 {
        assert(bytes[0] == v);
        assert(bytes.skip(1) =~= rest);
    } else {
        law_a_varint_reads_back(v / 128, rest);
        assert(bytes[0] == v % 128 + 128);
        assert(bytes.skip(1) =~= varint_of(v / 128) + rest);
    }
}

/// The field of bytes at the front, and what follows it.
pub open spec fn read_delimited(bytes: Seq<u8>) -> Option<(nat, Seq<u8>, Seq<u8>)> {
    match read_varint(bytes) {
        Some((mark, after_tag)) => match read_varint(after_tag) {
            Some((len, after_len)) => if mark % 8 == 2 && len <= after_len.len() {
                Some((mark / 8, after_len.take(len as int), after_len.skip(len as int)))
            } else {
                None
            },
            None => None,
        },
        None => None,
    }
}

proof fn lemma_four(a: Seq<u8>, b: Seq<u8>, c: Seq<u8>, d: Seq<u8>)
    ensures
        a + b + c + d == a + (b + (c + d)),
        (c + d).take(c.len() as int) == c,
        (c + d).skip(c.len() as int) == d,
{
    assert(a + b + c + d =~= a + (b + (c + d)));
    assert((c + d).take(c.len() as int) =~= c);
    assert((c + d).skip(c.len() as int) =~= d);
}

/// A field of bytes reads back, whatever follows it.
#[verifier::rlimit(40)]
pub proof fn law_a_field_reads_back(field: nat, payload: Seq<u8>, rest: Seq<u8>)
    ensures
        read_delimited(delimited_of(field, payload) + rest) == Some((field, payload, rest)),
{
    let mark = varint_of(field * 8 + 2);
    let length = varint_of(payload.len());
    let tail = payload + rest;
    lemma_four(mark, length, payload, rest);
    assert(delimited_of(field, payload) + rest == mark + (length + tail));
    law_a_varint_reads_back(field * 8 + 2, length + tail);
    law_a_varint_reads_back(payload.len(), tail);
}

/// What eight bytes stand for, the lowest first.
pub open spec fn little_endian(bytes: Seq<u8>) -> int
    decreases bytes.len(),
{
    if bytes.len() == 0 {
        0
    } else {
        bytes[0] + 256 * little_endian(bytes.skip(1))
    }
}

proof fn lemma_low_bytes(v: nat, n: nat, bound: int)
    requires
        bound == bytes_bound(n),
        v < bound,
    ensures
        low_bytes(v, n).len() == n,
        little_endian(low_bytes(v, n)) == v,
    decreases n,
{
    if n > 0 {
        let rest = low_bytes(v / 256, (n - 1) as nat);
        assert(bytes_bound(n) == 256 * bytes_bound((n - 1) as nat));
        lemma_low_bytes(v / 256, (n - 1) as nat, bytes_bound((n - 1) as nat));
        assert(low_bytes(v, n).skip(1) =~= rest);
        assert(low_bytes(v, n)[0] == (v % 256) as u8);
    }
}

/// How many numbers so many bytes can tell apart.
pub open spec fn bytes_bound(n: nat) -> int
    decreases n,
{
    if n == 0 {
        1
    } else {
        256 * bytes_bound((n - 1) as nat)
    }
}

/// The number in front of the bytes as a field of eight, and what follows it.
pub open spec fn read_fixed64(bytes: Seq<u8>) -> Option<(nat, int, Seq<u8>)> {
    match read_varint(bytes) {
        Some((mark, after)) => if mark % 8 == 1 && after.len() >= 8 {
            Some((mark / 8, little_endian(after.take(8)), after.skip(8)))
        } else {
            None
        },
        None => None,
    }
}

/// A number written in eight bytes reads back, under its field.
#[verifier::rlimit(40)]
pub proof fn law_a_number_reads_back(field: nat, v: u64, rest: Seq<u8>)
    ensures
        fixed64_of(field, v as nat).len() == varint_of(field * 8 + 1).len() + 8,
        read_fixed64(fixed64_of(field, v as nat) + rest) == Some((field, v as int, rest)),
{
    reveal_with_fuel(bytes_bound, 9);
    lemma_low_bytes(v as nat, 8, bytes_bound(8));
    let low = low_bytes(v as nat, 8);
    let mark = tag_of(field, 1);
    assert(fixed64_of(field, v as nat) + rest =~= mark + (low + rest));
    law_a_varint_reads_back(field * 8 + 1, low + rest);
    assert((low + rest).take(8) =~= low);
    assert((low + rest).skip(8) =~= rest);
}

/// A byte is written by two hexadecimal digits, the high one first.
pub proof fn law_hexadecimal_pairs(s: Seq<char>, i: int)
    requires
        all_hex(s),
        0 <= i < s.len() / 2,
    ensures
        unhexed(s).len() == s.len() / 2,
        unhexed(s)[i] as int == crate::corpus::hex_value(s.subrange(2 * i, 2 * i + 2)),
{
    let pair = s.subrange(2 * i, 2 * i + 2);
    assert(is_hex_digit(s[2 * i]) && is_hex_digit(s[2 * i + 1]));
    reveal_with_fuel(crate::corpus::hex_value, 3);
    assert(pair.drop_last().drop_last() =~= Seq::<char>::empty());
    assert(pair.last() == s[2 * i + 1] && pair.drop_last().last() == s[2 * i]);
}

/// A text attribute reads back as its key, and its value one level down.
pub proof fn law_an_attribute_reads_back(key: Seq<char>, value: Seq<char>)
    ensures
        ({
            let first = read_delimited(attribute_of(key, value))->0;
            let second = read_delimited(first.2)->0;
            let inner = read_delimited(second.1)->0;
            &&& read_delimited(attribute_of(key, value)) is Some && first.0 == 1 && first.1
                == encode_utf8(key)
            &&& read_delimited(first.2) is Some && second.0 == 2 && second.2.len() == 0
            &&& read_delimited(second.1) is Some && inner.0 == 1 && inner.1 == encode_utf8(value)
                && inner.2.len() == 0
        }),
{
    let held = delimited_of(1, encode_utf8(value));
    let tail = delimited_of(2, held);
    let none = Seq::<u8>::empty();
    law_a_field_reads_back(1, encode_utf8(key), tail);
    law_a_field_reads_back(2, held, none);
    assert(tail + none =~= tail);
    law_a_field_reads_back(1, encode_utf8(value), none);
    assert(held + none =~= held);
}

/// A span reads back field by field: its trace and its own id, its name, when it
/// started and ended, its two attributes, and a status of one under code three.
#[verifier::rlimit(40)]
pub proof fn law_a_span_reads_back(index: int)
    requires
        0 <= index,
        in_time(index),
    ensures
        ({
            let trace = read_delimited(span_bytes(index))->0;
            let own = read_delimited(trace.2)->0;
            let name = read_delimited(own.2)->0;
            let start = read_fixed64(name.2)->0;
            let end = read_fixed64(start.2)->0;
            let group = read_delimited(end.2)->0;
            let method = read_delimited(group.2)->0;
            let status = read_delimited(method.2)->0;
            &&& trace.0 == 1 && trace.1 == unhexed(trace_id_of(index))
            &&& own.0 == 2 && own.1 == unhexed(span_id_of(index))
            &&& name.0 == 5 && name.1 == encode_utf8(name_of(index))
            &&& start.0 == 7 && start.1 == starts_at(index)
            &&& end.0 == 8 && end.1 == ends_at(index)
            &&& group.0 == 9 && group.1 == attribute_of("benchmark.group"@, group_of(index))
            &&& method.0 == 9 && method.1 == attribute_of("http.method"@, method_of(index))
            &&& status.0 == 15 && read_varint(status.1) == Some((24nat, varint_of(1)))
            &&& status.2.len() == 0
        }),
{
    let p1 = unhexed(trace_id_of(index));
    let p2 = unhexed(span_id_of(index));
    let p5 = encode_utf8(name_of(index));
    let p9 = attribute_of("benchmark.group"@, group_of(index));
    let q9 = attribute_of("http.method"@, method_of(index));
    let none = Seq::<u8>::empty();
    let r7 = delimited_of(15, ok_status());
    let r6 = delimited_of(9, q9) + r7;
    let r5 = delimited_of(9, p9) + r6;
    let r4 = fixed64_of(8, ends_at(index) as nat) + r5;
    let r3 = fixed64_of(7, starts_at(index) as nat) + r4;
    let r2 = delimited_of(5, p5) + r3;
    let r1 = delimited_of(2, p2) + r2;
    assert(span_bytes(index) =~= delimited_of(1, p1) + r1);
    law_a_field_reads_back(1, p1, r1);
    law_a_field_reads_back(2, p2, r2);
    law_a_field_reads_back(5, p5, r3);
    law_a_number_reads_back(7, starts_at(index) as u64, r4);
    law_a_number_reads_back(8, ends_at(index) as u64, r5);
    law_a_field_reads_back(9, p9, r6);
    law_a_field_reads_back(9, q9, r7);
    law_a_field_reads_back(15, ok_status(), none);
    assert(r7 + none =~= r7);
    law_a_varint_reads_back(24, varint_of(1));
}

proof fn lemma_three(a: Seq<u8>, b: Seq<u8>, c: Seq<u8>)
    ensures
        (a + b) + c == a + (b + c),
        a + Seq::<u8>::empty() == a,
        Seq::<u8>::empty() + a == a,
{
    assert((a + b) + c =~= a + (b + c));
    assert(a + Seq::<u8>::empty() =~= a);
    assert(Seq::<u8>::empty() + a =~= a);
}

/// The field that one span of a run is.
pub open spec fn span_field(index: int) -> Seq<u8> {
    delimited_of(2, span_bytes(index))
}

proof fn lemma_spans_step(start: int, end: int)
    requires
        start < end,
    ensures
        spans_bytes(start, end) == spans_bytes(start, end - 1) + span_field(end - 1),
        spans_bytes(start, start) == Seq::<u8>::empty(),
{
}

/// The spans of a run stand one behind the other, the first in front.
pub proof fn law_spans_stand_in_order(start: int, end: int)
    requires
        start < end,
    ensures
        spans_bytes(start, end) == span_field(start) + spans_bytes(start + 1, end),
    decreases end - start,
{
    lemma_spans_step(start, end);
    if end - start == 1 {
        lemma_three(span_field(start), Seq::empty(), Seq::empty());
        lemma_spans_step(start + 1, start + 2);
    } else {
        law_spans_stand_in_order(start, end - 1);
        lemma_spans_step(start + 1, end);
        lemma_three(span_field(start), spans_bytes(start + 1, end - 1), span_field(end - 1));
    }
}

/// Each run of a request stands behind those before it, under field one.
pub proof fn law_runs_stand_in_order(runs: Seq<(Seq<char>, int, int)>, n: int, rest: Seq<u8>)
    requires
        0 < n <= runs.len(),
    ensures
        request_bytes(runs, 0) == Seq::<u8>::empty(),
        request_bytes(runs, n - 1).len() <= request_bytes(runs, n).len(),
        request_bytes(runs, n).take(request_bytes(runs, n - 1).len() as int) == request_bytes(
            runs,
            n - 1,
        ),
        read_delimited(
            request_bytes(runs, n).skip(request_bytes(runs, n - 1).len() as int) + rest,
        ) == Some((1nat, resource_bytes(runs[n - 1]), rest)),
{
    let before = request_bytes(runs, n - 1);
    let field = delimited_of(1, resource_bytes(runs[n - 1]));
    assert(request_bytes(runs, n) == before + field);
    lemma_halves(before, field);
    law_a_field_reads_back(1, resource_bytes(runs[n - 1]), rest);
}

proof fn lemma_halves(a: Seq<u8>, b: Seq<u8>)
    ensures
        (a + b).take(a.len() as int) == a,
        (a + b).skip(a.len() as int) == b,
{
    assert((a + b).take(a.len() as int) =~= a);
    assert((a + b).skip(a.len() as int) =~= b);
}

/// A resource reads back as its service, two levels down, and its spans.
pub proof fn law_a_resource_reads_back(service: Seq<char>, start: int, end: int)
    ensures
        ({
            let resource = read_delimited(resource_bytes((service, start, end)))->0;
            let held = read_delimited(resource.1)->0;
            let spans = read_delimited(resource.2)->0;
            &&& resource.0 == 1
            &&& held.0 == 1 && held.1 == attribute_of("service.name"@, service)
            &&& spans.0 == 2 && spans.1 == spans_bytes(start, end) && spans.2.len() == 0
        }),
{
    let held = delimited_of(1, attribute_of("service.name"@, service));
    let tail = delimited_of(2, spans_bytes(start, end));
    let none = Seq::<u8>::empty();
    law_a_field_reads_back(1, held, tail);
    law_a_field_reads_back(1, attribute_of("service.name"@, service), none);
    law_a_field_reads_back(2, spans_bytes(start, end), none);
    assert(held + none =~= held);
    assert(tail + none =~= tail);
}

} // verus!
