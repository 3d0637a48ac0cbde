//! The benchmark of what a segment's resident index costs: a corpus whose value
//! size, uniqueness, locality and attribute count are chosen, and the matrix of
//! those choices.

use vstd::prelude::*;

use crate::args::{default_compaction, default_config, CompactionConfig, Config, Durability};
use crate::batches::text_view;
use crate::content_bench::behind;
use crate::corpus::{decimal_padded, labelled, zero_padded, EPOCH_NS};
use crate::json::{
    array, entries_view, entry, items_view, object, text_json, uint_json, uint_view, Json, JsonView,
};
use crate::queries::joined;
use crate::sort::{ascending, sort_unique};
use crate::text::{
    chars_of, copy, cut_text, dec, decimal, number_to, opt_view, parse_number, same, text_of, texts,
    trim, trimmed,
};

verus! {

// ------------------------------------------------------------------------- cells

/// How distinct values are spread over the spans, which decides in how many
/// segments each of them lands.
#[derive(Clone, Copy, Debug, PartialEq, Eq, Structural)]
pub enum Order {
    /// Every value recurs throughout the run.
    Interleaved,
    /// Every value arrives in one block.
    Blocked,
}

pub open spec fn order_name(order: Order) -> Seq<char> {
    match order {
        Order::Interleaved => "interleaved"@,
        Order::Blocked => "blocked"@,
    }
}

impl Order {
    pub fn as_str(self) -> (r: &'static str)
        ensures
            r@ == order_name(self),
    {
        match self {
            Order::Interleaved => "interleaved",
            Order::Blocked => "blocked",
        }
    }
}

/// One point in the matrix.
#[derive(Clone, Copy, Debug, PartialEq, Eq, Structural)]
pub struct Cell {
    /// Bytes per text attribute.
    pub value_bytes: usize,
    /// Percentage of spans with a value of their own.
    pub unique_pct: u32,
    /// Text attributes per span: the prompt, or the prompt and the completion.
    pub attrs: usize,
    /// Attributes with few values per span.
    pub enum_attrs: usize,
    /// Spans in a segment.
    pub flush_spans: usize,
    pub order: Order,
    pub spans: usize,
}

/// How many distinct values a cell has.
pub open spec fn distinct_of(cell: Cell) -> nat {
    let count = (cell.spans * cell.unique_pct / 100) as nat;
    if count == 0 {
        1
    } else {
        count
    }
}

/// What a cell is called.
pub open spec fn label_of(cell: Cell) -> Seq<char> {
    dec(cell.value_bytes as nat) + "B/"@ + dec(cell.unique_pct as nat) + "%/"@ + dec(
        cell.attrs as nat,
    ) + "attr"@ + (if cell.enum_attrs > 0 {
        "+"@ + dec(cell.enum_attrs as nat) + "enum"@
    } else {
        ""@
    }) + "/flush"@ + dec(cell.flush_spans as nat) + "/"@ + order_name(cell.order)
}

fn push_number(r: &mut String, n: usize)
    ensures
        final(r)@ == old(r)@ + dec(n as nat),
{
    let digits = decimal(n as u64);
    r.push_str(digits.as_str());
}

impl Cell {
    /// How many distinct values the cell has: at least one.
    pub fn distinct(&self) -> (r: usize)
        requires
            self.spans * self.unique_pct <= usize::MAX,
        ensures
            r == distinct_of(*self),
    {
        let product: usize = self.spans * self.unique_pct as usize;
        let count = product / 100;
        if count == 0 {
            1
        } else {
            count
        }
    }

    /// What the cell is called.
    pub fn label(&self) -> (r: String)
        ensures
            r@ == label_of(*self),
    {
        let enums = if self.enum_attrs > 0 {
            let mut enums = copy("+");
            push_number(&mut enums, self.enum_attrs);
            enums.push_str("enum");
            enums
        } else {
            copy("")
        };
        let mut r = decimal(self.value_bytes as u64);
        r.push_str("B/");
        let digits = decimal(self.unique_pct as u64);
        r.push_str(digits.as_str());
        r.push_str("%/");
        push_number(&mut r, self.attrs);
        r.push_str("attr");
        r.push_str(enums.as_str());
        r.push_str("/flush");
        push_number(&mut r, self.flush_spans);
        r.push_str("/");
        r.push_str(self.order.as_str());
        r
    }

    /// The directory of the cell: its name, with dashes for what a path
    /// cannot hold.
    pub fn directory(&self) -> (r: String)
        ensures
            r@ == "cell-"@ + dashed(label_of(*self)),
    {
        let label = self.label();
        let chars = chars_of(label.as_str());
        let mut r = copy("cell-");
        let ghost head = r@;
        let mut i: usize = 0;
        assert(head + dashed(label@).take(0) =~= head);
        while i < chars.len()
            invariant
                i <= chars@.len(),
                chars@ == label@,
                r@ == head + dashed(label@).take(i as int),
            decreases chars@.len() - i,
        {
            let c = chars[i];
            r.push(
                if c == '/' || c == '%' {
                    '-'
                } else {
                    c
                },
            );
            i += 1;
            assert(dashed(label@).take(i as int) =~= dashed(label@).take(i - 1).push(
                dashed(label@)[i - 1],
            ));
            assert(r@ =~= head + dashed(label@).take(i as int));
        }
        assert(dashed(label@).take(chars@.len() as int) =~= dashed(label@));
        r
    }
}

/// A text with dashes for slashes and percent signs.
pub open spec fn dashed(s: Seq<char>) -> Seq<char> {
    Seq::new(
        s.len(),
        |i: int|
            if s[i] == '/' || s[i] == '%' {
                '-'
            } else {
                s[i]
            },
    )
}

// ------------------------------------------------------------------------ values

/// What fills a value up: prose that all of them share.
pub const FILLER: &'static str = "\
    You are a careful assistant. Read the attached context and answer the question \
    using only what it contains. Cite the paragraph you relied on for every claim, \
    and if the context does not settle the question, say so plainly instead of \
    guessing. Context follows. ";

/// Which text attribute a value is for.
#[derive(Clone, Copy, Debug, PartialEq, Eq, Structural)]
pub enum TextKind {
    Prompt,
    Completion,
}

pub open spec fn kind_name(kind: TextKind) -> Seq<char> {
    match kind {
        TextKind::Prompt => "prompt"@,
        TextKind::Completion => "completion"@,
    }
}

impl TextKind {
    fn name(self) -> (r: &'static str)
        ensures
            r@ == kind_name(self),
    {
        match self {
            TextKind::Prompt => "prompt",
            TextKind::Completion => "completion",
        }
    }
}

/// How a value with an identifier begins.
pub open spec fn value_head(kind: TextKind, id: u64) -> Seq<char> {
    "["@ + kind_name(kind) + " req "@ + zero_padded(dec(id as nat), 12) + " tenant t"@
        + zero_padded(dec((id % 97) as nat), 4) + " session s"@ + zero_padded(
        dec((id.wrapping_mul(2_654_435_761) % 100_000_000) as nat),
        8,
    ) + "] "@
}

/// A value of a given size: its head, and the filler over and over behind it.
pub open spec fn value_of(kind: TextKind, id: u64, size: nat) -> Seq<char> {
    let head = value_head(kind, id);
    Seq::new(
        size,
        |i: int|
            if i < head.len() {
                head[i]
            } else {
                FILLER@[(i - head.len()) % (FILLER@.len() as int)]
            },
    )
}

fn head_of(kind: TextKind, id: u64) -> (r: String)
    ensures
        r@ == value_head(kind, id),
{
    let mut r = copy("[");
    r.push_str(kind.name());
    r.push_str(" req ");
    let digits = decimal_padded(id, 12);
    r.push_str(digits.as_str());
    r.push_str(" tenant t");
    let digits = decimal_padded(id % 97, 4);
    r.push_str(digits.as_str());
    r.push_str(" session s");
    let digits = decimal_padded(id.wrapping_mul(2_654_435_761) % 100_000_000, 8);
    r.push_str(digits.as_str());
    r.push_str("] ");
    r
}

/// Writes a value of a given size whose own part is a short head; nearly every
/// byte of it is shared with the others.
pub fn templated_value(kind: TextKind, id: u64, size: usize) -> (r: String)
    ensures
        r@ == value_of(kind, id, size as nat),
{
    let text = head_of(kind, id);
    let head = chars_of(text.as_str());
    let filler = chars_of(FILLER);
    let n: usize = filler.len();
    let ghost whole = value_of(kind, id, size as nat);
    let ghost period = FILLER@.len() as int;
    proof {
        lemma_filler();
    }
    let mut r = String::new();
    let mut i: usize = 0;
    let mut j: usize = 0;
    assert(r@ =~= whole.take(0));
    while i < size
        invariant
            i <= size,
            head@ == value_head(kind, id),
            filler@ == FILLER@,
            n == filler@.len(),
            period == FILLER@.len(),
            period > 0,
            whole == value_of(kind, id, size as nat),
            i < head@.len() ==> j == 0,
            i >= head@.len() ==> j == (i - head@.len()) % period,
            0 <= j < period,
            r@ == whole.take(i as int),
        decreases size - i,
    {
        let ghost before = r@;
        if i < head.len() {
            r.push(head[i]);
            assert(i + 1 == head@.len() ==> (i + 1 - head@.len()) % period == 0) by {
                vstd::arithmetic::div_mod::lemma_small_mod(0, period as nat);
            }
        } else {
            r.push(filler[j]);
            proof {
                let k = i - head@.len();
                if j + 1 == period {
                    assert((k + 1) % period == 0) by (nonlinear_arith)
                        requires
                            period > 0,
                            k % period == period - 1,
                    ;
                } else {
                    assert((k + 1) % period == k % period + 1) by (nonlinear_arith)
                        requires
                            period > 0,
                            k % period + 1 < period,
                    ;
                }
            }
            j = if j + 1 == n {
                0
            } else {
                j + 1
            };
        }
        i += 1;
        assert(whole.take(i as int) =~= whole.take(i - 1).push(whole[i - 1]));
    }
    assert(whole.take(size as int) =~= whole);
    r
}

proof fn lemma_filler()
    ensures
        FILLER@.len() > 0,
{
    reveal_strlit("\
    You are a careful assistant. Read the attached context and answer the question \
    using only what it contains. Cite the paragraph you relied on for every claim, \
    and if the context does not settle the question, say so plainly instead of \
    guessing. Context follows. ");
    assert(FILLER@ == "\
    You are a careful assistant. Read the attached context and answer the question \
    using only what it contains. Cite the paragraph you relied on for every claim, \
    and if the context does not settle the question, say so plainly instead of \
    guessing. Context follows. "@);
}

/// A value has exactly the size that was asked for.
pub proof fn law_a_value_has_its_size(kind: TextKind, id: u64, size: nat)
    ensures
        value_of(kind, id, size).len() == size,
{
}

/// Which value the span at an index has.
pub open spec fn value_id_of(index: nat, cell: Cell) -> nat {
    let distinct = distinct_of(cell);
    match cell.order {
        Order::Interleaved => index % distinct,
        Order::Blocked => {
            let product = if index * distinct > u64::MAX {
                u64::MAX as nat
            } else {
                index * distinct
            };
            product / (if cell.spans == 0 {
                1
            } else {
                cell.spans as nat
            })
        },
    }
}

/// Which value the span at an index has.
pub fn value_id(index: usize, cell: &Cell) -> (r: u64)
    requires
        cell.spans * cell.unique_pct <= usize::MAX,
    ensures
        r == value_id_of(index as nat, *cell),
{
    let distinct = cell.distinct();
    match cell.order {
        Order::Interleaved => (index % distinct) as u64,
        Order::Blocked => {
            assert(index * distinct <= u64::MAX * u64::MAX) by (nonlinear_arith)
                requires
                    index <= u64::MAX,
                    distinct <= u64::MAX,
            ;
            let product: u128 = index as u128 * distinct as u128;
            let product: u64 = if product > u64::MAX as u128 {
                u64::MAX
            } else {
                product as u64
            };
            let spans: u64 = if cell.spans == 0 {
                1
            } else {
                cell.spans as u64
            };
            product / spans
        },
    }
}

/// No more values are used than the cell says.
pub proof fn law_values_stay_below_the_distinct_count(index: nat, cell: Cell)
    requires
        index < cell.spans,
    ensures
        value_id_of(index, cell) < distinct_of(cell),
{
    let distinct = distinct_of(cell);
    let spans = cell.spans as nat;
    match cell.order {
        Order::Interleaved => {},
        Order::Blocked => {
            let product = if index * distinct > u64::MAX {
                u64::MAX as nat
            } else {
                index * distinct
            };
            assert(product / spans < distinct) by (nonlinear_arith)
                requires
                    product <= index * distinct,
                    index < spans,
                    distinct > 0,
            ;
        },
    }
}

/// In blocks, values never go back.
pub proof fn law_blocked_values_ascend(earlier: nat, later: nat, cell: Cell)
    requires
        cell.order == Order::Blocked,
        earlier <= later,
    ensures
        value_id_of(earlier, cell) <= value_id_of(later, cell),
{
    let distinct = distinct_of(cell);
    let spans = if cell.spans == 0 {
        1nat
    } else {
        cell.spans as nat
    };
    assert(earlier * distinct <= later * distinct) by (nonlinear_arith)
        requires
            earlier <= later,
    ;
    let a = if earlier * distinct > u64::MAX {
        u64::MAX as nat
    } else {
        earlier * distinct
    };
    let b = if later * distinct > u64::MAX {
        u64::MAX as nat
    } else {
        later * distinct
    };
    vstd::arithmetic::div_mod::lemma_div_is_ordered(a as int, b as int, spans as int);
}

// ------------------------------------------------------------------------- spans

/// Whether a cell's numbers fit the machine.
pub open spec fn fits(cell: Cell) -> bool {
    &&& cell.spans * cell.unique_pct <= usize::MAX
    &&& cell.enum_attrs * 24 + 3 <= usize::MAX
}

/// Whether the times of the span at an index fit in a `u64`.
pub open spec fn cell_in_time(index: int) -> bool {
    EPOCH_NS + index * 1_000_000 + 250_000_000 <= u64::MAX
}

/// The first `n` attributes with few values of the span at an index.
pub open spec fn dimensions(index: int, n: nat) -> Seq<(Seq<char>, JsonView)> {
    Seq::new(
        n,
        |k: int|
            (
                "deployment.dimension"@ + dec(k as nat),
                text_view("v"@ + dec((index % (3 + k * 24)) as nat)),
            ),
    )
}

/// The attributes of the span at an index.
pub open spec fn cell_attributes(index: int, cell: Cell) -> Seq<(Seq<char>, JsonView)> {
    let id = value_id_of(index as nat, cell) as u64;
    let prompt = (
        "gen_ai.prompt"@,
        text_view(value_of(TextKind::Prompt, id, cell.value_bytes as nat)),
    );
    let completion = (
        "gen_ai.completion"@,
        text_view(value_of(TextKind::Completion, id, cell.value_bytes as nat)),
    );
    (if cell.attrs >= 2 {
        seq![prompt, completion]
    } else {
        seq![prompt]
    }) + dimensions(index, cell.enum_attrs as nat)
}

/// The span at an index of a cell's corpus.
pub open spec fn cell_span(index: int, cell: Cell) -> JsonView {
    JsonView::Object(
        seq![
            ("trace_id"@, text_view("trace-"@ + zero_padded(dec((index / 8) as nat), 12))),
            ("span_id"@, text_view("span-"@ + zero_padded(dec(index as nat), 12))),
            ("parent_span_id"@, JsonView::Null),
            ("name"@, text_view("chat.completion"@)),
            ("start_time_ns"@, uint_view((EPOCH_NS + index * 1_000_000) as nat)),
            ("end_time_ns"@, uint_view((EPOCH_NS + index * 1_000_000 + 250_000_000) as nat)),
            ("status"@, text_view("OK"@)),
            ("service"@, text_view("agent-runtime"@)),
            ("attributes"@, JsonView::Object(cell_attributes(index, cell))),
            ("events"@, JsonView::Array(seq![])),
            ("links"@, JsonView::Array(seq![])),
        ],
    )
}

fn attributes_of(index: usize, cell: &Cell) -> (r: Json)
    requires
        fits(*cell),
    ensures
        r@ == JsonView::Object(cell_attributes(index as int, *cell)),
{
    let id = value_id(index, cell);
    let mut entries: Vec<(String, Json)> = Vec::new();
    entries.push(
        entry("gen_ai.prompt", Json::Text(templated_value(TextKind::Prompt, id, cell.value_bytes))),
    );
    if cell.attrs >= 2 {
        entries.push(
            entry(
                "gen_ai.completion",
                Json::Text(templated_value(TextKind::Completion, id, cell.value_bytes)),
            ),
        );
    }
    let ghost head = entries_view(entries@);
    assert(head + dimensions(index as int, 0) =~= head);
    let mut k: usize = 0;
    while k < cell.enum_attrs
        invariant
            k <= cell.enum_attrs,
            fits(*cell),
            entries_view(entries@) == head + dimensions(index as int, k as nat),
        decreases cell.enum_attrs - k,
    {
        let ghost before = entries_view(entries@);
        let key = labelled("deployment.dimension", k);
        let value = labelled("v", index % (3 + k * 24));
        let pair = (key, Json::Text(value));
        let ghost shown = (pair.0@, pair.1@);
        entries.push(pair);
        assert(entries_view(entries@) =~= before.push(shown));
        assert(dimensions(index as int, (k + 1) as nat) =~= dimensions(index as int, k as nat).push(
            shown,
        ));
        k += 1;
        assert(entries_view(entries@) =~= head + dimensions(index as int, k as nat));
    }
    assert(entries_view(entries@) =~= cell_attributes(index as int, *cell));
    object(entries)
}

fn empty_array() -> (r: Json)
    ensures
        r@ == JsonView::Array(seq![]),
{
    let none: Vec<Json> = Vec::new();
    assert(items_view(none@) =~= Seq::<JsonView>::empty());
    array(none)
}

/// The span at an index of a cell's corpus.
pub fn make_span(index: usize, cell: &Cell) -> (r: Json)
    requires
        fits(*cell),
        cell_in_time(index as int),
    ensures
        r@ == cell_span(index as int, *cell),
{
    let start = EPOCH_NS + index as u64 * 1_000_000;
    let trace = decimal_padded((index / 8) as u64, 12);
    let id = decimal_padded(index as u64, 12);
    let mut entries: Vec<(String, Json)> = Vec::new();
    entries.push(entry("trace_id", Json::Text(joined("trace-", trace.as_str()))));
    entries.push(entry("span_id", Json::Text(joined("span-", id.as_str()))));
    entries.push(entry("parent_span_id", Json::Null));
    entries.push(entry("name", text_json("chat.completion")));
    entries.push(entry("start_time_ns", uint_json(start)));
    entries.push(entry("end_time_ns", uint_json(start + 250_000_000)));
    entries.push(entry("status", text_json("OK")));
    entries.push(entry("service", text_json("agent-runtime")));
    entries.push(entry("attributes", attributes_of(index, cell)));
    entries.push(entry("events", empty_array()));
    entries.push(entry("links", empty_array()));
    assert(entries_view(entries@) =~= cell_span(index as int, *cell)->Object_0);
    object(entries)
}

// ------------------------------------------------------------------------ matrix

/// How many spans of a value size a text budget buys.
pub open spec fn spans_within(text_budget: nat, value_bytes: nat) -> nat {
    if text_budget / value_bytes < 1_000 {
        1_000
    } else {
        text_budget / value_bytes
    }
}

fn spans_for(text_budget: usize, value_bytes: usize) -> (r: usize)
    requires
        value_bytes > 0,
    ensures
        r == spans_within(text_budget as nat, value_bytes as nat),
{
    let n = text_budget / value_bytes;
    if n < 1_000 {
        1_000
    } else {
        n
    }
}

/// A cell of the matrix.
pub open spec fn cell_of(
    text_budget: usize,
    value_bytes: usize,
    unique_pct: u32,
    attrs: usize,
    enum_attrs: usize,
    flush_spans: usize,
    order: Order,
) -> Cell {
    Cell {
        value_bytes,
        unique_pct,
        attrs,
        enum_attrs,
        flush_spans,
        order,
        spans: spans_within(text_budget as nat, value_bytes as nat) as usize,
    }
}

fn push_cell(
    cells: &mut Vec<Cell>,
    text_budget: usize,
    value_bytes: usize,
    unique_pct: u32,
    attrs: usize,
    enum_attrs: usize,
    flush_spans: usize,
    order: Order,
)
    requires
        value_bytes > 0,
    ensures
        final(cells)@ == old(cells)@.push(
            cell_of(
                text_budget,
                value_bytes,
                unique_pct,
                attrs,
                enum_attrs,
                flush_spans,
                order,
            ),
        ),
{
    let spans = spans_for(text_budget, value_bytes);
    cells.push(
        Cell { value_bytes, unique_pct, attrs, enum_attrs, flush_spans, order, spans },
    );
}

/// A cell with one text attribute in segments of the default size.
pub open spec fn plain_cell(b: usize, value_bytes: usize, unique_pct: u32, order: Order) -> Cell {
    cell_of(b, value_bytes, unique_pct, 1, 0, 10_000, order)
}

/// Every value size at one uniqueness after another.
pub open spec fn core_arm(b: usize) -> Seq<Cell> {
    seq![
        plain_cell(b, 512, 0, Order::Interleaved),
        plain_cell(b, 512, 10, Order::Interleaved),
        plain_cell(b, 512, 50, Order::Interleaved),
        plain_cell(b, 512, 100, Order::Interleaved),
        plain_cell(b, 2_048, 0, Order::Interleaved),
        plain_cell(b, 2_048, 10, Order::Interleaved),
        plain_cell(b, 2_048, 50, Order::Interleaved),
        plain_cell(b, 2_048, 100, Order::Interleaved),
        plain_cell(b, 8_192, 0, Order::Interleaved),
        plain_cell(b, 8_192, 10, Order::Interleaved),
        plain_cell(b, 8_192, 50, Order::Interleaved),
        plain_cell(b, 8_192, 100, Order::Interleaved),
        plain_cell(b, 65_536, 0, Order::Interleaved),
        plain_cell(b, 65_536, 10, Order::Interleaved),
        plain_cell(b, 65_536, 50, Order::Interleaved),
        plain_cell(b, 65_536, 100, Order::Interleaved),
    ]
}

/// Cells with each value confined to one segment.
pub open spec fn locality_arm(b: usize) -> Seq<Cell> {
    seq![
        plain_cell(b, 2_048, 10, Order::Blocked),
        plain_cell(b, 2_048, 50, Order::Blocked),
        plain_cell(b, 8_192, 10, Order::Blocked),
        plain_cell(b, 8_192, 50, Order::Blocked),
    ]
}

/// Cells with a prompt and a completion, with other segment sizes, with
/// attributes of few values, and with large values over several segments.
pub open spec fn other_arms(b: usize) -> Seq<Cell> {
    seq![
        cell_of(b, 2_048, 100, 2, 0, 10_000, Order::Interleaved),
        cell_of(b, 8_192, 100, 2, 0, 10_000, Order::Interleaved),
        cell_of(b, 2_048, 100, 1, 0, 5_000, Order::Interleaved),
        cell_of(b, 2_048, 100, 1, 0, 30_000, Order::Interleaved),
        cell_of(b, 512, 0, 1, 3, 10_000, Order::Interleaved),
        cell_of(b, 65_536, 100, 1, 0, 1_000, Order::Interleaved),
    ]
}

/// The cells of the whole matrix at a text budget.
pub fn matrix(text_budget: usize) -> (r: Vec<Cell>)
    ensures
        r@ == core_arm(text_budget) + locality_arm(text_budget) + other_arms(text_budget),
{
    let b = text_budget;
    let mut cells: Vec<Cell> = Vec::new();
    push_cell(&mut cells, b, 512, 0, 1, 0, 10_000, Order::Interleaved);
    push_cell(&mut cells, b, 512, 10, 1, 0, 10_000, Order::Interleaved);
    push_cell(&mut cells, b, 512, 50, 1, 0, 10_000, Order::Interleaved);
    push_cell(&mut cells, b, 512, 100, 1, 0, 10_000, Order::Interleaved);
    push_cell(&mut cells, b, 2_048, 0, 1, 0, 10_000, Order::Interleaved);
    push_cell(&mut cells, b, 2_048, 10, 1, 0, 10_000, Order::Interleaved);
    push_cell(&mut cells, b, 2_048, 50, 1, 0, 10_000, Order::Interleaved);
    push_cell(&mut cells, b, 2_048, 100, 1, 0, 10_000, Order::Interleaved);
    push_cell(&mut cells, b, 8_192, 0, 1, 0, 10_000, Order::Interleaved);
    push_cell(&mut cells, b, 8_192, 10, 1, 0, 10_000, Order::Interleaved);
    push_cell(&mut cells, b, 8_192, 50, 1, 0, 10_000, Order::Interleaved);
    push_cell(&mut cells, b, 8_192, 100, 1, 0, 10_000, Order::Interleaved);
    push_cell(&mut cells, b, 65_536, 0, 1, 0, 10_000, Order::Interleaved);
    push_cell(&mut cells, b, 65_536, 10, 1, 0, 10_000, Order::Interleaved);
    push_cell(&mut cells, b, 65_536, 50, 1, 0, 10_000, Order::Interleaved);
    push_cell(&mut cells, b, 65_536, 100, 1, 0, 10_000, Order::Interleaved);
    assert(cells@ =~= core_arm(b));
    push_cell(&mut cells, b, 2_048, 10, 1, 0, 10_000, Order::Blocked);
    push_cell(&mut cells, b, 2_048, 50, 1, 0, 10_000, Order::Blocked);
    push_cell(&mut cells, b, 8_192, 10, 1, 0, 10_000, Order::Blocked);
    push_cell(&mut cells, b, 8_192, 50, 1, 0, 10_000, Order::Blocked);
    assert(cells@ =~= core_arm(b) + locality_arm(b));
    let ghost before = cells@;
    push_cell(&mut cells, b, 2_048, 100, 2, 0, 10_000, Order::Interleaved);
    push_cell(&mut cells, b, 8_192, 100, 2, 0, 10_000, Order::Interleaved);
    push_cell(&mut cells, b, 2_048, 100, 1, 0, 5_000, Order::Interleaved);
    push_cell(&mut cells, b, 2_048, 100, 1, 0, 30_000, Order::Interleaved);
    push_cell(&mut cells, b, 512, 0, 1, 3, 10_000, Order::Interleaved);
    push_cell(&mut cells, b, 65_536, 100, 1, 0, 1_000, Order::Interleaved);
    assert(cells@ =~= before + other_arms(b));
    cells
}

// ---------------------------------------------------------------------- settings

/// How a cell's store is opened: without a log, which would put text back in
/// memory.
pub fn store_config(flush_spans: usize, payload_threshold: usize) -> (r: Config)
    ensures
        r == (Config {
            flush_spans,
            durability: Durability::Buffered,
            payload_threshold: if payload_threshold > 0 {
                Some(payload_threshold)
            } else {
                None
            },
            compaction: Some(default_compaction()),
            ..default_config()
        }),
{
    let mut config = Config::default();
    config.flush_spans = flush_spans;
    config.durability = Durability::Buffered;
    config.payload_threshold = if payload_threshold > 0 {
        Some(payload_threshold)
    } else {
        None
    };
    config.compaction = Some(CompactionConfig::default());
    config
}

/// Why a cell would measure nothing: its values would leave the index.
pub open spec fn offload_of(allowed: bool, threshold: usize, value_bytes: usize) -> Option<
    Seq<char>,
> {
    if allowed || threshold == 0 || value_bytes < threshold {
        None
    } else {
        Some(
            "value_bytes "@ + dec(value_bytes as nat) + " is not below the offload threshold "@
                + dec(threshold as nat)
                + ": such values are moved to the payload store and never indexed"@,
        )
    }
}

/// Says why a cell would measure nothing, if it would.
pub fn offload_defect(allowed: bool, threshold: usize, value_bytes: usize) -> (r: Option<String>)
    ensures
        opt_view(r) == offload_of(allowed, threshold, value_bytes),
{
    if allowed || threshold == 0 || value_bytes < threshold {
        return None;
    }
    let mut message = copy("value_bytes ");
    push_number(&mut message, value_bytes);
    message.push_str(" is not below the offload threshold ");
    push_number(&mut message, threshold);
    message.push_str(": such values are moved to the payload store and never indexed");
    Some(message)
}

/// Says why a finished cell is void, if it is: values left the index after
/// all.
pub fn void_defect(allowed: bool, cell: &Cell, offloaded: usize) -> (r: Option<String>)
    ensures
        opt_view(r) == if allowed || offloaded == 0 {
            None
        } else {
            Some(
                "cell "@ + label_of(*cell) + " offloaded "@ + dec(offloaded as nat)
                    + " payload files: its values left the attribute index and the measurement is void"@,
            )
        },
{
    if allowed || offloaded == 0 {
        return None;
    }
    let mut message = copy("cell ");
    let label = cell.label();
    message.push_str(label.as_str());
    message.push_str(" offloaded ");
    push_number(&mut message, offloaded);
    message.push_str(
        " payload files: its values left the attribute index and the measurement is void",
    );
    Some(message)
}

/// What a run was asked for.
#[derive(Debug)]
pub struct MemoryOptions {
    pub probe: Option<String>,
    pub compact: bool,
    pub matrix: bool,
    pub value_bytes: usize,
    pub unique_pct: u32,
    pub attrs: usize,
    pub enum_attrs: usize,
    pub keep: bool,
    pub allow_offload: bool,
    pub flush_spans: usize,
    pub spans: Option<usize>,
    pub order: Order,
    pub threshold: usize,
    pub text_budget: usize,
    pub root: Option<String>,
}

/// The view of what a run was asked for.
pub struct MemoryView {
    pub probe: Option<Seq<char>>,
    pub compact: bool,
    pub matrix: bool,
    pub value_bytes: usize,
    pub unique_pct: u32,
    pub attrs: usize,
    pub enum_attrs: usize,
    pub keep: bool,
    pub allow_offload: bool,
    pub flush_spans: usize,
    pub spans: Option<usize>,
    pub order: Order,
    pub threshold: usize,
    pub text_budget: usize,
    pub root: Option<Seq<char>>,
}

impl View for MemoryOptions {
    type V = MemoryView;

    open spec fn view(&self) -> MemoryView {
        MemoryView {
            probe: opt_view(self.probe),
            compact: self.compact,
            matrix: self.matrix,
            value_bytes: self.value_bytes,
            unique_pct: self.unique_pct,
            attrs: self.attrs,
            enum_attrs: self.enum_attrs,
            keep: self.keep,
            allow_offload: self.allow_offload,
            flush_spans: self.flush_spans,
            spans: self.spans,
            order: self.order,
            threshold: self.threshold,
            text_budget: self.text_budget,
            root: opt_view(self.root),
        }
    }
}

pub open spec fn default_memory() -> MemoryView {
    MemoryView {
        probe: None,
        compact: false,
        matrix: false,
        value_bytes: 2_048,
        unique_pct: 100,
        attrs: 1,
        enum_attrs: 0,
        keep: false,
        allow_offload: false,
        flush_spans: 10_000,
        spans: None,
        order: Order::Interleaved,
        threshold: 262_144,
        text_budget: 268_435_456,
        root: None,
    }
}

/// The options after a switch.
pub open spec fn after_switch(o: MemoryView, flag: Seq<char>) -> Option<MemoryView> {
    if flag == "--compact"@ {
        Some(MemoryView { compact: true, ..o })
    } else if flag == "--matrix"@ {
        Some(MemoryView { matrix: true, ..o })
    } else if flag == "--keep"@ {
        Some(MemoryView { keep: true, ..o })
    } else if flag == "--allow-offload"@ {
        Some(MemoryView { allow_offload: true, ..o })
    } else if flag == "--blocked"@ {
        Some(MemoryView { order: Order::Blocked, ..o })
    } else {
        None
    }
}

/// The number that a flag takes, at most so large.
pub open spec fn largest(flag: Seq<char>) -> nat {
    if flag == "--unique-pct"@ {
        u32::MAX as nat
    } else if flag == "--text-budget-mib"@ {
        (usize::MAX / 1_048_576) as nat
    } else {
        usize::MAX as nat
    }
}

pub open spec fn takes_number(flag: Seq<char>) -> bool {
    flag == "--value-bytes"@ || flag == "--unique-pct"@ || flag == "--attrs"@ || flag
        == "--enum-attrs"@ || flag == "--flush-spans"@ || flag == "--spans"@ || flag
        == "--payload-threshold"@ || flag == "--text-budget-mib"@
}

/// The options after a flag with a number.
pub open spec fn after_number(o: MemoryView, flag: Seq<char>, n: nat) -> MemoryView {
    if flag == "--value-bytes"@ {
        MemoryView { value_bytes: n as usize, ..o }
    } else if flag == "--unique-pct"@ {
        MemoryView { unique_pct: n as u32, ..o }
    } else if flag == "--attrs"@ {
        MemoryView { attrs: n as usize, ..o }
    } else if flag == "--enum-attrs"@ {
        MemoryView { enum_attrs: n as usize, ..o }
    } else if flag == "--flush-spans"@ {
        MemoryView { flush_spans: n as usize, ..o }
    } else if flag == "--spans"@ {
        MemoryView { spans: Some(n as usize), ..o }
    } else if flag == "--payload-threshold"@ {
        MemoryView { threshold: n as usize, ..o }
    } else {
        MemoryView { text_budget: (n * 1_048_576) as usize, ..o }
    }
}

/// How arguments end.
#[derive(Debug)]
pub enum MemoryCommand {
    Help,
    Run(MemoryOptions),
}

/// The view of how arguments end.
pub enum MemoryCommandView {
    Help,
    Run(MemoryView),
}

impl View for MemoryCommand {
    type V = MemoryCommandView;

    open spec fn view(&self) -> MemoryCommandView {
        match self {
            MemoryCommand::Help => MemoryCommandView::Help,
            MemoryCommand::Run(options) => MemoryCommandView::Run(options@),
        }
    }
}

/// Reads the arguments from `i` on.
pub open spec fn scan(args: Seq<Seq<char>>, i: int, o: MemoryView) -> Result<
    MemoryCommandView,
    Seq<char>,
>
    decreases args.len() - i,
{
    if i < 0 || i >= args.len() {
        Ok(MemoryCommandView::Run(o))
    } else if let Some(next) = after_switch(o, args[i]) {
        scan(args, i + 1, next)
    } else if args[i] == "--help"@ || args[i] == "-h"@ {
        Ok(MemoryCommandView::Help)
    } else if takes_number(args[i]) {
        if i + 1 >= args.len() {
            Err(args[i] + " needs a value"@)
        } else {
            match number_to(args[i + 1], largest(args[i])) {
                Some(n) => scan(args, i + 2, after_number(o, args[i], n)),
                None => Err(args[i] + " needs an integer"@),
            }
        }
    } else if args[i] == "--probe"@ {
        if i + 1 >= args.len() {
            Err("--probe needs a value"@)
        } else {
            scan(args, i + 2, MemoryView { probe: Some(args[i + 1]), ..o })
        }
    } else if args[i] == "--root"@ {
        if i + 1 >= args.len() {
            Err("--root needs a value"@)
        } else {
            scan(args, i + 2, MemoryView { root: Some(args[i + 1]), ..o })
        }
    } else {
        Err("unknown argument: "@ + args[i])
    }
}

fn set_switch(o: &mut MemoryOptions, flag: &str) -> (r: bool)
    ensures
        match after_switch(old(o)@, flag@) {
            Some(next) => r && final(o)@ == next,
            None => !r && final(o)@ == old(o)@,
        },
{
    if same(flag, "--compact") {
        o.compact = true;
    } else if same(flag, "--matrix") {
        o.matrix = true;
    } else if same(flag, "--keep") {
        o.keep = true;
    } else if same(flag, "--allow-offload") {
        o.allow_offload = true;
    } else if same(flag, "--blocked") {
        o.order = Order::Blocked;
    } else {
        return false;
    }
    true
}

fn number_flag(flag: &str) -> (r: bool)
    ensures
        r == takes_number(flag@),
{
    same(flag, "--value-bytes") || same(flag, "--unique-pct") || same(flag, "--attrs") || same(
        flag,
        "--enum-attrs",
    ) || same(flag, "--flush-spans") || same(flag, "--spans") || same(flag, "--payload-threshold")
        || same(flag, "--text-budget-mib")
}

fn set_number(o: &mut MemoryOptions, flag: &str, value: &str) -> (r: bool)
    requires
        takes_number(flag@),
    ensures
        match number_to(value@, largest(flag@)) {
            Some(n) => r && final(o)@ == after_number(old(o)@, flag@, n),
            None => !r && final(o)@ == old(o)@,
        },
{
    let most: u64 = if same(flag, "--unique-pct") {
        u32::MAX as u64
    } else if same(flag, "--text-budget-mib") {
        (usize::MAX / 1_048_576) as u64
    } else {
        usize::MAX as u64
    };
    let n: u64 = match parse_number(value, most) {
        Some(n) => n,
        None => {
            return false;
        },
    };
    if same(flag, "--value-bytes") {
        o.value_bytes = n as usize;
    } else if same(flag, "--unique-pct") {
        o.unique_pct = n as u32;
    } else if same(flag, "--attrs") {
        o.attrs = n as usize;
    } else if same(flag, "--enum-attrs") {
        o.enum_attrs = n as usize;
    } else if same(flag, "--flush-spans") {
        o.flush_spans = n as usize;
    } else if same(flag, "--spans") {
        o.spans = Some(n as usize);
    } else if same(flag, "--payload-threshold") {
        o.threshold = n as usize;
    } else {
        o.text_budget = n as usize * 1_048_576;
    }
    true
}

/// Reads the arguments of the benchmark.
pub fn parse(args: &[String]) -> (r: Result<MemoryCommand, String>)
    ensures
        match r {
            Ok(command) => scan(texts(args@), 0, default_memory()) == Ok::<
                MemoryCommandView,
                Seq<char>,
            >(command@),
            Err(message) => scan(texts(args@), 0, default_memory()) == Err::<
                MemoryCommandView,
                Seq<char>,
            >(message@),
        },
{
    let mut options = MemoryOptions {
        probe: None,
        compact: false,
        matrix: false,
        value_bytes: 2_048,
        unique_pct: 100,
        attrs: 1,
        enum_attrs: 0,
        keep: false,
        allow_offload: false,
        flush_spans: 10_000,
        spans: None,
        order: Order::Interleaved,
        threshold: 262_144,
        text_budget: 268_435_456,
        root: None,
    };
    let ghost all = texts(args@);
    assert(options@ == default_memory());
    let n: usize = args.len();
    let mut i: usize = 0;
    while i < n
        invariant
            n == args@.len(),
            i <= n,
            all == texts(args@),
            scan(all, i as int, options@) == scan(all, 0, default_memory()),
        decreases n - i,
    {
        assert(all[i as int] == args@[i as int]@);
        let flag = args[i].as_str();
        if set_switch(&mut options, flag) {
            i += 1;
        } else if same(flag, "--help") || same(flag, "-h") {
            return Ok(MemoryCommand::Help);
        } else if number_flag(flag) {
            if i + 1 >= n {
                return Err(joined(flag, " needs a value"));
            }
            assert(all[i + 1] == args@[i + 1]@);
            if !set_number(&mut options, flag, args[i + 1].as_str()) {
                return Err(joined(flag, " needs an integer"));
            }
            i += 2;
        } else if same(flag, "--probe") {
            if i + 1 >= n {
                return Err(copy("--probe needs a value"));
            }
            assert(all[i + 1] == args@[i + 1]@);
            options.probe = Some(copy(args[i + 1].as_str()));
            i += 2;
        } else if same(flag, "--root") {
            if i + 1 >= n {
                return Err(copy("--root needs a value"));
            }
            assert(all[i + 1] == args@[i + 1]@);
            options.root = Some(copy(args[i + 1].as_str()));
            i += 2;
        } else {
            return Err(joined("unknown argument: ", flag));
        }
    }
    Ok(MemoryCommand::Run(options))
}

/// The cells that a run measures: the matrix, or the one it was asked for.
pub fn cells(options: &MemoryOptions) -> (r: Vec<Cell>)
    requires
        options.matrix || options.spans.is_some() || options.value_bytes > 0,
    ensures
        r@ == if options@.matrix {
            core_arm(options@.text_budget) + locality_arm(options@.text_budget) + other_arms(
                options@.text_budget,
            )
        } else {
            seq![
                Cell {
                    value_bytes: options@.value_bytes,
                    unique_pct: options@.unique_pct,
                    attrs: options@.attrs,
                    enum_attrs: options@.enum_attrs,
                    flush_spans: options@.flush_spans,
                    order: options@.order,
                    spans: match options@.spans {
                        Some(n) => n,
                        None => spans_within(
                            options@.text_budget as nat,
                            options@.value_bytes as nat,
                        ) as usize,
                    },
                },
            ]
        },
{
    if options.matrix {
        return matrix(options.text_budget);
    }
    let spans = match options.spans {
        Some(n) => n,
        None => spans_for(options.text_budget, options.value_bytes),
    };
    let mut r: Vec<Cell> = Vec::new();
    r.push(
        Cell {
            value_bytes: options.value_bytes,
            unique_pct: options.unique_pct,
            attrs: options.attrs,
            enum_attrs: options.enum_attrs,
            flush_spans: options.flush_spans,
            order: options.order,
            spans,
        },
    );
    r
}

// ------------------------------------------------------------------- measurements

/// The bytes in a resident set that the host prints in kibibytes, where they
/// can be read and fit.
pub fn resident_bytes(printed: &str) -> (r: Option<u64>)
    ensures
        r == match number_to(trimmed(printed@), (u64::MAX / 1_024) as nat) {
            Some(kib) => Some((kib * 1_024) as u64),
            None => None,
        },
{
    let text = trim(printed);
    match parse_number(text.as_str(), u64::MAX / 1_024) {
        Some(kib) => Some(kib * 1_024),
        None => None,
    }
}

/// A text without colons, the letter s and spaces in front.
pub open spec fn without_lead(s: Seq<char>) -> Seq<char>
    decreases s.len(),
{
    if s.len() > 0 && (s[0] == ':' || s[0] == 's' || s[0] == ' ') {
        without_lead(s.skip(1))
    } else {
        s
    }
}

/// The load averages in what the host prints of its uptime, whichever way it
/// spells them.
pub fn load_average(printed: &str) -> (r: String)
    ensures
        r@ == match behind(printed@, "load average"@) {
            Some(tail) => trimmed(without_lead(tail)),
            None => "unknown"@,
        },
{
    proof {
        reveal_strlit("load average");
    }
    let pieces = cut_text(printed, "load average");
    assert(texts(pieces@).len() == pieces@.len());
    if pieces.len() < 2 {
        return copy("unknown");
    }
    assert(texts(pieces@)[1] == pieces@[1]@);
    let tail = chars_of(pieces[1].as_str());
    let ghost all = tail@;
    let mut i: usize = 0;
    assert(all.skip(0) =~= all);
    while i < tail.len() && (tail[i] == ':' || tail[i] == 's' || tail[i] == ' ')
        invariant
            i <= tail@.len(),
            all == tail@,
            without_lead(all.skip(i as int)) == without_lead(all),
        decreases tail@.len() - i,
    {
        assert(all.skip(i as int).skip(1) =~= all.skip(i + 1));
        i += 1;
    }
    let rest = text_of(&tail, i, tail.len());
    assert(rest@ =~= all.skip(i as int));
    trim(rest.as_str())
}

/// What one attribute key costs in one segment.
#[derive(Debug)]
pub struct KeyCost {
    pub key: String,
    pub values: u64,
    pub bytes: u64,
}

/// What one attribute key costs in all segments.
#[derive(Debug)]
pub struct KeyTotal {
    pub key: String,
    pub values: u128,
    pub bytes: u128,
}

/// The values that the first `n` costs count for a key.
pub open spec fn values_for(costs: Seq<KeyCost>, key: Seq<char>, n: int) -> nat
    decreases n,
{
    if n <= 0 {
        0
    } else {
        values_for(costs, key, n - 1) + (if costs[n - 1].key@ == key {
            costs[n - 1].values as nat
        } else {
            0
        })
    }
}

/// The bytes that the first `n` costs count for a key.
pub open spec fn bytes_for(costs: Seq<KeyCost>, key: Seq<char>, n: int) -> nat
    decreases n,
{
    if n <= 0 {
        0
    } else {
        bytes_for(costs, key, n - 1) + (if costs[n - 1].key@ == key {
            costs[n - 1].bytes as nat
        } else {
            0
        })
    }
}

pub open spec fn cost_keys(costs: Seq<KeyCost>) -> Seq<Seq<char>> {
    Seq::new(costs.len(), |i: int| costs[i].key@)
}

pub open spec fn total_keys(totals: Seq<KeyTotal>) -> Seq<Seq<char>> {
    Seq::new(totals.len(), |i: int| totals[i].key@)
}

fn total_for(costs: &Vec<KeyCost>, key: String) -> (r: KeyTotal)
    ensures
        r.key@ == key@,
        r.values == values_for(costs@, key@, costs@.len() as int),
        r.bytes == bytes_for(costs@, key@, costs@.len() as int),
{
    let mut values: u128 = 0;
    let mut bytes: u128 = 0;
    let mut i: usize = 0;
    while i < costs.len()
        invariant
            i <= costs@.len(),
            values == values_for(costs@, key@, i as int),
            bytes == bytes_for(costs@, key@, i as int),
            values <= i * u64::MAX,
            bytes <= i * u64::MAX,
        decreases costs@.len() - i,
    {
        if same(costs[i].key.as_str(), key.as_str()) {
            values = values + costs[i].values as u128;
            bytes = bytes + costs[i].bytes as u128;
        }
        i += 1;
    }
    KeyTotal { key, values, bytes }
}

/// What each attribute key costs over all segments, in the order of the keys.
pub fn cost_by_key(costs: &Vec<KeyCost>) -> (r: Vec<KeyTotal>)
    ensures
        ascending(total_keys(r@)),
        forall|key: Seq<char>| #[trigger]
            total_keys(r@).contains(key) == cost_keys(costs@).contains(key),
        forall|i: int|
            0 <= i < r@.len() ==> {
                &&& (#[trigger] r@[i]).values == values_for(
                    costs@,
                    r@[i].key@,
                    costs@.len() as int,
                )
                &&& r@[i].bytes == bytes_for(costs@, r@[i].key@, costs@.len() as int)
            },
{
    let mut keys: Vec<String> = Vec::new();
    let mut i: usize = 0;
    while i < costs.len()
        invariant
            i <= costs@.len(),
            keys@.len() == i,
            forall|k: int| 0 <= k < i ==> (#[trigger] keys@[k])@ == costs@[k].key@,
        decreases costs@.len() - i,
    {
        keys.push(copy(costs[i].key.as_str()));
        i += 1;
    }
    assert(texts(keys@) =~= cost_keys(costs@));
    let keys = sort_unique(keys);
    let mut r: Vec<KeyTotal> = Vec::new();
    let mut k: usize = 0;
    while k < keys.len()
        invariant
            k <= keys@.len(),
            r@.len() == k,
            forall|j: int|
                0 <= j < k ==> {
                    &&& (#[trigger] r@[j]).key@ == keys@[j]@
                    &&& r@[j].values == values_for(costs@, r@[j].key@, costs@.len() as int)
                    &&& r@[j].bytes == bytes_for(costs@, r@[j].key@, costs@.len() as int)
                },
        decreases keys@.len() - k,
    {
        r.push(total_for(costs, copy(keys[k].as_str())));
        k += 1;
    }
    assert(total_keys(r@) =~= texts(keys@));
    r
}

// ------------------------------------------------------------------------- report

/// A row of the report, written out.
#[derive(Debug)]
pub struct MemoryRow {
    pub label: String,
    pub spans: String,
    pub distinct: String,
    pub text: String,
    pub disk: String,
    pub disk_index: String,
    pub index: String,
    pub reopened: String,
    pub compacted: String,
    pub per_gb: String,
}

/// How the report begins.
pub const REPORT_HEAD: &'static str = "\n| cell | spans | distinct | text MiB | disk MiB | \
    idx MiB (disk) | approx idx MiB | RSS MiB (reopen) | RSS MiB (compacted) | \
    resident/GB text |\n|---|---:|---:|---:|---:|---:|---:|---:|---:|---:|\n";

/// A row of the report.
pub open spec fn row_of(m: MemoryRow) -> Seq<char> {
    "| "@ + m.label@ + " | "@ + m.spans@ + " | "@ + m.distinct@ + " | "@ + m.text@ + " | "@
        + m.disk@ + " | "@ + m.disk_index@ + " | "@ + m.index@ + " | "@ + m.reopened@ + " | "@
        + m.compacted@ + " | "@ + m.per_gb@ + " MiB |\n"@
}

/// The report of some rows.
pub open spec fn report_of(rows: Seq<MemoryRow>) -> Seq<char>
    decreases rows.len(),
{
    if rows.len() == 0 {
        REPORT_HEAD@
    } else {
        report_of(rows.drop_last()) + row_of(rows.last())
    }
}

fn row(m: &MemoryRow) -> (r: String)
    ensures
        r@ == row_of(*m),
{
    let mut r = copy("| ");
    r.push_str(m.label.as_str());
    r.push_str(" | ");
    r.push_str(m.spans.as_str());
    r.push_str(" | ");
    r.push_str(m.distinct.as_str());
    r.push_str(" | ");
    r.push_str(m.text.as_str());
    r.push_str(" | ");
    r.push_str(m.disk.as_str());
    r.push_str(" | ");
    r.push_str(m.disk_index.as_str());
    r.push_str(" | ");
    r.push_str(m.index.as_str());
    r.push_str(" | ");
    r.push_str(m.reopened.as_str());
    r.push_str(" | ");
    r.push_str(m.compacted.as_str());
    r.push_str(" | ");
    r.push_str(m.per_gb.as_str());
    r.push_str(" MiB |\n");
    r
}

/// Writes the report.
pub fn report(rows: &Vec<MemoryRow>) -> (r: String)
    ensures
        r@ == report_of(rows@),
{
    let mut r = copy(REPORT_HEAD);
    let mut i: usize = 0;
    assert(rows@.take(0) =~= Seq::<MemoryRow>::empty());
    while i < rows.len()
        invariant
            i <= rows@.len(),
            r@ == report_of(rows@.take(i as int)),
        decreases rows@.len() - i,
    {
        assert(rows@.take(i + 1).drop_last() =~= rows@.take(i as int));
        let next = row(&rows[i]);
        r.push_str(next.as_str());
        i += 1;
    }
    assert(rows@.take(rows@.len() as int) =~= rows@);
    r
}

proof fn lemma_memory_flags()
    ensures
        "--compact"@.len() == 9 && "--compact"@[2] == 'c',
        "--matrix"@.len() == 8,
        "--keep"@.len() == 6 && "--keep"@[2] == 'k',
        "--allow-offload"@.len() == 15,
        "--blocked"@.len() == 9 && "--blocked"@[2] == 'b',
        "--help"@.len() == 6 && "--help"@[2] == 'h',
        "-h"@.len() == 2,
        "--value-bytes"@.len() == 13 && "--value-bytes"@[2] == 'v',
        "--unique-pct"@.len() == 12 && "--unique-pct"@[2] == 'u',
        "--attrs"@.len() == 7 && "--attrs"@[2] == 'a',
        "--enum-attrs"@.len() == 12 && "--enum-attrs"@[2] == 'e',
        "--flush-spans"@.len() == 13 && "--flush-spans"@[2] == 'f',
        "--spans"@.len() == 7 && "--spans"@[2] == 's',
        "--payload-threshold"@.len() == 19,
        "--text-budget-mib"@.len() == 17,
        "--probe"@.len() == 7 && "--probe"@[2] == 'p',
        "--root"@.len() == 6 && "--root"@[2] == 'r',
{
    reveal_strlit("--compact");
    reveal_strlit("--matrix");
    reveal_strlit("--keep");
    reveal_strlit("--allow-offload");
    reveal_strlit("--blocked");
    reveal_strlit("--help");
    reveal_strlit("-h");
    reveal_strlit("--value-bytes");
    reveal_strlit("--unique-pct");
    reveal_strlit("--attrs");
    reveal_strlit("--enum-attrs");
    reveal_strlit("--flush-spans");
    reveal_strlit("--spans");
    reveal_strlit("--payload-threshold");
    reveal_strlit("--text-budget-mib");
    reveal_strlit("--probe");
    reveal_strlit("--root");
}

proof fn lemma_cell_names()
    ensures
        "trace_id"@.len() == 8,
        "span_id"@.len() == 7 && "span_id"@[1] == 'p',
        "parent_span_id"@.len() == 14,
        "name"@.len() == 4,
        "start_time_ns"@.len() == 13 && "start_time_ns"@[0] == 's',
        "end_time_ns"@.len() == 11,
        "status"@.len() == 6 && "status"@[0] == 's',
        "service"@.len() == 7 && "service"@[1] == 'e',
        "attributes"@.len() == 10,
        "events"@.len() == 6 && "events"@[0] == 'e',
        "links"@.len() == 5,
        "gen_ai.prompt"@.len() == 13 && "gen_ai.prompt"@[0] == 'g',
        "gen_ai.completion"@.len() == 17,
{
    reveal_strlit("trace_id");
    reveal_strlit("span_id");
    reveal_strlit("parent_span_id");
    reveal_strlit("name");
    reveal_strlit("start_time_ns");
    reveal_strlit("end_time_ns");
    reveal_strlit("status");
    reveal_strlit("service");
    reveal_strlit("attributes");
    reveal_strlit("events");
    reveal_strlit("links");
    reveal_strlit("gen_ai.prompt");
    reveal_strlit("gen_ai.completion");
}

/// Each switch sets what it names and nothing else, and stands alone.
pub proof fn law_memory_switches(args: Seq<Seq<char>>, i: int, o: MemoryView)
    requires
        0 <= i < args.len(),
    ensures
        args[i] == "--compact"@ ==> scan(args, i, o) == scan(args, i + 1, MemoryView { compact: true, ..o }),
        args[i] == "--matrix"@ ==> scan(args, i, o) == scan(args, i + 1, MemoryView { matrix: true, ..o }),
        args[i] == "--keep"@ ==> scan(args, i, o) == scan(args, i + 1, MemoryView { keep: true, ..o }),
        args[i] == "--allow-offload"@ ==> scan(args, i, o) == scan(args, i + 1, MemoryView { allow_offload: true, ..o }),
        args[i] == "--blocked"@ ==> scan(args, i, o) == scan(args, i + 1, MemoryView { order: Order::Blocked, ..o }),
        args[i] == "--help"@ || args[i] == "-h"@ ==> scan(args, i, o) == Ok::<
            MemoryCommandView,
            Seq<char>,
        >(MemoryCommandView::Help),
{
    lemma_memory_flags();
}

/// Each flag sets what it names to the value behind it and nothing else; a number
/// too large for its place is none.
pub proof fn law_memory_flags(args: Seq<Seq<char>>, i: int, o: MemoryView, n: nat)
    requires
        0 <= i,
        i + 1 < args.len(),
    ensures
        args[i] == "--probe"@ ==> scan(args, i, o) == scan(
            args,
            i + 2,
            MemoryView { probe: Some(args[i + 1]), ..o },
        ),
        args[i] == "--root"@ ==> scan(args, i, o) == scan(
            args,
            i + 2,
            MemoryView { root: Some(args[i + 1]), ..o },
        ),
        args[i] == "--value-bytes"@ && number_to(args[i + 1], (usize::MAX) as nat) == Some(n) ==> scan(
            args,
            i,
            o,
        ) == scan(args, i + 2, MemoryView { value_bytes: n as usize, ..o }),
        args[i] == "--value-bytes"@ && number_to(args[i + 1], (usize::MAX) as nat).is_none() ==> scan(args, i, o) == Err::<
            MemoryCommandView,
            Seq<char>,
        >(args[i] + " needs an integer"@),
        args[i] == "--unique-pct"@ && number_to(args[i + 1], (u32::MAX) as nat) == Some(n) ==> scan(
            args,
            i,
            o,
        ) == scan(args, i + 2, MemoryView { unique_pct: n as u32, ..o }),
        args[i] == "--unique-pct"@ && number_to(args[i + 1], (u32::MAX) as nat).is_none() ==> scan(args, i, o) == Err::<
            MemoryCommandView,
            Seq<char>,
        >(args[i] + " needs an integer"@),
        args[i] == "--attrs"@ && number_to(args[i + 1], (usize::MAX) as nat) == Some(n) ==> scan(
            args,
            i,
            o,
        ) == scan(args, i + 2, MemoryView { attrs: n as usize, ..o }),
        args[i] == "--attrs"@ && number_to(args[i + 1], (usize::MAX) as nat).is_none() ==> scan(args, i, o) == Err::<
            MemoryCommandView,
            Seq<char>,
        >(args[i] + " needs an integer"@),
        args[i] == "--enum-attrs"@ && number_to(args[i + 1], (usize::MAX) as nat) == Some(n) ==> scan(
            args,
            i,
            o,
        ) == scan(args, i + 2, MemoryView { enum_attrs: n as usize, ..o }),
        args[i] == "--enum-attrs"@ && number_to(args[i + 1], (usize::MAX) as nat).is_none() ==> scan(args, i, o) == Err::<
            MemoryCommandView,
            Seq<char>,
        >(args[i] + " needs an integer"@),
        args[i] == "--flush-spans"@ && number_to(args[i + 1], (usize::MAX) as nat) == Some(n) ==> scan(
            args,
            i,
            o,
        ) == scan(args, i + 2, MemoryView { flush_spans: n as usize, ..o }),
        args[i] == "--flush-spans"@ && number_to(args[i + 1], (usize::MAX) as nat).is_none() ==> scan(args, i, o) == Err::<
            MemoryCommandView,
            Seq<char>,
        >(args[i] + " needs an integer"@),
        args[i] == "--spans"@ && number_to(args[i + 1], (usize::MAX) as nat) == Some(n) ==> scan(
            args,
            i,
            o,
        ) == scan(args, i + 2, MemoryView { spans: Some(n as usize), ..o }),
        args[i] == "--spans"@ && number_to(args[i + 1], (usize::MAX) as nat).is_none() ==> scan(args, i, o) == Err::<
            MemoryCommandView,
            Seq<char>,
        >(args[i] + " needs an integer"@),
        args[i] == "--payload-threshold"@ && number_to(args[i + 1], (usize::MAX) as nat) == Some(n) ==> scan(
            args,
            i,
            o,
        ) == scan(args, i + 2, MemoryView { threshold: n as usize, ..o }),
        args[i] == "--payload-threshold"@ && number_to(args[i + 1], (usize::MAX) as nat).is_none() ==> scan(args, i, o) == Err::<
            MemoryCommandView,
            Seq<char>,
        >(args[i] + " needs an integer"@),
        args[i] == "--text-budget-mib"@ && number_to(args[i + 1], (usize::MAX / 1_048_576) as nat) == Some(n) ==> scan(
            args,
            i,
            o,
        ) == scan(args, i + 2, MemoryView { text_budget: (n * 1_048_576) as usize, ..o }),
        args[i] == "--text-budget-mib"@ && number_to(args[i + 1], (usize::MAX / 1_048_576) as nat).is_none() ==> scan(args, i, o) == Err::<
            MemoryCommandView,
            Seq<char>,
        >(args[i] + " needs an integer"@),
{
    lemma_memory_flags();
}

/// What is refused: a flag without its value, and a word that is no flag.
pub proof fn law_what_the_memory_bench_refuses(args: Seq<Seq<char>>, i: int, o: MemoryView)
    requires
        0 <= i < args.len(),
    ensures
        ({
            let flag = args[i];
            let for_number = flag == "--value-bytes"@ || flag == "--unique-pct"@ || flag == "--attrs"@ || flag == "--enum-attrs"@ || flag == "--flush-spans"@ || flag == "--spans"@ || flag == "--payload-threshold"@ || flag == "--text-budget-mib"@;
            let for_text = flag == "--probe"@ || flag == "--root"@;
            let alone = flag == "--compact"@ || flag == "--matrix"@ || flag == "--keep"@ || flag == "--allow-offload"@ || flag == "--blocked"@ || flag == "--help"@ || flag == "-h"@;
            &&& (for_number || for_text) && i + 1 == args.len() ==> scan(args, i, o) == Err::<
                MemoryCommandView,
                Seq<char>,
            >(flag + " needs a value"@)
            &&& !for_number && !for_text && !alone ==> scan(args, i, o) == Err::<
                MemoryCommandView,
                Seq<char>,
            >("unknown argument: "@ + flag)
        }),
{
    lemma_memory_flags();
    reveal_strlit("--probe");
    reveal_strlit("--root");
    reveal_strlit(" needs a value");
    reveal_strlit("--probe needs a value");
    reveal_strlit("--root needs a value");
    assert("--probe"@ + " needs a value"@ =~= "--probe needs a value"@);
    assert("--root"@ + " needs a value"@ =~= "--root needs a value"@);
}

/// Without flags: one attribute of 2 KiB on each span, all of them distinct and in
/// turn, ten thousand spans to a flush, 256 MiB of text, payloads held apart from
/// 256 KiB on.
pub proof fn law_memory_defaults()
    ensures
        scan(seq![], 0, default_memory()) == Ok::<MemoryCommandView, Seq<char>>(
            MemoryCommandView::Run(default_memory()),
        ),
        default_memory().value_bytes == 2048 && default_memory().unique_pct == 100,
        default_memory().attrs == 1 && default_memory().enum_attrs == 0,
        default_memory().flush_spans == 10_000 && default_memory().spans.is_none(),
        default_memory().threshold == 256 * 1024 && default_memory().text_budget == 256 * 1024
            * 1024,
        default_memory().order is Interleaved,
        !default_memory().compact && !default_memory().matrix && !default_memory().keep
            && !default_memory().allow_offload,
        default_memory().probe.is_none() && default_memory().root.is_none(),
{
}

/// How many values differ: the share of the spans, rounded down, and one at least.
pub proof fn law_distinct_values(cell: Cell)
    ensures
        distinct_of(cell) >= 1,
        distinct_of(cell) > 1 ==> 100 * distinct_of(cell) <= cell.spans * cell.unique_pct,
        cell.spans * cell.unique_pct < 100 * (distinct_of(cell) + 1),
        cell.unique_pct == 100 && cell.spans > 0 ==> distinct_of(cell) == cell.spans,
{
}

/// A value begins with its head, as far as there is room, and goes on in the
/// filler, over and over; the head tells its kind and its number.
pub proof fn law_what_a_value_reads(kind: TextKind, id: u64, size: nat, i: int)
    requires
        0 <= i < size,
    ensures
        i < value_head(kind, id).len() ==> value_of(kind, id, size)[i] == value_head(kind, id)[i],
        value_head(kind, id).len() <= i ==> value_of(kind, id, size)[i] == FILLER@[(i - value_head(
            kind,
            id,
        ).len()) % FILLER@.len() as int],
        kind_name(TextKind::Prompt) == "prompt"@ && kind_name(TextKind::Completion)
            == "completion"@,
{
}

/// Which value a span has: interleaved they take turns, and blocked each has its
/// stretch of the corpus.
pub proof fn law_which_value_a_span_has(index: nat, cell: Cell)
    requires
        index < cell.spans,
        index * distinct_of(cell) <= u64::MAX,
    ensures
        cell.order is Interleaved ==> value_id_of(index, cell) == index % distinct_of(cell),
        cell.order is Blocked ==> value_id_of(index, cell) * cell.spans <= index * distinct_of(cell)
            < (value_id_of(index, cell) + 1) * cell.spans,
{
    if cell.order is Blocked {
        let product = (index * distinct_of(cell)) as int;
        vstd::arithmetic::div_mod::lemma_fundamental_div_mod(product, cell.spans as int);
        vstd::arithmetic::div_mod::lemma_mod_bound(product, cell.spans as int);
        let q = product / cell.spans as int;
        assert(cell.spans * q == q * cell.spans) by (nonlinear_arith);
        assert((q + 1) * cell.spans == q * cell.spans + cell.spans) by (nonlinear_arith);
    }
}

/// What a span of a cell holds: eight to a trace, a millisecond apart and a quarter
/// of a second long.
pub proof fn law_a_span_of_a_cell(index: int, cell: Cell)
    ensures
        ({
            let v = cell_span(index, cell);
            &&& v.field("trace_id"@) == Some(JsonView::Text("trace-"@ + zero_padded(dec((index / 8) as nat), 12)))
            &&& v.field("span_id"@) == Some(JsonView::Text("span-"@ + zero_padded(dec(index as nat), 12)))
            &&& v.field("name"@) == Some(JsonView::Text("chat.completion"@))
            &&& v.field("start_time_ns"@) == Some(JsonView::Number(dec((1_700_000_000_000_000_000 + index * 1_000_000) as nat)))
            &&& v.field("end_time_ns"@) == Some(JsonView::Number(dec((1_700_000_000_000_000_000 + index * 1_000_000 + 250_000_000) as nat)))
            &&& v.field("service"@) == Some(JsonView::Text("agent-runtime"@))
            &&& v.field("status"@) == Some(JsonView::Text("OK"@))
            &&& v.field("parent_span_id"@) == Some(JsonView::Null)
            &&& v.field("attributes"@) == Some(JsonView::Object(cell_attributes(index, cell)))
        }),
{
    lemma_cell_names();
    reveal_with_fuel(crate::json::entry_from, 12);
}

/// The attributes of a span: its prompt, its completion where there are two, and
/// the dimensions behind them, of three values, then twenty-four more each.
pub proof fn law_attributes_of_a_cell(index: int, cell: Cell, k: int)
    requires
        0 <= index,
        0 <= k < cell.enum_attrs,
    ensures
        ({
            let held = cell_attributes(index, cell);
            let id = value_id_of(index as nat, cell) as u64;
            let texts: int = if cell.attrs >= 2 {
                2
            } else {
                1
            };
            &&& held.len() == texts + cell.enum_attrs
            &&& held[0] == (
                "gen_ai.prompt"@,
                JsonView::Text(value_of(TextKind::Prompt, id, cell.value_bytes as nat)),
            )
            &&& cell.attrs >= 2 ==> held[1] == (
                "gen_ai.completion"@,
                JsonView::Text(value_of(TextKind::Completion, id, cell.value_bytes as nat)),
            )
            &&& held[texts + k] == (
                "deployment.dimension"@ + dec(k as nat),
                JsonView::Text("v"@ + dec((index % (3 + 24 * k)) as nat)),
            )
        }),
{
}

/// How many spans the text goes to: as many as fit, and a thousand at least.
pub proof fn law_how_many_spans(text_budget: nat, value_bytes: nat)
    requires
        value_bytes > 0,
    ensures
        spans_within(text_budget, value_bytes) >= 1_000,
        spans_within(text_budget, value_bytes) > 1_000 ==> spans_within(text_budget, value_bytes)
            * value_bytes <= text_budget,
        text_budget < (spans_within(text_budget, value_bytes) + 1) * value_bytes,
{
    vstd::arithmetic::div_mod::lemma_fundamental_div_mod(text_budget as int, value_bytes as int);
    vstd::arithmetic::div_mod::lemma_mod_bound(text_budget as int, value_bytes as int);
    let q = text_budget / value_bytes;
    let n = spans_within(text_budget, value_bytes);
    assert(value_bytes * q == q * value_bytes) by (nonlinear_arith);
    assert((q + 1) * value_bytes == q * value_bytes + value_bytes) by (nonlinear_arith);
    assert((q + 1) * value_bytes <= (n + 1) * value_bytes) by (nonlinear_arith)
        requires
            q <= n,
    ;
}

/// A value may be measured when it stays in the index: below the threshold, where
/// there is one, or where that is allowed.
pub proof fn law_values_that_stay(allowed: bool, threshold: usize, value_bytes: usize)
    ensures
        offload_of(allowed, threshold, value_bytes) is Some <==> !allowed && 0 < threshold
            <= value_bytes,
{
}

/// The costs of a key are the sums over it; those of two lists add up.
pub proof fn law_costs_of_a_key(costs: Seq<KeyCost>, key: Seq<char>, n: int)
    requires
        0 <= n < costs.len(),
    ensures
        values_for(costs, key, 0) == 0 && bytes_for(costs, key, 0) == 0,
        costs[n].key@ == key ==> values_for(costs, key, n + 1) == values_for(costs, key, n)
            + costs[n].values && bytes_for(costs, key, n + 1) == bytes_for(costs, key, n)
            + costs[n].bytes,
        costs[n].key@ != key ==> values_for(costs, key, n + 1) == values_for(costs, key, n)
            && bytes_for(costs, key, n + 1) == bytes_for(costs, key, n),
{
}

/// A directory's name is its cell's label, with a dash for what a path cannot hold.
pub proof fn law_directories(s: Seq<char>, i: int)
    requires
        0 <= i < s.len(),
    ensures
        dashed(s).len() == s.len(),
        s[i] == '/' || s[i] == '%' ==> dashed(s)[i] == '-',
        s[i] != '/' && s[i] != '%' ==> dashed(s)[i] == s[i],
{
}

/// What leads a load is passed over, and no more.
pub proof fn law_what_leads_a_load(s: Seq<char>)
    ensures
        ({
            let rest = without_lead(s);
            &&& rest.len() <= s.len()
            &&& rest == s.skip(s.len() - rest.len())
            &&& rest.len() > 0 ==> rest[0] != ':' && rest[0] != 's' && rest[0] != ' '
            &&& forall|i: int|
                0 <= i < s.len() - rest.len() ==> #[trigger] s[i] == ':' || s[i] == 's' || s[i]
                    == ' '
        }),
    decreases s.len(),
{
    if s.len() > 0 && (s[0] == ':' || s[0] == 's' || s[0] == ' ') {
        let tail = s.skip(1);
        law_what_leads_a_load(tail);
        let rest = without_lead(tail);
        assert(rest =~= s.skip(s.len() - rest.len()));
        assert forall|i: int| 0 <= i < s.len() - rest.len() implies #[trigger] s[i] == ':' || s[i]
            == 's' || s[i] == ' ' by {
            if i > 0 {
                assert(tail[i - 1] == s[i]);
            }
        }
    } else {
        assert(s.skip(0) =~= s);
    }
}

/// The rows of a report stand in their order under its head.
pub proof fn law_rows_of_a_report(rows: Seq<MemoryRow>, m: MemoryRow)
    ensures
        report_of(rows.push(m)) == report_of(rows) + row_of(m),
        report_of(seq![]) == REPORT_HEAD@,
{
    assert(rows.push(m).drop_last() =~= rows);
    assert(rows.push(m).last() == m);
}

/// The cells of the matrix: four sizes by four shares; the same in blocks where
/// that can matter; and what two attributes, other flushes and dimensions do.
pub proof fn law_the_cells_of_the_matrix(b: usize, i: int)
    ensures
        core_arm(b).len() == 16 && locality_arm(b).len() == 4 && other_arms(b).len() == 6,
        0 <= i < 16 ==> ({
            let cell = core_arm(b)[i];
            let size: int = if i < 4 {
                512
            } else if i < 8 {
                2_048
            } else if i < 12 {
                8_192
            } else {
                65_536
            };
            let share: int = if i % 4 == 0 {
                0
            } else if i % 4 == 1 {
                10
            } else if i % 4 == 2 {
                50
            } else {
                100
            };
            &&& cell.value_bytes == size && cell.unique_pct == share
            &&& cell.order is Interleaved && cell.attrs == 1 && cell.enum_attrs == 0
                && cell.flush_spans == 10_000
        }),
        0 <= i < 4 ==> ({
            let cell = locality_arm(b)[i];
            &&& cell.order is Blocked && cell.attrs == 1 && cell.enum_attrs == 0
            &&& cell.value_bytes == if i < 2 {
                2_048int
            } else {
                8_192
            }
            &&& cell.unique_pct == if i % 2 == 0 {
                10int
            } else {
                50
            }
        }),
        0 <= i < 6 ==> other_arms(b)[i].order is Interleaved,
        other_arms(b)[0].attrs == 2 && other_arms(b)[1].attrs == 2,
        other_arms(b)[2].flush_spans == 5_000 && other_arms(b)[3].flush_spans == 30_000
            && other_arms(b)[5].flush_spans == 1_000,
        other_arms(b)[4].enum_attrs == 3,
{
}

} // verus!
