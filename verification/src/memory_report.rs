//! What the benchmark of resident indexes reports: a probe of a reopened store,
//! and a cell of the matrix with its two probes.

use vstd::prelude::*;
use vstd::utf8::encode_utf8;

use crate::batches::text_view;
use crate::http::{lossy_text, utf8_lossy};
use crate::json::{
    entries_view, entry, json_document, object, read_json, text_json, uint_json, uint_view, Json,
    JsonView,
};
use crate::memory_bench::{
    default_memory, distinct_of, label_of, law_memory_flags, law_memory_switches, order_name,
    scan, Cell, KeyTotal, MemoryCommandView, MemoryView,
};
use crate::text::{copy, dec, decimal, texts, trim, trimmed, wide_decimal};

verus! {

// -------------------------------------------------------------------------- disk

/// A segment file, by its size and by what its header says.
#[derive(Clone, Copy, Debug, PartialEq, Eq, Structural)]
pub struct SegmentFile {
    pub bytes: u64,
    pub attribute_index_bytes: u64,
    pub records: u64,
}

/// What the segment files of a directory come to.
#[derive(Clone, Copy, Debug, PartialEq, Eq, Structural)]
pub struct DiskTotals {
    pub attribute_index_bytes: u128,
    pub bytes: u128,
    pub segments: usize,
    pub records: u128,
}

pub open spec fn index_total(files: Seq<SegmentFile>) -> nat
    decreases files.len(),
{
    if files.len() == 0 {
        0
    } else {
        index_total(files.drop_last()) + files.last().attribute_index_bytes as nat
    }
}

pub open spec fn size_total(files: Seq<SegmentFile>) -> nat
    decreases files.len(),
{
    if files.len() == 0 {
        0
    } else {
        size_total(files.drop_last()) + files.last().bytes as nat
    }
}

pub open spec fn record_total(files: Seq<SegmentFile>) -> nat
    decreases files.len(),
{
    if files.len() == 0 {
        0
    } else {
        record_total(files.drop_last()) + files.last().records as nat
    }
}

/// Sums the segment files of a directory.
pub fn on_disk(files: &Vec<SegmentFile>) -> (r: DiskTotals)
    ensures
        r.attribute_index_bytes == index_total(files@),
        r.bytes == size_total(files@),
        r.segments == files@.len(),
        r.records == record_total(files@),
{
    let mut index: u128 = 0;
    let mut bytes: u128 = 0;
    let mut records: u128 = 0;
    let mut i: usize = 0;
    assert(files@.take(0) =~= Seq::<SegmentFile>::empty());
    while i < files.len()
        invariant
            i <= files@.len(),
            index == index_total(files@.take(i as int)),
            bytes == size_total(files@.take(i as int)),
            records == record_total(files@.take(i as int)),
            index <= i * u64::MAX,
            bytes <= i * u64::MAX,
            records <= i * u64::MAX,
        decreases files@.len() - i,
    {
        assert(files@.take(i + 1).drop_last() =~= files@.take(i as int));
        index = index + files[i].attribute_index_bytes as u128;
        bytes = bytes + files[i].bytes as u128;
        records = records + files[i].records as u128;
        i += 1;
    }
    assert(files@.take(files@.len() as int) =~= files@);
    DiskTotals { attribute_index_bytes: index, bytes, segments: files.len(), records }
}

// ------------------------------------------------------------------------- probe

/// What a compaction changed.
#[derive(Debug)]
pub struct Compacted {
    pub merged: u64,
    /// The seconds it took, as a number's text.
    pub seconds: String,
    pub rss: u64,
    pub index_bytes: u64,
    pub segments: u64,
}

/// What opening a store cost a fresh process.
#[derive(Debug)]
pub struct Probe {
    pub rss_start: u64,
    pub rss_open: u64,
    pub index_bytes: u64,
    pub index_entries: u64,
    pub payload_bytes: u64,
    pub segments: u64,
    pub records: u64,
    pub by_key: Vec<KeyTotal>,
    pub compacted: Option<Compacted>,
}

/// The costs of some attribute keys.
pub open spec fn key_entries(totals: Seq<KeyTotal>) -> Seq<(Seq<char>, JsonView)> {
    Seq::new(totals.len(), |i: int| (totals[i].key@, key_cost(totals[i])))
}

/// What one attribute key costs.
pub open spec fn key_cost(total: KeyTotal) -> JsonView {
    JsonView::Object(
        seq![
            ("values"@, uint_view(total.values as nat)),
            ("bytes"@, uint_view(total.bytes as nat)),
        ],
    )
}

/// What a probe says of the store as it was opened.
pub open spec fn opened_entries(p: Probe) -> Seq<(Seq<char>, JsonView)> {
    seq![
        ("rss_start"@, uint_view(p.rss_start as nat)),
        ("rss_open"@, uint_view(p.rss_open as nat)),
        ("resident_index_bytes"@, uint_view(p.index_bytes as nat)),
        ("resident_attribute_index_entries"@, uint_view(p.index_entries as nat)),
        ("resident_payload_bytes"@, uint_view(p.payload_bytes as nat)),
        ("segments"@, uint_view(p.segments as nat)),
        ("records"@, uint_view(p.records as nat)),
        ("by_attribute_key"@, JsonView::Object(key_entries(p.by_key@))),
    ]
}

/// What a probe says of the store once it was compacted.
pub open spec fn compacted_entries(c: Compacted) -> Seq<(Seq<char>, JsonView)> {
    seq![
        ("compacted_away"@, uint_view(c.merged as nat)),
        ("compact_seconds"@, JsonView::Number(c.seconds@)),
        ("rss_compacted"@, uint_view(c.rss as nat)),
        ("resident_index_bytes_compacted"@, uint_view(c.index_bytes as nat)),
        ("segments_compacted"@, uint_view(c.segments as nat)),
    ]
}

/// What a probe reports.
pub open spec fn probed(p: Probe) -> JsonView {
    JsonView::Object(
        match p.compacted {
            Some(c) => opened_entries(p) + compacted_entries(c),
            None => opened_entries(p),
        },
    )
}

fn wide_json(n: u128) -> (r: Json)
    ensures
        r@ == uint_view(n as nat),
{
    Json::Number(wide_decimal(n))
}

fn key_cost_json(total: &KeyTotal) -> (r: Json)
    ensures
        r@ == key_cost(*total),
{
    let mut entries: Vec<(String, Json)> = Vec::new();
    entries.push(entry("values", wide_json(total.values)));
    entries.push(entry("bytes", wide_json(total.bytes)));
    assert(entries_view(entries@) =~= key_cost(*total)->Object_0);
    object(entries)
}

fn keys_json(totals: &Vec<KeyTotal>) -> (r: Json)
    ensures
        r@ == JsonView::Object(key_entries(totals@)),
{
    let mut entries: Vec<(String, Json)> = Vec::new();
    let mut i: usize = 0;
    while i < totals.len()
        invariant
            i <= totals@.len(),
            entries@.len() == i,
            forall|k: int|
                0 <= k < i ==> (#[trigger] entries@[k]).0@ == totals@[k].key@ && entries@[k].1@
                    == key_cost(totals@[k]),
        decreases totals@.len() - i,
    {
        entries.push(entry(totals[i].key.as_str(), key_cost_json(&totals[i])));
        i += 1;
    }
    assert(entries_view(entries@) =~= key_entries(totals@));
    object(entries)
}

/// Reports a probe.
pub fn probe_report(p: &Probe) -> (r: Json)
    ensures
        r@ == probed(*p),
{
    let mut entries: Vec<(String, Json)> = Vec::new();
    entries.push(entry("rss_start", uint_json(p.rss_start)));
    entries.push(entry("rss_open", uint_json(p.rss_open)));
    entries.push(entry("resident_index_bytes", uint_json(p.index_bytes)));
    entries.push(entry("resident_attribute_index_entries", uint_json(p.index_entries)));
    entries.push(entry("resident_payload_bytes", uint_json(p.payload_bytes)));
    entries.push(entry("segments", uint_json(p.segments)));
    entries.push(entry("records", uint_json(p.records)));
    entries.push(entry("by_attribute_key", keys_json(&p.by_key)));
    assert(entries_view(entries@) =~= opened_entries(*p));
    match &p.compacted {
        Some(c) => {
            entries.push(entry("compacted_away", uint_json(c.merged)));
            entries.push(entry("compact_seconds", Json::Number(copy(c.seconds.as_str()))));
            entries.push(entry("rss_compacted", uint_json(c.rss)));
            entries.push(entry("resident_index_bytes_compacted", uint_json(c.index_bytes)));
            entries.push(entry("segments_compacted", uint_json(c.segments)));
            assert(entries_view(entries@) =~= opened_entries(*p) + compacted_entries(*c));
        },
        None => {},
    }
    object(entries)
}

/// What is taken for a probe's report out of what its process printed: nothing
/// where the process failed, or printed something else.
pub open spec fn probe_answer(succeeded: bool, printed: Seq<u8>) -> JsonView {
    if !succeeded {
        JsonView::Object(seq![])
    } else {
        match json_document(encode_utf8(trimmed(utf8_lossy(printed)))) {
            Ok(document) => document,
            Err(_) => JsonView::Object(seq![]),
        }
    }
}

fn nothing() -> (r: Json)
    ensures
        r@ == JsonView::Object(seq![]),
{
    let none: Vec<(String, Json)> = Vec::new();
    assert(entries_view(none@) =~= seq![]);
    object(none)
}

/// Reads what a probe's process printed.
pub fn read_probe(succeeded: bool, printed: &[u8]) -> (r: Json)
    ensures
        r@ == probe_answer(succeeded, printed@),
{
    if !succeeded {
        return nothing();
    }
    let text = lossy_text(printed);
    let shown = trim(text.as_str());
    match read_json(shown.as_str().as_bytes()) {
        Ok(document) => document,
        Err(_) => nothing(),
    }
}

/// The arguments that have a process of this program probe a store.
pub open spec fn probe_words(
    directory: Seq<char>,
    flush_spans: usize,
    threshold: usize,
    compact: bool,
) -> Seq<Seq<char>> {
    let words = seq![
        "--probe"@,
        directory,
        "--flush-spans"@,
        dec(flush_spans as nat),
        "--payload-threshold"@,
        dec(threshold as nat),
    ];
    if compact {
        words.push("--compact"@)
    } else {
        words
    }
}

/// The arguments that have a process of this program probe a store.
pub fn probe_arguments(directory: &str, flush_spans: usize, threshold: usize, compact: bool) -> (r:
    Vec<String>)
    ensures
        texts(r@) == probe_words(directory@, flush_spans, threshold, compact),
{
    let mut r: Vec<String> = Vec::new();
    r.push(copy("--probe"));
    r.push(copy(directory));
    r.push(copy("--flush-spans"));
    r.push(decimal(flush_spans as u64));
    r.push(copy("--payload-threshold"));
    r.push(decimal(threshold as u64));
    if compact {
        r.push(copy("--compact"));
    }
    assert(texts(r@) =~= probe_words(directory@, flush_spans, threshold, compact));
    r
}

// -------------------------------------------------------------------------- cell

/// A cell as it ran.
#[derive(Debug)]
pub struct CellRun {
    pub cell: Cell,
    /// The seconds that ingest took, as a number's text.
    pub ingest_seconds: String,
    pub rss_base: u64,
    pub rss_after_ingest: u64,
    pub disk: DiskTotals,
    pub offloaded: u64,
    pub load_average: String,
    pub reopen: Json,
    pub compacted: Json,
}

/// The bytes of text in a cell's corpus.
pub open spec fn corpus_text(cell: Cell) -> int {
    cell.value_bytes * cell.attrs * cell.spans
}

/// What a cell reports.
pub open spec fn cell_report_of(run: CellRun) -> JsonView {
    let cell = run.cell;
    JsonView::Object(
        seq![
            ("label"@, text_view(label_of(cell))),
            ("value_bytes"@, uint_view(cell.value_bytes as nat)),
            ("unique_pct"@, uint_view(cell.unique_pct as nat)),
            ("attrs"@, uint_view(cell.attrs as nat)),
            ("flush_spans"@, uint_view(cell.flush_spans as nat)),
            ("order"@, text_view(order_name(cell.order))),
            ("spans"@, uint_view(cell.spans as nat)),
            ("distinct_values"@, uint_view(distinct_of(cell) as nat)),
            ("ingested_text_bytes"@, uint_view(corpus_text(cell) as nat)),
            ("ingest_seconds"@, JsonView::Number(run.ingest_seconds@)),
            ("rss_base"@, uint_view(run.rss_base as nat)),
            ("rss_after_ingest"@, uint_view(run.rss_after_ingest as nat)),
            ("segments"@, uint_view(run.disk.segments as nat)),
            ("records"@, uint_view(run.disk.records as nat)),
            ("disk_bytes"@, uint_view(run.disk.bytes as nat)),
            (
                "on_disk_attribute_index_bytes"@,
                uint_view(run.disk.attribute_index_bytes as nat),
            ),
            ("offloaded_payload_files"@, uint_view(run.offloaded as nat)),
            ("load_average"@, text_view(run.load_average@)),
            ("reopen"@, run.reopen@),
            ("compacted"@, run.compacted@),
        ],
    )
}

/// Reports a cell.
pub fn cell_report(run: &CellRun) -> (r: Json)
    requires
        run.cell.spans * run.cell.unique_pct <= usize::MAX,
        run.cell.value_bytes * run.cell.attrs <= usize::MAX,
        corpus_text(run.cell) <= u64::MAX,
    ensures
        r@ == cell_report_of(*run),
{
    let cell = &run.cell;
    let text = (cell.value_bytes * cell.attrs) as u64 * cell.spans as u64;
    let mut entries: Vec<(String, Json)> = Vec::new();
    entries.push(entry("label", Json::Text(cell.label())));
    entries.push(entry("value_bytes", uint_json(cell.value_bytes as u64)));
    entries.push(entry("unique_pct", uint_json(cell.unique_pct as u64)));
    entries.push(entry("attrs", uint_json(cell.attrs as u64)));
    entries.push(entry("flush_spans", uint_json(cell.flush_spans as u64)));
    entries.push(entry("order", text_json(cell.order.as_str())));
    entries.push(entry("spans", uint_json(cell.spans as u64)));
    entries.push(entry("distinct_values", uint_json(cell.distinct() as u64)));
    entries.push(entry("ingested_text_bytes", uint_json(text)));
    entries.push(entry("ingest_seconds", Json::Number(copy(run.ingest_seconds.as_str()))));
    entries.push(entry("rss_base", uint_json(run.rss_base)));
    entries.push(entry("rss_after_ingest", uint_json(run.rss_after_ingest)));
    entries.push(entry("segments", uint_json(run.disk.segments as u64)));
    entries.push(entry("records", wide_json(run.disk.records)));
    entries.push(entry("disk_bytes", wide_json(run.disk.bytes)));
    entries.push(
        entry("on_disk_attribute_index_bytes", wide_json(run.disk.attribute_index_bytes)),
    );
    entries.push(entry("offloaded_payload_files", uint_json(run.offloaded)));
    entries.push(entry("load_average", text_json(run.load_average.as_str())));
    entries.push(entry("reopen", run.reopen.copy()));
    entries.push(entry("compacted", run.compacted.copy()));
    assert(entries_view(entries@) =~= cell_report_of(*run)->Object_0);
    object(entries)
}

/// What stands in a document behind a path of keys.
pub open spec fn at_path(document: JsonView, path: Seq<Seq<char>>) -> Option<JsonView>
    decreases path.len(),
{
    if path.len() == 0 {
        Some(document)
    } else {
        match document.field(path[0]) {
            Some(inner) => at_path(inner, path.skip(1)),
            None => None,
        }
    }
}

/// The number in a document behind a path of keys; zero where there is none.
pub open spec fn number_behind(document: JsonView, path: Seq<Seq<char>>) -> Seq<char> {
    match at_path(document, path) {
        Some(JsonView::Number(text)) => text,
        _ => "0"@,
    }
}

/// Reads a number out of a report, as its text.
pub fn number(document: &Json, path: &Vec<String>) -> (r: String)
    ensures
        r@ == number_behind(document@, texts(path@)),
{
    let mut at: &Json = document;
    let mut i: usize = 0;
    assert(texts(path@).skip(0) =~= texts(path@));
    while i < path.len()
        invariant
            i <= path@.len(),
            at_path(at@, texts(path@).skip(i as int)) == at_path(document@, texts(path@)),
        decreases path@.len() - i,
    {
        let ghost rest = texts(path@).skip(i as int);
        assert(rest[0] == path@[i as int]@);
        assert(rest.skip(1) =~= texts(path@).skip(i + 1));
        match at.get(path[i].as_str()) {
            Some(inner) => {
                at = inner;
            },
            None => {
                return copy("0");
            },
        }
        i += 1;
    }
    match at {
        Json::Number(text) => copy(text.as_str()),
        _ => copy("0"),
    }
}

proof fn lemma_probe_names()
    ensures
        "values"@.len() == 6,
        "bytes"@.len() == 5,
        "rss_start"@.len() == 9,
        "rss_open"@.len() == 8 && "rss_open"@[0] == 'r',
        "resident_index_bytes"@.len() == 20,
        "resident_attribute_index_entries"@.len() == 32,
        "resident_payload_bytes"@.len() == 22,
        "segments"@.len() == 8 && "segments"@[0] == 's',
        "records"@.len() == 7,
        "by_attribute_key"@.len() == 16,
        "compacted_away"@.len() == 14,
        "compact_seconds"@.len() == 15,
        "rss_compacted"@.len() == 13,
        "resident_index_bytes_compacted"@.len() == 30,
        "segments_compacted"@.len() == 18,
{
    reveal_strlit("values");
    reveal_strlit("bytes");
    reveal_strlit("rss_start");
    reveal_strlit("rss_open");
    reveal_strlit("resident_index_bytes");
    reveal_strlit("resident_attribute_index_entries");
    reveal_strlit("resident_payload_bytes");
    reveal_strlit("segments");
    reveal_strlit("records");
    reveal_strlit("by_attribute_key");
    reveal_strlit("compacted_away");
    reveal_strlit("compact_seconds");
    reveal_strlit("rss_compacted");
    reveal_strlit("resident_index_bytes_compacted");
    reveal_strlit("segments_compacted");
}

proof fn lemma_cell_fields()
    ensures
        "label"@.len() == 5 && "label"@[0] == 'l',
        "value_bytes"@.len() == 11 && "value_bytes"@[0] == 'v',
        "unique_pct"@.len() == 10 && "unique_pct"@[0] == 'u',
        "attrs"@.len() == 5 && "attrs"@[0] == 'a',
        "flush_spans"@.len() == 11 && "flush_spans"@[0] == 'f',
        "order"@.len() == 5 && "order"@[0] == 'o',
        "spans"@.len() == 5 && "spans"@[0] == 's',
        "distinct_values"@.len() == 15,
        "ingested_text_bytes"@.len() == 19,
        "ingest_seconds"@.len() == 14,
        "rss_base"@.len() == 8 && "rss_base"@[0] == 'r',
        "rss_after_ingest"@.len() == 16,
        "segments"@.len() == 8 && "segments"@[0] == 's',
        "records"@.len() == 7,
        "disk_bytes"@.len() == 10 && "disk_bytes"@[0] == 'd',
        "on_disk_attribute_index_bytes"@.len() == 29,
        "offloaded_payload_files"@.len() == 23,
        "load_average"@.len() == 12,
        "reopen"@.len() == 6,
        "compacted"@.len() == 9,
{
    reveal_strlit("label");
    reveal_strlit("value_bytes");
    reveal_strlit("unique_pct");
    reveal_strlit("attrs");
    reveal_strlit("flush_spans");
    reveal_strlit("order");
    reveal_strlit("spans");
    reveal_strlit("distinct_values");
    reveal_strlit("ingested_text_bytes");
    reveal_strlit("ingest_seconds");
    reveal_strlit("rss_base");
    reveal_strlit("rss_after_ingest");
    reveal_strlit("segments");
    reveal_strlit("records");
    reveal_strlit("disk_bytes");
    reveal_strlit("on_disk_attribute_index_bytes");
    reveal_strlit("offloaded_payload_files");
    reveal_strlit("load_average");
    reveal_strlit("reopen");
    reveal_strlit("compacted");
}

/// What is on disk adds up file by file.
pub proof fn law_files_add_up(files: Seq<SegmentFile>, file: SegmentFile)
    ensures
        index_total(seq![]) == 0 && size_total(seq![]) == 0 && record_total(seq![]) == 0,
        index_total(files.push(file)) == index_total(files) + file.attribute_index_bytes,
        size_total(files.push(file)) == size_total(files) + file.bytes,
        record_total(files.push(file)) == record_total(files) + file.records,
{
    assert(files.push(file).drop_last() =~= files);
    assert(files.push(file).last() == file);
}

/// What a probe reports of a store that was opened.
pub proof fn law_what_a_probe_reports(p: Probe)
    ensures
        ({
            let v = probed(p);
            &&& v.field("rss_start"@) == Some(JsonView::Number(dec((p.rss_start) as nat)))
            &&& v.field("rss_open"@) == Some(JsonView::Number(dec((p.rss_open) as nat)))
            &&& v.field("resident_index_bytes"@) == Some(JsonView::Number(dec((p.index_bytes) as nat)))
            &&& v.field("resident_attribute_index_entries"@) == Some(JsonView::Number(dec((p.index_entries) as nat)))
            &&& v.field("resident_payload_bytes"@) == Some(JsonView::Number(dec((p.payload_bytes) as nat)))
            &&& v.field("segments"@) == Some(JsonView::Number(dec((p.segments) as nat)))
            &&& v.field("records"@) == Some(JsonView::Number(dec((p.records) as nat)))
            &&& v.field("by_attribute_key"@) == Some(JsonView::Object(key_entries(p.by_key@)))
        }),
{
    lemma_probe_names();
    reveal_with_fuel(crate::json::entry_from, 15);
}

/// What a probe reports of a store that was compacted, besides; and what of one
/// that was not: nothing.
pub proof fn law_what_a_compacted_probe_reports(p: Probe, c: Compacted, total: KeyTotal)
    ensures
        p.compacted == Some(c) ==> ({
            let v = probed(p);
            &&& v.field("compacted_away"@) == Some(JsonView::Number(dec(c.merged as nat)))
            &&& v.field("compact_seconds"@) == Some(JsonView::Number(c.seconds@))
            &&& v.field("rss_compacted"@) == Some(JsonView::Number(dec(c.rss as nat)))
            &&& v.field("resident_index_bytes_compacted"@) == Some(
                JsonView::Number(dec(c.index_bytes as nat)),
            )
            &&& v.field("segments_compacted"@) == Some(JsonView::Number(dec(c.segments as nat)))
        }),
        p.compacted is None ==> probed(p).field("rss_compacted"@).is_none() && probed(p).field(
            "compacted_away"@,
        ).is_none(),
        key_cost(total).field("values"@) == Some(JsonView::Number(dec(total.values as nat))),
        key_cost(total).field("bytes"@) == Some(JsonView::Number(dec(total.bytes as nat))),
{
    lemma_probe_names();
    reveal_with_fuel(crate::json::entry_from, 15);
}

/// What is reported of a cell: what it was, what it took, and what was found when it
/// was opened again and when it was compacted.
pub proof fn law_what_a_cell_reports(run: CellRun)
    ensures
        ({
            let v = cell_report_of(run);
            &&& v.field("label"@) == Some(JsonView::Text(label_of(run.cell)))
            &&& v.field("value_bytes"@) == Some(JsonView::Number(dec((run.cell.value_bytes) as nat)))
            &&& v.field("unique_pct"@) == Some(JsonView::Number(dec((run.cell.unique_pct) as nat)))
            &&& v.field("attrs"@) == Some(JsonView::Number(dec((run.cell.attrs) as nat)))
            &&& v.field("flush_spans"@) == Some(JsonView::Number(dec((run.cell.flush_spans) as nat)))
            &&& v.field("spans"@) == Some(JsonView::Number(dec((run.cell.spans) as nat)))
            &&& v.field("distinct_values"@) == Some(JsonView::Number(dec(distinct_of(run.cell))))
            &&& v.field("ingested_text_bytes"@) == Some(JsonView::Number(dec((run.cell.value_bytes * run.cell.attrs * run.cell.spans) as nat)))
            &&& v.field("ingest_seconds"@) == Some(JsonView::Number(run.ingest_seconds@))
            &&& v.field("rss_base"@) == Some(JsonView::Number(dec((run.rss_base) as nat)))
            &&& v.field("rss_after_ingest"@) == Some(JsonView::Number(dec((run.rss_after_ingest) as nat)))
            &&& v.field("segments"@) == Some(JsonView::Number(dec((run.disk.segments) as nat)))
            &&& v.field("records"@) == Some(JsonView::Number(dec((run.disk.records) as nat)))
            &&& v.field("disk_bytes"@) == Some(JsonView::Number(dec((run.disk.bytes) as nat)))
            &&& v.field("on_disk_attribute_index_bytes"@) == Some(JsonView::Number(dec((run.disk.attribute_index_bytes) as nat)))
            &&& v.field("offloaded_payload_files"@) == Some(JsonView::Number(dec((run.offloaded) as nat)))
            &&& v.field("load_average"@) == Some(JsonView::Text(run.load_average@))
            &&& v.field("reopen"@) == Some(run.reopen@)
            &&& v.field("compacted"@) == Some(run.compacted@)
        }),
{
    lemma_cell_fields();
    reveal_with_fuel(crate::json::entry_from, 21);
}

/// A probe that failed, or that printed no document, says nothing.
pub proof fn law_what_a_probe_says(printed: Seq<u8>)
    ensures
        probe_answer(false, printed) == JsonView::Object(seq![]),
        match json_document(encode_utf8(trimmed(utf8_lossy(printed)))) {
            Ok(document) => probe_answer(true, printed) == document,
            Err(_) => probe_answer(true, printed) == JsonView::Object(seq![]),
        },
{
}

/// The words that a probe is started with read back as what was meant by them.
pub proof fn law_a_probe_is_understood(
    directory: Seq<char>,
    flush_spans: usize,
    threshold: usize,
    compact: bool,
)
    ensures
        scan(probe_words(directory, flush_spans, threshold, compact), 0, default_memory()) == Ok::<
            MemoryCommandView,
            Seq<char>,
        >(
            MemoryCommandView::Run(
                MemoryView {
                    probe: Some(directory),
                    flush_spans,
                    threshold,
                    compact,
                    ..default_memory()
                },
            ),
        ),
{
    let words = probe_words(directory, flush_spans, threshold, compact);
    crate::text::law_decimal_reads_back(flush_spans as nat);
    crate::text::law_decimal_reads_back(threshold as nat);
    let a = default_memory();
    let b = MemoryView { probe: Some(directory), ..a };
    let c = MemoryView { flush_spans, ..b };
    let d = MemoryView { threshold, ..c };
    law_memory_flags(words, 0, a, 0);
    law_memory_flags(words, 2, b, flush_spans as nat);
    law_memory_flags(words, 4, c, threshold as nat);
    if compact {
        law_memory_switches(words, 6, d);
        assert(words.len() == 7);
    } else {
        assert(words.len() == 6);
    }
}

/// A number is found by the names that lead to it, and is nought where they lead
/// to none.
pub proof fn law_numbers_behind_a_path(document: JsonView, name: Seq<char>, rest: Seq<Seq<char>>)
    ensures
        at_path(document, seq![]) == Some(document),
        document.field(name) is Some ==> at_path(document, seq![name] + rest) == at_path(
            document.field(name)->0,
            rest,
        ),
        document.field(name).is_none() ==> at_path(document, seq![name] + rest).is_none()
            && number_behind(document, seq![name] + rest) == "0"@,
        forall|text: Seq<char>|
            #[trigger] number_behind(JsonView::Number(text), seq![]) == text,
{
    let path = seq![name] + rest;
    assert(path[0] == name);
    assert(path.skip(1) =~= rest);
}

} // verus!
