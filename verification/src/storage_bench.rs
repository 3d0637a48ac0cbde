//! The storage benchmark: what the bytes in a data directory are, when a store
//! has stopped rewriting itself, and the record that a run writes.

use vstd::prelude::*;

use crate::json::{same_json, Json, JsonView};
use crate::queries::{read_usize, usize_of};
use crate::text::{
    copy, dec, decimal, ends_with, same, split_once_last, split_text_last, starts_with,
    text_ends_with, text_starts_with, to_upper, uppered,
};

verus! {

// ---------------------------------------------------------------------- settings

/// The profiles that a run measures.
#[derive(Clone, Copy, Debug, PartialEq, Eq, Structural)]
pub enum Profile {
    Generic,
    Llm,
    PinnedContext,
}

/// What the corpus of service traces is.
pub const GENERIC_WORDS: &'static str = "\
    Service traces: 10-span traces across 20 services, three indexed attributes, \
    occasional events. The same span shape the throughput benchmark uses.";

/// What the corpus of conversations is.
pub const LLM_WORDS: &'static str = "\
    LLM calls: OpenLLMetry `gen_ai.*` / `traceloop.*` attributes with a shared system \
    prompt, a per-call user prompt, and a completion \u{2014} roughly 2 KiB of text per span. \
    Every value is below the payload-offload threshold, so nothing is deduplicated.";

/// What the long-context corpus is.
pub const PINNED_WORDS: &'static str = "\
    Long-context agent calls: the same LLM span carrying a 320 KiB pinned context that \
    is byte-identical on every call, above the 256 KiB payload threshold. This is the \
    case content-addressed offloading exists for \u{2014} the context is stored once for the \
    whole corpus.";

/// What a profile is called, how many spans it takes by default, and how many
/// go in one request.
pub open spec fn profile_name(p: Profile) -> Seq<char> {
    match p {
        Profile::Generic => "generic"@,
        Profile::Llm => "llm"@,
        Profile::PinnedContext => "pinned-context"@,
    }
}

impl Profile {
    pub fn name(self) -> (r: &'static str)
        ensures
            r@ == profile_name(self),
    {
        match self {
            Profile::Generic => "generic",
            Profile::Llm => "llm",
            Profile::PinnedContext => "pinned-context",
        }
    }

    /// What the profile's corpus is.
    pub fn description(self) -> (r: &'static str)
        ensures
            r@ == described(self),
    {
        match self {
            Profile::Generic => GENERIC_WORDS,
            Profile::Llm => LLM_WORDS,
            Profile::PinnedContext => PINNED_WORDS,
        }
    }

    /// Spans in one request: the long-context spans are large, and a request
    /// is bounded.
    pub fn batch_size(self) -> (r: usize)
        ensures
            r == batch_of(self),
    {
        match self {
            Profile::Generic => 1_000,
            Profile::Llm => 1_000,
            Profile::PinnedContext => 100,
        }
    }

    /// The number of spans without a setting.
    pub fn default_spans(self) -> (r: usize)
        ensures
            r == match self {
                Profile::Generic => 1_000_000int,
                Profile::Llm => 200_000,
                Profile::PinnedContext => 10_000,
            },
    {
        match self {
            Profile::Generic => 1_000_000,
            Profile::Llm => 200_000,
            Profile::PinnedContext => 10_000,
        }
    }

    /// The setting that gives the number of spans.
    pub fn spans_setting(self) -> (r: String)
        ensures
            r@ == "TRAZA_STORAGE_BENCH_"@ + uppered(
                match self {
                    Profile::Generic => "generic"@,
                    Profile::Llm => "llm"@,
                    Profile::PinnedContext => "pinned_context"@,
                },
            ) + "_SPANS"@,
    {
        let key = match self {
            Profile::Generic => "generic",
            Profile::Llm => "llm",
            Profile::PinnedContext => "pinned_context",
        };
        let mut r = copy("TRAZA_STORAGE_BENCH_");
        let key = to_upper(key);
        r.push_str(key.as_str());
        r.push_str("_SPANS");
        r
    }
}

/// The number that a setting says, else the default.
pub fn number_setting(setting: Option<&str>, default: usize) -> (r: usize)
    ensures
        r == match setting {
            Some(value) => match usize_of(value@) {
                Some(n) => n,
                None => default,
            },
            None => default,
        },
{
    match setting {
        Some(value) => match read_usize(value) {
            Some(n) => n,
            None => default,
        },
        None => default,
    }
}

/// Whether a setting asks to keep the data directories.
pub fn keeps_data(setting: Option<&str>) -> (r: bool)
    ensures
        r == match setting {
            Some(value) => value@ != "0"@,
            None => false,
        },
{
    match setting {
        Some(value) => !same(value, "0"),
        None => false,
    }
}

// ----------------------------------------------------------------------- batches

/// The ranges of spans that requests of a given size carry, from `start` on.
pub open spec fn ranges_from(start: int, spans: int, size: int) -> Seq<(usize, usize)>
    decreases spans - start,
{
    if size <= 0 || start >= spans {
        seq![]
    } else {
        let end = if start + size > spans {
            spans
        } else {
            start + size
        };
        seq![(start as usize, end as usize)] + ranges_from(end, spans, size)
    }
}

/// The ranges of spans that the requests of a corpus carry.
pub fn batch_ranges(spans: usize, size: usize) -> (r: Vec<(usize, usize)>)
    requires
        size > 0,
    ensures
        r@ == ranges_from(0, spans as int, size as int),
{
    let mut r: Vec<(usize, usize)> = Vec::new();
    let mut start: usize = 0;
    while start < spans
        invariant
            size > 0,
            start <= spans,
            r@ + ranges_from(start as int, spans as int, size as int) == ranges_from(
                0,
                spans as int,
                size as int,
            ),
        decreases spans - start,
    {
        let end: usize = if size > spans - start {
            spans
        } else {
            start + size
        };
        let ghost before = r@;
        r.push((start, end));
        assert(r@ + ranges_from(end as int, spans as int, size as int) =~= before + (seq![
            (start, end),
        ] + ranges_from(end as int, spans as int, size as int)));
        start = end;
    }
    assert(r@ + Seq::<(usize, usize)>::empty() =~= r@);
    r
}

/// Every span of a corpus is in exactly one request, and requests come in the
/// order of their spans.
pub proof fn law_batches_cover_the_corpus(start: int, spans: int, size: int)
    requires
        0 <= start,
        size > 0,
        start <= spans <= usize::MAX,
    ensures
        ({
            let ranges = ranges_from(start, spans, size);
            &&& ranges.len() == 0 <==> start == spans
            &&& ranges.len() > 0 ==> ranges[0].0 == start && ranges.last().1 == spans
            &&& forall|i: int|
                0 <= i < ranges.len() ==> (#[trigger] ranges[i]).0 < ranges[i].1 <= ranges[i].0
                    + size
            &&& forall|i: int, j: int|
                #![trigger ranges[i], ranges[j]]
                0 <= i && j == i + 1 && j < ranges.len() ==> ranges[i].1 == ranges[j].0
        }),
    decreases spans - start,
{
    if start < spans {
        let ranges = ranges_from(start, spans, size);
        if start + size < spans {
            law_batches_cover_the_corpus(start + size, spans, size);
            let rest = ranges_from(start + size, spans, size);
            assert(ranges.len() == rest.len() + 1);
            assert(ranges.last() == rest.last());
            assert forall|i: int| 0 <= i < ranges.len() implies (#[trigger] ranges[i]).0
                < ranges[i].1 <= ranges[i].0 + size by {
                if i > 0 {
                    assert(ranges[i] == rest[i - 1]);
                }
            }
            assert forall|i: int, j: int|
                #![trigger ranges[i], ranges[j]]
                0 <= i && j == i + 1 && j < ranges.len() implies ranges[i].1 == ranges[j].0 by {
                assert(ranges[j] == rest[j - 1]);
                if i > 0 {
                    assert(ranges[i] == rest[i - 1]);
                }
            }
        } else {
            assert(ranges_from(spans, spans, size) =~= seq![]);
            assert(ranges.len() == 1);
        }
    }
}

// ------------------------------------------------------------------ data directory

/// What an entry of a data directory is.
#[derive(Clone, Copy, Debug, PartialEq, Eq, Structural)]
pub enum Held {
    Segment,
    Log,
    Payloads,
    Other,
}

/// What the entry of a given name is.
pub open spec fn held_as(name: Seq<char>) -> Held {
    if starts_with(name, "segment-"@) && ends_with(name, ".seg"@) {
        Held::Segment
    } else if starts_with(name, "wal"@) {
        Held::Log
    } else if name == "payloads"@ {
        Held::Payloads
    } else {
        Held::Other
    }
}

fn classify(name: &str) -> (r: Held)
    ensures
        r == held_as(name@),
{
    if text_starts_with(name, "segment-") && text_ends_with(name, ".seg") {
        Held::Segment
    } else if text_starts_with(name, "wal") {
        Held::Log
    } else if same(name, "payloads") {
        Held::Payloads
    } else {
        Held::Other
    }
}

/// An entry of a data directory: its name, and the bytes in it.
pub open spec fn entry_views(entries: Seq<(String, u64)>) -> Seq<(Seq<char>, u64)> {
    Seq::new(entries.len(), |i: int| (entries[i].0@, entries[i].1))
}

/// The bytes of the entries that are held as `held`.
pub open spec fn bytes_held(entries: Seq<(Seq<char>, u64)>, held: Held) -> nat
    decreases entries.len(),
{
    if entries.len() == 0 {
        0
    } else {
        let before = bytes_held(entries.drop_last(), held);
        if held_as(entries.last().0) == held {
            before + entries.last().1 as nat
        } else {
            before
        }
    }
}

/// The bytes of all the entries.
pub open spec fn bytes_total(entries: Seq<(Seq<char>, u64)>) -> nat
    decreases entries.len(),
{
    if entries.len() == 0 {
        0
    } else {
        bytes_total(entries.drop_last()) + entries.last().1 as nat
    }
}

/// Every byte of a data directory is counted once: what the parts hold adds up
/// to what the entries hold.
pub proof fn law_the_parts_add_up(entries: Seq<(Seq<char>, u64)>)
    ensures
        bytes_held(entries, Held::Segment) + bytes_held(entries, Held::Log) + bytes_held(
            entries,
            Held::Payloads,
        ) + bytes_held(entries, Held::Other) == bytes_total(entries),
    decreases entries.len(),
{
    if entries.len() > 0 {
        law_the_parts_add_up(entries.drop_last());
    }
}

proof fn lemma_total_grows(entries: Seq<(Seq<char>, u64)>, n: int)
    requires
        0 <= n <= entries.len(),
    ensures
        bytes_total(entries.take(n)) <= bytes_total(entries),
    decreases entries.len() - n,
{
    if n < entries.len() {
        lemma_total_grows(entries, n + 1);
        assert(entries.take(n + 1).drop_last() =~= entries.take(n));
    } else {
        assert(entries.take(n) =~= entries);
    }
}

/// The bytes in a data directory, by what they are.
#[derive(Clone, Copy, Debug, PartialEq, Eq, Structural)]
pub struct DirectoryBytes {
    pub segments: u64,
    pub log: u64,
    pub payloads: u64,
    pub other: u64,
    pub total: u64,
}

/// Adds up the bytes in a data directory.
pub fn directory_bytes(entries: &Vec<(String, u64)>) -> (r: DirectoryBytes)
    requires
        bytes_total(entry_views(entries@)) <= u64::MAX,
    ensures
        r.segments == bytes_held(entry_views(entries@), Held::Segment),
        r.log == bytes_held(entry_views(entries@), Held::Log),
        r.payloads == bytes_held(entry_views(entries@), Held::Payloads),
        r.other == bytes_held(entry_views(entries@), Held::Other),
        r.total == bytes_total(entry_views(entries@)),
{
    let ghost all = entry_views(entries@);
    let (mut segments, mut log, mut payloads, mut other): (u64, u64, u64, u64) = (0, 0, 0, 0);
    let mut i: usize = 0;
    while i < entries.len()
        invariant
            i <= entries@.len(),
            all == entry_views(entries@),
            bytes_total(all) <= u64::MAX,
            segments == bytes_held(all.take(i as int), Held::Segment),
            log == bytes_held(all.take(i as int), Held::Log),
            payloads == bytes_held(all.take(i as int), Held::Payloads),
            other == bytes_held(all.take(i as int), Held::Other),
        decreases entries@.len() - i,
    {
        proof {
            lemma_total_grows(all, i + 1);
            law_the_parts_add_up(all.take(i + 1));
            assert(all.take(i + 1).drop_last() =~= all.take(i as int));
            assert(all.take(i + 1).last() == (entries@[i as int].0@, entries@[i as int].1));
        }
        let bytes: u64 = entries[i].1;
        match classify(entries[i].0.as_str()) {
            Held::Segment => {
                segments = segments + bytes;
            },
            Held::Log => {
                log = log + bytes;
            },
            Held::Payloads => {
                payloads = payloads + bytes;
            },
            Held::Other => {
                other = other + bytes;
            },
        }
        i += 1;
    }
    proof {
        assert(all.take(all.len() as int) =~= all);
        law_the_parts_add_up(all);
    }
    DirectoryBytes { segments, log, payloads, other, total: segments + log + payloads + other }
}

/// Whether a file's name has an extension: what stands behind its last dot,
/// unless the name begins with that dot.
pub fn has_extension(name: &str, wanted: &str) -> (r: bool)
    ensures
        r == match split_once_last(name@, '.') {
            Some((stem, extension)) => stem.len() > 0 && extension == wanted@,
            None => false,
        },
{
    match split_text_last(name, '.') {
        Some((stem, extension)) => {
            let empty = same(stem.as_str(), "");
            proof {
                reveal_strlit("");
                assert(stem@.len() == 0 ==> stem@ =~= ""@);
            }
            !empty && same(extension.as_str(), wanted)
        },
        None => false,
    }
}

// --------------------------------------------------------------------- quiescence

/// What a statistics report says of the store's shape on disk.
pub open spec fn signature_of(stats: JsonView) -> (JsonView, JsonView) {
    (
        match stats.field("segment_count"@) {
            Some(value) => value,
            None => JsonView::Null,
        },
        match stats.field("bytes_on_disk"@) {
            Some(value) => value,
            None => JsonView::Null,
        },
    )
}

/// Watches a store stop rewriting itself.
#[derive(Debug)]
pub struct Quiescence {
    previous: Option<(Json, Json)>,
    stable: u64,
}

/// The shape last seen, and how often it was seen again since.
pub struct QuiescenceView {
    pub previous: Option<(JsonView, JsonView)>,
    pub stable: nat,
}

impl View for Quiescence {
    type V = QuiescenceView;

    closed spec fn view(&self) -> QuiescenceView {
        QuiescenceView {
            previous: match self.previous {
                Some((segments, disk)) => Some((segments@, disk@)),
                None => None,
            },
            stable: self.stable as nat,
        }
    }
}

/// The watch after a report.
pub open spec fn after_report(q: QuiescenceView, status: u16, stats: JsonView) -> QuiescenceView {
    if status != 200 {
        q
    } else if q.previous == Some(signature_of(stats)) {
        QuiescenceView { previous: q.previous, stable: q.stable + 1 }
    } else {
        QuiescenceView { previous: Some(signature_of(stats)), stable: 0 }
    }
}

fn field_or_null(stats: &Json, key: &str) -> (r: Json)
    ensures
        r@ == match stats@.field(key@) {
            Some(value) => value,
            None => JsonView::Null,
        },
{
    match stats.get(key) {
        Some(value) => value.copy(),
        None => Json::Null,
    }
}

impl Quiescence {
    pub fn new() -> (r: Quiescence)
        ensures
            r@ == (QuiescenceView { previous: None, stable: 0 }),
    {
        Quiescence { previous: None, stable: 0 }
    }

    /// Takes a report, and says whether the store is at rest: its shape was
    /// seen three times more without a change.
    pub fn observe(&mut self, status: u16, stats: &Json) -> (r: bool)
        requires
            old(self)@.stable < u64::MAX,
        ensures
            final(self)@ == after_report(old(self)@, status, stats@),
            r == (status == 200 && final(self)@.stable >= 3),
    {
        if status != 200 {
            return false;
        }
        let segments = field_or_null(stats, "segment_count");
        let disk = field_or_null(stats, "bytes_on_disk");
        let seen = match &self.previous {
            Some((s, d)) => same_json(s, &segments) && same_json(d, &disk),
            None => false,
        };
        if seen {
            self.stable = self.stable + 1;
            self.stable >= 3
        } else {
            self.stable = 0;
            self.previous = Some((segments, disk));
            false
        }
    }
}

// -------------------------------------------------------------------- measurements

/// One profile's measurement: everything in it was counted.
#[derive(Debug)]
pub struct Measurement {
    pub profile: Profile,
    pub spans: usize,
    pub ingested_bytes: u64,
    pub held: DirectoryBytes,
    pub segment_count: u64,
}

/// A number of a report, or nothing.
pub open spec fn count_of(stats: JsonView, key: Seq<char>) -> nat {
    match stats.uint_field(key) {
        Some(n) => n,
        None => 0,
    }
}

fn count(stats: &Json, key: &str) -> (r: u64)
    ensures
        r == count_of(stats@, key@),
{
    match stats.uint_at(key) {
        Some(n) => n,
        None => 0,
    }
}

/// Reads a measurement off a store at rest: an error unless the store holds
/// exactly the corpus that went in.
pub fn measurement(
    profile: Profile,
    spans: usize,
    ingested_bytes: u64,
    entries: &Vec<(String, u64)>,
    stats: &Json,
) -> (r: Result<Measurement, String>)
    requires
        bytes_total(entry_views(entries@)) <= u64::MAX,
    ensures
        match r {
            Ok(m) => {
                &&& count_of(stats@, "record_count"@) == spans
                &&& m.profile == profile
                &&& m.spans == spans
                &&& m.ingested_bytes == ingested_bytes
                &&& m.held.segments == bytes_held(entry_views(entries@), Held::Segment)
                &&& m.held.log == bytes_held(entry_views(entries@), Held::Log)
                &&& m.held.payloads == bytes_held(entry_views(entries@), Held::Payloads)
                &&& m.held.other == bytes_held(entry_views(entries@), Held::Other)
                &&& m.held.total == bytes_total(entry_views(entries@))
                &&& m.segment_count == count_of(stats@, "segment_count"@)
            },
            Err(message) => {
                &&& count_of(stats@, "record_count"@) != spans
                &&& message@ == "store holds "@ + dec(count_of(stats@, "record_count"@))
                    + " records, expected "@ + dec(spans as nat)
            },
        },
{
    let held = directory_bytes(entries);
    let segment_count = count(stats, "segment_count");
    let record_count = count(stats, "record_count");
    if record_count != spans as u64 {
        let mut message = copy("store holds ");
        push_number(&mut message, record_count);
        message.push_str(" records, expected ");
        push_number(&mut message, spans as u64);
        return Err(message);
    }
    Ok(Measurement { profile, spans, ingested_bytes, held, segment_count })
}

fn push_number(r: &mut String, n: u64)
    ensures
        final(r)@ == old(r)@ + dec(n as nat),
{
    let digits = decimal(n);
    r.push_str(digits.as_str());
}

// ------------------------------------------------------------------------- report

/// What stands before the rows of the report.
pub const REPORT_HEAD: &'static str = "\
    # Traza Storage Benchmark\n\nThese values were measured by `cargo run --release \
    --bin storage-bench`; they are not estimates. The benchmark starts \
    `target/release/traza-server` on a free loopback port with a fresh temporary data \
    directory, ingests a corpus over HTTP while counting the exact request-body bytes it \
    sends, waits for the flush and for compaction to quiesce, then walks the data \
    directory.\n\n## Results\n\n| Corpus | Spans | Ingested | On disk | Ratio \
    (in:stored) | Amplification | Bytes/span |\n|---|---:|---:|---:|---:|---:|---:|\n";

/// How storage is priced.
pub const COST_WORDS: &'static str = "\
    \n## Storage cost\n\nPriced per GiB-month at the rates a storage comparison \
    conventionally uses: $0.08 for block storage, $0.023 for object storage. Traza keeps \
    its data in a local data directory, so it pays the block rate, and an HA cluster \
    keeps one copy per node.\n\n| Corpus | Stored | 1 node / month | 3-node HA / month \
    |\n|---|---:|---:|---:|\n";

/// What the same volume would cost on object storage.
pub const OBJECT_STORAGE_WORDS: &'static str = "\
    \nFor reference, the same stored volume on object storage at $0.023/GiB-month would \
    cost 3.5x less. Traza has no object-storage tier; the rate is quoted only so the gap \
    is legible.\n";

/// How the numbers were taken.
pub const METHOD_WORDS: &'static str = "\
    - \"Ingested\" is the sum of request-body lengths actually written to the socket \u{2014} \
    the JSON a client would have sent to any other backend \u{2014} excluding HTTP headers.\n- \
    \"On disk\" is a recursive walk of the whole data directory: segments, write-ahead \
    log, payload store, and everything else. It is not the `bytes_on_disk` field of \
    `/v1/stats`, which counts segments only.\n- Quiescence: the benchmark forces a \
    flush, then polls `/v1/stats` until the segment count and disk usage stop changing, \
    so compaction is not caught mid-rewrite.\n- Configuration: shipped defaults \
    throughout \u{2014} `--durability wal`, compaction on, payload threshold at its default. No \
    setting was tuned for this measurement.\n- Build: Cargo release profile. Timestamp: \
    Unix ";

/// What stands behind the report.
pub const REPORT_NOTES: &'static str = "\
    \n## Verification Notes\n\n- Every reported byte count is measured by this run, \
    never estimated.\n- The benchmark fails rather than reports if the store does not \
    hold exactly the corpus it ingested.\n- Traza stores span payloads as JSON and does \
    not compress them. A ratio below 1:1 is amplification, and is reported as measured \
    rather than inverted into a flattering number.\n- Exact byte counts, so anything \
    derived from this table can be recomputed rather than re-rounded:\n";

/// What stands before the rows that say where the bytes are.
pub const BYTES_HEAD: &'static str = "\
    \nWhere the bytes are:\n\n| Corpus | Segment files | Write-ahead log | Payload store \
    | Other | Total | Segment count |\n|---|---:|---:|---:|---:|---:|---:|\n";

/// A measurement with its derived figures written out.
#[derive(Debug)]
pub struct Figures {
    pub measured: Measurement,
    /// Mebibytes.
    pub ingested: String,
    pub segments: String,
    pub log: String,
    pub payloads: String,
    pub other: String,
    pub total: String,
    /// Ingested divided by stored, stored divided by ingested, and stored
    /// bytes per span.
    pub ratio: String,
    pub amplification: String,
    pub per_span: String,
    /// Gibibytes, and dollars a month for one node and for three.
    pub stored: String,
    pub single: String,
    pub replicated: String,
    /// The server's own report.
    pub stats: String,
}

/// The parts of the report that have a line for every measurement.
#[derive(Clone, Copy, Debug, PartialEq, Eq, Structural)]
pub enum Section {
    Results,
    Bytes,
    Cost,
    About,
    Ingest,
    Stats,
    Exact,
}

/// The line of a measurement in a part of the report.
pub open spec fn line_of(section: Section, f: Figures) -> Seq<char> {
    let m = f.measured;
    let name = profile_name(m.profile);
    match section {
        Section::Results => "| `"@ + name + "` | "@ + dec(m.spans as nat) + " | "@ + f.ingested@
            + " MiB | "@ + f.total@ + " MiB | "@ + f.ratio@ + " : 1 | "@ + f.amplification@
            + "x | "@ + f.per_span@ + " |\n"@,
        Section::Bytes => "| `"@ + name + "` | "@ + f.segments@ + " MiB | "@ + f.log@ + " MiB | "@
            + f.payloads@ + " MiB | "@ + f.other@ + " MiB | "@ + f.total@ + " MiB | "@ + dec(
            m.segment_count as nat,
        ) + " |\n"@,
        Section::Cost => "| `"@ + name + "` | "@ + f.stored@ + " GiB | $"@ + f.single@ + " | $"@
            + f.replicated@ + " |\n"@,
        Section::About => "- **`"@ + name + "`** \u{2014} "@ + described(m.profile) + "\n"@,
        Section::Ingest => "- Ingest for `"@ + name + "`: HTTP `POST /v1/spans`, "@ + dec(
            batch_of(m.profile) as nat,
        ) + " spans per request.\n"@,
        Section::Stats => "- Final server stats (`"@ + name + "`): `"@ + f.stats@ + "`.\n"@,
        Section::Exact => "  - `"@ + name + "`: "@ + dec(m.spans as nat) + " spans, "@ + dec(
            m.ingested_bytes as nat,
        ) + " bytes ingested, "@ + dec(m.held.total as nat) + " bytes on disk ("@ + dec(
            m.held.segments as nat,
        ) + " segments, "@ + dec(m.held.log as nat) + " write-ahead log, "@ + dec(
            m.held.payloads as nat,
        ) + " payload store, "@ + dec(m.held.other as nat) + " other).\n"@,
    }
}

/// What a profile's corpus is.
pub open spec fn described(p: Profile) -> Seq<char> {
    match p {
        Profile::Generic => GENERIC_WORDS@,
        Profile::Llm => LLM_WORDS@,
        Profile::PinnedContext => PINNED_WORDS@,
    }
}

/// How many of a profile's spans go in one request.
pub open spec fn batch_of(p: Profile) -> usize {
    match p {
        Profile::PinnedContext => 100,
        _ => 1_000,
    }
}

/// The lines of a part of the report.
pub open spec fn lines_of(section: Section, all: Seq<Figures>) -> Seq<char>
    decreases all.len(),
{
    if all.len() == 0 {
        Seq::empty()
    } else {
        lines_of(section, all.drop_last()) + line_of(section, all.last())
    }
}

fn line(section: Section, f: &Figures) -> (r: String)
    ensures
        r@ == line_of(section, *f),
{
    let m = &f.measured;
    let name = m.profile.name();
    match section {
        Section::Results => {
            let mut r = copy("| `");
            r.push_str(name);
            r.push_str("` | ");
            push_number(&mut r, m.spans as u64);
            r.push_str(" | ");
            r.push_str(f.ingested.as_str());
            r.push_str(" MiB | ");
            r.push_str(f.total.as_str());
            r.push_str(" MiB | ");
            r.push_str(f.ratio.as_str());
            r.push_str(" : 1 | ");
            r.push_str(f.amplification.as_str());
            r.push_str("x | ");
            r.push_str(f.per_span.as_str());
            r.push_str(" |\n");
            r
        },
        Section::Bytes => {
            let mut r = copy("| `");
            r.push_str(name);
            r.push_str("` | ");
            r.push_str(f.segments.as_str());
            r.push_str(" MiB | ");
            r.push_str(f.log.as_str());
            r.push_str(" MiB | ");
            r.push_str(f.payloads.as_str());
            r.push_str(" MiB | ");
            r.push_str(f.other.as_str());
            r.push_str(" MiB | ");
            r.push_str(f.total.as_str());
            r.push_str(" MiB | ");
            push_number(&mut r, m.segment_count);
            r.push_str(" |\n");
            r
        },
        Section::Cost => {
            let mut r = copy("| `");
            r.push_str(name);
            r.push_str("` | ");
            r.push_str(f.stored.as_str());
            r.push_str(" GiB | $");
            r.push_str(f.single.as_str());
            r.push_str(" | $");
            r.push_str(f.replicated.as_str());
            r.push_str(" |\n");
            r
        },
        Section::About => {
            let mut r = copy("- **`");
            r.push_str(name);
            r.push_str("`** \u{2014} ");
            r.push_str(m.profile.description());
            r.push_str("\n");
            r
        },
        Section::Ingest => {
            let mut r = copy("- Ingest for `");
            r.push_str(name);
            r.push_str("`: HTTP `POST /v1/spans`, ");
            push_number(&mut r, m.profile.batch_size() as u64);
            r.push_str(" spans per request.\n");
            r
        },
        Section::Stats => {
            let mut r = copy("- Final server stats (`");
            r.push_str(name);
            r.push_str("`): `");
            r.push_str(f.stats.as_str());
            r.push_str("`.\n");
            r
        },
        Section::Exact => {
            let mut r = copy("  - `");
            r.push_str(name);
            r.push_str("`: ");
            push_number(&mut r, m.spans as u64);
            r.push_str(" spans, ");
            push_number(&mut r, m.ingested_bytes);
            r.push_str(" bytes ingested, ");
            push_number(&mut r, m.held.total);
            r.push_str(" bytes on disk (");
            push_number(&mut r, m.held.segments);
            r.push_str(" segments, ");
            push_number(&mut r, m.held.log);
            r.push_str(" write-ahead log, ");
            push_number(&mut r, m.held.payloads);
            r.push_str(" payload store, ");
            push_number(&mut r, m.held.other);
            r.push_str(" other).\n");
            r
        },
    }
}

fn lines(section: Section, all: &Vec<Figures>) -> (r: String)
    ensures
        r@ == lines_of(section, all@),
{
    let mut r = String::new();
    let mut i: usize = 0;
    while i < all.len()
        invariant
            i <= all@.len(),
            r@ == lines_of(section, all@.take(i as int)),
        decreases all@.len() - i,
    {
        assert(all@.take(i + 1).drop_last() =~= all@.take(i as int));
        let next = line(section, &all[i]);
        r.push_str(next.as_str());
        i += 1;
    }
    assert(all@.take(all@.len() as int) =~= all@);
    r
}

/// The record of a run.
pub open spec fn report_of(all: Seq<Figures>, measured_at: nat, context: Seq<char>) -> Seq<char> {
    REPORT_HEAD@ + lines_of(Section::Results, all) + BYTES_HEAD@ + lines_of(Section::Bytes, all)
        + COST_WORDS@ + lines_of(Section::Cost, all) + OBJECT_STORAGE_WORDS@
        + "\n## Methodology\n\n"@ + lines_of(Section::About, all) + lines_of(Section::Ingest, all)
        + METHOD_WORDS@ + dec(measured_at) + ".\n- Machine context: "@ + context + ".\n"@ + lines_of(
        Section::Stats,
        all,
    ) + REPORT_NOTES@ + lines_of(Section::Exact, all)
}

/// Writes the record of a run.
pub fn render(all: &Vec<Figures>, measured_at: u64, context: &str) -> (r: String)
    ensures
        r@ == report_of(all@, measured_at as nat, context@),
{
    let mut r = copy(REPORT_HEAD);
    let rows = lines(Section::Results, all);
    r.push_str(rows.as_str());
    r.push_str(BYTES_HEAD);
    let rows = lines(Section::Bytes, all);
    r.push_str(rows.as_str());
    r.push_str(COST_WORDS);
    let rows = lines(Section::Cost, all);
    r.push_str(rows.as_str());
    r.push_str(OBJECT_STORAGE_WORDS);
    r.push_str("\n## Methodology\n\n");
    let rows = lines(Section::About, all);
    r.push_str(rows.as_str());
    let rows = lines(Section::Ingest, all);
    r.push_str(rows.as_str());
    r.push_str(METHOD_WORDS);
    push_number(&mut r, measured_at);
    r.push_str(".\n- Machine context: ");
    r.push_str(context);
    r.push_str(".\n");
    let rows = lines(Section::Stats, all);
    r.push_str(rows.as_str());
    r.push_str(REPORT_NOTES);
    let rows = lines(Section::Exact, all);
    r.push_str(rows.as_str());
    r
}

proof fn lemma_report_keys()
    ensures
        "segment_count"@.len() == 13 && "segment_count"@[0] == 's',
        "bytes_on_disk"@.len() == 13 && "bytes_on_disk"@[0] == 'b',
        "record_count"@.len() == 12,
{
    reveal_strlit("segment_count");
    reveal_strlit("bytes_on_disk");
    reveal_strlit("record_count");
}

/// What a profile is called, and how many of its spans go into a batch.
pub proof fn law_profiles()
    ensures
        profile_name(Profile::Generic) == "generic"@ && profile_name(Profile::Llm) == "llm"@
            && profile_name(Profile::PinnedContext) == "pinned-context"@,
        batch_of(Profile::Generic) == 1_000 && batch_of(Profile::Llm) == 1_000 && batch_of(
            Profile::PinnedContext,
        ) == 100,
        described(Profile::Generic) == GENERIC_WORDS@ && described(Profile::Llm) == LLM_WORDS@
            && described(Profile::PinnedContext) == PINNED_WORDS@,
{
}

/// What a file holds, by its name.
pub proof fn law_what_a_file_holds(middle: Seq<char>, name: Seq<char>)
    ensures
        held_as("segment-"@ + middle + ".seg"@) is Segment,
        held_as("wal"@ + middle) is Log || held_as("wal"@ + middle) is Segment,
        !starts_with("wal"@ + middle, "segment-"@),
        held_as("payloads"@) is Payloads,
        held_as(name) is Segment ==> starts_with(name, "segment-"@) && ends_with(name, ".seg"@),
        held_as(name) is Payloads ==> name == "payloads"@,
        !starts_with(name, "segment-"@) && !starts_with(name, "wal"@) && name != "payloads"@
            ==> held_as(name) is Other,
        starts_with(name, "wal"@) && !ends_with(name, ".seg"@) ==> held_as(name) is Log,
        starts_with(name, "segment-"@) && !ends_with(name, ".seg"@) ==> held_as(name) is Other,
{
    reveal_strlit("segment-");
    reveal_strlit(".seg");
    reveal_strlit("wal");
    reveal_strlit("payloads");
    let whole = "segment-"@ + middle + ".seg"@;
    assert(whole.take(8) =~= "segment-"@);
    assert(whole.skip(whole.len() - 4) =~= ".seg"@);
    let log = "wal"@ + middle;
    assert(log[0] == 'w');
    assert(log.take(3) =~= "wal"@);
    if starts_with(log, "segment-"@) {
        assert(log.take(8)[0] == 's');
    }
    if starts_with("payloads"@, "segment-"@) {
        assert("payloads"@.take(8)[0] == 's');
    }
    if starts_with("payloads"@, "wal"@) {
        assert("payloads"@.take(3)[0] == 'w');
    }
    if starts_with(name, "segment-"@) {
        assert(name.take(8)[0] == 's');
        assert(name[0] == 's');
        if starts_with(name, "wal"@) {
            assert(name.take(3)[0] == 'w');
        }
        if name == "payloads"@ {
            assert(name[0] == 'p');
        }
    }
}

/// The bytes of two lists of files are those of both, as a whole and in each part.
pub proof fn law_bytes_add_up(
    a: Seq<(Seq<char>, u64)>,
    b: Seq<(Seq<char>, u64)>,
    held: Held,
    name: Seq<char>,
    size: u64,
)
    ensures
        bytes_held(a + b, held) == bytes_held(a, held) + bytes_held(b, held),
        bytes_total(a + b) == bytes_total(a) + bytes_total(b),
        bytes_total(seq![(name, size)]) == size,
        bytes_held(seq![(name, size)], held_as(name)) == size,
        held != held_as(name) ==> bytes_held(seq![(name, size)], held) == 0,
    decreases b.len(),
{
    let one = seq![(name, size)];
    assert(one.drop_last() =~= Seq::<(Seq<char>, u64)>::empty());
    reveal_with_fuel(bytes_held, 2);
    reveal_with_fuel(bytes_total, 2);
    if b.len() == 0 {
        assert(a + b =~= a);
    } else {
        law_bytes_add_up(a, b.drop_last(), held, name, size);
        assert((a + b).drop_last() =~= a + b.drop_last());
        assert((a + b).last() == b.last());
    }
}

/// A store is quiet after as many reports in a row that show the same segments and
/// the same bytes; a report that shows others begins anew, and an answer that is
/// no report changes nothing.
pub proof fn law_quiet_reports(q: QuiescenceView, status: u16, stats: JsonView, other: JsonView)
    ensures
        status != 200 ==> after_report(q, status, stats) == q,
        ({
            let once = after_report(q, 200, stats);
            let twice = after_report(once, 200, stats);
            &&& twice.stable == once.stable + 1 && twice.previous == once.previous
            &&& signature_of(other) != signature_of(stats) ==> after_report(
                once,
                200,
                other,
            ).stable == 0
        }),
        stats.field("segment_count"@) == other.field("segment_count"@) && stats.field(
            "bytes_on_disk"@,
        ) == other.field("bytes_on_disk"@) ==> signature_of(stats) == signature_of(other),
        stats.field("segment_count"@) is Some && other.field("segment_count"@) is Some
            && stats.field("segment_count"@) != other.field("segment_count"@) ==> signature_of(stats)
            != signature_of(other),
        stats.field("bytes_on_disk"@) is Some && other.field("bytes_on_disk"@) is Some
            && stats.field("bytes_on_disk"@) != other.field("bytes_on_disk"@) ==> signature_of(stats)
            != signature_of(other),
        after_report(QuiescenceView { previous: None, stable: 0 }, 200, stats).stable == 0,
{
}

/// A count that is not in the report is nought.
pub proof fn law_counts_of_a_report(stats: JsonView, key: Seq<char>)
    ensures
        stats.uint_field(key).is_none() ==> count_of(stats, key) == 0,
        stats.uint_field(key) is Some ==> count_of(stats, key) == stats.uint_field(key)->0,
{
}

/// The lines of a section stand in the order of the measurements, one for each.
pub proof fn law_lines_of_a_section(section: Section, all: Seq<Figures>, f: Figures)
    ensures
        lines_of(section, all.push(f)) == lines_of(section, all) + line_of(section, f),
        lines_of(section, seq![]) == Seq::<char>::empty(),
{
    assert(all.push(f).drop_last() =~= all);
    assert(all.push(f).last() == f);
}

} // verus!
