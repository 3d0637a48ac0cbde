//! The ingest benchmark: its scenarios, how a run is judged, and the record it
//! writes.

use vstd::prelude::*;

use crate::client::{lines_of, metric_from, metric_value};
use crate::json::{json_document, read_json, JsonView};
use crate::queries::{joined, read_usize, usize_of};
use crate::sort::{lemma_sorted_through, sort, sorted, Ranked, Sortable};
use crate::text::{
    contains_text, copy, dec, decimal, lowered, number_to, opt_view, parse_number, same,
    strip_prefix, text_after, text_contains, texts, to_lower, trim, trimmed,
};

verus! {

// -------------------------------------------------------------------- scenarios

/// Where a run puts its spans.
#[derive(Clone, Copy, Debug, PartialEq, Eq, Structural)]
pub enum Mode {
    /// Straight into the engine, without a socket.
    Direct,
    Http,
}

/// A wire format together with the route that takes it.
#[derive(Clone, Copy, Debug, PartialEq, Eq, Structural)]
pub enum Protocol {
    NativeJson,
    OtlpJson,
    OtlpProtobuf,
}

pub open spec fn protocol_name(p: Protocol) -> Seq<char> {
    match p {
        Protocol::NativeJson => "native-json"@,
        Protocol::OtlpJson => "otlp-json"@,
        Protocol::OtlpProtobuf => "otlp-protobuf"@,
    }
}

pub open spec fn protocol_route(p: Protocol) -> Seq<char> {
    match p {
        Protocol::NativeJson => "/v1/spans"@,
        Protocol::OtlpJson => "/v1/traces"@,
        Protocol::OtlpProtobuf => "/v1/traces"@,
    }
}

pub open spec fn protocol_content_type(p: Protocol) -> Seq<char> {
    match p {
        Protocol::NativeJson => "application/json"@,
        Protocol::OtlpJson => "application/json"@,
        Protocol::OtlpProtobuf => "application/x-protobuf"@,
    }
}

impl Protocol {
    pub fn as_str(self) -> (r: &'static str)
        ensures
            r@ == protocol_name(self),
    {
        match self {
            Protocol::NativeJson => "native-json",
            Protocol::OtlpJson => "otlp-json",
            Protocol::OtlpProtobuf => "otlp-protobuf",
        }
    }

    /// The route that takes the wire format.
    pub fn route(self) -> (r: &'static str)
        ensures
            r@ == protocol_route(self),
    {
        match self {
            Protocol::NativeJson => "/v1/spans",
            Protocol::OtlpJson => "/v1/traces",
            Protocol::OtlpProtobuf => "/v1/traces",
        }
    }

    pub fn content_type(self) -> (r: &'static str)
        ensures
            r@ == protocol_content_type(self),
    {
        match self {
            Protocol::NativeJson => "application/json",
            Protocol::OtlpJson => "application/json",
            Protocol::OtlpProtobuf => "application/x-protobuf",
        }
    }
}

/// The two OTLP encodings share a route, so a difference between them is the
/// wire format; the two JSON encodings share a content type, so a difference
/// between them is the mapping.
pub proof fn law_protocols_differ_in_one_thing()
    ensures
        protocol_route(Protocol::OtlpJson) == protocol_route(Protocol::OtlpProtobuf),
        protocol_content_type(Protocol::NativeJson) == protocol_content_type(Protocol::OtlpJson),
{
}

/// One configuration to measure.
#[derive(Debug)]
pub struct Scenario {
    pub label: String,
    pub mode: Mode,
    pub protocol: Protocol,
    pub keep_alive: bool,
    pub durability: &'static str,
    pub concurrency: usize,
    pub batch: usize,
    pub spans: usize,
}

/// The view of a scenario.
pub struct ScenarioView {
    pub label: Seq<char>,
    pub mode: Mode,
    pub protocol: Protocol,
    pub keep_alive: bool,
    pub durability: Seq<char>,
    pub concurrency: usize,
    pub batch: usize,
    pub spans: usize,
}

impl View for Scenario {
    type V = ScenarioView;

    open spec fn view(&self) -> ScenarioView {
        ScenarioView {
            label: self.label@,
            mode: self.mode,
            protocol: self.protocol,
            keep_alive: self.keep_alive,
            durability: self.durability@,
            concurrency: self.concurrency,
            batch: self.batch,
            spans: self.spans,
        }
    }
}

pub open spec fn scenario_views(scenarios: Seq<Scenario>) -> Seq<ScenarioView> {
    Seq::new(scenarios.len(), |i: int| scenarios[i]@)
}

pub open spec fn on_off(on: bool) -> Seq<char> {
    if on {
        "on"@
    } else {
        "off"@
    }
}

fn on_or_off(on: bool) -> (r: &'static str)
    ensures
        r@ == on_off(on),
{
    if on {
        "on"
    } else {
        "off"
    }
}

fn push_number(r: &mut String, n: usize)
    ensures
        final(r)@ == old(r)@ + dec(n as nat),
{
    let digits = decimal(n as u64);
    r.push_str(digits.as_str());
}

/// What a scenario is, in words.
pub open spec fn described(s: ScenarioView) -> Seq<char> {
    if s.mode == Mode::Direct {
        "direct engine, durability="@ + s.durability + ", batch="@ + dec(s.batch as nat)
            + ", concurrency="@ + dec(s.concurrency as nat)
    } else {
        "http "@ + protocol_name(s.protocol) + " -> "@ + protocol_route(s.protocol)
            + ", keep-alive="@ + on_off(s.keep_alive) + ", durability="@ + s.durability
            + ", batch="@ + dec(s.batch as nat) + ", concurrency="@ + dec(s.concurrency as nat)
    }
}

impl Scenario {
    /// Says what the scenario is.
    pub fn describe(&self) -> (r: String)
        ensures
            r@ == described(self@),
    {
        if self.mode == Mode::Direct {
            let mut r = copy("direct engine, durability=");
            r.push_str(self.durability);
            r.push_str(", batch=");
            push_number(&mut r, self.batch);
            r.push_str(", concurrency=");
            push_number(&mut r, self.concurrency);
            return r;
        }
        let mut r = copy("http ");
        r.push_str(self.protocol.as_str());
        r.push_str(" -> ");
        r.push_str(self.protocol.route());
        r.push_str(", keep-alive=");
        r.push_str(on_or_off(self.keep_alive));
        r.push_str(", durability=");
        r.push_str(self.durability);
        r.push_str(", batch=");
        push_number(&mut r, self.batch);
        r.push_str(", concurrency=");
        push_number(&mut r, self.concurrency);
        r
    }

    /// Whether a run measures the scenario: all of them without a filter, else
    /// those with the filter in their label.
    pub fn selected(&self, only: &Option<String>) -> (r: bool)
        ensures
            r == match opt_view(*only) {
                Some(filter) => contains_text(lowered(self@.label), filter),
                None => true,
            },
    {
        match only {
            Some(filter) => {
                let label = to_lower(self.label.as_str());
                text_contains(label.as_str(), filter.as_str())
            },
            None => true,
        }
    }
}

/// A scenario on the engine itself.
pub open spec fn direct(label: Seq<char>, durability: Seq<char>, batch: usize, spans: usize) -> ScenarioView {
    ScenarioView {
        label,
        mode: Mode::Direct,
        protocol: Protocol::NativeJson,
        keep_alive: false,
        durability,
        concurrency: 8,
        batch,
        spans,
    }
}

/// A scenario over HTTP, in the durable mode.
pub open spec fn over_http(
    label: Seq<char>,
    protocol: Protocol,
    keep_alive: bool,
    concurrency: usize,
    batch: usize,
    spans: usize,
) -> ScenarioView {
    ScenarioView {
        label,
        mode: Mode::Http,
        protocol,
        keep_alive,
        durability: "wal"@,
        concurrency,
        batch,
        spans,
    }
}

/// The label of a protocol at a concurrency.
pub open spec fn matrix_label(protocol: Protocol, concurrency: usize) -> Seq<char> {
    "http-"@ + protocol_name(protocol) + "-wal-c"@ + dec(concurrency as nat)
}

/// The three protocols at each concurrency.
pub open spec fn matrix(concurrencies: Seq<usize>, batch: usize, spans: usize) -> Seq<ScenarioView>
    decreases concurrencies.len(),
{
    if concurrencies.len() == 0 {
        seq![]
    } else {
        let c = concurrencies.last();
        matrix(concurrencies.drop_last(), batch, spans).push(
            over_http(
                matrix_label(Protocol::NativeJson, c),
                Protocol::NativeJson,
                true,
                c,
                batch,
                spans,
            ),
        ).push(
            over_http(
                matrix_label(Protocol::OtlpJson, c),
                Protocol::OtlpJson,
                true,
                c,
                batch,
                spans,
            ),
        ).push(
            over_http(
                matrix_label(Protocol::OtlpProtobuf, c),
                Protocol::OtlpProtobuf,
                true,
                c,
                batch,
                spans,
            ),
        )
    }
}

/// The fixed scenarios: the engine in two modes, and the two connection
/// policies.
pub open spec fn fixed_scenarios(batch: usize, spans: usize) -> Seq<ScenarioView> {
    seq![
        direct("direct-engine-wal"@, "wal"@, batch, spans),
        direct("direct-engine-buffered"@, "buffered"@, batch, spans),
        over_http(
            "http-native-json-wal-keepalive-"@ + on_off(false),
            Protocol::NativeJson,
            false,
            8,
            batch,
            spans,
        ),
        over_http(
            "http-native-json-wal-keepalive-"@ + on_off(true),
            Protocol::NativeJson,
            true,
            8,
            batch,
            spans,
        ),
    ]
}

fn http_scenario(
    label: String,
    protocol: Protocol,
    keep_alive: bool,
    concurrency: usize,
    batch: usize,
    spans: usize,
) -> (r: Scenario)
    ensures
        r@ == over_http(label@, protocol, keep_alive, concurrency, batch, spans),
{
    Scenario {
        label,
        mode: Mode::Http,
        protocol,
        keep_alive,
        durability: "wal",
        concurrency,
        batch,
        spans,
    }
}

fn label_at(protocol: Protocol, concurrency: usize) -> (r: String)
    ensures
        r@ == matrix_label(protocol, concurrency),
{
    let mut r = copy("http-");
    r.push_str(protocol.as_str());
    r.push_str("-wal-c");
    push_number(&mut r, concurrency);
    r
}

/// The scenarios of a run.
pub fn scenarios(concurrencies: &Vec<usize>, batch: usize, spans: usize) -> (r: Vec<Scenario>)
    ensures
        scenario_views(r@) == fixed_scenarios(batch, spans) + matrix(concurrencies@, batch, spans),
{
    let mut r: Vec<Scenario> = Vec::new();
    r.push(
        Scenario {
            label: copy("direct-engine-wal"),
            mode: Mode::Direct,
            protocol: Protocol::NativeJson,
            keep_alive: false,
            durability: "wal",
            concurrency: 8,
            batch,
            spans,
        },
    );
    r.push(
        Scenario {
            label: copy("direct-engine-buffered"),
            mode: Mode::Direct,
            protocol: Protocol::NativeJson,
            keep_alive: false,
            durability: "buffered",
            concurrency: 8,
            batch,
            spans,
        },
    );
    let label = joined("http-native-json-wal-keepalive-", on_or_off(false));
    r.push(http_scenario(label, Protocol::NativeJson, false, 8, batch, spans));
    let label = joined("http-native-json-wal-keepalive-", on_or_off(true));
    r.push(http_scenario(label, Protocol::NativeJson, true, 8, batch, spans));
    let ghost fixed = fixed_scenarios(batch, spans);
    assert(scenario_views(r@) =~= fixed + matrix(concurrencies@.take(0), batch, spans));
    let mut i: usize = 0;
    while i < concurrencies.len()
        invariant
            i <= concurrencies@.len(),
            fixed == fixed_scenarios(batch, spans),
            scenario_views(r@) == fixed + matrix(concurrencies@.take(i as int), batch, spans),
        decreases concurrencies@.len() - i,
    {
        let c = concurrencies[i];
        let ghost before = scenario_views(r@);
        let a = http_scenario(
            label_at(Protocol::NativeJson, c),
            Protocol::NativeJson,
            true,
            c,
            batch,
            spans,
        );
        let b = http_scenario(
            label_at(Protocol::OtlpJson, c),
            Protocol::OtlpJson,
            true,
            c,
            batch,
            spans,
        );
        let d = http_scenario(
            label_at(Protocol::OtlpProtobuf, c),
            Protocol::OtlpProtobuf,
            true,
            c,
            batch,
            spans,
        );
        let ghost (av, bv, dv) = (a@, b@, d@);
        r.push(a);
        r.push(b);
        r.push(d);
        proof {
            assert(concurrencies@.take(i + 1).drop_last() =~= concurrencies@.take(i as int));
            assert(scenario_views(r@) =~= before.push(av).push(bv).push(dv));
            assert(scenario_views(r@) =~= fixed + matrix(
                concurrencies@.take(i + 1),
                batch,
                spans,
            ));
        }
        i += 1;
    }
    assert(concurrencies@.take(concurrencies@.len() as int) =~= concurrencies@);
    r
}

// -------------------------------------------------------------------- arguments

/// What a run was asked for.
#[derive(Debug)]
pub struct BenchOptions {
    pub spans: usize,
    pub runs: usize,
    pub batch: usize,
    pub concurrencies: Vec<usize>,
    pub only: Option<String>,
}

/// The view of what a run was asked for.
pub struct BenchView {
    pub spans: usize,
    pub runs: usize,
    pub batch: usize,
    pub concurrencies: Seq<usize>,
    pub only: Option<Seq<char>>,
}

impl View for BenchOptions {
    type V = BenchView;

    open spec fn view(&self) -> BenchView {
        BenchView {
            spans: self.spans,
            runs: self.runs,
            batch: self.batch,
            concurrencies: self.concurrencies@,
            only: opt_view(self.only),
        }
    }
}

/// How arguments end.
#[derive(Debug)]
pub enum BenchCommand {
    Help,
    Run(BenchOptions),
}

/// The view of how arguments end.
pub enum BenchCommandView {
    Help,
    Run(BenchView),
}

impl View for BenchCommand {
    type V = BenchCommandView;

    open spec fn view(&self) -> BenchCommandView {
        match self {
            BenchCommand::Help => BenchCommandView::Help,
            BenchCommand::Run(options) => BenchCommandView::Run(options@),
        }
    }
}

/// What is asked for without arguments.
pub open spec fn default_bench() -> BenchView {
    BenchView { spans: 500_000, runs: 5, batch: 1_000, concurrencies: seq![], only: None }
}

/// The number behind a flag, at `i`.
pub open spec fn number_at(args: Seq<Seq<char>>, i: int, name: Seq<char>) -> Result<
    usize,
    Seq<char>,
> {
    if i >= args.len() {
        Err(name + " requires a value"@)
    } else {
        match usize_of(args[i]) {
            Some(n) => Ok(n),
            None => Err(name + " must be a number"@),
        }
    }
}

/// The options after a flag with a number.
pub open spec fn with_number(o: BenchView, flag: Seq<char>, n: usize) -> BenchView {
    if flag == "--spans"@ {
        BenchView { spans: n, ..o }
    } else if flag == "--runs"@ {
        BenchView { runs: n, ..o }
    } else if flag == "--batch"@ {
        BenchView { batch: n, ..o }
    } else {
        BenchView { concurrencies: o.concurrencies.push(n), ..o }
    }
}

pub open spec fn takes_number(flag: Seq<char>) -> bool {
    flag == "--spans"@ || flag == "--runs"@ || flag == "--batch"@ || flag == "--concurrency"@
}

/// Reads the arguments from `i` on.
pub open spec fn scan(args: Seq<Seq<char>>, i: int, o: BenchView) -> Result<
    BenchCommandView,
    Seq<char>,
>
    decreases args.len() - i,
{
    if i < 0 || i >= args.len() {
        Ok(
            BenchCommandView::Run(
                if o.concurrencies.len() == 0 {
                    BenchView { concurrencies: seq![1, 4, 8, 16], ..o }
                } else {
                    o
                },
            ),
        )
    } else if takes_number(args[i]) {
        match number_at(args, i + 1, args[i]) {
            Ok(n) => scan(args, i + 2, with_number(o, args[i], n)),
            Err(message) => Err(message),
        }
    } else if args[i] == "--only"@ {
        if i + 1 >= args.len() {
            Err("--only requires a substring"@)
        } else {
            scan(args, i + 2, BenchView { only: Some(lowered(args[i + 1])), ..o })
        }
    } else if args[i] == "--help"@ || args[i] == "-h"@ {
        Ok(BenchCommandView::Help)
    } else {
        Err("unknown argument: "@ + args[i])
    }
}

fn parse_usize(args: &[String], index: usize, name: &str) -> (r: Result<usize, String>)
    ensures
        match r {
            Ok(n) => number_at(texts(args@), index as int, name@) == Ok::<usize, Seq<char>>(n),
            Err(message) => number_at(texts(args@), index as int, name@) == Err::<
                usize,
                Seq<char>,
            >(message@),
        },
{
    if index >= args.len() {
        return Err(joined(name, " requires a value"));
    }
    assert(texts(args@)[index as int] == args@[index as int]@);
    match read_usize(args[index].as_str()) {
        Some(n) => Ok(n),
        None => Err(joined(name, " must be a number")),
    }
}

/// Reads the arguments of the benchmark.
pub fn parse(args: &[String]) -> (r: Result<BenchCommand, String>)
    ensures
        match r {
            Ok(command) => scan(texts(args@), 0, default_bench()) == Ok::<
                BenchCommandView,
                Seq<char>,
            >(command@),
            Err(message) => scan(texts(args@), 0, default_bench()) == Err::<
                BenchCommandView,
                Seq<char>,
            >(message@),
        },
{
    let mut options = BenchOptions {
        spans: 500_000,
        runs: 5,
        batch: 1_000,
        concurrencies: Vec::new(),
        only: None,
    };
    let ghost all = texts(args@);
    assert(options@ =~= default_bench());
    let n: usize = args.len();
    let mut i: usize = 0;
    while i < n
        invariant
            n == args@.len(),
            i <= n,
            all == texts(args@),
            scan(all, i as int, options@) == scan(all, 0, default_bench()),
        decreases n - i,
    {
        assert(all[i as int] == args@[i as int]@);
        let flag = args[i].as_str();
        if same(flag, "--spans") || same(flag, "--runs") || same(flag, "--batch") || same(
            flag,
            "--concurrency",
        ) {
            let value = match parse_usize(args, i + 1, flag) {
                Ok(value) => value,
                Err(message) => {
                    return Err(message);
                },
            };
            let ghost before = options@;
            if same(flag, "--spans") {
                options.spans = value;
            } else if same(flag, "--runs") {
                options.runs = value;
            } else if same(flag, "--batch") {
                options.batch = value;
            } else {
                options.concurrencies.push(value);
            }
            assert(options@ == with_number(before, flag@, value));
            i += 2;
        } else if same(flag, "--only") {
            if i + 1 >= n {
                return Err(copy("--only requires a substring"));
            }
            assert(all[i + 1] == args@[i + 1]@);
            options.only = Some(to_lower(args[i + 1].as_str()));
            i += 2;
        } else if same(flag, "--help") || same(flag, "-h") {
            return Ok(BenchCommand::Help);
        } else {
            return Err(joined("unknown argument: ", flag));
        }
    }
    if options.concurrencies.len() == 0 {
        options.concurrencies.push(1);
        options.concurrencies.push(4);
        options.concurrencies.push(8);
        options.concurrencies.push(16);
        assert(options@.concurrencies =~= seq![1usize, 4, 8, 16]);
    }
    Ok(BenchCommand::Run(options))
}

// ------------------------------------------------------------------------- runs

/// What a line that a starting server prints says of its port.
#[derive(Clone, Copy, Debug, PartialEq, Eq, Structural)]
pub enum Startup {
    /// Something else.
    Other,
    /// It listens on this port.
    Port(u16),
    /// It listens, but the port cannot be read.
    Malformed,
}

/// What a line that a starting server prints says of its port.
pub open spec fn startup_of(line: Seq<char>) -> Startup {
    match strip_prefix(line, "traza-server listening on 127.0.0.1:"@) {
        Some(rest) => match number_to(trimmed(rest), u16::MAX as nat) {
            Some(port) => Startup::Port(port as u16),
            None => Startup::Malformed,
        },
        None => Startup::Other,
    }
}

/// Reads a line that a starting server prints.
pub fn read_startup(line: &str) -> (r: Startup)
    ensures
        r == startup_of(line@),
{
    match text_after(line, "traza-server listening on 127.0.0.1:") {
        Some(rest) => {
            let port = trim(rest.as_str());
            match parse_number(port.as_str(), 65_535) {
                Some(port) => Startup::Port(port as u16),
                None => Startup::Malformed,
            }
        },
        None => Startup::Other,
    }
}

/// What a statistics response says of the wait for a corpus.
#[derive(Debug)]
pub enum Records {
    /// As many records as expected, or more.
    Stored(u64),
    /// Ask again.
    Again,
    /// The wait failed.
    Failed(String),
}

/// The view of what a statistics response says.
pub enum RecordsView {
    Stored(nat),
    Again,
    Failed(Seq<char>),
}

impl View for Records {
    type V = RecordsView;

    open spec fn view(&self) -> RecordsView {
        match self {
            Records::Stored(n) => RecordsView::Stored(*n as nat),
            Records::Again => RecordsView::Again,
            Records::Failed(message) => RecordsView::Failed(message@),
        }
    }
}

/// The records that a report counts.
pub open spec fn record_count(document: JsonView) -> nat {
    match document.uint_field("record_count"@) {
        Some(n) => n,
        None => 0,
    }
}

/// What a statistics response says of the wait for a corpus; a response that
/// did not succeed is no answer, however late it is.
pub open spec fn records_of(
    status: u16,
    document: Result<JsonView, Seq<char>>,
    expected: nat,
    late: bool,
) -> RecordsView {
    if status != 200 {
        RecordsView::Again
    } else {
        match document {
            Ok(document) => if record_count(document) >= expected {
                RecordsView::Stored(record_count(document))
            } else if late {
                RecordsView::Failed(
                    "only "@ + dec(record_count(document)) + " of "@ + dec(expected)
                        + " spans stored"@,
                )
            } else {
                RecordsView::Again
            },
            Err(message) => RecordsView::Failed(message),
        }
    }
}

/// Reads a statistics response while waiting for a corpus.
pub fn read_records(status: u16, body: &[u8], expected: u64, late: bool) -> (r: Records)
    ensures
        r@ == records_of(status, json_document(body@), expected as nat, late),
{
    if status != 200 {
        return Records::Again;
    }
    let document = match read_json(body) {
        Ok(document) => document,
        Err(message) => {
            return Records::Failed(message);
        },
    };
    let count: u64 = match document.uint_at("record_count") {
        Some(n) => n,
        None => 0,
    };
    if count >= expected {
        Records::Stored(count)
    } else if late {
        let mut message = copy("only ");
        let digits = decimal(count);
        message.push_str(digits.as_str());
        message.push_str(" of ");
        let digits = decimal(expected);
        message.push_str(digits.as_str());
        message.push_str(" spans stored");
        Records::Failed(message)
    } else {
        Records::Again
    }
}

/// How far a run over HTTP has come.
#[derive(Clone, Copy, Debug, PartialEq, Eq, Structural)]
pub enum Phase {
    /// The clients are sending.
    Sending,
    /// Waiting until the server shows the corpus.
    Counting,
    /// Reading the server's metrics.
    Scraping { stored: u64 },
    /// Waiting until the restarted server shows the corpus.
    Recovering { stored: u64, refused: u64 },
    /// Nothing is left to do.
    Over,
}

/// What happened.
#[derive(Debug)]
pub enum Happened {
    /// The clients are done; so many batches failed.
    Sent { failed: usize },
    /// The server shows so many records.
    Counted { records: u64 },
    /// The server did not get to show the corpus.
    NotCounted { message: String },
    /// So many connections were refused.
    Scraped { refused: u64 },
}

/// The view of what happened.
pub enum HappenedView {
    Sent { failed: usize },
    Counted { records: u64 },
    NotCounted { message: Seq<char> },
    Scraped { refused: u64 },
}

impl View for Happened {
    type V = HappenedView;

    open spec fn view(&self) -> HappenedView {
        match self {
            Happened::Sent { failed } => HappenedView::Sent { failed: *failed },
            Happened::Counted { records } => HappenedView::Counted { records: *records },
            Happened::NotCounted { message } => HappenedView::NotCounted { message: message@ },
            Happened::Scraped { refused } => HappenedView::Scraped { refused: *refused },
        }
    }
}

/// What to do next.
#[derive(Debug)]
pub enum Next {
    /// Wait until the server shows the corpus.
    Count,
    /// Read the server's metrics.
    Scrape,
    /// Restart the server on the same data, and wait again.
    Restart,
    /// The run is a result.
    Done { stored: u64, refused: u64 },
    /// The run is not a result.
    Fail { message: String },
    /// What happened does not belong to the phase.
    Nothing,
}

/// The view of what to do next.
pub enum NextView {
    Count,
    Scrape,
    Restart,
    Done { stored: u64, refused: u64 },
    Fail { message: Seq<char> },
    Nothing,
}

impl View for Next {
    type V = NextView;

    open spec fn view(&self) -> NextView {
        match self {
            Next::Count => NextView::Count,
            Next::Scrape => NextView::Scrape,
            Next::Restart => NextView::Restart,
            Next::Done { stored, refused } => NextView::Done { stored: *stored, refused: *refused },
            Next::Fail { message } => NextView::Fail { message: message@ },
            Next::Nothing => NextView::Nothing,
        }
    }
}

/// Whether a mode promises that what it acknowledged survives.
pub open spec fn survives(durability: Seq<char>) -> bool {
    durability != "buffered"@
}

/// What follows what happened: the next phase, and what to do.
pub open spec fn run_step(
    phase: Phase,
    happened: HappenedView,
    spans: usize,
    durability: Seq<char>,
) -> (Phase, NextView) {
    match (phase, happened) {
        (Phase::Sending, HappenedView::Sent { failed }) => if failed > 0 {
            (
                Phase::Over,
                NextView::Fail {
                    message: dec(failed as nat) + " batches failed; the run is not a result"@,
                },
            )
        } else {
            (Phase::Counting, NextView::Count)
        },
        (Phase::Counting, HappenedView::Counted { records }) => (
            Phase::Scraping { stored: records },
            NextView::Scrape,
        ),
        (Phase::Counting, HappenedView::NotCounted { message }) => (
            Phase::Over,
            NextView::Fail { message },
        ),
        (Phase::Scraping { stored }, HappenedView::Scraped { refused }) => if survives(durability) {
            (Phase::Recovering { stored, refused }, NextView::Restart)
        } else {
            (Phase::Over, NextView::Done { stored, refused })
        },
        (
            Phase::Recovering { stored, refused },
            HappenedView::Counted { records },
        ) => if records < spans {
            (
                Phase::Over,
                NextView::Fail {
                    message: "durability check failed: acknowledged "@ + dec(spans as nat)
                        + " spans, recovered "@ + dec(records as nat),
                },
            )
        } else {
            (Phase::Over, NextView::Done { stored, refused })
        },
        (Phase::Recovering { .. }, HappenedView::NotCounted { message }) => (
            Phase::Over,
            NextView::Fail {
                message: "durability check failed after restart ("@ + durability + "): "@ + message,
            },
        ),
        _ => (phase, NextView::Nothing),
    }
}

/// A run over HTTP.
#[derive(Debug)]
pub struct HttpRun {
    pub spans: usize,
    pub durability: &'static str,
    pub phase: Phase,
}

impl HttpRun {
    /// A run whose clients are about to send.
    pub fn new(scenario: &Scenario) -> (r: HttpRun)
        ensures
            r.spans == scenario@.spans,
            r.durability@ == scenario@.durability,
            r.phase == Phase::Sending,
    {
        HttpRun {
            spans: scenario.spans,
            durability: scenario.durability,
            phase: Phase::Sending,
        }
    }

    /// Takes what happened, and says what to do next.
    pub fn step(&mut self, happened: Happened) -> (r: Next)
        ensures
            (final(self).phase, r@) == run_step(
                old(self).phase,
                happened@,
                old(self).spans,
                old(self).durability@,
            ),
            final(self).spans == old(self).spans,
            final(self).durability@ == old(self).durability@,
    {
        match (self.phase, happened) {
            (Phase::Sending, Happened::Sent { failed }) => {
                if failed > 0 {
                    self.phase = Phase::Over;
                    let digits = decimal(failed as u64);
                    let message = joined(
                        digits.as_str(),
                        " batches failed; the run is not a result",
                    );
                    Next::Fail { message }
                } else {
                    self.phase = Phase::Counting;
                    Next::Count
                }
            },
            (Phase::Counting, Happened::Counted { records }) => {
                self.phase = Phase::Scraping { stored: records };
                Next::Scrape
            },
            (Phase::Counting, Happened::NotCounted { message }) => {
                self.phase = Phase::Over;
                Next::Fail { message }
            },
            (Phase::Scraping { stored }, Happened::Scraped { refused }) => {
                if !same(self.durability, "buffered") {
                    self.phase = Phase::Recovering { stored, refused };
                    Next::Restart
                } else {
                    self.phase = Phase::Over;
                    Next::Done { stored, refused }
                }
            },
            (Phase::Recovering { stored, refused }, Happened::Counted { records }) => {
                self.phase = Phase::Over;
                if records < self.spans as u64 {
                    let mut message = copy("durability check failed: acknowledged ");
                    push_number(&mut message, self.spans);
                    message.push_str(" spans, recovered ");
                    let digits = decimal(records);
                    message.push_str(digits.as_str());
                    Next::Fail { message }
                } else {
                    Next::Done { stored, refused }
                }
            },
            (Phase::Recovering { .. }, Happened::NotCounted { message: cause }) => {
                self.phase = Phase::Over;
                let mut message = copy("durability check failed after restart (");
                message.push_str(self.durability);
                message.push_str("): ");
                message.push_str(cause.as_str());
                Next::Fail { message }
            },
            _ => Next::Nothing,
        }
    }
}

/// A run in a mode that promises survival is a result only once a restarted
/// server has shown the whole corpus.
pub proof fn law_a_durable_result_survived_a_restart(
    phase: Phase,
    happened: HappenedView,
    spans: usize,
    durability: Seq<char>,
)
    requires
        survives(durability),
        run_step(phase, happened, spans, durability).1 is Done,
    ensures
        phase is Recovering,
        happened matches HappenedView::Counted { records } && records >= spans,
{
}

/// A run with a failed batch is never a result.
pub proof fn law_a_failed_batch_spoils_the_run(failed: usize, spans: usize, durability: Seq<char>)
    requires
        failed > 0,
    ensures
        run_step(Phase::Sending, HappenedView::Sent { failed }, spans, durability).0 == Phase::Over,
        run_step(Phase::Sending, HappenedView::Sent { failed }, spans, durability).1 is Fail,
{
}

/// Why a finished run does not count.
pub open spec fn verdict_of(refused: u64, stored: u64, spans: usize) -> Option<Seq<char>> {
    if refused > 0 {
        Some(
            "server shed "@ + dec(refused as nat)
                + " connections; the rate is not sustained"@,
        )
    } else if stored < spans {
        Some("stored "@ + dec(stored as nat) + " of "@ + dec(spans as nat) + " spans"@)
    } else {
        None
    }
}

/// Says why a finished run does not count, if it does not.
pub fn verdict(refused: u64, stored: u64, spans: usize) -> (r: Option<String>)
    ensures
        opt_view(r) == verdict_of(refused, stored, spans),
{
    if refused > 0 {
        let mut message = copy("server shed ");
        let digits = decimal(refused);
        message.push_str(digits.as_str());
        message.push_str(" connections; the rate is not sustained");
        Some(message)
    } else if stored < spans as u64 {
        let mut message = copy("stored ");
        let digits = decimal(stored);
        message.push_str(digits.as_str());
        message.push_str(" of ");
        push_number(&mut message, spans);
        message.push_str(" spans");
        Some(message)
    } else {
        None
    }
}

// ----------------------------------------------------------------------- stages

/// A number of the metrics, or nothing.
pub open spec fn metric_or_zero(metrics: Seq<char>, name: Seq<char>) -> u64 {
    match metric_from(lines_of(metrics), name, 0) {
        Some(n) => n,
        None => 0,
    }
}

fn metric(metrics: &str, name: &str) -> (r: u64)
    ensures
        r == metric_or_zero(metrics@, name@),
{
    match metric_value(metrics, name) {
        Some(n) => n,
        None => 0,
    }
}

/// The refused connections that metrics count.
pub fn refused_connections(metrics: &str) -> (r: u64)
    ensures
        r == metric_or_zero(metrics@, "traza_http_connections_refused_total"@),
{
    metric(metrics, "traza_http_connections_refused_total")
}

/// The nanoseconds spent decoding and the spans decoded, where metrics have
/// both and some were.
pub fn decode_counts(metrics: &str) -> (r: Option<(u64, u64)>)
    ensures
        r == match (
            metric_from(lines_of(metrics@), "traza_http_decode_ns_sum"@, 0),
            metric_from(lines_of(metrics@), "traza_http_decoded_spans_total"@, 0),
        ) {
            (Some(sum), Some(spans)) => if spans > 0 {
                Some((sum, spans))
            } else {
                None
            },
            _ => None,
        },
{
    let sum = metric_value(metrics, "traza_http_decode_ns_sum");
    let spans = metric_value(metrics, "traza_http_decoded_spans_total");
    match (sum, spans) {
        (Some(sum), Some(spans)) => if spans > 0 {
            Some((sum, spans))
        } else {
            None
        },
        _ => None,
    }
}

/// The acknowledgements and the syncs that metrics count, where there was a
/// sync.
pub fn group_commit(metrics: &str) -> (r: Option<(u64, u64)>)
    ensures
        r == {
            let fsyncs = metric_or_zero(metrics@, "traza_wal_fsync_ns_count"@);
            if fsyncs > 0 {
                Some((metric_or_zero(metrics@, "traza_wal_commits_total"@), fsyncs))
            } else {
                None
            }
        },
{
    let commits = metric(metrics, "traza_wal_commits_total");
    let fsyncs = metric(metrics, "traza_wal_fsync_ns_count");
    if fsyncs > 0 {
        Some((commits, fsyncs))
    } else {
        None
    }
}

/// What one stage of ingest took: nanoseconds over all its calls.
#[derive(Clone, Copy, Debug)]
pub struct Stage {
    pub label: &'static str,
    pub sum_ns: u64,
    pub count: u64,
}

/// The view of what a stage took.
pub struct StageView {
    pub label: Seq<char>,
    pub sum_ns: u64,
    pub count: u64,
}

impl View for Stage {
    type V = StageView;

    open spec fn view(&self) -> StageView {
        StageView { label: self.label@, sum_ns: self.sum_ns, count: self.count }
    }
}

impl Ranked for StageView {
    /// The stage that took longest comes first.
    open spec fn ranks(&self, other: &Self) -> bool {
        self.sum_ns >= other.sum_ns
    }

    proof fn total(a: &Self, b: &Self) {
    }

    proof fn transitive(a: &Self, b: &Self, c: &Self) {
    }
}

impl Ranked for Stage {
    open spec fn ranks(&self, other: &Self) -> bool {
        self.sum_ns >= other.sum_ns
    }

    proof fn total(a: &Self, b: &Self) {
    }

    proof fn transitive(a: &Self, b: &Self, c: &Self) {
    }
}

impl Sortable for Stage {
    fn at_most(&self, other: &Self) -> (r: bool) {
        self.sum_ns >= other.sum_ns
    }
}

/// The stages of ingest: what each is called, and the metric it is read from.
pub open spec fn stage_names() -> Seq<(Seq<char>, Seq<char>)> {
    seq![
        ("decode (wire -> spans)"@, "traza_http_decode"@),
        ("writer lock wait"@, "traza_writer_lock_wait"@),
        ("wal encode"@, "traza_wal_encode"@),
        ("wal write"@, "traza_wal_write"@),
        ("wal fsync"@, "traza_wal_fsync"@),
        ("buffer upsert"@, "traza_buffer_upsert"@),
        ("segment seal"@, "traza_segment_seal"@),
    ]
}

/// The stages among the first `n` that were called at all.
pub open spec fn called_stages(metrics: Seq<char>, n: int) -> Seq<StageView>
    decreases n,
{
    if n <= 0 {
        seq![]
    } else {
        let before = called_stages(metrics, n - 1);
        let (label, prefix) = stage_names()[n - 1];
        let count = metric_or_zero(metrics, prefix + "_ns_count"@);
        if count == 0 {
            before
        } else {
            before.push(
                StageView {
                    label,
                    sum_ns: metric_or_zero(metrics, prefix + "_ns_sum"@),
                    count,
                },
            )
        }
    }
}

pub open spec fn stage_views(stages: Seq<Stage>) -> Seq<StageView> {
    Seq::new(stages.len(), |i: int| stages[i]@)
}

fn push_stage(stages: &mut Vec<Stage>, metrics: &str, label: &'static str, prefix: &str)
    ensures
        stage_views(final(stages)@) == {
            let count = metric_or_zero(metrics@, prefix@ + "_ns_count"@);
            if count == 0 {
                stage_views(old(stages)@)
            } else {
                stage_views(old(stages)@).push(
                    StageView {
                        label: label@,
                        sum_ns: metric_or_zero(metrics@, prefix@ + "_ns_sum"@),
                        count,
                    },
                )
            }
        },
{
    let key = joined(prefix, "_ns_sum");
    let sum_ns = metric(metrics, key.as_str());
    let key = joined(prefix, "_ns_count");
    let count = metric(metrics, key.as_str());
    if count != 0 {
        let ghost before = stage_views(stages@);
        let stage = Stage { label, sum_ns, count };
        stages.push(stage);
        assert(stage_views(stages@) =~= before.push(stage@));
    }
}

/// The stages that were called, the one that took longest first.
pub fn stage_summary(metrics: &str) -> (r: Vec<Stage>)
    ensures
        stage_views(r@) == sorted(called_stages(metrics@, 7)),
{
    let mut rows: Vec<Stage> = Vec::new();
    assert(stage_views(rows@) =~= called_stages(metrics@, 0));
    push_stage(&mut rows, metrics, "decode (wire -> spans)", "traza_http_decode");
    assert(stage_views(rows@) == called_stages(metrics@, 1));
    push_stage(&mut rows, metrics, "writer lock wait", "traza_writer_lock_wait");
    assert(stage_views(rows@) == called_stages(metrics@, 2));
    push_stage(&mut rows, metrics, "wal encode", "traza_wal_encode");
    assert(stage_views(rows@) == called_stages(metrics@, 3));
    push_stage(&mut rows, metrics, "wal write", "traza_wal_write");
    assert(stage_views(rows@) == called_stages(metrics@, 4));
    push_stage(&mut rows, metrics, "wal fsync", "traza_wal_fsync");
    assert(stage_views(rows@) == called_stages(metrics@, 5));
    push_stage(&mut rows, metrics, "buffer upsert", "traza_buffer_upsert");
    assert(stage_views(rows@) == called_stages(metrics@, 6));
    push_stage(&mut rows, metrics, "segment seal", "traza_segment_seal");
    assert(stage_views(rows@) == called_stages(metrics@, 7));
    let ghost all = rows@;
    let r = sort(rows);
    proof {
        let f = |s: Stage| s@;
        lemma_sorted_through(all, f);
        assert(all.map_values(f) =~= stage_views(all));
        assert(sorted(all).map_values(f) =~= stage_views(sorted(all)));
    }
    r
}

// ----------------------------------------------------------------------- report

/// A trimmed text, or the fallback where there is none.
pub fn text_or(text: Option<String>, fallback: &str) -> (r: String)
    ensures
        r@ == match opt_view(text) {
            Some(text) => if trimmed(text) == ""@ {
                fallback@
            } else {
                trimmed(text)
            },
            None => fallback@,
        },
{
    match text {
        Some(text) => {
            let text = trim(text.as_str());
            if same(text.as_str(), "") {
                copy(fallback)
            } else {
                text
            }
        },
        None => copy(fallback),
    }
}

/// How the table of the record begins.
pub const TABLE_HEAD: &'static str = "\
    | Scenario | Protocol | Route | Keep-alive | Concurrency | Median spans/s | Min | Max | \
    Bytes/span | Decode ns/span |\n|---|---|---|---|---:|---:|---:|---:|---:|---:|\n";

/// How the record is to be read.
pub const RECORD_WORDS: &'static str = "\
    runs, each on a fresh data directory. Payloads are generated before the clock starts, so \
    these are server rates; client encoding is reported separately. Runs that saw a failed batch \
    or a shed connection are reported as failures rather than as numbers.\n\n- Machine: ";

/// What is switched off during a run.
pub const COMPACTION_WORDS: &'static str = "\n- Compaction: disabled during ingest runs (a \
    read-path optimization; its merges would steal CPU from the measurement)\n\n";

/// What stands before the rows of the record.
pub open spec fn record_head_of(
    runs: nat,
    machine: Seq<char>,
    commit: Seq<char>,
    spans: nat,
    batch: nat,
) -> Seq<char> {
    "# Traza Ingest Benchmark\n\nEvery row is the MEDIAN of "@ + dec(runs) + " "@ + RECORD_WORDS@
        + machine + "\n- Commit: `"@ + commit + "`\n- Corpus: "@ + dec(spans)
        + " spans per run, batch "@ + dec(batch) + COMPACTION_WORDS@ + TABLE_HEAD@
}

/// Writes what stands before the rows of the record.
pub fn record_head(runs: usize, machine: &str, commit: &str, spans: usize, batch: usize) -> (r:
    String)
    ensures
        r@ == record_head_of(runs as nat, machine@, commit@, spans as nat, batch as nat),
{
    let mut r = copy("# Traza Ingest Benchmark\n\nEvery row is the MEDIAN of ");
    push_number(&mut r, runs);
    r.push_str(" ");
    r.push_str(RECORD_WORDS);
    r.push_str(machine);
    r.push_str("\n- Commit: `");
    r.push_str(commit);
    r.push_str("`\n- Corpus: ");
    push_number(&mut r, spans);
    r.push_str(" spans per run, batch ");
    push_number(&mut r, batch);
    r.push_str(COMPACTION_WORDS);
    r.push_str(TABLE_HEAD);
    r
}

pub open spec fn true_false(b: bool) -> Seq<char> {
    if b {
        "true"@
    } else {
        "false"@
    }
}

fn bool_text(b: bool) -> (r: &'static str)
    ensures
        r@ == true_false(b),
{
    if b {
        "true"
    } else {
        "false"
    }
}

/// The row of a scenario that failed.
pub open spec fn failed_row_of(s: ScenarioView, error: Seq<char>) -> Seq<char> {
    "| "@ + s.label + " | "@ + protocol_name(s.protocol) + " | "@ + protocol_route(s.protocol)
        + " | "@ + true_false(s.keep_alive) + " | "@ + dec(s.concurrency as nat) + " | FAILED: "@
        + error + " | | | | |\n"@
}

/// Writes the row of a scenario that failed.
pub fn failed_row(scenario: &Scenario, error: &str) -> (r: String)
    ensures
        r@ == failed_row_of(scenario@, error@),
{
    let mut r = copy("| ");
    r.push_str(scenario.label.as_str());
    r.push_str(" | ");
    r.push_str(scenario.protocol.as_str());
    r.push_str(" | ");
    r.push_str(scenario.protocol.route());
    r.push_str(" | ");
    r.push_str(bool_text(scenario.keep_alive));
    r.push_str(" | ");
    push_number(&mut r, scenario.concurrency);
    r.push_str(" | FAILED: ");
    r.push_str(error);
    r.push_str(" | | | | |\n");
    r
}

/// The numbers of a scenario that was measured, written out.
#[derive(Debug)]
pub struct Rates {
    pub median: String,
    pub min: String,
    pub max: String,
    pub bytes_per_span: String,
    pub decode_ns: Option<String>,
}

/// The row of a scenario that was measured: what does not apply to the engine
/// itself is left out.
pub open spec fn result_row_of(s: ScenarioView, rates: Rates) -> Seq<char> {
    let direct = s.mode == Mode::Direct;
    "| "@ + s.label + " | "@ + (if direct {
        "\u{2014}"@
    } else {
        protocol_name(s.protocol)
    }) + " | "@ + (if direct {
        "\u{2014}"@
    } else {
        protocol_route(s.protocol)
    }) + " | "@ + (if direct {
        "n/a"@
    } else {
        true_false(s.keep_alive)
    }) + " | "@ + dec(s.concurrency as nat) + " | **"@ + rates.median@ + "** | "@ + rates.min@
        + " | "@ + rates.max@ + " | "@ + (if direct {
        "\u{2014}"@
    } else {
        rates.bytes_per_span@
    }) + " | "@ + (match rates.decode_ns {
        Some(ns) => ns@,
        None => "\u{2014}"@,
    }) + " |\n"@
}

/// Writes the row of a scenario that was measured.
pub fn result_row(scenario: &Scenario, rates: &Rates) -> (r: String)
    ensures
        r@ == result_row_of(scenario@, *rates),
{
    let direct = scenario.mode == Mode::Direct;
    let mut r = copy("| ");
    r.push_str(scenario.label.as_str());
    r.push_str(" | ");
    r.push_str(
        if direct {
            "\u{2014}"
        } else {
            scenario.protocol.as_str()
        },
    );
    r.push_str(" | ");
    r.push_str(
        if direct {
            "\u{2014}"
        } else {
            scenario.protocol.route()
        },
    );
    r.push_str(" | ");
    r.push_str(
        if direct {
            "n/a"
        } else {
            bool_text(scenario.keep_alive)
        },
    );
    r.push_str(" | ");
    push_number(&mut r, scenario.concurrency);
    r.push_str(" | **");
    r.push_str(rates.median.as_str());
    r.push_str("** | ");
    r.push_str(rates.min.as_str());
    r.push_str(" | ");
    r.push_str(rates.max.as_str());
    r.push_str(" | ");
    r.push_str(
        if direct {
            "\u{2014}"
        } else {
            rates.bytes_per_span.as_str()
        },
    );
    r.push_str(" | ");
    match &rates.decode_ns {
        Some(ns) => {
            r.push_str(ns.as_str());
        },
        None => {
            r.push_str("\u{2014}");
        },
    }
    r.push_str(" |\n");
    r
}

proof fn lemma_bench_flags()
    ensures
        "--spans"@.len() == 7 && "--spans"@[2] == 's',
        "--runs"@.len() == 6 && "--runs"@[2] == 'r',
        "--batch"@.len() == 7 && "--batch"@[2] == 'b',
        "--concurrency"@.len() == 13,
        "--only"@.len() == 6 && "--only"@[2] == 'o',
        "--help"@.len() == 6 && "--help"@[2] == 'h',
        "-h"@.len() == 2,
{
    reveal_strlit("--spans");
    reveal_strlit("--runs");
    reveal_strlit("--batch");
    reveal_strlit("--concurrency");
    reveal_strlit("--only");
    reveal_strlit("--help");
    reveal_strlit("-h");
}

proof fn lemma_durabilities()
    ensures
        "wal"@.len() == 3,
        "buffered"@.len() == 8,
        "fsync"@.len() == 5,
{
    reveal_strlit("wal");
    reveal_strlit("buffered");
    reveal_strlit("fsync");
}

/// What each protocol is called, where it is posted and as what.
pub proof fn law_protocols()
    ensures
        protocol_name(Protocol::NativeJson) == "native-json"@,
        protocol_name(Protocol::OtlpJson) == "otlp-json"@,
        protocol_name(Protocol::OtlpProtobuf) == "otlp-protobuf"@,
        protocol_route(Protocol::NativeJson) == "/v1/spans"@,
        protocol_route(Protocol::OtlpJson) == "/v1/traces"@,
        protocol_content_type(Protocol::OtlpJson) == "application/json"@,
        protocol_content_type(Protocol::OtlpProtobuf) == "application/x-protobuf"@,
        on_off(true) == "on"@ && on_off(false) == "off"@,
        true_false(true) == "true"@ && true_false(false) == "false"@,
{
}

/// The scenarios: the engine alone at both durabilities, HTTP with and without
/// keep-alive, then each protocol at each concurrency; all of the same size.
pub proof fn law_fixed_scenarios(batch: usize, spans: usize, i: int)
    requires
        0 <= i < 4,
    ensures
        ({
            let all = fixed_scenarios(batch, spans);
            &&& all.len() == 4
            &&& all[i].batch == batch && all[i].spans == spans && all[i].concurrency == 8
            &&& all[i].protocol is NativeJson
            &&& all[i].mode is Direct <==> i < 2
            &&& all[i].keep_alive <==> i == 3
            &&& all[i].durability == if i == 1 {
                "buffered"@
            } else {
                "wal"@
            }
        }),
{
}

/// Each protocol is measured at each concurrency, with keep-alive and durably.
pub proof fn law_the_matrix(concurrencies: Seq<usize>, batch: usize, spans: usize, k: int)
    requires
        0 <= k < concurrencies.len(),
    ensures
        ({
            let all = matrix(concurrencies, batch, spans);
            &&& all.len() == 3 * concurrencies.len()
            &&& all[3 * k].protocol is NativeJson && all[3 * k + 1].protocol is OtlpJson
                && all[3 * k + 2].protocol is OtlpProtobuf
            &&& forall|j: int|
                3 * k <= j < 3 * k + 3 ==> {
                    &&& (#[trigger] all[j]).concurrency == concurrencies[k]
                    &&& all[j].mode is Http && all[j].keep_alive && all[j].durability == "wal"@
                    &&& all[j].batch == batch && all[j].spans == spans
                    &&& all[j].label == "http-"@ + protocol_name(all[j].protocol) + "-wal-c"@ + dec(
                        concurrencies[k] as nat,
                    )
                }
        }),
    decreases concurrencies.len(),
{
    let before = matrix(concurrencies.drop_last(), batch, spans);
    lemma_matrix_length(concurrencies, batch, spans);
    lemma_matrix_length(concurrencies.drop_last(), batch, spans);
    if k < concurrencies.len() - 1 {
        law_the_matrix(concurrencies.drop_last(), batch, spans, k);
        assert forall|j: int| 0 <= j < before.len() implies #[trigger] matrix(
            concurrencies,
            batch,
            spans,
        )[j] == before[j] by {}
    }
}

proof fn lemma_matrix_length(concurrencies: Seq<usize>, batch: usize, spans: usize)
    ensures
        matrix(concurrencies, batch, spans).len() == 3 * concurrencies.len(),
    decreases concurrencies.len(),
{
    if concurrencies.len() > 0 {
        lemma_matrix_length(concurrencies.drop_last(), batch, spans);
    }
}

/// Each flag sets what it names and nothing else; concurrencies add up, and are
/// one, four, eight and sixteen where none is named.
pub proof fn law_bench_flags(args: Seq<Seq<char>>, i: int, o: BenchView)
    requires
        0 <= i <= args.len(),
    ensures
        i == args.len() && o.concurrencies.len() > 0 ==> scan(args, i, o) == Ok::<
            BenchCommandView,
            Seq<char>,
        >(BenchCommandView::Run(o)),
        i == args.len() && o.concurrencies.len() == 0 ==> scan(args, i, o) == Ok::<
            BenchCommandView,
            Seq<char>,
        >(BenchCommandView::Run(BenchView { concurrencies: seq![1usize, 4, 8, 16], ..o })),
        i + 1 < args.len() ==> ({
            let n = usize_of(args[i + 1]);
            &&& args[i] == "--spans"@ && n is Some ==> scan(args, i, o) == scan(
                args,
                i + 2,
                BenchView { spans: n->0, ..o },
            )
            &&& args[i] == "--runs"@ && n is Some ==> scan(args, i, o) == scan(
                args,
                i + 2,
                BenchView { runs: n->0, ..o },
            )
            &&& args[i] == "--batch"@ && n is Some ==> scan(args, i, o) == scan(
                args,
                i + 2,
                BenchView { batch: n->0, ..o },
            )
            &&& args[i] == "--concurrency"@ && n is Some ==> scan(args, i, o) == scan(
                args,
                i + 2,
                BenchView { concurrencies: o.concurrencies.push(n->0), ..o },
            )
            &&& args[i] == "--only"@ ==> scan(args, i, o) == scan(
                args,
                i + 2,
                BenchView { only: Some(lowered(args[i + 1])), ..o },
            )
            &&& (args[i] == "--spans"@ || args[i] == "--runs"@ || args[i] == "--batch"@ || args[i]
                == "--concurrency"@) && n is None ==> scan(args, i, o) == Err::<
                BenchCommandView,
                Seq<char>,
            >(args[i] + " must be a number"@)
        }),
        default_bench().spans == 500_000 && default_bench().runs == 5 && default_bench().batch
            == 1_000 && default_bench().only.is_none() && default_bench().concurrencies.len() == 0,
{
    lemma_bench_flags();
}

/// What is refused: a flag without its value, and a word that is no flag. A
/// request for help is answered whatever follows.
pub proof fn law_what_the_bench_refuses(args: Seq<Seq<char>>, i: int, o: BenchView)
    requires
        0 <= i < args.len(),
    ensures
        args[i] == "--help"@ || args[i] == "-h"@ ==> scan(args, i, o) == Ok::<
            BenchCommandView,
            Seq<char>,
        >(BenchCommandView::Help),
        i + 1 == args.len() && (args[i] == "--spans"@ || args[i] == "--runs"@ || args[i]
            == "--batch"@ || args[i] == "--concurrency"@) ==> scan(args, i, o) == Err::<
            BenchCommandView,
            Seq<char>,
        >(args[i] + " requires a value"@),
        i + 1 == args.len() && args[i] == "--only"@ ==> scan(args, i, o) is Err,
        args[i] != "--help"@ && args[i] != "-h"@ && args[i] != "--spans"@ && args[i] != "--runs"@
            && args[i] != "--batch"@ && args[i] != "--concurrency"@ && args[i] != "--only"@ ==> scan(
            args,
            i,
            o,
        ) == Err::<BenchCommandView, Seq<char>>("unknown argument: "@ + args[i]),
{
    lemma_bench_flags();
}

/// The port is the number behind the words that the server starts with.
pub proof fn law_startup(rest: Seq<char>, line: Seq<char>)
    ensures
        ({
            let said = startup_of("traza-server listening on 127.0.0.1:"@ + rest);
            let port = number_to(trimmed(rest), 65_535);
            &&& port is Some ==> said == Startup::Port(port->0 as u16)
            &&& port is None ==> said == Startup::Malformed
        }),
        !crate::text::starts_with(line, "traza-server listening on 127.0.0.1:"@) ==> startup_of(
            line,
        ) == Startup::Other,
{
    let words = "traza-server listening on 127.0.0.1:"@;
    crate::text::law_prefixes(words, rest, words + rest);
    assert((words + rest).skip(words.len() as int) =~= rest);
}

/// Records are stored once there are as many as expected; until then they are
/// counted again, unless it is too late.
pub proof fn law_records(status: u16, document: JsonView, expected: nat, late: bool)
    ensures
        status != 200 ==> records_of(status, Ok(document), expected, late) is Again,
        ({
            let held = document.uint_field("record_count"@);
            let n: nat = if held is Some {
                held->0
            } else {
                0
            };
            let read = records_of(200, Ok(document), expected, late);
            &&& n >= expected ==> read == RecordsView::Stored(n)
            &&& n < expected && late ==> read == RecordsView::Failed(
                "only "@ + dec(n) + " of "@ + dec(expected) + " spans stored"@,
            )
            &&& n < expected && !late ==> read is Again
        }),
        forall|message: Seq<char>|
            #[trigger] records_of(200, Err(message), expected, late) == RecordsView::Failed(
                message,
            ),
{
}

/// How a run goes: the batches are sent, the records counted, the metrics read,
/// and what is durable is counted once more after a restart. The result is what
/// was counted first and what was refused.
pub proof fn law_how_a_run_goes(stored: u64, refused: u64, after: u64, spans: usize, durability: Seq<char>)
    ensures
        run_step(Phase::Sending, HappenedView::Sent { failed: 0 }, spans, durability) == (
            Phase::Counting,
            NextView::Count,
        ),
        run_step(
            Phase::Counting,
            HappenedView::Counted { records: stored },
            spans,
            durability,
        ) == (Phase::Scraping { stored }, NextView::Scrape),
        durability != "buffered"@ ==> run_step(
            Phase::Scraping { stored },
            HappenedView::Scraped { refused },
            spans,
            durability,
        ) == (Phase::Recovering { stored, refused }, NextView::Restart),
        durability == "buffered"@ ==> run_step(
            Phase::Scraping { stored },
            HappenedView::Scraped { refused },
            spans,
            durability,
        ) == (Phase::Over, NextView::Done { stored, refused }),
        after >= spans ==> run_step(
            Phase::Recovering { stored, refused },
            HappenedView::Counted { records: after },
            spans,
            durability,
        ) == (Phase::Over, NextView::Done { stored, refused }),
        after < spans ==> run_step(
            Phase::Recovering { stored, refused },
            HappenedView::Counted { records: after },
            spans,
            durability,
        ).1 is Fail,
        forall|happened: HappenedView|
            #[trigger] run_step(Phase::Over, happened, spans, durability) == (
                Phase::Over,
                NextView::Nothing,
            ),
{
}

/// A run that is over stays over, and only one that is over is done or failed.
pub proof fn law_only_the_end_is_a_result(
    phase: Phase,
    happened: HappenedView,
    spans: usize,
    durability: Seq<char>,
)
    ensures
        ({
            let (after, next) = run_step(phase, happened, spans, durability);
            &&& next is Done || next is Fail ==> after is Over
            &&& after is Over && !(phase is Over) ==> next is Done || next is Fail
            &&& next is Nothing ==> after == phase
            &&& phase is Counting && happened is NotCounted ==> next is Fail
            &&& phase is Recovering && happened is NotCounted ==> next is Fail
        }),
{
}

/// A rate counts when nothing was refused and all was stored.
pub proof fn law_rates_that_count(refused: u64, stored: u64, spans: usize)
    ensures
        verdict_of(refused, stored, spans).is_none() <==> refused == 0 && stored >= spans,
        refused > 0 ==> verdict_of(refused, stored, spans) == Some(
            "server shed "@ + dec(refused as nat) + " connections; the rate is not sustained"@,
        ),
        refused == 0 && stored < spans ==> verdict_of(refused, stored, spans) == Some(
            "stored "@ + dec(stored as nat) + " of "@ + dec(spans as nat) + " spans"@,
        ),
{
}

/// The stages of a summary are those that were called, each with its own time and
/// count.
pub proof fn law_stages(metrics: Seq<char>, n: int, k: int)
    requires
        0 <= n <= 7,
        0 <= k < called_stages(metrics, n).len(),
    ensures
        called_stages(metrics, n)[k].count > 0,
        exists|j: int|
            {
                &&& 0 <= j < n
                &&& (#[trigger] stage_names()[j]).0 == called_stages(metrics, n)[k].label
                &&& called_stages(metrics, n)[k].count == metric_or_zero(
                    metrics,
                    stage_names()[j].1 + "_ns_count"@,
                )
                &&& called_stages(metrics, n)[k].sum_ns == metric_or_zero(
                    metrics,
                    stage_names()[j].1 + "_ns_sum"@,
                )
            },
    decreases n,
{
    if n > 0 {
        let before = called_stages(metrics, n - 1);
        if k < before.len() {
            law_stages(metrics, n - 1, k);
            assert(called_stages(metrics, n)[k] == before[k]);
        } else {
            assert(stage_names()[n - 1].0 == called_stages(metrics, n)[k].label);
        }
    }
}

} // verus!
