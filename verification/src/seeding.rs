//! Loading a corpus into a store in bounded chunks: the arguments, where the
//! corpus goes, and what each chunk is.

use vstd::prelude::*;

use crate::args::{default_compaction, Config, CompactionConfig, Durability};
use crate::client::{read_second_word, second_word_status};
use crate::commands::{Url, UrlView};
use crate::http::{lossy_text, utf8_lossy};
use crate::queries::{joined, read_u64, read_usize, u64_of, usize_of};
use crate::text::{
    copy, dec, decimal, law_decimal_reads_back, number_to, opt_view, parse_number, same, split_once,
    split_text_once, strip_prefix, text_after, texts,
};

verus! {

/// Scale units in one chunk: it bounds the memory that a load takes.
pub const CHUNK_SCALE: usize = 25;

/// How far the time window moves from chunk to chunk: a day, in nanoseconds.
pub const CHUNK_WINDOW_NS: u64 = 86_400_000_000_000;

// --------------------------------------------------------------------- arguments

/// What a load was asked for; what was not said is left to the generator.
#[derive(Debug)]
pub struct SeedArgs {
    pub data_dir: Option<String>,
    pub url: Option<String>,
    pub scale: Option<usize>,
    pub seed: Option<u64>,
    pub start_time_ns: Option<u64>,
    pub batch: usize,
    pub payload_threshold: usize,
}

/// The view of what a load was asked for.
pub struct SeedView {
    pub data_dir: Option<Seq<char>>,
    pub url: Option<Seq<char>>,
    pub scale: Option<usize>,
    pub seed: Option<u64>,
    pub start_time_ns: Option<u64>,
    pub batch: usize,
    pub payload_threshold: usize,
}

impl View for SeedArgs {
    type V = SeedView;

    open spec fn view(&self) -> SeedView {
        SeedView {
            data_dir: opt_view(self.data_dir),
            url: opt_view(self.url),
            scale: self.scale,
            seed: self.seed,
            start_time_ns: self.start_time_ns,
            batch: self.batch,
            payload_threshold: self.payload_threshold,
        }
    }
}

/// How arguments end.
#[derive(Debug)]
pub enum SeedCommand {
    Help,
    Run(SeedArgs),
}

/// The view of how arguments end.
pub enum SeedCommandView {
    Help,
    Run(SeedView),
}

impl View for SeedCommand {
    type V = SeedCommandView;

    open spec fn view(&self) -> SeedCommandView {
        match self {
            SeedCommand::Help => SeedCommandView::Help,
            SeedCommand::Run(args) => SeedCommandView::Run(args@),
        }
    }
}

pub open spec fn default_seed() -> SeedView {
    SeedView {
        data_dir: None,
        url: None,
        scale: None,
        seed: None,
        start_time_ns: None,
        batch: 500,
        payload_threshold: 262_144,
    }
}

pub open spec fn takes_value(flag: Seq<char>) -> bool {
    flag == "--data-dir"@ || flag == "--url"@ || flag == "--scale"@ || flag == "--seed"@ || flag
        == "--start-time-ns"@ || flag == "--batch"@ || flag == "--payload-threshold-bytes"@
}

/// The arguments after a flag and its value; nothing where the value is not
/// the number that the flag takes.
pub open spec fn after_value(o: SeedView, flag: Seq<char>, value: Seq<char>) -> Option<SeedView> {
    if flag == "--data-dir"@ {
        Some(SeedView { data_dir: Some(value), ..o })
    } else if flag == "--url"@ {
        Some(SeedView { url: Some(value), ..o })
    } else if flag == "--seed"@ {
        match u64_of(value) {
            Some(n) => Some(SeedView { seed: Some(n), ..o }),
            None => None,
        }
    } else if flag == "--start-time-ns"@ {
        match u64_of(value) {
            Some(n) => Some(SeedView { start_time_ns: Some(n), ..o }),
            None => None,
        }
    } else {
        match usize_of(value) {
            Some(n) => Some(
                if flag == "--scale"@ {
                    SeedView { scale: Some(n), ..o }
                } else if flag == "--batch"@ {
                    SeedView {
                        batch: if n == 0 {
                            1
                        } else {
                            n
                        },
                        ..o
                    }
                } else {
                    SeedView { payload_threshold: n, ..o }
                },
            ),
            None => None,
        }
    }
}

/// Reads the arguments from `i` on.
pub open spec fn scan(args: Seq<Seq<char>>, i: int, o: SeedView) -> Result<
    SeedCommandView,
    Seq<char>,
>
    decreases args.len() - i,
{
    if i < 0 || i >= args.len() {
        Ok(SeedCommandView::Run(o))
    } else if takes_value(args[i]) {
        if i + 1 >= args.len() {
            Err(args[i] + " needs a value"@)
        } else {
            match after_value(o, args[i], args[i + 1]) {
                Some(next) => scan(args, i + 2, next),
                None => Err(args[i] + " needs a number"@),
            }
        }
    } else if args[i] == "--help"@ || args[i] == "-h"@ {
        Ok(SeedCommandView::Help)
    } else {
        Err("unknown argument: "@ + args[i])
    }
}

fn value_flag(flag: &str) -> (r: bool)
    ensures
        r == takes_value(flag@),
{
    same(flag, "--data-dir") || same(flag, "--url") || same(flag, "--scale") || same(flag, "--seed")
        || same(flag, "--start-time-ns") || same(flag, "--batch") || same(
        flag,
        "--payload-threshold-bytes",
    )
}

fn set_value(o: &mut SeedArgs, flag: &str, value: &str) -> (r: bool)
    ensures
        match after_value(old(o)@, flag@, value@) {
            Some(next) => r && final(o)@ == next,
            None => !r && final(o)@ == old(o)@,
        },
{
    if same(flag, "--data-dir") {
        o.data_dir = Some(copy(value));
        true
    } else if same(flag, "--url") {
        o.url = Some(copy(value));
        true
    } else if same(flag, "--seed") {
        match read_u64(value) {
            Some(n) => {
                o.seed = Some(n);
                true
            },
            None => false,
        }
    } else if same(flag, "--start-time-ns") {
        match read_u64(value) {
            Some(n) => {
                o.start_time_ns = Some(n);
                true
            },
            None => false,
        }
    } else {
        match read_usize(value) {
            Some(n) => {
                if same(flag, "--scale") {
                    o.scale = Some(n);
                } else if same(flag, "--batch") {
                    o.batch = if n == 0 {
                        1
                    } else {
                        n
                    };
                } else {
                    o.payload_threshold = n;
                }
                true
            },
            None => false,
        }
    }
}

/// Reads the arguments of a load.
pub fn parse(args: &[String]) -> (r: Result<SeedCommand, String>)
    ensures
        match r {
            Ok(command) => scan(texts(args@), 0, default_seed()) == Ok::<
                SeedCommandView,
                Seq<char>,
            >(command@),
            Err(message) => scan(texts(args@), 0, default_seed()) == Err::<
                SeedCommandView,
                Seq<char>,
            >(message@),
        },
{
    let mut options = SeedArgs {
        data_dir: None,
        url: None,
        scale: None,
        seed: None,
        start_time_ns: None,
        batch: 500,
        payload_threshold: 262_144,
    };
    let ghost all = texts(args@);
    assert(options@ == default_seed());
    let n: usize = args.len();
    let mut i: usize = 0;
    while i < n
        invariant
            n == args@.len(),
            i <= n,
            all == texts(args@),
            scan(all, i as int, options@) == scan(all, 0, default_seed()),
        decreases n - i,
    {
        assert(all[i as int] == args@[i as int]@);
        let flag = args[i].as_str();
        if value_flag(flag) {
            if i + 1 >= n {
                return Err(joined(flag, " needs a value"));
            }
            assert(all[i + 1] == args@[i + 1]@);
            if !set_value(&mut options, flag, args[i + 1].as_str()) {
                return Err(joined(flag, " needs a number"));
            }
            i += 2;
        } else if same(flag, "--help") || same(flag, "-h") {
            return Ok(SeedCommand::Help);
        } else {
            return Err(joined("unknown argument: ", flag));
        }
    }
    Ok(SeedCommand::Run(options))
}

// ------------------------------------------------------------------- destination

/// Where a corpus goes.
#[derive(Debug)]
pub enum Destination {
    /// Straight into the store in a directory.
    Directory(String),
    /// To a running server.
    Server(Url),
}

/// The view of where a corpus goes.
pub enum DestinationView {
    Directory(Seq<char>),
    Server(UrlView),
}

impl View for Destination {
    type V = DestinationView;

    open spec fn view(&self) -> DestinationView {
        match self {
            Destination::Directory(directory) => DestinationView::Directory(directory@),
            Destination::Server(url) => DestinationView::Server(url@),
        }
    }
}

/// The parts of the address of a server: the first colon of the authority
/// stands before the port.
pub open spec fn server_parts(url: Seq<char>) -> Result<UrlView, Seq<char>> {
    match strip_prefix(url, "http://"@) {
        None => Err("--url must start with http:// (TLS is reverse-proxy territory)"@),
        Some(rest) => {
            let (authority, path) = match split_once(rest, '/') {
                Some(parts) => parts,
                None => (rest, ""@),
            };
            match split_once(authority, ':') {
                Some((host, port)) => match number_to(port, u16::MAX as nat) {
                    Some(port) => Ok(UrlView { host, port: port as u16, path: "/"@ + path }),
                    None => Err("--url has a port that is no number"@),
                },
                None => Ok(UrlView { host: authority, port: 80, path: "/"@ + path }),
            }
        },
    }
}

/// Splits the address of a server into its parts.
pub fn split_url(url: &str) -> (r: Result<Url, String>)
    ensures
        match r {
            Ok(parts) => server_parts(url@) == Ok::<UrlView, Seq<char>>(parts@),
            Err(message) => server_parts(url@) == Err::<UrlView, Seq<char>>(message@),
        },
{
    let rest = match text_after(url, "http://") {
        Some(rest) => rest,
        None => {
            return Err(copy("--url must start with http:// (TLS is reverse-proxy territory)"));
        },
    };
    let (authority, path) = match split_text_once(rest.as_str(), '/') {
        Some(parts) => parts,
        None => (copy(rest.as_str()), copy("")),
    };
    let path = joined("/", path.as_str());
    match split_text_once(authority.as_str(), ':') {
        Some((host, port)) => match parse_number(port.as_str(), 65_535) {
            Some(port) => Ok(Url { host, port: port as u16, path }),
            None => Err(copy("--url has a port that is no number")),
        },
        None => Ok(Url { host: authority, port: 80, path }),
    }
}

/// Where a corpus goes: to exactly one of the two.
pub open spec fn destination_of(args: SeedView) -> Result<DestinationView, Seq<char>> {
    match (args.data_dir, args.url) {
        (Some(_), Some(_)) => Err("pass either --data-dir or --url, not both"@),
        (None, None) => Err("pass --data-dir DIR or --url http://host:port"@),
        (None, Some(url)) => match server_parts(url) {
            Ok(parts) => Ok(DestinationView::Server(parts)),
            Err(message) => Err(message),
        },
        (Some(directory), None) => Ok(DestinationView::Directory(directory)),
    }
}

/// Decides where a corpus goes.
pub fn destination(args: &SeedArgs) -> (r: Result<Destination, String>)
    ensures
        match r {
            Ok(to) => destination_of(args@) == Ok::<DestinationView, Seq<char>>(to@),
            Err(message) => destination_of(args@) == Err::<DestinationView, Seq<char>>(message@),
        },
{
    match (&args.data_dir, &args.url) {
        (Some(_), Some(_)) => Err(copy("pass either --data-dir or --url, not both")),
        (None, None) => Err(copy("pass --data-dir DIR or --url http://host:port")),
        (None, Some(url)) => match split_url(url.as_str()) {
            Ok(parts) => Ok(Destination::Server(parts)),
            Err(message) => Err(message),
        },
        (Some(directory), None) => Ok(Destination::Directory(copy(directory.as_str()))),
    }
}

/// How the store of a load is opened: a bulk load into a fresh store needs no
/// log, and nobody tails it.
pub fn seed_config(payload_threshold: usize) -> (r: Config)
    ensures
        r == (Config {
            flush_spans: 10_000,
            flush_wal_bytes: None,
            wal_commit_window: None,
            ttl_seconds: None,
            max_buffer_age: None,
            shadow_seal: false,
            payload_threshold: if payload_threshold > 0 {
                Some(payload_threshold)
            } else {
                None
            },
            durability: Durability::Buffered,
            content_index: true,
            compaction: Some(default_compaction()),
            tail_ring_spans: 1,
            tail_ring_bytes: 1,
        }),
{
    Config {
        flush_spans: 10_000,
        flush_wal_bytes: None,
        wal_commit_window: None,
        ttl_seconds: None,
        max_buffer_age: None,
        shadow_seal: false,
        payload_threshold: if payload_threshold > 0 {
            Some(payload_threshold)
        } else {
            None
        },
        durability: Durability::Buffered,
        content_index: true,
        compaction: Some(CompactionConfig::default()),
        tail_ring_spans: 1,
        tail_ring_bytes: 1,
    }
}

// ------------------------------------------------------------------------ chunks

/// One chunk of a load.
#[derive(Debug)]
pub struct Chunk {
    pub scale: usize,
    pub start_time_ns: u64,
    pub seed: u64,
    /// Keeps the identifiers of chunks apart.
    pub namespace: String,
}

/// The view of a chunk.
pub struct ChunkView {
    pub scale: nat,
    pub start_time_ns: nat,
    pub seed: u64,
    pub namespace: Seq<char>,
}

impl View for Chunk {
    type V = ChunkView;

    open spec fn view(&self) -> ChunkView {
        ChunkView {
            scale: self.scale as nat,
            start_time_ns: self.start_time_ns as nat,
            seed: self.seed,
            namespace: self.namespace@,
        }
    }
}

pub open spec fn chunk_views(chunks: Seq<Chunk>) -> Seq<ChunkView> {
    Seq::new(chunks.len(), |i: int| chunks[i]@)
}

/// How much a load is in all: at least one unit.
pub open spec fn whole_scale(scale: nat) -> nat {
    if scale == 0 {
        1
    } else {
        scale
    }
}

/// How many chunks a load has.
pub open spec fn chunk_count(scale: nat) -> nat {
    (whole_scale(scale) + CHUNK_SCALE as nat - 1) as nat / CHUNK_SCALE as nat
}

/// A chunk of a load.
pub open spec fn chunk_of(scale: nat, start_time_ns: nat, seed: u64, i: nat) -> ChunkView {
    let total = whole_scale(scale);
    let done = i * CHUNK_SCALE as nat;
    ChunkView {
        scale: if total - done < CHUNK_SCALE {
            (total - done) as nat
        } else {
            CHUNK_SCALE as nat
        },
        start_time_ns: start_time_ns + i * CHUNK_WINDOW_NS as nat,
        seed: seed.wrapping_add(i as u64),
        namespace: if total > CHUNK_SCALE {
            "b"@ + dec(i)
        } else {
            ""@
        },
    }
}

/// The chunks of a load.
pub fn chunks(scale: usize, start_time_ns: u64, seed: u64) -> (r: Vec<Chunk>)
    requires
        start_time_ns + chunk_count(scale as nat) * CHUNK_WINDOW_NS <= u64::MAX,
    ensures
        chunk_views(r@) == Seq::new(
            chunk_count(scale as nat),
            |i: int| chunk_of(scale as nat, start_time_ns as nat, seed, i as nat),
        ),
{
    let total: usize = if scale == 0 {
        1
    } else {
        scale
    };
    let ghost count = chunk_count(scale as nat);
    let mut r: Vec<Chunk> = Vec::new();
    let mut done: usize = 0;
    let mut index: u64 = 0;
    while done < total
        invariant
            total == whole_scale(scale as nat),
            count == chunk_count(scale as nat),
            start_time_ns + count * CHUNK_WINDOW_NS <= u64::MAX,
            r@.len() == index,
            index <= count,
            done == (if index * CHUNK_SCALE < total {
                index * CHUNK_SCALE
            } else {
                total as int
            }),
            done < total <==> index < count,
            forall|k: int|
                0 <= k < index ==> (#[trigger] r@[k])@ == chunk_of(
                    scale as nat,
                    start_time_ns as nat,
                    seed,
                    k as nat,
                ),
        decreases total - done,
    {
        let left = total - done;
        let this: usize = if left < CHUNK_SCALE {
            left
        } else {
            CHUNK_SCALE
        };
        let namespace = if total > CHUNK_SCALE {
            let digits = decimal(index);
            joined("b", digits.as_str())
        } else {
            copy("")
        };
        assert(index * CHUNK_WINDOW_NS <= count * CHUNK_WINDOW_NS);
        let chunk = Chunk {
            scale: this,
            start_time_ns: start_time_ns + index * CHUNK_WINDOW_NS,
            seed: seed.wrapping_add(index),
            namespace,
        };
        r.push(chunk);
        done = done + this;
        index += 1;
    }
    assert(chunk_views(r@) =~= Seq::new(
        count,
        |i: int| chunk_of(scale as nat, start_time_ns as nat, seed, i as nat),
    ));
    r
}

/// The scale of the first `n` chunks.
pub open spec fn scale_through(scale: nat, n: nat) -> nat
    decreases n,
{
    if n == 0 {
        0
    } else {
        scale_through(scale, (n - 1) as nat) + chunk_of(scale, 0, 0, (n - 1) as nat).scale
    }
}

/// The chunks of a load are the whole of it.
pub proof fn law_chunks_are_the_whole_load(scale: nat)
    ensures
        scale_through(scale, chunk_count(scale)) == whole_scale(scale),
{
    lemma_scale_through(scale, chunk_count(scale));
}

proof fn lemma_scale_through(scale: nat, n: nat)
    requires
        n <= chunk_count(scale),
    ensures
        scale_through(scale, n) == if n * CHUNK_SCALE < whole_scale(scale) {
            n * CHUNK_SCALE as nat
        } else {
            whole_scale(scale)
        },
    decreases n,
{
    if n > 0 {
        lemma_scale_through(scale, (n - 1) as nat);
    }
}

/// Chunks of a load never share a namespace, nor a moment of their windows.
pub proof fn law_chunks_are_apart(scale: nat, start_time_ns: nat, seed: u64, i: nat, j: nat)
    requires
        i < j < chunk_count(scale),
    ensures
        chunk_of(scale, start_time_ns, seed, i).namespace != chunk_of(
            scale,
            start_time_ns,
            seed,
            j,
        ).namespace,
        chunk_of(scale, start_time_ns, seed, i).start_time_ns + CHUNK_WINDOW_NS <= chunk_of(
            scale,
            start_time_ns,
            seed,
            j,
        ).start_time_ns,
{
    assert(whole_scale(scale) > CHUNK_SCALE);
    law_decimal_reads_back(i);
    law_decimal_reads_back(j);
    let (a, b) = ("b"@ + dec(i), "b"@ + dec(j));
    if a == b {
        let n = "b"@.len() as int;
        assert(a.skip(n) =~= dec(i));
        assert(b.skip(n) =~= dec(j));
    }
}

// ------------------------------------------------------------------------- posts

/// What the response to a post says.
pub open spec fn post_outcome(path: Seq<char>, response: Seq<char>) -> Option<Seq<char>> {
    match second_word_status(response) {
        None => Some("malformed HTTP response"@),
        Some(status) => if 200 <= status < 300 {
            None
        } else {
            Some("POST "@ + path + " failed with "@ + dec(status) + ": "@ + response)
        },
    }
}

/// Reads the response to a post: an error unless it succeeded.
pub fn check_post(path: &str, response: &[u8]) -> (r: Result<(), String>)
    ensures
        match r {
            Ok(_) => post_outcome(path@, utf8_lossy(response@)).is_none(),
            Err(message) => post_outcome(path@, utf8_lossy(response@)) == Some(message@),
        },
{
    let text = lossy_text(response);
    match read_second_word(text.as_str()) {
        None => Err(copy("malformed HTTP response")),
        Some(status) => {
            if 200 <= status && status < 300 {
                return Ok(());
            }
            let mut message = copy("POST ");
            message.push_str(path);
            message.push_str(" failed with ");
            let digits = decimal(status as u64);
            message.push_str(digits.as_str());
            message.push_str(": ");
            message.push_str(text.as_str());
            Err(message)
        },
    }
}

proof fn lemma_seed_flags()
    ensures
        "--data-dir"@.len() == 10,
        "--url"@.len() == 5,
        "--scale"@.len() == 7 && "--scale"@[2] == 's',
        "--seed"@.len() == 6 && "--seed"@[2] == 's',
        "--start-time-ns"@.len() == 15,
        "--batch"@.len() == 7 && "--batch"@[2] == 'b',
        "--payload-threshold-bytes"@.len() == 25,
        "--help"@.len() == 6 && "--help"@[2] == 'h',
        "-h"@.len() == 2,
{
    reveal_strlit("--data-dir");
    reveal_strlit("--url");
    reveal_strlit("--scale");
    reveal_strlit("--seed");
    reveal_strlit("--start-time-ns");
    reveal_strlit("--batch");
    reveal_strlit("--payload-threshold-bytes");
    reveal_strlit("--help");
    reveal_strlit("-h");
}

/// Without flags: batches of 500 spans, and payloads held apart from 256 KiB on.
pub proof fn law_seeding_defaults()
    ensures
        scan(seq![], 0, default_seed()) == Ok::<SeedCommandView, Seq<char>>(
            SeedCommandView::Run(default_seed()),
        ),
        default_seed().batch == 500,
        default_seed().payload_threshold == 256 * 1024,
        default_seed().data_dir.is_none() && default_seed().url.is_none(),
        default_seed().scale.is_none() && default_seed().seed.is_none(),
        default_seed().start_time_ns.is_none(),
{
}

/// Each flag sets what it names to the value behind it and nothing else; a batch
/// is one span at least.
pub proof fn law_seeding_flags(args: Seq<Seq<char>>, i: int, o: SeedView)
    requires
        0 <= i,
        i + 1 < args.len(),
    ensures
        ({
            let value = args[i + 1];
            let size = usize_of(value);
            let number = u64_of(value);
            &&& args[i] == "--data-dir"@ ==> scan(args, i, o) == scan(
                args,
                i + 2,
                SeedView { data_dir: Some(value), ..o },
            )
            &&& args[i] == "--url"@ ==> scan(args, i, o) == scan(
                args,
                i + 2,
                SeedView { url: Some(value), ..o },
            )
            &&& args[i] == "--seed"@ && number is Some ==> scan(args, i, o) == scan(
                args,
                i + 2,
                SeedView { seed: number, ..o },
            )
            &&& args[i] == "--start-time-ns"@ && number is Some ==> scan(args, i, o) == scan(
                args,
                i + 2,
                SeedView { start_time_ns: number, ..o },
            )
            &&& args[i] == "--scale"@ && size is Some ==> scan(args, i, o) == scan(
                args,
                i + 2,
                SeedView { scale: size, ..o },
            )
            &&& args[i] == "--payload-threshold-bytes"@ && size is Some ==> scan(args, i, o) == scan(
                args,
                i + 2,
                SeedView { payload_threshold: size->0, ..o },
            )
            &&& args[i] == "--batch"@ && size is Some && size->0 > 0 ==> scan(args, i, o) == scan(
                args,
                i + 2,
                SeedView { batch: size->0, ..o },
            )
            &&& args[i] == "--batch"@ && size == Some(0usize) ==> scan(args, i, o) == scan(
                args,
                i + 2,
                SeedView { batch: 1, ..o },
            )
        }),
{
    lemma_seed_flags();
}

/// What is refused: a number that is none, a flag without its value, a word that
/// is no flag. A request for help is answered whatever follows.
pub proof fn law_what_seeding_refuses(args: Seq<Seq<char>>, i: int, o: SeedView)
    requires
        0 <= i < args.len(),
    ensures
        ({
            let flag = args[i];
            let for_text = flag == "--data-dir"@ || flag == "--url"@;
            let for_number = flag == "--seed"@ || flag == "--start-time-ns"@;
            let for_size = flag == "--scale"@ || flag == "--batch"@ || flag
                == "--payload-threshold-bytes"@;
            let help = flag == "--help"@ || flag == "-h"@;
            &&& (for_text || for_number || for_size) && i + 1 == args.len() ==> scan(args, i, o)
                == Err::<SeedCommandView, Seq<char>>(flag + " needs a value"@)
            &&& for_number && i + 1 < args.len() && u64_of(args[i + 1]).is_none() ==> scan(
                args,
                i,
                o,
            ) == Err::<SeedCommandView, Seq<char>>(flag + " needs a number"@)
            &&& for_size && i + 1 < args.len() && usize_of(args[i + 1]).is_none() ==> scan(
                args,
                i,
                o,
            ) == Err::<SeedCommandView, Seq<char>>(flag + " needs a number"@)
            &&& help ==> scan(args, i, o) == Ok::<SeedCommandView, Seq<char>>(SeedCommandView::Help)
            &&& !for_text && !for_number && !for_size && !help ==> scan(args, i, o) == Err::<
                SeedCommandView,
                Seq<char>,
            >("unknown argument: "@ + flag)
        }),
{
    lemma_seed_flags();
}

/// A server's address gives its host, its port, eighty where none is named, and
/// its path from the slash on.
pub proof fn law_a_servers_address(host: Seq<char>, port: Seq<char>, path: Seq<char>)
    requires
        !host.contains(':') && !host.contains('/') && !port.contains('/'),
    ensures
        server_parts("http://"@ + (host + seq!['/'] + path)) == Ok::<UrlView, Seq<char>>(
            UrlView { host, port: 80, path: "/"@ + path },
        ),
        server_parts("http://"@ + host) == Ok::<UrlView, Seq<char>>(
            UrlView { host, port: 80, path: "/"@ },
        ),
        number_to(port, 65_535) is Some ==> server_parts(
            "http://"@ + ((host + seq![':'] + port) + seq!['/'] + path),
        ) == Ok::<UrlView, Seq<char>>(
            UrlView { host, port: number_to(port, 65_535)->0 as u16, path: "/"@ + path },
        ),
        number_to(port, 65_535).is_none() ==> server_parts(
            "http://"@ + ((host + seq![':'] + port) + seq!['/'] + path),
        ) is Err,
        forall|url: Seq<char>|
            !crate::text::starts_with(url, "http://"@) ==> #[trigger] server_parts(url) is Err,
{
    let scheme = "http://"@;
    let plain = host + seq!['/'] + path;
    let named = host + seq![':'] + port;
    let full = named + seq!['/'] + path;
    crate::text::law_prefixes(scheme, plain, scheme + plain);
    crate::text::law_prefixes(scheme, host, scheme + host);
    crate::text::law_prefixes(scheme, full, scheme + full);
    assert((scheme + plain).skip(scheme.len() as int) =~= plain);
    assert((scheme + host).skip(scheme.len() as int) =~= host);
    assert((scheme + full).skip(scheme.len() as int) =~= full);
    crate::text::law_a_split_is_found(host, '/', path);
    crate::text::law_a_split_is_found(host, ':', port);
    if named.contains('/') {
        let k = choose|k: int| 0 <= k < named.len() && named[k] == '/';
        if k < host.len() {
            assert(host[k] == '/');
        } else if k > host.len() {
            assert(port[k - host.len() - 1] == '/');
        }
    }
    crate::text::law_a_split_is_found(named, '/', path);
    reveal_strlit("/");
    reveal_strlit("");
    assert("/"@ + ""@ =~= "/"@);
}

/// Spans go to the directory or to the server, whichever one is named.
pub proof fn law_destinations(args: SeedView)
    ensures
        args.data_dir is Some && args.url is None ==> destination_of(args) == Ok::<
            DestinationView,
            Seq<char>,
        >(DestinationView::Directory(args.data_dir->0)),
        args.data_dir is None && args.url is Some ==> match server_parts(args.url->0) {
            Ok(parts) => destination_of(args) == Ok::<DestinationView, Seq<char>>(
                DestinationView::Server(parts),
            ),
            Err(message) => destination_of(args) == Err::<DestinationView, Seq<char>>(message),
        },
        (args.data_dir is Some) == (args.url is Some) ==> destination_of(args) is Err,
{
}

/// A chunk is 25 at most and never empty; it starts a day after the one before,
/// from the next seed; and it is named only where there are several.
pub proof fn law_what_a_chunk_is(scale: nat, start_time_ns: nat, seed: u64, i: nat)
    requires
        i < chunk_count(scale),
    ensures
        ({
            let chunk = chunk_of(scale, start_time_ns, seed, i);
            &&& 1 <= chunk.scale <= 25
            &&& i + 1 < chunk_count(scale) ==> chunk.scale == 25
            &&& chunk.start_time_ns == start_time_ns + i * (24 * 60 * 60 * 1_000_000_000)
            &&& seed + i <= u64::MAX ==> chunk.seed == seed + i
            &&& chunk_count(scale) == 1 ==> chunk.namespace == ""@
            &&& chunk_count(scale) > 1 ==> chunk.namespace == "b"@ + dec(i)
        }),
        25 * (chunk_count(scale) - 1) < whole_scale(scale) <= 25 * chunk_count(scale),
        whole_scale(0) == 1,
        scale > 0 ==> whole_scale(scale) == scale,
{
}

/// A post succeeded when its answer begins with a status from 200 to 299.
pub proof fn law_posts_that_succeed(path: Seq<char>, response: Seq<char>)
    ensures
        post_outcome(path, response).is_none() <==> second_word_status(response) is Some && 200
            <= second_word_status(response)->0 <= 299,
{
}

} // verus!
