//! The server's command line.
//!
//! The scan collects what each flag says; the profile is resolved against the
//! explicit flags only once the scan is over, so that an explicit flag wins
//! wherever it stands.

use vstd::prelude::*;

use crate::queries::{joined, read_u64, u64_of};
use crate::text::{
    contains_text, copy, dec, decimal, lemma_texts_push, lowered, number_to, opt_view, parse_number,
    same, text_contains, texts, to_lower, trim, trim_end_char, trim_text_end, trimmed,
};

verus! {

/// Concurrent connections, unless the command line says otherwise.
pub const DEFAULT_MAX_CONNECTIONS: usize = 1_024;

/// The size of the write-ahead log at which the buffer is sealed.
pub const DEFAULT_FLUSH_WAL_BYTES: u64 = 64 * 1024 * 1024;

/// The age, in seconds, at which a buffered span is sealed.
pub const DEFAULT_MAX_BUFFER_AGE_SECONDS: u64 = 300;

/// How many spans a live tail can replay.
pub const DEFAULT_TAIL_RING_SPANS: usize = 8_192;

/// How many bytes a live tail can hold.
pub const DEFAULT_TAIL_RING_BYTES: usize = 32 * 1024 * 1024;

/// Values larger than this are stored as payloads of their own.
pub const DEFAULT_PAYLOAD_THRESHOLD: usize = 256 * 1024;

/// The smallest ceiling under which a result can conform to its schema.
pub const MIN_RESULT_BYTES: usize = 2_048;

// --------------------------------------------------------------------- durability

/// What an acknowledged write guarantees.
#[derive(Clone, Copy, Debug, PartialEq, Eq, Structural)]
pub enum Durability {
    /// In memory only.
    Buffered,
    /// In the write-ahead log.
    Wal,
    /// Sealed into a segment.
    Flushed,
}

pub open spec fn durability_name(d: Durability) -> Seq<char> {
    match d {
        Durability::Buffered => "buffered"@,
        Durability::Wal => "wal"@,
        Durability::Flushed => "flushed"@,
    }
}

pub open spec fn durability_named(name: Seq<char>) -> Option<Durability> {
    if name == "buffered"@ {
        Some(Durability::Buffered)
    } else if name == "wal"@ {
        Some(Durability::Wal)
    } else if name == "flushed"@ {
        Some(Durability::Flushed)
    } else {
        None
    }
}

impl Default for Durability {
    fn default() -> (r: Durability)
        ensures
            r == Durability::Wal,
    {
        Durability::Wal
    }
}

impl Durability {
    pub fn as_str(self) -> (r: &'static str)
        ensures
            r@ == durability_name(self),
    {
        match self {
            Durability::Buffered => "buffered",
            Durability::Wal => "wal",
            Durability::Flushed => "flushed",
        }
    }

    pub fn parse(name: &str) -> (r: Option<Durability>)
        ensures
            r == durability_named(name@),
    {
        if same(name, "buffered") {
            Some(Durability::Buffered)
        } else if same(name, "wal") {
            Some(Durability::Wal)
        } else if same(name, "flushed") {
            Some(Durability::Flushed)
        } else {
            None
        }
    }
}

// ------------------------------------------------------------------------ profile

/// A named group of write-path settings. No profile touches what an
/// acknowledgement guarantees.
#[derive(Clone, Copy, Debug, PartialEq, Eq, Structural)]
pub enum Profile {
    Throughput,
    Balanced,
    Latency,
}

pub open spec fn profile_name(p: Profile) -> Seq<char> {
    match p {
        Profile::Throughput => "throughput"@,
        Profile::Balanced => "balanced"@,
        Profile::Latency => "latency"@,
    }
}

pub open spec fn profile_named(name: Seq<char>) -> Option<Profile> {
    if name == "throughput"@ {
        Some(Profile::Throughput)
    } else if name == "balanced"@ {
        Some(Profile::Balanced)
    } else if name == "latency"@ {
        Some(Profile::Latency)
    } else {
        None
    }
}

/// How many buffered spans a profile seals at.
pub open spec fn profile_flush_spans(p: Profile) -> usize {
    match p {
        Profile::Throughput => 30_000,
        Profile::Balanced => 10_000,
        Profile::Latency => 5_000,
    }
}

/// How long, in microseconds, a profile delays a commit so that more
/// acknowledgements share it.
pub open spec fn profile_commit_window(p: Profile) -> Option<u64> {
    match p {
        Profile::Throughput => Some(1_000),
        Profile::Balanced => None,
        Profile::Latency => None,
    }
}

impl Default for Profile {
    fn default() -> (r: Profile)
        ensures
            r == Profile::Balanced,
    {
        Profile::Balanced
    }
}

impl Profile {
    pub fn as_str(self) -> (r: &'static str)
        ensures
            r@ == profile_name(self),
    {
        match self {
            Profile::Throughput => "throughput",
            Profile::Balanced => "balanced",
            Profile::Latency => "latency",
        }
    }

    pub fn parse(name: &str) -> (r: Option<Profile>)
        ensures
            r == profile_named(name@),
    {
        if same(name, "throughput") {
            Some(Profile::Throughput)
        } else if same(name, "balanced") {
            Some(Profile::Balanced)
        } else if same(name, "latency") {
            Some(Profile::Latency)
        } else {
            None
        }
    }

    /// How many buffered spans the profile seals at.
    pub fn flush_spans(self) -> (r: usize)
        ensures
            r == profile_flush_spans(self),
    {
        match self {
            Profile::Throughput => 30_000,
            Profile::Balanced => 10_000,
            Profile::Latency => 5_000,
        }
    }

    /// How long, in microseconds, the profile delays a commit.
    pub fn wal_commit_window(self) -> (r: Option<u64>)
        ensures
            r == profile_commit_window(self),
    {
        match self {
            Profile::Throughput => Some(1_000),
            Profile::Balanced => None,
            Profile::Latency => None,
        }
    }
}

// ------------------------------------------------------------------ configuration

/// When segments are merged.
#[derive(Clone, Copy, Debug, PartialEq, Eq, Structural)]
pub struct CompactionConfig {
    pub fanout: usize,
    pub max_segment_bytes: u64,
}

pub open spec fn default_compaction() -> CompactionConfig {
    CompactionConfig { fanout: 4, max_segment_bytes: 268_435_456 }
}

impl Default for CompactionConfig {
    fn default() -> (r: CompactionConfig)
        ensures
            r == default_compaction(),
    {
        CompactionConfig { fanout: 4, max_segment_bytes: 268_435_456 }
    }
}

/// What the engine is opened with.
#[derive(Clone, Copy, Debug, PartialEq, Eq, Structural)]
pub struct Config {
    pub flush_spans: usize,
    pub flush_wal_bytes: Option<u64>,
    /// In microseconds.
    pub wal_commit_window: Option<u64>,
    pub ttl_seconds: Option<u64>,
    /// In seconds.
    pub max_buffer_age: Option<u64>,
    pub shadow_seal: bool,
    pub payload_threshold: Option<usize>,
    pub durability: Durability,
    pub content_index: bool,
    pub compaction: Option<CompactionConfig>,
    pub tail_ring_spans: usize,
    pub tail_ring_bytes: usize,
}

pub open spec fn default_config() -> Config {
    Config {
        flush_spans: profile_flush_spans(Profile::Balanced),
        flush_wal_bytes: Some(DEFAULT_FLUSH_WAL_BYTES),
        wal_commit_window: None,
        ttl_seconds: None,
        max_buffer_age: Some(DEFAULT_MAX_BUFFER_AGE_SECONDS),
        shadow_seal: true,
        payload_threshold: Some(DEFAULT_PAYLOAD_THRESHOLD),
        durability: Durability::Wal,
        content_index: true,
        compaction: Some(default_compaction()),
        tail_ring_spans: DEFAULT_TAIL_RING_SPANS,
        tail_ring_bytes: DEFAULT_TAIL_RING_BYTES,
    }
}

impl Default for Config {
    fn default() -> (r: Config)
        ensures
            r == default_config(),
    {
        Config {
            flush_spans: Profile::Balanced.flush_spans(),
            flush_wal_bytes: Some(DEFAULT_FLUSH_WAL_BYTES),
            wal_commit_window: None,
            ttl_seconds: None,
            max_buffer_age: Some(DEFAULT_MAX_BUFFER_AGE_SECONDS),
            shadow_seal: true,
            payload_threshold: Some(DEFAULT_PAYLOAD_THRESHOLD),
            durability: Durability::Wal,
            content_index: true,
            compaction: Some(CompactionConfig::default()),
            tail_ring_spans: DEFAULT_TAIL_RING_SPANS,
            tail_ring_bytes: DEFAULT_TAIL_RING_BYTES,
        }
    }
}

/// How large the results of the agent-facing endpoint may be.
#[derive(Clone, Copy, Debug, PartialEq, Eq, Structural)]
pub struct Limits {
    pub max_result_bytes: usize,
    pub max_payload_bytes: usize,
}

/// What the agent-facing endpoint is allowed to do.
#[derive(Debug)]
pub struct McpOptions {
    /// Off unless the command line turns it on.
    pub enabled: bool,
    pub annotations: bool,
    pub limits: Limits,
    /// Browser origins that may drive the endpoint, beyond loopback.
    pub allowed_origins: Vec<String>,
}

pub struct McpView {
    pub enabled: bool,
    pub annotations: bool,
    pub limits: Limits,
    pub allowed_origins: Seq<Seq<char>>,
}

impl View for McpOptions {
    type V = McpView;

    open spec fn view(&self) -> McpView {
        McpView {
            enabled: self.enabled,
            annotations: self.annotations,
            limits: self.limits,
            allowed_origins: texts(self.allowed_origins@),
        }
    }
}

pub open spec fn default_mcp() -> McpView {
    McpView {
        enabled: false,
        annotations: false,
        limits: Limits { max_result_bytes: 32_768, max_payload_bytes: 262_144 },
        allowed_origins: seq![],
    }
}

impl Default for McpOptions {
    fn default() -> (r: McpOptions)
        ensures
            r@ == default_mcp(),
    {
        let r = McpOptions {
            enabled: false,
            annotations: false,
            limits: Limits { max_result_bytes: 32_768, max_payload_bytes: 262_144 },
            allowed_origins: Vec::new(),
        };
        assert(r@.allowed_origins =~= Seq::<Seq<char>>::empty());
        r
    }
}

/// Everything the command line decides, with the profile already resolved
/// against the explicit flags.
#[derive(Debug)]
pub struct Options {
    pub data_dir: String,
    pub host: String,
    pub port: u16,
    pub max_connections: usize,
    pub allow_unauthenticated_non_loopback: bool,
    pub ui_dir: Option<String>,
    /// A backup to install before serving.
    pub restore_from: Option<String>,
    pub profile: Profile,
    pub compaction_enabled: bool,
    pub mcp: McpOptions,
    pub config: Config,
}

pub struct OptionsView {
    pub data_dir: Seq<char>,
    pub host: Seq<char>,
    pub port: u16,
    pub max_connections: usize,
    pub allow_unauthenticated_non_loopback: bool,
    pub ui_dir: Option<Seq<char>>,
    pub restore_from: Option<Seq<char>>,
    pub profile: Profile,
    pub compaction_enabled: bool,
    pub mcp: McpView,
    pub config: Config,
}

impl View for Options {
    type V = OptionsView;

    open spec fn view(&self) -> OptionsView {
        OptionsView {
            data_dir: self.data_dir@,
            host: self.host@,
            port: self.port,
            max_connections: self.max_connections,
            allow_unauthenticated_non_loopback: self.allow_unauthenticated_non_loopback,
            ui_dir: opt_view(self.ui_dir),
            restore_from: opt_view(self.restore_from),
            profile: self.profile,
            compaction_enabled: self.compaction_enabled,
            mcp: self.mcp@,
            config: self.config,
        }
    }
}

// --------------------------------------------------------------------------- scan

/// What the flags seen so far say. The settings that a profile owns are `None`
/// until a flag gives them.
#[derive(Clone, Copy, Debug)]
pub struct Numbers {
    pub port: u16,
    pub ttl_seconds: Option<u64>,
    pub payload_threshold_bytes: usize,
    pub max_connections: usize,
    pub compaction: CompactionConfig,
    pub compaction_enabled: bool,
    pub flush_wal_bytes: u64,
    pub max_buffer_age_seconds: u64,
    pub flush_spans: Option<usize>,
    pub tail_ring_spans: usize,
    pub tail_ring_bytes: usize,
    pub wal_commit_window_us: Option<u64>,
    pub limits: Limits,
}

#[derive(Debug)]
pub struct Settings {
    pub data_dir: String,
    pub host: String,
    pub ui_dir: Option<String>,
    pub restore_from: Option<String>,
    pub allowed_origins: Vec<String>,
    pub numbers: Numbers,
    pub durability: Durability,
    pub profile: Profile,
    pub shadow_seal: bool,
    pub content_index: bool,
    pub mcp_enabled: bool,
    pub mcp_annotations: bool,
    pub allow_unauthenticated_non_loopback: bool,
}

pub struct SettingsView {
    pub data_dir: Seq<char>,
    pub host: Seq<char>,
    pub ui_dir: Option<Seq<char>>,
    pub restore_from: Option<Seq<char>>,
    pub allowed_origins: Seq<Seq<char>>,
    pub numbers: Numbers,
    pub durability: Durability,
    pub profile: Profile,
    pub shadow_seal: bool,
    pub content_index: bool,
    pub mcp_enabled: bool,
    pub mcp_annotations: bool,
    pub allow_unauthenticated_non_loopback: bool,
}

impl View for Settings {
    type V = SettingsView;

    open spec fn view(&self) -> SettingsView {
        SettingsView {
            data_dir: self.data_dir@,
            host: self.host@,
            ui_dir: opt_view(self.ui_dir),
            restore_from: opt_view(self.restore_from),
            allowed_origins: texts(self.allowed_origins@),
            numbers: self.numbers,
            durability: self.durability,
            profile: self.profile,
            shadow_seal: self.shadow_seal,
            content_index: self.content_index,
            mcp_enabled: self.mcp_enabled,
            mcp_annotations: self.mcp_annotations,
            allow_unauthenticated_non_loopback: self.allow_unauthenticated_non_loopback,
        }
    }
}

pub open spec fn default_numbers() -> Numbers {
    Numbers {
        port: 8080,
        ttl_seconds: None,
        payload_threshold_bytes: DEFAULT_PAYLOAD_THRESHOLD,
        max_connections: DEFAULT_MAX_CONNECTIONS,
        compaction: default_compaction(),
        compaction_enabled: true,
        flush_wal_bytes: DEFAULT_FLUSH_WAL_BYTES,
        max_buffer_age_seconds: DEFAULT_MAX_BUFFER_AGE_SECONDS,
        flush_spans: None,
        tail_ring_spans: DEFAULT_TAIL_RING_SPANS,
        tail_ring_bytes: DEFAULT_TAIL_RING_BYTES,
        wal_commit_window_us: None,
        limits: default_mcp().limits,
    }
}

/// What an empty command line says.
pub open spec fn default_settings() -> SettingsView {
    SettingsView {
        data_dir: "./data"@,
        host: "127.0.0.1"@,
        ui_dir: None,
        restore_from: None,
        allowed_origins: seq![],
        numbers: default_numbers(),
        durability: Durability::Wal,
        profile: Profile::Balanced,
        shadow_seal: true,
        content_index: true,
        mcp_enabled: false,
        mcp_annotations: false,
        allow_unauthenticated_non_loopback: false,
    }
}

pub open spec fn at_least(n: usize, least: usize) -> usize {
    if n < least {
        least
    } else {
        n
    }
}

/// What a flag with a number says; nothing for any other flag.
pub open spec fn number_step(s: Numbers, flag: Seq<char>, n: u64) -> Option<Numbers> {
    if flag == "--ttl-seconds"@ {
        Some(Numbers { ttl_seconds: Some(n), ..s })
    } else if flag == "--max-buffer-age-seconds"@ {
        Some(Numbers { max_buffer_age_seconds: n, ..s })
    } else if flag == "--payload-threshold-bytes"@ {
        Some(Numbers { payload_threshold_bytes: n as usize, ..s })
    } else if flag == "--flush-spans"@ {
        Some(Numbers { flush_spans: Some(at_least(n as usize, 1)), ..s })
    } else if flag == "--flush-wal-bytes"@ {
        Some(Numbers { flush_wal_bytes: n, ..s })
    } else if flag == "--tail-ring-spans"@ {
        Some(Numbers { tail_ring_spans: at_least(n as usize, 1), ..s })
    } else if flag == "--tail-ring-bytes"@ {
        Some(Numbers { tail_ring_bytes: at_least(n as usize, 1), ..s })
    } else if flag == "--max-connections"@ {
        Some(Numbers { max_connections: at_least(n as usize, 1), ..s })
    } else if flag == "--compaction-fanout"@ {
        Some(
            Numbers {
                compaction_enabled: n as usize >= 2,
                compaction: CompactionConfig { fanout: at_least(n as usize, 2), ..s.compaction },
                ..s
            },
        )
    } else if flag == "--compaction-max-segment-bytes"@ {
        Some(Numbers { compaction: CompactionConfig { max_segment_bytes: n, ..s.compaction }, ..s })
    } else if flag == "--wal-commit-window-us"@ {
        Some(Numbers { wal_commit_window_us: Some(n), ..s })
    } else if flag == "--mcp-max-result-bytes"@ {
        Some(Numbers { limits: Limits { max_result_bytes: n as usize, ..s.limits }, ..s })
    } else if flag == "--mcp-max-payload-bytes"@ {
        Some(Numbers { limits: Limits { max_payload_bytes: n as usize, ..s.limits }, ..s })
    } else {
        None
    }
}

/// What a flag with a text says; nothing for any other flag.
pub open spec fn text_step(s: SettingsView, flag: Seq<char>, value: Seq<char>) -> Option<
    Result<SettingsView, Seq<char>>,
> {
    if flag == "--data-dir"@ {
        Some(Ok(SettingsView { data_dir: value, ..s }))
    } else if flag == "--host"@ {
        Some(Ok(SettingsView { host: value, ..s }))
    } else if flag == "--ui-dir"@ {
        Some(Ok(SettingsView { ui_dir: Some(value), ..s }))
    } else if flag == "--restore"@ {
        Some(Ok(SettingsView { restore_from: Some(value), ..s }))
    } else if flag == "--port"@ {
        match number_to(value, u16::MAX as nat) {
            Some(port) => Some(
                Ok(SettingsView { numbers: Numbers { port: port as u16, ..s.numbers }, ..s }),
            ),
            None => Some(Err("--port must be a port number"@)),
        }
    } else if flag == "--durability"@ {
        match durability_named(value) {
            Some(durability) => Some(Ok(SettingsView { durability, ..s })),
            None => Some(Err("--durability must be buffered|wal|flushed"@)),
        }
    } else if flag == "--profile"@ {
        match profile_named(value) {
            Some(profile) => Some(Ok(SettingsView { profile, ..s })),
            None => Some(Err("--profile must be throughput|balanced|latency"@)),
        }
    } else if flag == "--mcp-allowed-origin"@ {
        let origin = lowered(trimmed(value));
        if contains_text(origin, "://"@) {
            Some(
                Ok(
                    SettingsView {
                        mcp_enabled: true,
                        allowed_origins: s.allowed_origins.push(trim_end_char(origin, '/')),
                        ..s
                    },
                ),
            )
        } else {
            Some(
                Err(
                    "--mcp-allowed-origin must be a whole origin including the scheme, like https://traza.example.com (got "@
                        + origin + ")"@,
                ),
            )
        }
    } else {
        None
    }
}

/// What a flag that stands alone says; nothing for any other flag.
pub open spec fn switch_step(s: SettingsView, flag: Seq<char>) -> Option<SettingsView> {
    if flag == "--no-shadow-seal"@ {
        Some(SettingsView { shadow_seal: false, ..s })
    } else if flag == "--no-content-index"@ {
        Some(SettingsView { content_index: false, ..s })
    } else if flag == "--mcp"@ {
        Some(SettingsView { mcp_enabled: true, ..s })
    } else if flag == "--mcp-annotations"@ {
        Some(SettingsView { mcp_enabled: true, mcp_annotations: true, ..s })
    } else if flag == "--allow-unauthenticated-non-loopback"@ {
        Some(SettingsView { allow_unauthenticated_non_loopback: true, ..s })
    } else {
        None
    }
}

pub open spec fn asks_help(flag: Seq<char>) -> bool {
    flag == "--help"@ || flag == "-h"@
}

pub open spec fn asks_version(flag: Seq<char>) -> bool {
    flag == "--version"@ || flag == "-V"@
}

/// What a command line amounts to.
pub enum Scan {
    Settings(SettingsView),
    Help,
    Version,
}

/// The scan of the arguments from position `i` on.
pub open spec fn scan(args: Seq<Seq<char>>, i: int, s: SettingsView) -> Result<Scan, Seq<char>>
    decreases args.len() - i,
{
    if i < 0 || i >= args.len() {
        Ok(Scan::Settings(s))
    } else {
        let flag = args[i];
        let valued = number_step(s.numbers, flag, 0).is_some() || text_step(s, flag, seq![]).is_some();
        match switch_step(s, flag) {
            Some(next) => scan(args, i + 1, next),
            None => if asks_help(flag) {
                Ok(Scan::Help)
            } else if asks_version(flag) {
                Ok(Scan::Version)
            } else if !valued {
                Err("unknown argument: "@ + flag)
            } else if i + 1 >= args.len() {
                Err(flag + " requires a value"@)
            } else {
                match value_step(s, flag, args[i + 1]) {
                    Ok(next) => scan(args, i + 2, next),
                    Err(message) => Err(message),
                }
            },
        }
    }
}

/// What a flag that takes a value says with the given one.
pub open spec fn value_step(s: SettingsView, flag: Seq<char>, value: Seq<char>) -> Result<
    SettingsView,
    Seq<char>,
> {
    match text_step(s, flag, value) {
        Some(r) => r,
        None => match u64_of(value) {
            Some(n) => match number_step(s.numbers, flag, n) {
                Some(numbers) => Ok(SettingsView { numbers, ..s }),
                None => Ok(s),
            },
            None => Err(flag + " must be a non-negative number"@),
        },
    }
}

fn names_number(flag: &str) -> (r: bool)
    ensures
        forall|s: Numbers, n: u64|
            #![trigger number_step(s, flag@, n)]
            r == number_step(s, flag@, n).is_some(),
{
    same(flag, "--ttl-seconds") || same(flag, "--max-buffer-age-seconds") || same(
        flag,
        "--payload-threshold-bytes",
    ) || same(flag, "--flush-spans") || same(flag, "--flush-wal-bytes") || same(
        flag,
        "--tail-ring-spans",
    ) || same(flag, "--tail-ring-bytes") || same(flag, "--max-connections") || same(
        flag,
        "--compaction-fanout",
    ) || same(flag, "--compaction-max-segment-bytes") || same(flag, "--wal-commit-window-us")
        || same(flag, "--mcp-max-result-bytes") || same(flag, "--mcp-max-payload-bytes")
}

fn names_text(flag: &str) -> (r: bool)
    ensures
        forall|s: SettingsView, value: Seq<char>|
            #![trigger text_step(s, flag@, value)]
            r == text_step(s, flag@, value).is_some(),
{
    same(flag, "--data-dir") || same(flag, "--host") || same(flag, "--ui-dir") || same(
        flag,
        "--restore",
    ) || same(flag, "--port") || same(flag, "--durability") || same(flag, "--profile") || same(
        flag,
        "--mcp-allowed-origin",
    )
}

fn raised(n: u64, least: usize) -> (r: usize)
    ensures
        r == at_least(n as usize, least),
{
    let n = n as usize;
    if n < least {
        least
    } else {
        n
    }
}

fn take_number(s: Numbers, flag: &str, n: u64) -> (r: Numbers)
    requires
        number_step(s, flag@, n).is_some(),
    ensures
        number_step(s, flag@, n) == Some(r),
{
    let mut s = s;
    if same(flag, "--ttl-seconds") {
        s.ttl_seconds = Some(n);
    } else if same(flag, "--max-buffer-age-seconds") {
        s.max_buffer_age_seconds = n;
    } else if same(flag, "--payload-threshold-bytes") {
        s.payload_threshold_bytes = n as usize;
    } else if same(flag, "--flush-spans") {
        s.flush_spans = Some(raised(n, 1));
    } else if same(flag, "--flush-wal-bytes") {
        s.flush_wal_bytes = n;
    } else if same(flag, "--tail-ring-spans") {
        s.tail_ring_spans = raised(n, 1);
    } else if same(flag, "--tail-ring-bytes") {
        s.tail_ring_bytes = raised(n, 1);
    } else if same(flag, "--max-connections") {
        s.max_connections = raised(n, 1);
    } else if same(flag, "--compaction-fanout") {
        s.compaction_enabled = n as usize >= 2;
        s.compaction.fanout = raised(n, 2);
    } else if same(flag, "--compaction-max-segment-bytes") {
        s.compaction.max_segment_bytes = n;
    } else if same(flag, "--wal-commit-window-us") {
        s.wal_commit_window_us = Some(n);
    } else if same(flag, "--mcp-max-result-bytes") {
        s.limits.max_result_bytes = n as usize;
    } else {
        s.limits.max_payload_bytes = n as usize;
    }
    s
}

/// What a step's result says.
pub open spec fn settled(r: Result<Settings, String>) -> Result<SettingsView, Seq<char>> {
    match r {
        Ok(s) => Ok(s@),
        Err(message) => Err(message@),
    }
}

fn partial_origin(origin: &str) -> (r: String)
    ensures
        r@
            == "--mcp-allowed-origin must be a whole origin including the scheme, like https://traza.example.com (got "@
            + origin@ + ")"@,
{
    let mut r = copy(
        "--mcp-allowed-origin must be a whole origin including the scheme, like https://traza.example.com (got ",
    );
    r.push_str(origin);
    r.push_str(")");
    r
}

fn take_text(s: Settings, flag: &str, value: &str) -> (r: Result<Settings, String>)
    requires
        text_step(s@, flag@, value@).is_some(),
    ensures
        text_step(s@, flag@, value@) == Some(settled(r)),
{
    let mut s = s;
    if same(flag, "--data-dir") {
        s.data_dir = copy(value);
    } else if same(flag, "--host") {
        s.host = copy(value);
    } else if same(flag, "--ui-dir") {
        s.ui_dir = Some(copy(value));
    } else if same(flag, "--restore") {
        s.restore_from = Some(copy(value));
    } else if same(flag, "--port") {
        match parse_number(value, 65_535) {
            Some(port) => {
                s.numbers.port = port as u16;
            },
            None => {
                return Err(copy("--port must be a port number"));
            },
        }
    } else if same(flag, "--durability") {
        match Durability::parse(value) {
            Some(durability) => {
                s.durability = durability;
            },
            None => {
                return Err(copy("--durability must be buffered|wal|flushed"));
            },
        }
    } else if same(flag, "--profile") {
        match Profile::parse(value) {
            Some(profile) => {
                s.profile = profile;
            },
            None => {
                return Err(copy("--profile must be throughput|balanced|latency"));
            },
        }
    } else {
        let trimmed_value = trim(value);
        let origin = to_lower(trimmed_value.as_str());
        if !text_contains(origin.as_str(), "://") {
            return Err(partial_origin(origin.as_str()));
        }
        let allowed = trim_text_end(origin.as_str(), '/');
        s.mcp_enabled = true;
        proof {
            lemma_texts_push(s.allowed_origins@, allowed);
        }
        s.allowed_origins.push(allowed);
    }
    Ok(s)
}

fn is_switch(flag: &str) -> (r: bool)
    ensures
        forall|s: SettingsView|
            #![trigger switch_step(s, flag@)]
            r == switch_step(s, flag@).is_some(),
{
    same(flag, "--no-shadow-seal") || same(flag, "--no-content-index") || same(flag, "--mcp")
        || same(flag, "--mcp-annotations") || same(flag, "--allow-unauthenticated-non-loopback")
}

fn take_switch(s: Settings, flag: &str) -> (r: Settings)
    requires
        switch_step(s@, flag@).is_some(),
    ensures
        switch_step(s@, flag@) == Some(r@),
{
    let mut s = s;
    if same(flag, "--no-shadow-seal") {
        s.shadow_seal = false;
    } else if same(flag, "--no-content-index") {
        s.content_index = false;
    } else if same(flag, "--mcp") {
        s.mcp_enabled = true;
    } else if same(flag, "--mcp-annotations") {
        s.mcp_enabled = true;
        s.mcp_annotations = true;
    } else {
        s.allow_unauthenticated_non_loopback = true;
    }
    s
}

fn take_value(s: Settings, flag: &str, value: &str) -> (r: Result<Settings, String>)
    requires
        number_step(s@.numbers, flag@, 0).is_some() || text_step(s@, flag@, seq![]).is_some(),
    ensures
        settled(r) == value_step(s@, flag@, value@),
{
    let mut s = s;
    if names_text(flag) {
        return take_text(s, flag, value);
    }
    let number = names_number(flag);
    match read_u64(value) {
        Some(n) => {
            if number {
                s.numbers = take_number(s.numbers, flag, n);
            }
            Ok(s)
        },
        None => Err(joined(flag, " must be a non-negative number")),
    }
}

fn first_settings() -> (r: Settings)
    ensures
        r@ == default_settings(),
{
    let mcp = McpOptions::default();
    let r = Settings {
        data_dir: copy("./data"),
        host: copy("127.0.0.1"),
        ui_dir: None,
        restore_from: None,
        allowed_origins: mcp.allowed_origins,
        numbers: Numbers {
            port: 8080,
            ttl_seconds: None,
            payload_threshold_bytes: DEFAULT_PAYLOAD_THRESHOLD,
            max_connections: DEFAULT_MAX_CONNECTIONS,
            compaction: CompactionConfig::default(),
            compaction_enabled: true,
            flush_wal_bytes: DEFAULT_FLUSH_WAL_BYTES,
            max_buffer_age_seconds: DEFAULT_MAX_BUFFER_AGE_SECONDS,
            flush_spans: None,
            tail_ring_spans: DEFAULT_TAIL_RING_SPANS,
            tail_ring_bytes: DEFAULT_TAIL_RING_BYTES,
            wal_commit_window_us: None,
            limits: mcp.limits,
        },
        durability: Durability::default(),
        profile: Profile::default(),
        shadow_seal: true,
        content_index: true,
        mcp_enabled: false,
        mcp_annotations: false,
        allow_unauthenticated_non_loopback: false,
    };
    r
}

// ------------------------------------------------------------------------ resolve

pub open spec fn unless_zero(n: u64) -> Option<u64> {
    if n > 0 {
        Some(n)
    } else {
        None
    }
}

/// What the engine is opened with: an explicit flag beats the profile, and a
/// commit window of zero is an explicit answer.
pub open spec fn resolved_config(s: SettingsView) -> Config {
    let n = s.numbers;
    Config {
        flush_spans: match n.flush_spans {
            Some(spans) => spans,
            None => profile_flush_spans(s.profile),
        },
        flush_wal_bytes: unless_zero(n.flush_wal_bytes),
        wal_commit_window: match n.wal_commit_window_us {
            Some(micros) => unless_zero(micros),
            None => profile_commit_window(s.profile),
        },
        ttl_seconds: n.ttl_seconds,
        max_buffer_age: unless_zero(n.max_buffer_age_seconds),
        shadow_seal: s.shadow_seal,
        payload_threshold: if n.payload_threshold_bytes > 0 {
            Some(n.payload_threshold_bytes)
        } else {
            None
        },
        durability: s.durability,
        content_index: s.content_index,
        compaction: if n.compaction_enabled {
            Some(n.compaction)
        } else {
            None
        },
        tail_ring_spans: n.tail_ring_spans,
        tail_ring_bytes: n.tail_ring_bytes,
    }
}

pub open spec fn ceiling_too_low(max_result_bytes: usize) -> Seq<char> {
    "--mcp-max-result-bytes "@ + dec(max_result_bytes as nat) + " is below the "@ + dec(
        MIN_RESULT_BYTES as nat,
    )
        + " needed for a result that both fits the ceiling and conforms to the output schema its tool advertises"@
}

/// What the settings of a whole command line make.
pub open spec fn resolved(s: SettingsView) -> Result<OptionsView, Seq<char>> {
    if s.mcp_enabled && s.numbers.limits.max_result_bytes < MIN_RESULT_BYTES {
        Err(ceiling_too_low(s.numbers.limits.max_result_bytes))
    } else {
        Ok(
            OptionsView {
                data_dir: s.data_dir,
                host: s.host,
                port: s.numbers.port,
                max_connections: s.numbers.max_connections,
                allow_unauthenticated_non_loopback: s.allow_unauthenticated_non_loopback,
                ui_dir: s.ui_dir,
                restore_from: s.restore_from,
                profile: s.profile,
                compaction_enabled: s.numbers.compaction_enabled,
                mcp: McpView {
                    enabled: s.mcp_enabled,
                    annotations: s.mcp_annotations,
                    limits: s.numbers.limits,
                    allowed_origins: s.allowed_origins,
                },
                config: resolved_config(s),
            },
        )
    }
}

/// What to do with a command line.
#[derive(Debug)]
pub enum Command {
    Serve(Options),
    /// Print the usage.
    Help,
    /// Print the version.
    Version,
}

pub enum CommandView {
    Serve(OptionsView),
    Help,
    Version,
}

impl View for Command {
    type V = CommandView;

    open spec fn view(&self) -> CommandView {
        match self {
            Command::Serve(options) => CommandView::Serve(options@),
            Command::Help => CommandView::Help,
            Command::Version => CommandView::Version,
        }
    }
}

/// The command that the arguments give.
pub open spec fn command_of(args: Seq<Seq<char>>) -> Result<CommandView, Seq<char>> {
    match scan(args, 0, default_settings()) {
        Err(message) => Err(message),
        Ok(Scan::Help) => Ok(CommandView::Help),
        Ok(Scan::Version) => Ok(CommandView::Version),
        Ok(Scan::Settings(s)) => match resolved(s) {
            Ok(options) => Ok(CommandView::Serve(options)),
            Err(message) => Err(message),
        },
    }
}

pub open spec fn command_result(r: Result<Command, String>) -> Result<CommandView, Seq<char>> {
    match r {
        Ok(command) => Ok(command@),
        Err(message) => Err(message@),
    }
}

fn positive(n: u64) -> (r: Option<u64>)
    ensures
        r == unless_zero(n),
{
    if n > 0 {
        Some(n)
    } else {
        None
    }
}

fn resolve_config(s: &Settings) -> (r: Config)
    ensures
        r == resolved_config(s@),
{
    let n = s.numbers;
    Config {
        flush_spans: match n.flush_spans {
            Some(spans) => spans,
            None => s.profile.flush_spans(),
        },
        flush_wal_bytes: positive(n.flush_wal_bytes),
        wal_commit_window: match n.wal_commit_window_us {
            Some(micros) => positive(micros),
            None => s.profile.wal_commit_window(),
        },
        ttl_seconds: n.ttl_seconds,
        max_buffer_age: positive(n.max_buffer_age_seconds),
        shadow_seal: s.shadow_seal,
        payload_threshold: if n.payload_threshold_bytes > 0 {
            Some(n.payload_threshold_bytes)
        } else {
            None
        },
        durability: s.durability,
        content_index: s.content_index,
        compaction: if n.compaction_enabled {
            Some(n.compaction)
        } else {
            None
        },
        tail_ring_spans: n.tail_ring_spans,
        tail_ring_bytes: n.tail_ring_bytes,
    }
}

fn low_ceiling(max_result_bytes: usize) -> (r: String)
    ensures
        r@ == ceiling_too_low(max_result_bytes),
{
    let given = decimal(max_result_bytes as u64);
    let least = decimal(MIN_RESULT_BYTES as u64);
    let mut r = copy("--mcp-max-result-bytes ");
    r.push_str(given.as_str());
    r.push_str(" is below the ");
    r.push_str(least.as_str());
    r.push_str(
        " needed for a result that both fits the ceiling and conforms to the output schema its tool advertises",
    );
    r
}

fn resolve(s: Settings) -> (r: Result<Command, String>)
    ensures
        command_result(r) == (match resolved(s@) {
            Ok(options) => Ok(CommandView::Serve(options)),
            Err(message) => Err(message),
        }),
{
    if s.mcp_enabled && s.numbers.limits.max_result_bytes < MIN_RESULT_BYTES {
        return Err(low_ceiling(s.numbers.limits.max_result_bytes));
    }
    let config = resolve_config(&s);
    Ok(
        Command::Serve(
            Options {
                data_dir: s.data_dir,
                host: s.host,
                port: s.numbers.port,
                max_connections: s.numbers.max_connections,
                allow_unauthenticated_non_loopback: s.allow_unauthenticated_non_loopback,
                ui_dir: s.ui_dir,
                restore_from: s.restore_from,
                profile: s.profile,
                compaction_enabled: s.numbers.compaction_enabled,
                mcp: McpOptions {
                    enabled: s.mcp_enabled,
                    annotations: s.mcp_annotations,
                    limits: s.numbers.limits,
                    allowed_origins: s.allowed_origins,
                },
                config,
            },
        ),
    )
}

/// Reads the command line.
pub fn parse_command(args: &[String]) -> (r: Result<Command, String>)
    ensures
        command_result(r) == command_of(texts(args@)),
{
    let n: usize = args.len();
    let ghost all = texts(args@);
    let mut s = first_settings();
    let mut i: usize = 0;
    while i < n
        invariant
            i <= n == args@.len(),
            all == texts(args@),
            scan(all, i as int, s@) == scan(all, 0, default_settings()),
        decreases n - i,
    {
        let flag = args[i].as_str();
        assert(all[i as int] == flag@);
        if is_switch(flag) {
            s = take_switch(s, flag);
            i += 1;
        } else if same(flag, "--help") || same(flag, "-h") {
            return Ok(Command::Help);
        } else if same(flag, "--version") || same(flag, "-V") {
            return Ok(Command::Version);
        } else if !(names_number(flag) || names_text(flag)) {
            return Err(joined("unknown argument: ", flag));
        } else if n - i < 2 {
            return Err(joined(flag, " requires a value"));
        } else {
            assert(all[i + 1] == args@[i + 1]@);
            match take_value(s, flag, args[i + 1].as_str()) {
                Ok(next) => {
                    s = next;
                },
                Err(message) => {
                    return Err(message);
                },
            }
            i += 2;
        }
    }
    resolve(s)
}

/// Reads the command line of a server; `None` where there is nothing to run
/// because it asked for help or for the version.
pub fn parse_args(args: &[String]) -> (r: Result<Option<Options>, String>)
    ensures
        match command_of(texts(args@)) {
            Ok(CommandView::Serve(options)) => r matches Ok(Some(found)) && found@ == options,
            Ok(_) => r matches Ok(None),
            Err(message) => r matches Err(text) && text@ == message,
        },
{
    match parse_command(args) {
        Ok(Command::Serve(options)) => Ok(Some(options)),
        Ok(Command::Help) => Ok(None),
        Ok(Command::Version) => Ok(None),
        Err(message) => Err(message),
    }
}

// --------------------------------------------------------------------------- laws

/// A profile owns two settings and no other: what an acknowledgement
/// guarantees and how segments are merged are not among them.
pub proof fn law_a_profile_owns_two_settings(s: SettingsView, p: Profile)
    ensures
        ({
            let before = resolved_config(s);
            let after = resolved_config(SettingsView { profile: p, ..s });
            after == Config {
                flush_spans: after.flush_spans,
                wal_commit_window: after.wal_commit_window,
                ..before
            }
        }),
{
}

/// An explicit flag beats every profile, and an explicit window of zero turns
/// a profile's window off.
pub proof fn law_an_explicit_flag_beats_the_profile(s: SettingsView, p: Profile)
    ensures
        s.numbers.flush_spans matches Some(spans) ==> resolved_config(
            SettingsView { profile: p, ..s },
        ).flush_spans == spans,
        s.numbers.wal_commit_window_us matches Some(micros) ==> resolved_config(
            SettingsView { profile: p, ..s },
        ).wal_commit_window == unless_zero(micros),
{
}

/// It does not matter whether `--profile` comes before or after a flag with a
/// number.
pub proof fn law_a_profile_may_stand_anywhere(
    s: SettingsView,
    profile: Seq<char>,
    flag: Seq<char>,
    value: Seq<char>,
)
    requires
        profile_named(profile).is_some(),
        number_step(s.numbers, flag, 0).is_some(),
        text_step(s, flag, value).is_none(),
    ensures
        value_step(s, "--profile"@, profile) matches Ok(first) && value_step(first, flag, value)
            == (match value_step(s, flag, value) {
            Ok(second) => value_step(second, "--profile"@, profile),
            Err(message) => Err(message),
        }),
{
    lemma_profile_flag();
    let first = SettingsView { profile: profile_named(profile).unwrap(), ..s };
    assert(value_step(s, "--profile"@, profile) == Ok::<SettingsView, Seq<char>>(first));
    assert(text_step(first, flag, value).is_none());
}

proof fn lemma_profile_flag()
    ensures
        "--profile"@ != "--data-dir"@,
        "--profile"@ != "--host"@,
        "--profile"@ != "--ui-dir"@,
        "--profile"@ != "--restore"@,
        "--profile"@ != "--port"@,
        "--profile"@ != "--durability"@,
{
    reveal_strlit("--profile");
    reveal_strlit("--data-dir");
    reveal_strlit("--host");
    reveal_strlit("--ui-dir");
    reveal_strlit("--restore");
    reveal_strlit("--port");
    reveal_strlit("--durability");
    assert("--profile"@.len() == 9 && "--data-dir"@.len() == 10 && "--durability"@.len() == 12);
    assert("--host"@.len() == 6 && "--port"@.len() == 6 && "--ui-dir"@.len() == 8);
    assert("--profile"@[2] == 'p' && "--restore"@[2] == 'r');
}

/// The names of the durability modes read back.
pub proof fn law_durability_names_read_back(d: Durability)
    ensures
        durability_named(durability_name(d)) == Some(d),
{
    reveal_strlit("buffered");
    reveal_strlit("wal");
    reveal_strlit("flushed");
    assert("buffered"@.len() == 8 && "wal"@.len() == 3 && "flushed"@.len() == 7);
}

/// The names of the profiles read back.
pub proof fn law_profile_names_read_back(p: Profile)
    ensures
        profile_named(profile_name(p)) == Some(p),
{
    reveal_strlit("throughput");
    reveal_strlit("balanced");
    reveal_strlit("latency");
    assert("throughput"@.len() == 10 && "balanced"@.len() == 8 && "latency"@.len() == 7);
}

proof fn lemma_flags()
    ensures
        "--ttl-seconds"@.len() == 13 && "--ttl-seconds"@[2] == 't',
        "--max-buffer-age-seconds"@.len() == 24,
        "--payload-threshold-bytes"@.len() == 25,
        "--flush-spans"@.len() == 13 && "--flush-spans"@[2] == 'f',
        "--flush-wal-bytes"@.len() == 17 && "--flush-wal-bytes"@[2] == 'f',
        "--tail-ring-spans"@.len() == 17 && "--tail-ring-spans"@[2] == 't'
            && "--tail-ring-spans"@[12] == 's',
        "--tail-ring-bytes"@.len() == 17 && "--tail-ring-bytes"@[2] == 't'
            && "--tail-ring-bytes"@[12] == 'b',
        "--max-connections"@.len() == 17 && "--max-connections"@[2] == 'm'
            && "--max-connections"@[3] == 'a',
        "--compaction-fanout"@.len() == 19,
        "--compaction-max-segment-bytes"@.len() == 30,
        "--wal-commit-window-us"@.len() == 22 && "--wal-commit-window-us"@[2] == 'w',
        "--mcp-max-result-bytes"@.len() == 22 && "--mcp-max-result-bytes"@[2] == 'm',
        "--mcp-max-payload-bytes"@.len() == 23,
        "--data-dir"@.len() == 10,
        "--host"@.len() == 6 && "--host"@[2] == 'h' && "--host"@[3] == 'o',
        "--ui-dir"@.len() == 8,
        "--restore"@.len() == 9 && "--restore"@[2] == 'r',
        "--port"@.len() == 6 && "--port"@[2] == 'p',
        "--durability"@.len() == 12,
        "--profile"@.len() == 9 && "--profile"@[2] == 'p',
        "--mcp-allowed-origin"@.len() == 20,
        "--no-shadow-seal"@.len() == 16,
        "--no-content-index"@.len() == 18,
        "--mcp"@.len() == 5,
        "--mcp-annotations"@.len() == 17 && "--mcp-annotations"@[2] == 'm'
            && "--mcp-annotations"@[3] == 'c',
        "--allow-unauthenticated-non-loopback"@.len() == 36,
        "--help"@.len() == 6 && "--help"@[2] == 'h' && "--help"@[3] == 'e',
        "-h"@.len() == 2 && "-h"@[1] == 'h',
        "--version"@.len() == 9 && "--version"@[2] == 'v',
        "-V"@.len() == 2 && "-V"@[1] == 'V',
{
    reveal_strlit("--ttl-seconds");
    reveal_strlit("--max-buffer-age-seconds");
    reveal_strlit("--payload-threshold-bytes");
    reveal_strlit("--flush-spans");
    reveal_strlit("--flush-wal-bytes");
    reveal_strlit("--tail-ring-spans");
    reveal_strlit("--tail-ring-bytes");
    reveal_strlit("--max-connections");
    reveal_strlit("--compaction-fanout");
    reveal_strlit("--compaction-max-segment-bytes");
    reveal_strlit("--wal-commit-window-us");
    reveal_strlit("--mcp-max-result-bytes");
    reveal_strlit("--mcp-max-payload-bytes");
    reveal_strlit("--data-dir");
    reveal_strlit("--host");
    reveal_strlit("--ui-dir");
    reveal_strlit("--restore");
    reveal_strlit("--port");
    reveal_strlit("--durability");
    reveal_strlit("--profile");
    reveal_strlit("--mcp-allowed-origin");
    reveal_strlit("--no-shadow-seal");
    reveal_strlit("--no-content-index");
    reveal_strlit("--mcp");
    reveal_strlit("--mcp-annotations");
    reveal_strlit("--allow-unauthenticated-non-loopback");
    reveal_strlit("--help");
    reveal_strlit("-h");
    reveal_strlit("--version");
    reveal_strlit("-V");
}


/// The flags that take a number each set their own setting, and nothing else;
/// what must be at least one is raised to it, and a fan-out below two turns
/// compaction off.
pub proof fn law_number_flags(s: SettingsView, value: Seq<char>, n: u64)
    requires
        u64_of(value) == Some(n),
        n <= usize::MAX,
    ensures
        ({
            let m = s.numbers;
            let with = |numbers: Numbers| Ok::<SettingsView, Seq<char>>(
                SettingsView { numbers, ..s },
            );
            let one = if n == 0 {
                1usize
            } else {
                n as usize
            };
            let two = if n < 2 {
                2usize
            } else {
                n as usize
            };
            &&& value_step(s, "--ttl-seconds"@, value) == with(
                Numbers { ttl_seconds: Some(n), ..m },
            )
            &&& value_step(s, "--max-buffer-age-seconds"@, value) == with(
                Numbers { max_buffer_age_seconds: n, ..m },
            )
            &&& value_step(s, "--payload-threshold-bytes"@, value) == with(
                Numbers { payload_threshold_bytes: n as usize, ..m },
            )
            &&& value_step(s, "--flush-spans"@, value) == with(
                Numbers { flush_spans: Some(one), ..m },
            )
            &&& value_step(s, "--flush-wal-bytes"@, value) == with(
                Numbers { flush_wal_bytes: n, ..m },
            )
            &&& value_step(s, "--tail-ring-spans"@, value) == with(
                Numbers { tail_ring_spans: one, ..m },
            )
            &&& value_step(s, "--tail-ring-bytes"@, value) == with(
                Numbers { tail_ring_bytes: one, ..m },
            )
            &&& value_step(s, "--max-connections"@, value) == with(
                Numbers { max_connections: one, ..m },
            )
            &&& value_step(s, "--compaction-fanout"@, value) == with(
                Numbers {
                    compaction_enabled: n >= 2,
                    compaction: CompactionConfig { fanout: two, ..m.compaction },
                    ..m
                },
            )
            &&& value_step(s, "--compaction-max-segment-bytes"@, value) == with(
                Numbers { compaction: CompactionConfig { max_segment_bytes: n, ..m.compaction }, ..m },
            )
            &&& value_step(s, "--wal-commit-window-us"@, value) == with(
                Numbers { wal_commit_window_us: Some(n), ..m },
            )
            &&& value_step(s, "--mcp-max-result-bytes"@, value) == with(
                Numbers { limits: Limits { max_result_bytes: n as usize, ..m.limits }, ..m },
            )
            &&& value_step(s, "--mcp-max-payload-bytes"@, value) == with(
                Numbers { limits: Limits { max_payload_bytes: n as usize, ..m.limits }, ..m },
            )
        }),
{
    lemma_flags();
}

/// A flag that takes a number refuses what is none.
pub proof fn law_number_flags_refuse(s: SettingsView, flag: Seq<char>, value: Seq<char>)
    requires
        number_step(s.numbers, flag, 0) is Some,
        text_step(s, flag, value) is None,
        u64_of(value) is None,
    ensures
        value_step(s, flag, value) == Err::<SettingsView, Seq<char>>(
            flag + " must be a non-negative number"@,
        ),
{
}

/// The flags that take a text each set their own setting, and nothing else; a
/// port that is none, a durability or a profile that is not known, and an origin
/// without its scheme are refused.
pub proof fn law_text_flags(s: SettingsView, value: Seq<char>)
    ensures
        ({
            let with = |s: SettingsView| Ok::<SettingsView, Seq<char>>(s);
            let port = crate::text::number(value);
            let origin = lowered(trimmed(value));
            let d = durability_named(value);
            let p = profile_named(value);
            &&& value_step(s, "--data-dir"@, value) == with(SettingsView { data_dir: value, ..s })
            &&& value_step(s, "--host"@, value) == with(SettingsView { host: value, ..s })
            &&& value_step(s, "--ui-dir"@, value) == with(SettingsView { ui_dir: Some(value), ..s })
            &&& value_step(s, "--restore"@, value) == with(
                SettingsView { restore_from: Some(value), ..s },
            )
            &&& port is Some && port->0 <= 65_535 ==> value_step(s, "--port"@, value) == with(
                SettingsView { numbers: Numbers { port: port->0 as u16, ..s.numbers }, ..s },
            )
            &&& port is None || port->0 > 65_535 ==> value_step(s, "--port"@, value) is Err
            &&& d is Some ==> value_step(s, "--durability"@, value) == with(
                SettingsView { durability: d->0, ..s },
            )
            &&& d is None ==> value_step(s, "--durability"@, value) is Err
            &&& p is Some ==> value_step(s, "--profile"@, value) == with(
                SettingsView { profile: p->0, ..s },
            )
            &&& p is None ==> value_step(s, "--profile"@, value) is Err
            &&& contains_text(origin, "://"@) ==> value_step(s, "--mcp-allowed-origin"@, value)
                == with(
                SettingsView {
                    mcp_enabled: true,
                    allowed_origins: s.allowed_origins.push(trim_end_char(origin, '/')),
                    ..s
                },
            )
            &&& !contains_text(origin, "://"@) ==> value_step(
                s,
                "--mcp-allowed-origin"@,
                value,
            ) is Err
        }),
{
    lemma_flags();
}

/// The switches each set their own setting; annotations switch the endpoint on
/// with them.
pub proof fn law_switches(s: SettingsView)
    ensures
        switch_step(s, "--no-shadow-seal"@) == Some((SettingsView { shadow_seal: false, ..s })),
        switch_step(s, "--no-content-index"@) == Some((SettingsView { content_index: false, ..s })),
        switch_step(s, "--mcp"@) == Some((SettingsView { mcp_enabled: true, ..s })),
        switch_step(s, "--mcp-annotations"@) == Some(
            (SettingsView { mcp_enabled: true, mcp_annotations: true, ..s }),
        ),
        switch_step(s, "--allow-unauthenticated-non-loopback"@) == Some(
            (SettingsView { allow_unauthenticated_non_loopback: true, ..s }),
        ),
{
    lemma_flags();
}

/// Arguments are read from the front: a switch stands alone, a flag with a value
/// takes the next argument, `--help` and `--version` end it, and an argument
/// that is not known, or a flag without its value, is refused.
pub proof fn law_arguments_are_read_in_turn(args: Seq<Seq<char>>, i: int, s: SettingsView)
    requires
        0 <= i < args.len(),
    ensures
        ({
            let flag = args[i];
            let r = scan(args, i, s);
            &&& flag == "--help"@ || flag == "-h"@ ==> r == Ok::<Scan, Seq<char>>(Scan::Help)
            &&& flag == "--version"@ || flag == "-V"@ ==> r == Ok::<Scan, Seq<char>>(Scan::Version)
            &&& flag == "--mcp"@ ==> r == scan(args, i + 1, SettingsView { mcp_enabled: true, ..s })
            &&& flag == "--port"@ && i + 1 == args.len() ==> r == Err::<Scan, Seq<char>>(
                "--port"@ + " requires a value"@,
            )
            &&& flag == "--host"@ && i + 1 < args.len() ==> r == scan(
                args,
                i + 2,
                SettingsView { host: args[i + 1], ..s },
            )
            &&& flag.len() > 0 && flag[0] != '-' ==> r == Err::<Scan, Seq<char>>(
                "unknown argument: "@ + flag,
            )
        }),
        scan(args, args.len() as int, s) == Ok::<Scan, Seq<char>>(Scan::Settings(s)),
{
    lemma_flags();
    lemma_dashes();
    reveal_with_fuel(scan, 2);
}

proof fn lemma_dashes()
    ensures
        forall|s: SettingsView, flag: Seq<char>|
            flag.len() > 0 && flag[0] != '-' ==> (#[trigger] switch_step(s, flag)) is None,
        forall|s: SettingsView, flag: Seq<char>, value: Seq<char>|
            flag.len() > 0 && flag[0] != '-' ==> (#[trigger] text_step(s, flag, value)) is None,
        forall|s: Numbers, flag: Seq<char>, n: u64|
            flag.len() > 0 && flag[0] != '-' ==> (#[trigger] number_step(s, flag, n)) is None,
        forall|flag: Seq<char>|
            flag.len() > 0 && flag[0] != '-' ==> !(#[trigger] asks_help(flag)) && !asks_version(
                flag,
            ),
{
    reveal_strlit("--ttl-seconds");
    assert("--ttl-seconds"@[0] == '-');
    reveal_strlit("--max-buffer-age-seconds");
    assert("--max-buffer-age-seconds"@[0] == '-');
    reveal_strlit("--payload-threshold-bytes");
    assert("--payload-threshold-bytes"@[0] == '-');
    reveal_strlit("--flush-spans");
    assert("--flush-spans"@[0] == '-');
    reveal_strlit("--flush-wal-bytes");
    assert("--flush-wal-bytes"@[0] == '-');
    reveal_strlit("--tail-ring-spans");
    assert("--tail-ring-spans"@[0] == '-');
    reveal_strlit("--tail-ring-bytes");
    assert("--tail-ring-bytes"@[0] == '-');
    reveal_strlit("--max-connections");
    assert("--max-connections"@[0] == '-');
    reveal_strlit("--compaction-fanout");
    assert("--compaction-fanout"@[0] == '-');
    reveal_strlit("--compaction-max-segment-bytes");
    assert("--compaction-max-segment-bytes"@[0] == '-');
    reveal_strlit("--wal-commit-window-us");
    assert("--wal-commit-window-us"@[0] == '-');
    reveal_strlit("--mcp-max-result-bytes");
    assert("--mcp-max-result-bytes"@[0] == '-');
    reveal_strlit("--mcp-max-payload-bytes");
    assert("--mcp-max-payload-bytes"@[0] == '-');
    reveal_strlit("--data-dir");
    assert("--data-dir"@[0] == '-');
    reveal_strlit("--host");
    assert("--host"@[0] == '-');
    reveal_strlit("--ui-dir");
    assert("--ui-dir"@[0] == '-');
    reveal_strlit("--restore");
    assert("--restore"@[0] == '-');
    reveal_strlit("--port");
    assert("--port"@[0] == '-');
    reveal_strlit("--durability");
    assert("--durability"@[0] == '-');
    reveal_strlit("--profile");
    assert("--profile"@[0] == '-');
    reveal_strlit("--mcp-allowed-origin");
    assert("--mcp-allowed-origin"@[0] == '-');
    reveal_strlit("--no-shadow-seal");
    assert("--no-shadow-seal"@[0] == '-');
    reveal_strlit("--no-content-index");
    assert("--no-content-index"@[0] == '-');
    reveal_strlit("--mcp");
    assert("--mcp"@[0] == '-');
    reveal_strlit("--mcp-annotations");
    assert("--mcp-annotations"@[0] == '-');
    reveal_strlit("--allow-unauthenticated-non-loopback");
    assert("--allow-unauthenticated-non-loopback"@[0] == '-');
    reveal_strlit("--help");
    assert("--help"@[0] == '-');
    reveal_strlit("-h");
    assert("-h"@[0] == '-');
    reveal_strlit("--version");
    assert("--version"@[0] == '-');
    reveal_strlit("-V");
    assert("-V"@[0] == '-');
}

/// What serves where nothing is said: this machine alone on port 8080, a
/// write-ahead log, a seal every ten thousand spans, and no MCP endpoint.
pub proof fn law_default_settings()
    ensures
        ({
            let s = default_settings();
            let c = resolved_config(s);
            &&& s.data_dir == "./data"@ && s.host == "127.0.0.1"@ && s.numbers.port == 8080
            &&& s.ui_dir is None && s.restore_from is None && s.allowed_origins.len() == 0
            &&& s.durability is Wal && s.profile is Balanced
            &&& s.shadow_seal && s.content_index && !s.mcp_enabled && !s.mcp_annotations
            &&& !s.allow_unauthenticated_non_loopback
            &&& s.numbers.max_connections == 1_024
            &&& s.numbers.limits.max_result_bytes == 32_768
            &&& s.numbers.limits.max_payload_bytes == 262_144
            &&& c.flush_spans == 10_000 && c.flush_wal_bytes == Some(67_108_864u64)
            &&& c.wal_commit_window is None && c.ttl_seconds is None
            &&& c.max_buffer_age == Some(300u64) && c.payload_threshold == Some(262_144usize)
            &&& c.tail_ring_spans == 8_192 && c.tail_ring_bytes == 33_554_432
            &&& c.compaction is Some && (c.compaction->0).fanout == 4 && (
            c.compaction->0).max_segment_bytes == 268_435_456
        }),
{
}

/// What settings resolve to: what is given stands; a number of zero turns off
/// the log limit, the commit window, the buffer's age and the payload
/// threshold; what is not given is the profile's.
pub proof fn law_settings_resolve(s: SettingsView)
    ensures
        ({
            let n = s.numbers;
            let c = resolved_config(s);
            &&& n.flush_spans is Some ==> c.flush_spans == n.flush_spans->0
            &&& n.flush_spans is None ==> c.flush_spans == (match s.profile {
                Profile::Throughput => 30_000usize,
                Profile::Balanced => 10_000usize,
                Profile::Latency => 5_000usize,
            })
            &&& n.wal_commit_window_us is None ==> c.wal_commit_window == (match s.profile {
                Profile::Throughput => Some(1_000u64),
                Profile::Balanced => None,
                Profile::Latency => None,
            })
            &&& n.wal_commit_window_us == Some(0u64) ==> c.wal_commit_window is None
            &&& n.wal_commit_window_us is Some && n.wal_commit_window_us->0 > 0
                ==> c.wal_commit_window == n.wal_commit_window_us
            &&& n.flush_wal_bytes == 0 ==> c.flush_wal_bytes is None
            &&& n.flush_wal_bytes > 0 ==> c.flush_wal_bytes == Some(n.flush_wal_bytes)
            &&& n.max_buffer_age_seconds == 0 ==> c.max_buffer_age is None
            &&& n.max_buffer_age_seconds > 0 ==> c.max_buffer_age == Some(n.max_buffer_age_seconds)
            &&& n.payload_threshold_bytes == 0 ==> c.payload_threshold is None
            &&& n.payload_threshold_bytes > 0 ==> c.payload_threshold == Some(
                n.payload_threshold_bytes,
            )
            &&& c.ttl_seconds == n.ttl_seconds && c.shadow_seal == s.shadow_seal
            &&& c.durability == s.durability && c.content_index == s.content_index
            &&& n.compaction_enabled ==> c.compaction == Some(n.compaction)
            &&& !n.compaction_enabled ==> c.compaction is None
            &&& c.tail_ring_spans == n.tail_ring_spans && c.tail_ring_bytes == n.tail_ring_bytes
        }),
        ({
            let low = s.mcp_enabled && s.numbers.limits.max_result_bytes < 2_048;
            &&& low ==> resolved(s) is Err
            &&& !low ==> resolved(s) is Ok && {
                let o = resolved(s)->Ok_0;
                &&& o.data_dir == s.data_dir && o.host == s.host && o.port == s.numbers.port
                &&& o.max_connections == s.numbers.max_connections
                &&& o.allow_unauthenticated_non_loopback == s.allow_unauthenticated_non_loopback
                &&& o.ui_dir == s.ui_dir && o.restore_from == s.restore_from
                &&& o.profile == s.profile && o.compaction_enabled == s.numbers.compaction_enabled
                &&& o.mcp.enabled == s.mcp_enabled && o.mcp.annotations == s.mcp_annotations
                &&& o.mcp.limits == s.numbers.limits && o.mcp.allowed_origins == s.allowed_origins
                &&& o.config == resolved_config(s)
            }
        }),
{
}

/// The names of durabilities and profiles, and no others.
pub proof fn law_names(name: Seq<char>)
    ensures
        name == "buffered"@ <==> durability_named(name) == Some(Durability::Buffered),
        name == "wal"@ <==> durability_named(name) == Some(Durability::Wal),
        name == "flushed"@ <==> durability_named(name) == Some(Durability::Flushed),
        name == "throughput"@ <==> profile_named(name) == Some(Profile::Throughput),
        name == "balanced"@ <==> profile_named(name) == Some(Profile::Balanced),
        name == "latency"@ <==> profile_named(name) == Some(Profile::Latency),
        durability_name(Durability::Buffered) == "buffered"@,
        durability_name(Durability::Wal) == "wal"@,
        durability_name(Durability::Flushed) == "flushed"@,
        profile_name(Profile::Throughput) == "throughput"@,
        profile_name(Profile::Balanced) == "balanced"@,
        profile_name(Profile::Latency) == "latency"@,
{
    reveal_strlit("buffered");
    reveal_strlit("wal");
    reveal_strlit("flushed");
    reveal_strlit("throughput");
    reveal_strlit("balanced");
    reveal_strlit("latency");
    assert("buffered"@[0] == 'b' && "balanced"@[0] == 'b' && "flushed"@[0] == 'f');
    assert("latency"@[0] == 'l');
}

} // verus!
