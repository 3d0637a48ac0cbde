//! The server's other commands, what it says at startup, and the bridge that
//! speaks to a running server over standard input and output.

use vstd::prelude::*;
use vstd::utf8::encode_utf8;

use crate::args::{profile_name, Durability, McpOptions, McpView, Profile};
use crate::http::{bytes_at, find_bytes, lossy_text, utf8_lossy};
use crate::json::{json_document, read_json, Json, JsonView};
use crate::mcp::{error_response, rpc_error, ENDPOINT, PROTOCOL_VERSION};
use crate::queries::{joined, read_u64, u64_of};
use crate::text::{
    copy, cut_once, cut_text_once, debug_text, dec, decimal, lowered, number_to, opt_view,
    parse_number, quoted, same, same_ignoring_case, split_once, split_once_last, split_text_last, split_text_once, split_words,
    texts, trim, trimmed, words,
};

verus! {

// ---------------------------------------------------------------------- verify

/// The command that checks an erasure offline.
#[derive(Debug)]
pub enum VerifyCommand {
    Help,
    Verify { data_dir: String, erasure: String, as_json: bool },
}

pub enum VerifyView {
    Help,
    Verify { data_dir: Seq<char>, erasure: Seq<char>, as_json: bool },
}

impl View for VerifyCommand {
    type V = VerifyView;

    open spec fn view(&self) -> VerifyView {
        match self {
            VerifyCommand::Help => VerifyView::Help,
            VerifyCommand::Verify { data_dir, erasure, as_json } => VerifyView::Verify {
                data_dir: data_dir@,
                erasure: erasure@,
                as_json: *as_json,
            },
        }
    }
}

/// The command that the arguments from position `i` on make of what was said
/// before them.
pub open spec fn verify_scan(
    args: Seq<Seq<char>>,
    i: int,
    data_dir: Seq<char>,
    erasure: Option<Seq<char>>,
    as_json: bool,
) -> Result<VerifyView, Seq<char>>
    decreases args.len() - i,
{
    if i < 0 || i >= args.len() {
        match erasure {
            Some(erasure) => Ok(VerifyView::Verify { data_dir, erasure, as_json }),
            None => Err("verify requires --erasure <id|latest>"@),
        }
    } else if args[i] == "--data-dir"@ {
        if i + 1 >= args.len() {
            Err("--data-dir requires a value"@)
        } else {
            verify_scan(args, i + 2, args[i + 1], erasure, as_json)
        }
    } else if args[i] == "--erasure"@ {
        if i + 1 >= args.len() {
            Err("--erasure requires an id or 'latest'"@)
        } else {
            verify_scan(args, i + 2, data_dir, Some(args[i + 1]), as_json)
        }
    } else if args[i] == "--json"@ {
        verify_scan(args, i + 1, data_dir, erasure, true)
    } else if args[i] == "--help"@ || args[i] == "-h"@ {
        Ok(VerifyView::Help)
    } else {
        Err("unknown argument: "@ + args[i])
    }
}

/// Reads the arguments of the `verify` command.
pub fn parse_verify(args: &[String]) -> (r: Result<VerifyCommand, String>)
    ensures
        match r {
            Ok(command) => verify_scan(texts(args@), 0, "./data"@, None, false) == Ok::<
                VerifyView,
                Seq<char>,
            >(command@),
            Err(message) => verify_scan(texts(args@), 0, "./data"@, None, false) == Err::<
                VerifyView,
                Seq<char>,
            >(message@),
        },
{
    let n: usize = args.len();
    let ghost all = texts(args@);
    let mut data_dir = copy("./data");
    let mut erasure: Option<String> = None;
    let mut as_json = false;
    let mut i: usize = 0;
    while i < n
        invariant
            i <= n == args@.len(),
            all == texts(args@),
            verify_scan(all, i as int, data_dir@, opt_view(erasure), as_json) == verify_scan(
                all,
                0,
                "./data"@,
                None,
                false,
            ),
        decreases n - i,
    {
        let flag = args[i].as_str();
        assert(all[i as int] == flag@);
        if same(flag, "--data-dir") {
            if n - i < 2 {
                return Err(copy("--data-dir requires a value"));
            }
            assert(all[i + 1] == args@[i + 1]@);
            data_dir = copy(args[i + 1].as_str());
            i += 2;
        } else if same(flag, "--erasure") {
            if n - i < 2 {
                return Err(copy("--erasure requires an id or 'latest'"));
            }
            assert(all[i + 1] == args@[i + 1]@);
            erasure = Some(copy(args[i + 1].as_str()));
            i += 2;
        } else if same(flag, "--json") {
            as_json = true;
            i += 1;
        } else if same(flag, "--help") || same(flag, "-h") {
            return Ok(VerifyCommand::Help);
        } else {
            return Err(joined("unknown argument: ", flag));
        }
    }
    match erasure {
        Some(erasure) => Ok(VerifyCommand::Verify { data_dir, erasure, as_json }),
        None => Err(copy("verify requires --erasure <id|latest>")),
    }
}

/// Why no erasure could be chosen.
#[derive(Clone, Copy, Debug, PartialEq, Eq, Structural)]
pub enum NoErasure {
    /// There is none to be the latest.
    NoneRecorded,
    /// What was given is neither an id nor `latest`.
    NotAnId,
}

pub open spec fn no_erasure_message(why: NoErasure, wanted: Seq<char>) -> Seq<char> {
    match why {
        NoErasure::NoneRecorded => "the tombstone log records no erasures"@,
        NoErasure::NotAnId => "--erasure takes a decimal id or 'latest' (got "@ + debug_text(wanted)
            + ")"@,
    }
}

impl NoErasure {
    /// The reason in words, given what was asked for.
    pub fn message(self, wanted: &str) -> (r: String)
        ensures
            r@ == no_erasure_message(self, wanted@),
    {
        match self {
            NoErasure::NoneRecorded => copy("the tombstone log records no erasures"),
            NoErasure::NotAnId => {
                let mut r = copy("--erasure takes a decimal id or 'latest' (got ");
                r.push_str(quoted(wanted).as_str());
                r.push_str(")");
                r
            },
        }
    }
}

/// The refusal to check a store that a live server owns.
pub fn owned_directory(data_dir: &str) -> (r: String)
    ensures
        r@ == data_dir@
            + " is owned by a live traza-server; ask that server instead: GET /v1/erasures/<id>/verify returns the same receipt"@,
{
    joined(
        data_dir,
        " is owned by a live traza-server; ask that server instead: GET /v1/erasures/<id>/verify returns the same receipt",
    )
}

/// Chooses the erasure to check: the one with the given id, or the last one
/// that is recorded.
pub fn choose_erasure(wanted: &str, recorded: &Vec<u64>) -> (r: Result<u64, NoErasure>)
    ensures
        r == (if wanted@ == "latest"@ {
            if recorded@.len() == 0 {
                Err(NoErasure::NoneRecorded)
            } else {
                Ok(recorded@.last())
            }
        } else {
            match u64_of(wanted@) {
                Some(id) => Ok(id),
                None => Err(NoErasure::NotAnId),
            }
        }),
{
    if same(wanted, "latest") {
        if recorded.len() == 0 {
            Err(NoErasure::NoneRecorded)
        } else {
            Ok(recorded[recorded.len() - 1])
        }
    } else {
        match read_u64(wanted) {
            Some(id) => Ok(id),
            None => Err(NoErasure::NotAnId),
        }
    }
}

/// The exit status of a check: 0 where the receipt says erased.
pub fn verify_exit(result: &str) -> (r: i32)
    ensures
        r == (if result@ == "erased"@ {
            0int
        } else {
            2
        }),
{
    if same(result, "erased") {
        0
    } else {
        2
    }
}

// --------------------------------------------------------------------- startup

/// Whether an address is this machine's own. `is_loopback_address` says
/// whether it reads as an IP address that is.
pub fn is_loopback_bind(host: &str, is_loopback_address: bool) -> (r: bool)
    ensures
        r == (lowered(host@) == lowered("localhost"@) || is_loopback_address),
{
    same_ignoring_case(host, "localhost") || is_loopback_address
}

pub open spec fn open_bind(host: Seq<char>) -> Seq<char> {
    "refusing unauthenticated non-loopback bind "@ + host
        + "; configure TRAZA_TOKENS or pass --allow-unauthenticated-non-loopback explicitly"@
}

/// Why the server does not start: anyone could reach it, and nothing says that
/// this is meant.
pub fn startup_refusal(authenticated: bool, loopback: bool, allowed: bool, host: &str) -> (r: Option<
    String,
>)
    ensures
        opt_view(r) == (if !authenticated && !loopback && !allowed {
            Some(open_bind(host@))
        } else {
            None
        }),
{
    if !authenticated && !loopback && !allowed {
        let mut message = copy("refusing unauthenticated non-loopback bind ");
        message.push_str(host);
        message.push_str(
            "; configure TRAZA_TOKENS or pass --allow-unauthenticated-non-loopback explicitly",
        );
        Some(message)
    } else {
        None
    }
}

/// What an acknowledgement guarantees, for the log.
pub open spec fn durability_notice_of(d: Durability) -> Seq<char> {
    match d {
        Durability::Buffered => {
            "traza-server: durability=buffered — acknowledged writes are IN MEMORY ONLY and a crash loses anything not yet flushed. Use --durability wal in production."@
        },
        Durability::Wal => {
            "traza-server: durability=wal — acknowledged writes are fsynced to the write-ahead log and recovered on restart"@
        },
        Durability::Flushed => {
            "traza-server: durability=flushed — acknowledged writes are sealed into a segment"@
        },
    }
}

pub fn durability_notice(d: Durability) -> (r: &'static str)
    ensures
        r@ == durability_notice_of(d),
{
    match d {
        Durability::Buffered => {
            "traza-server: durability=buffered — acknowledged writes are IN MEMORY ONLY and a crash loses anything not yet flushed. Use --durability wal in production."
        },
        Durability::Wal => {
            "traza-server: durability=wal — acknowledged writes are fsynced to the write-ahead log and recovered on restart"
        },
        Durability::Flushed => {
            "traza-server: durability=flushed — acknowledged writes are sealed into a segment"
        },
    }
}

pub open spec fn window_text(window_us: Option<u64>) -> Seq<char> {
    match window_us {
        Some(micros) => dec(micros as nat) + "us"@,
        None => "off"@,
    }
}

/// The write-path settings in force, for the log: the resolved values, since a
/// profile that was partly overridden is not the profile.
pub fn profile_notice(profile: Profile, flush_spans: usize, window_us: Option<u64>) -> (r: String)
    ensures
        r@ == "traza-server: profile="@ + profile_name(profile) + " — flush-spans="@ + dec(
            flush_spans as nat,
        ) + ", wal-commit-window="@ + window_text(window_us),
{
    let mut r = copy("traza-server: profile=");
    r.push_str(profile.as_str());
    r.push_str(" — flush-spans=");
    let spans = decimal(flush_spans as u64);
    r.push_str(spans.as_str());
    r.push_str(", wal-commit-window=");
    let window = match window_us {
        Some(micros) => {
            let mut text = decimal(micros);
            text.push_str("us");
            text
        },
        None => copy("off"),
    };
    r.push_str(window.as_str());
    r
}

pub open spec fn mcp_notice_of(m: McpView) -> Option<Seq<char>> {
    if m.enabled {
        Some(
            "traza-server: MCP endpoint on "@ + ENDPOINT@ + " — read tools"@ + (if m.annotations {
                " plus record_annotation for rw tokens"@
            } else {
                " only (no --mcp-annotations)"@
            }) + "; results capped at "@ + dec(m.limits.max_result_bytes as nat) + " bytes"@,
        )
    } else {
        None
    }
}

/// What the agent-facing endpoint will do, for the log; nothing where it is
/// off.
pub fn mcp_notice(m: &McpOptions) -> (r: Option<String>)
    ensures
        opt_view(r) == mcp_notice_of(m@),
{
    if !m.enabled {
        return None;
    }
    let mut r = copy("traza-server: MCP endpoint on ");
    r.push_str(ENDPOINT);
    r.push_str(" — read tools");
    r.push_str(
        if m.annotations {
            " plus record_annotation for rw tokens"
        } else {
            " only (no --mcp-annotations)"
        },
    );
    r.push_str("; results capped at ");
    let cap = decimal(m.limits.max_result_bytes as u64);
    r.push_str(cap.as_str());
    r.push_str(" bytes");
    Some(r)
}

/// The maintenance that is not due on every tick.
#[derive(Clone, Copy, Debug, PartialEq, Eq, Structural)]
pub struct Duties {
    /// Drop what has outlived its time: every minute, where there is a limit.
    pub expire: bool,
    /// Publish a generation: every five minutes.
    pub checkpoint: bool,
}

/// What is due on a tick; ticks are five seconds apart and count from one.
pub fn duties(tick: u64, ttl_enabled: bool) -> (r: Duties)
    ensures
        r == (Duties { expire: ttl_enabled && tick % 12 == 0, checkpoint: tick % 60 == 0 }),
{
    Duties { expire: ttl_enabled && tick % 12 == 0, checkpoint: tick % 60 == 0 }
}

// ---------------------------------------------------------------------- bridge

/// How the bridge is used.
pub const BRIDGE_USAGE: &'static str =
    "Usage: traza-server mcp --url http://HOST:PORT[/v1/mcp] [--token TOKEN]";

/// The command that bridges standard input and output to a running server.
#[derive(Debug)]
pub enum BridgeCommand {
    Help,
    Bridge { url: String, token: Option<String> },
}

pub enum BridgeView {
    Help,
    Bridge { url: Seq<char>, token: Option<Seq<char>> },
}

impl View for BridgeCommand {
    type V = BridgeView;

    open spec fn view(&self) -> BridgeView {
        match self {
            BridgeCommand::Help => BridgeView::Help,
            BridgeCommand::Bridge { url, token } => BridgeView::Bridge {
                url: url@,
                token: opt_view(*token),
            },
        }
    }
}

/// The command that the arguments from position `i` on make of what was said
/// before them.
pub open spec fn bridge_scan(
    args: Seq<Seq<char>>,
    i: int,
    url: Option<Seq<char>>,
    token: Option<Seq<char>>,
) -> Result<BridgeView, Seq<char>>
    decreases args.len() - i,
{
    if i < 0 || i >= args.len() {
        match url {
            Some(url) => Ok(BridgeView::Bridge { url, token }),
            None => Err(BRIDGE_USAGE@),
        }
    } else if args[i] == "--url"@ {
        if i + 1 >= args.len() {
            Err("--url requires a value"@)
        } else {
            bridge_scan(args, i + 2, Some(args[i + 1]), token)
        }
    } else if args[i] == "--token"@ {
        if i + 1 >= args.len() {
            Err("--token requires a value"@)
        } else {
            bridge_scan(args, i + 2, url, Some(args[i + 1]))
        }
    } else if args[i] == "--help"@ || args[i] == "-h"@ {
        Ok(BridgeView::Help)
    } else {
        Err("unknown argument: "@ + args[i] + "\n"@ + BRIDGE_USAGE@)
    }
}

/// A token from the environment; an empty one counts as none.
pub open spec fn given_token(token: Option<Seq<char>>) -> Option<Seq<char>> {
    match token {
        Some(token) => if token == ""@ {
            None
        } else {
            Some(token)
        },
        None => None,
    }
}

/// Reads the arguments of the bridge. `environment` is the token that the
/// environment gives, if it gives one; a flag overrides it.
pub fn parse_bridge(args: &[String], environment: Option<String>) -> (r: Result<
    BridgeCommand,
    String,
>)
    ensures
        match r {
            Ok(command) => bridge_scan(texts(args@), 0, None, given_token(opt_view(environment)))
                == Ok::<BridgeView, Seq<char>>(command@),
            Err(message) => bridge_scan(texts(args@), 0, None, given_token(opt_view(environment)))
                == Err::<BridgeView, Seq<char>>(message@),
        },
{
    let n: usize = args.len();
    let ghost all = texts(args@);
    let ghost given = given_token(opt_view(environment));
    let mut url: Option<String> = None;
    let mut token: Option<String> = match environment {
        Some(token) => if same(token.as_str(), "") {
            None
        } else {
            Some(token)
        },
        None => None,
    };
    let mut i: usize = 0;
    while i < n
        invariant
            i <= n == args@.len(),
            all == texts(args@),
            given == given_token(opt_view(environment)),
            bridge_scan(all, i as int, opt_view(url), opt_view(token)) == bridge_scan(
                all,
                0,
                None,
                given,
            ),
        decreases n - i,
    {
        let flag = args[i].as_str();
        assert(all[i as int] == flag@);
        if same(flag, "--url") {
            if n - i < 2 {
                return Err(copy("--url requires a value"));
            }
            assert(all[i + 1] == args@[i + 1]@);
            url = Some(copy(args[i + 1].as_str()));
            i += 2;
        } else if same(flag, "--token") {
            if n - i < 2 {
                return Err(copy("--token requires a value"));
            }
            assert(all[i + 1] == args@[i + 1]@);
            token = Some(copy(args[i + 1].as_str()));
            i += 2;
        } else if same(flag, "--help") || same(flag, "-h") {
            return Ok(BridgeCommand::Help);
        } else {
            let mut message = joined("unknown argument: ", flag);
            message.push_str("\n");
            message.push_str(BRIDGE_USAGE);
            return Err(message);
        }
    }
    match url {
        Some(url) => Ok(BridgeCommand::Bridge { url, token }),
        None => Err(copy(BRIDGE_USAGE)),
    }
}

/// Why a URL cannot be used.
#[derive(Clone, Copy, Debug, PartialEq, Eq, Structural)]
pub enum UrlDefect {
    /// Only plain HTTP is spoken.
    Https,
    /// The port is not a port number.
    Port,
    /// There is no host.
    NoHost,
}

/// The parts of a URL.
#[derive(Debug)]
pub struct Url {
    pub host: String,
    pub port: u16,
    pub path: String,
}

pub struct UrlView {
    pub host: Seq<char>,
    pub port: u16,
    pub path: Seq<char>,
}

impl View for Url {
    type V = UrlView;

    open spec fn view(&self) -> UrlView {
        UrlView { host: self.host@, port: self.port, path: self.path@ }
    }
}

/// The scheme and the rest of a URL; without a scheme it is `http`.
pub open spec fn scheme_of(url: Seq<char>) -> (Seq<char>, Seq<char>) {
    match cut_once(url, "://"@) {
        Some(parts) => parts,
        None => ("http"@, url),
    }
}

/// The authority and the path of what follows a scheme; no path is `/`.
pub open spec fn authority_of(rest: Seq<char>) -> (Seq<char>, Seq<char>) {
    match split_once(rest, '/') {
        Some((authority, path)) => (authority, "/"@ + path),
        None => (rest, "/"@),
    }
}

/// The parts of a URL: the port defaults to 80 and the path to `/`.
pub open spec fn url_parts(url: Seq<char>) -> Result<UrlView, UrlDefect> {
    let (scheme, rest) = scheme_of(url);
    let (authority, path) = authority_of(rest);
    if scheme == "https"@ {
        Err(UrlDefect::Https)
    } else {
        match split_once_last(authority, ':') {
            Some((host, port)) => match number_to(port, u16::MAX as nat) {
                None => Err(UrlDefect::Port),
                Some(port) => if host == ""@ {
                    Err(UrlDefect::NoHost)
                } else {
                    Ok(UrlView { host, port: port as u16, path })
                },
            },
            None => if authority == ""@ {
                Err(UrlDefect::NoHost)
            } else {
                Ok(UrlView { host: authority, port: 80, path })
            },
        }
    }
}

/// Splits a URL into its parts.
pub fn split_url(url: &str) -> (r: Result<Url, UrlDefect>)
    ensures
        match r {
            Ok(parts) => url_parts(url@) == Ok::<UrlView, UrlDefect>(parts@),
            Err(defect) => url_parts(url@) == Err::<UrlView, UrlDefect>(defect),
        },
{
    let (scheme, rest) = match cut_text_once(url, "://") {
        Some(parts) => parts,
        None => (copy("http"), copy(url)),
    };
    if same(scheme.as_str(), "https") {
        return Err(UrlDefect::Https);
    }
    let (authority, path) = match split_text_once(rest.as_str(), '/') {
        Some((authority, tail)) => (authority, joined("/", tail.as_str())),
        None => (copy(rest.as_str()), copy("/")),
    };
    match split_text_last(authority.as_str(), ':') {
        Some((host, port)) => match parse_number(port.as_str(), 65_535) {
            None => Err(UrlDefect::Port),
            Some(port) => {
                if same(host.as_str(), "") {
                    return Err(UrlDefect::NoHost);
                }
                Ok(Url { host, port: port as u16, path })
            },
        },
        None => {
            if same(authority.as_str(), "") {
                return Err(UrlDefect::NoHost);
            }
            Ok(Url { host: authority, port: 80, path })
        },
    }
}

/// The path that the bridge posts to: a URL without a path means the endpoint.
pub fn bridge_path(path: &str) -> (r: String)
    ensures
        r@ == (if path@ == "/"@ {
            ENDPOINT@
        } else {
            path@
        }),
{
    if same(path, "/") {
        copy(ENDPOINT)
    } else {
        copy(path)
    }
}

pub open spec fn token_header(token: Option<Seq<char>>) -> Seq<char> {
    match token {
        Some(token) => "Authorization: Bearer "@ + token + "\r\n"@,
        None => ""@,
    }
}

/// The head of a request that the bridge forwards.
pub open spec fn forwarded(
    host: Seq<char>,
    port: u16,
    path: Seq<char>,
    token: Option<Seq<char>>,
    length: nat,
) -> Seq<char> {
    "POST "@ + path + " HTTP/1.1\r\nHost: "@ + host + ":"@ + dec(port as nat)
        + "\r\nContent-Type: application/json\r\nAccept: application/json, text/event-stream\r\nMCP-Protocol-Version: "@
        + PROTOCOL_VERSION@ + "\r\n"@ + token_header(token) + "Content-Length: "@ + dec(length)
        + "\r\nConnection: close\r\n\r\n"@
}

/// Writes the head of a request that the bridge forwards.
pub fn forward_head(host: &str, port: u16, path: &str, token: Option<&str>, length: usize) -> (r:
    String)
    ensures
        r@ == forwarded(host@, port, path@, crate::json::str_opt(token), length as nat),
{
    let authorization = match token {
        Some(token) => {
            let mut line = copy("Authorization: Bearer ");
            line.push_str(token);
            line.push_str("\r\n");
            line
        },
        None => copy(""),
    };
    let mut r = copy("POST ");
    r.push_str(path);
    r.push_str(" HTTP/1.1\r\nHost: ");
    r.push_str(host);
    r.push_str(":");
    let digits = decimal(port as u64);
    r.push_str(digits.as_str());
    r.push_str(
        "\r\nContent-Type: application/json\r\nAccept: application/json, text/event-stream\r\nMCP-Protocol-Version: ",
    );
    r.push_str(PROTOCOL_VERSION);
    r.push_str("\r\n");
    r.push_str(authorization.as_str());
    r.push_str("Content-Length: ");
    let digits = decimal(length as u64);
    r.push_str(digits.as_str());
    r.push_str("\r\nConnection: close\r\n\r\n");
    r
}

/// What a status and a payload of the server mean for the bridge: `202` says
/// nothing, `200` carries the reply, anything else is a refusal in the
/// server's own words.
pub open spec fn reply_of(status: nat, payload: Seq<char>) -> Result<Option<Seq<char>>, Seq<char>> {
    if status == 202 {
        Ok(None)
    } else if status == 200 {
        Ok(Some(payload))
    } else {
        Err("server returned "@ + dec(status) + ": "@ + payload)
    }
}

/// The status in the first line of a response head.
pub open spec fn status_of(head: Seq<char>) -> Option<nat> {
    if words(head).len() > 1 {
        number_to(words(head)[1], u16::MAX as nat)
    } else {
        None
    }
}

pub open spec fn reply_view(r: Result<Option<String>, String>) -> Result<
    Option<Seq<char>>,
    Seq<char>,
> {
    match r {
        Ok(reply) => Ok(opt_view(reply)),
        Err(message) => Err(message@),
    }
}

/// What a whole response means, given its head and its payload as texts.
pub fn read_reply(head: &str, payload: &str) -> (r: Result<Option<String>, String>)
    ensures
        reply_view(r) == (match status_of(head@) {
            Some(status) => reply_of(status, trimmed(payload@)),
            None => Err("malformed HTTP status line"@),
        }),
{
    let parts = split_words(head);
    assert(texts(parts@).len() == parts@.len());
    if parts.len() < 2 {
        return Err(copy("malformed HTTP status line"));
    }
    assert(texts(parts@)[1] == parts@[1]@);
    let status = match parse_number(parts[1].as_str(), 65_535) {
        Some(status) => status,
        None => {
            return Err(copy("malformed HTTP status line"));
        },
    };
    let payload = trim(payload);
    if status == 202 {
        Ok(None)
    } else if status == 200 {
        Ok(Some(payload))
    } else {
        let mut message = copy("server returned ");
        let digits = decimal(status);
        message.push_str(digits.as_str());
        message.push_str(": ");
        message.push_str(payload.as_str());
        Err(message)
    }
}

/// The blank line behind a head.
pub open spec fn head_ends_at(response: Seq<u8>, at: int) -> bool {
    &&& bytes_at(response, crate::connection::blank_line(), at)
    &&& forall|k: int| 0 <= k < at ==> !bytes_at(response, crate::connection::blank_line(), k)
}

/// What the bytes of a response mean for the bridge.
pub fn forward_reply(response: &[u8]) -> (r: Result<Option<String>, String>)
    ensures
        forall|at: int|
            head_ends_at(response@, at) ==> reply_view(r) == (match status_of(
                utf8_lossy(response@.take(at)),
            ) {
                Some(status) => reply_of(status, trimmed(utf8_lossy(response@.skip(at + 4)))),
                None => Err("malformed HTTP status line"@),
            }),
        (forall|at: int| !head_ends_at(response@, at)) ==> reply_view(r) == Err::<
            Option<Seq<char>>,
            Seq<char>,
        >("malformed HTTP response"@),
{
    let n: usize = response.len();
    let blank: Vec<u8> = vec![13, 10, 13, 10];
    assert(blank@ =~= crate::connection::blank_line());
    match find_bytes(response, blank.as_slice()) {
        Some(at) => {
            assert(head_ends_at(response@, at as int));
            assert(at + 4 <= n);
            let head = lossy_text(&response[0..at]);
            let payload = lossy_text(&response[at + 4..n]);
            proof {
                assert(response@.subrange(0, at as int) =~= response@.take(at as int));
                assert(response@.subrange(at + 4, n as int) =~= response@.skip(at + 4));
                assert forall|other: int| head_ends_at(response@, other) implies other == at by {
                    if other < at {
                    } else if other > at {
                    }
                }
            }
            read_reply(head.as_str(), payload.as_str())
        },
        None => Err(copy("malformed HTTP response")),
    }
}

pub open spec fn unreachable_server(error: Seq<char>) -> Seq<char> {
    "traza bridge could not reach the server: "@ + error
}

/// What a message that could not be forwarded is owed: a request an error
/// under its id, a notification nothing.
pub open spec fn owed(message: Result<JsonView, Seq<char>>, error: Seq<char>) -> Option<JsonView> {
    match message {
        Ok(message) => match message.field("id"@) {
            Some(JsonView::Null) => None,
            Some(id) => Some(rpc_error(id, "-32603"@, unreachable_server(error))),
            None => None,
        },
        Err(_) => None,
    }
}

/// The reply to a message that could not be forwarded, where one is owed.
pub fn bridge_failure(line: &str, error: &str) -> (r: Option<Json>)
    ensures
        crate::json::json_opt(
            match r {
                Some(reply) => Some(&reply),
                None => None,
            },
        ) == owed(json_document(encode_utf8(line@)), error@),
{
    match read_json(line.as_bytes()) {
        Ok(message) => match message.get("id") {
            Some(Json::Null) => None,
            Some(id) => {
                let text = joined("traza bridge could not reach the server: ", error);
                Some(error_response(id.copy(), "-32603", text.as_str()))
            },
            None => None,
        },
        Err(_) => None,
    }
}

proof fn lemma_words()
    ensures
        "--data-dir"@.len() == 10,
        "--erasure"@.len() == 9,
        "--json"@.len() == 6 && "--json"@[2] == 'j',
        "--help"@.len() == 6 && "--help"@[2] == 'h',
        "-h"@.len() == 2,
        "--url"@.len() == 5 && "--url"@[0] == '-',
        "--token"@.len() == 7,
        "https"@.len() == 5 && "https"@[0] == 'h',
        "http"@.len() == 4,
{
    reveal_strlit("--data-dir");
    reveal_strlit("--erasure");
    reveal_strlit("--json");
    reveal_strlit("--help");
    reveal_strlit("-h");
    reveal_strlit("--url");
    reveal_strlit("--token");
    reveal_strlit("https");
    reveal_strlit("http");
}


/// The arguments of a verification: a directory, an erasure and whether to print
/// JSON; without an erasure, or with an argument that is not known, it is
/// refused.
pub proof fn law_verify_arguments(
    args: Seq<Seq<char>>,
    i: int,
    d: Seq<char>,
    e: Option<Seq<char>>,
    j: bool,
)
    requires
        0 <= i < args.len(),
    ensures
        ({
            let r = verify_scan(args, i, d, e, j);
            let more = i + 1 < args.len();
            &&& args[i] == "--data-dir"@ && more ==> r == verify_scan(args, i + 2, args[i + 1], e, j)
            &&& args[i] == "--data-dir"@ && !more ==> r is Err
            &&& args[i] == "--erasure"@ && more ==> r == verify_scan(
                args,
                i + 2,
                d,
                Some(args[i + 1]),
                j,
            )
            &&& args[i] == "--erasure"@ && !more ==> r is Err
            &&& args[i] == "--json"@ ==> r == verify_scan(args, i + 1, d, e, true)
            &&& args[i] == "--help"@ || args[i] == "-h"@ ==> r == Ok::<VerifyView, Seq<char>>(
                VerifyView::Help,
            )
            &&& args[i].len() == 1 ==> r == Err::<VerifyView, Seq<char>>(
                "unknown argument: "@ + args[i],
            )
        }),
        e is Some ==> verify_scan(args, args.len() as int, d, e, j) == Ok::<VerifyView, Seq<char>>(
            (VerifyView::Verify { data_dir: d, erasure: e->0, as_json: j }),
        ),
        e is None ==> verify_scan(args, args.len() as int, d, e, j) is Err,
{
    lemma_words();
}

/// The arguments of a bridge: where the server is and the token to use; without
/// a server, or with an argument that is not known, it is refused. An empty
/// token is none.
pub proof fn law_bridge_arguments(
    args: Seq<Seq<char>>,
    i: int,
    u: Option<Seq<char>>,
    t: Option<Seq<char>>,
)
    requires
        0 <= i < args.len(),
    ensures
        ({
            let r = bridge_scan(args, i, u, t);
            let more = i + 1 < args.len();
            &&& args[i] == "--url"@ && more ==> r == bridge_scan(args, i + 2, Some(args[i + 1]), t)
            &&& args[i] == "--url"@ && !more ==> r is Err
            &&& args[i] == "--token"@ && more ==> r == bridge_scan(
                args,
                i + 2,
                u,
                Some(args[i + 1]),
            )
            &&& args[i] == "--token"@ && !more ==> r is Err
            &&& args[i] == "--help"@ || args[i] == "-h"@ ==> r == Ok::<BridgeView, Seq<char>>(
                BridgeView::Help,
            )
            &&& args[i].len() == 1 ==> r is Err
        }),
        u is Some ==> bridge_scan(args, args.len() as int, u, t) == Ok::<BridgeView, Seq<char>>(
            (BridgeView::Bridge { url: u->0, token: t }),
        ),
        u is None ==> bridge_scan(args, args.len() as int, u, t) is Err,
        given_token(None) is None,
        given_token(Some(""@)) is None,
        t is Some && t->0.len() > 0 ==> given_token(t) == t,
{
    lemma_words();
    reveal_strlit("");
}

/// What an address says: the host, the port behind the last colon, 80 where
/// there is none, and the path, the root where there is none; `https` is
/// refused, and so is a port that is none and an address without a host.
pub proof fn law_addresses(authority: Seq<char>, host: Seq<char>, port: nat, url: Seq<char>)
    requires
        scheme_of(url).0 != "https"@,
        authority_of(scheme_of(url).1).0 == authority,
    ensures
        ({
            let path = authority_of(scheme_of(url).1).1;
            let r = url_parts(url);
            &&& !authority.contains(':') && authority.len() > 0 ==> r == Ok::<UrlView, UrlDefect>(
                (UrlView { host: authority, port: 80, path }),
            )
            &&& authority.len() == 0 ==> r == Err::<UrlView, UrlDefect>(UrlDefect::NoHost)
            &&& authority == host.push(':') + dec(port) && host.len() > 0 && port <= 65_535 ==> r
                == Ok::<UrlView, UrlDefect>((UrlView { host, port: port as u16, path }))
            &&& authority == host.push(':') + dec(port) && port > 65_535 ==> r == Err::<
                UrlView,
                UrlDefect,
            >(UrlDefect::Port)
        }),
{
    crate::text::law_splitting_at_the_last(authority, ':');
    crate::text::law_decimal_reads_back(port);
    crate::text::lemma_dec(port);
    reveal_strlit("");
    if authority.len() == 0 {
        assert(authority =~= ""@);
    }
    if let Some((h, p)) = split_once_last(authority, ':') {
        assert(authority[h.len() as int] == ':');
        if authority == host.push(':') + dec(port) {
            assert(authority[host.len() as int] == ':');
            assert(h.len() == host.len()) by {
                if h.len() < host.len() {
                    assert(authority[host.len() as int] == p[host.len() - h.len() - 1]);
                    assert(p.contains(':'));
                }
                if h.len() > host.len() {
                    let d = dec(port)[h.len() - host.len() - 1];
                    assert(authority[h.len() as int] == d);
                    assert(crate::text::is_digit(d));
                }
            }
            assert(h =~= host) by {
                assert forall|i: int| 0 <= i < h.len() implies h[i] == host[i] by {
                    assert(authority[i] == (h.push(':') + p)[i]);
                    assert(authority[i] == (host.push(':') + dec(port))[i]);
                }
            }
            assert(p =~= dec(port)) by {
                assert(p.len() == dec(port).len());
                assert forall|i: int| 0 <= i < p.len() implies p[i] == dec(port)[i] by {
                    assert(authority[h.len() + 1 + i] == (h.push(':') + p)[h.len() + 1 + i]);
                }
            }
        }
    } else if authority == host.push(':') + dec(port) {
        assert(authority[host.len() as int] == ':');
    }
}

/// How an address comes apart: the scheme before `://`, `http` where there is
/// none, the authority before the first slash, and the path from it on.
pub proof fn law_parts_of_an_address(url: Seq<char>, rest: Seq<char>, scheme: Seq<char>)
    ensures
        scheme_of(url).0 == "https"@ ==> url_parts(url) == Err::<UrlView, UrlDefect>(
            UrlDefect::Https,
        ),
        cut_once(url, "://"@) is None ==> scheme_of(url) == ("http"@, url),
        cut_once(url, "://"@) == Some((scheme, rest)) ==> scheme_of(url) == (scheme, rest),
        !rest.contains('/') ==> authority_of(rest) == (rest, "/"@),
        split_once(rest, '/') matches Some((a, p)) ==> authority_of(rest) == (a, "/"@ + p),
{
    crate::text::law_splitting_once(rest, '/');
    if let Some((a, p)) = split_once(rest, '/') {
        assert(rest[a.len() as int] == '/');
    }
}

/// What a bridge makes of a reply: 202 owes nothing, 200 hands on the payload,
/// and anything else is an error with the status and the payload.
pub proof fn law_replies(status: nat, payload: Seq<char>)
    ensures
        status == 202 ==> reply_of(status, payload) == Ok::<Option<Seq<char>>, Seq<char>>(None),
        status == 200 ==> reply_of(status, payload) == Ok::<Option<Seq<char>>, Seq<char>>(
            Some(payload),
        ),
        status != 200 && status != 202 ==> reply_of(status, payload) == Err::<
            Option<Seq<char>>,
            Seq<char>,
        >("server returned "@ + dec(status) + ": "@ + payload),
{
}

/// A message that asks for a reply is owed one where the server cannot be
/// reached, under its own id; one without an id, with a null id, or that is no
/// JSON is owed none.
pub proof fn law_what_a_message_is_owed(message: JsonView, error: Seq<char>)
    ensures
        owed(Err(error), error) is None,
        message.field("id"@) is None ==> owed(Ok(message), error) is None,
        message.field("id"@) == Some(JsonView::Null) ==> owed(Ok(message), error) is None,
        message.field("id"@) is Some && message.field("id"@)->0 != JsonView::Null ==> owed(
            Ok(message),
            error,
        ) is Some && (owed(Ok(message), error)->0).field("id"@) == message.field("id"@),
{
    if message.field("id"@) is Some {
        crate::mcp::law_an_error_answer(
            message.field("id"@)->0,
            "-32603"@,
            unreachable_server(error),
        );
    }
}

/// A forwarded message names the path, the host and port, the protocol version,
/// the token where there is one, and the length of what follows.
pub proof fn law_forwarded_heads(
    host: Seq<char>,
    port: u16,
    path: Seq<char>,
    token: Seq<char>,
    length: nat,
)
    ensures
        ({
            let front = "POST "@ + path + " HTTP/1.1\r\nHost: "@ + host + ":"@ + dec(port as nat)
                + "\r\nContent-Type: application/json\r\nAccept: application/json, text/event-stream\r\nMCP-Protocol-Version: "@
                + "2025-06-18"@ + "\r\n"@;
            let back = "Content-Length: "@ + dec(length) + "\r\nConnection: close\r\n\r\n"@;
            &&& forwarded(host, port, path, Some(token), length) == front + (
            "Authorization: Bearer "@ + token + "\r\n"@) + back
            &&& forwarded(host, port, path, None, length) == front + back
        }),
{
    reveal_strlit("");
    let front = "POST "@ + path + " HTTP/1.1\r\nHost: "@ + host + ":"@ + dec(port as nat)
        + "\r\nContent-Type: application/json\r\nAccept: application/json, text/event-stream\r\nMCP-Protocol-Version: "@
        + "2025-06-18"@ + "\r\n"@;
    let back = "Content-Length: "@ + dec(length) + "\r\nConnection: close\r\n\r\n"@;
    let bearer = "Authorization: Bearer "@ + token + "\r\n"@;
    assert(forwarded(host, port, path, Some(token), length) =~= front + bearer + back);
    assert(front + ""@ =~= front);
    assert(forwarded(host, port, path, None, length) =~= front + back);
}

} // verus!
