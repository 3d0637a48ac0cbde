//! One client connection: the bytes read but not yet consumed, and what is
//! decided of a request before its body is read.

use vstd::prelude::*;

use crate::answers::{advice, advise, fail, failure, Answer, AnswerView};
use crate::auth::{authenticated, AuthConfig, AuthFailure, CredentialView, Scope};
use crate::http::{
    bytes_at, decoded, find_bytes, lists_token, parse_head, parsed_head, percent_decode,
    split_target, target_parts, HeadDefect, HeadView, RequestHead, MAX_HEADER_BYTES,
    MAX_REQUEST_BYTES,
};
use crate::mcp::{Access, ENDPOINT};
use crate::responses::{denial, denied, push_bytes};
use crate::text::{copy, opt_view, same};

verus! {

/// How many requests a connection carries before it is recycled.
pub const MAX_REQUESTS_PER_CONNECTION: usize = 100_000;

/// How many refusals may be in flight at once.
pub const MAX_REFUSAL_THREADS: usize = 64;

// ----------------------------------------------------------------------- buffer

/// What a buffer holds of the next request's head.
#[derive(Debug)]
pub enum HeadStep {
    /// The whole head.
    Ready(RequestHead),
    /// A head that is refused.
    Refused(HeadDefect),
    /// Not enough yet: read on.
    More,
}

/// What the end of the input means for a request head.
#[derive(Clone, Copy, Debug, PartialEq, Eq, Structural)]
pub enum HeadEnd {
    /// The peer closed between requests: the ordinary end of a connection.
    Clean,
    /// The peer closed inside a request.
    Incomplete,
}

/// The blank line behind a head.
pub open spec fn blank_line() -> Seq<u8> {
    seq![13u8, 10u8, 13u8, 10u8]
}

/// Where the head ends: behind the first blank line.
pub open spec fn is_head_end(buffer: Seq<u8>, end: int) -> bool {
    &&& bytes_at(buffer, blank_line(), end - 4)
    &&& forall|k: int| 0 <= k < end - 4 ==> !bytes_at(buffer, blank_line(), k)
}

/// Whether the head that ends at `end` is refused for the given defect.
pub open spec fn refused_at(buffer: Seq<u8>, end: int, defect: HeadDefect) -> bool {
    is_head_end(buffer, end) && parsed_head(buffer, end as nat) == Err::<HeadView, HeadDefect>(
        defect,
    )
}

/// Whether the buffer holds a whole head.
pub open spec fn has_head(buffer: Seq<u8>) -> bool {
    exists|k: int| bytes_at(buffer, blank_line(), k)
}

/// The bytes of a connection that have been read but not consumed: always the
/// start of the next request.
#[derive(Debug)]
pub struct Connection {
    pub buffer: Vec<u8>,
}

impl Connection {
    pub fn new() -> (r: Connection)
        ensures
            r.buffer@.len() == 0,
    {
        Connection { buffer: Vec::new() }
    }

    /// Takes in bytes that were read.
    pub fn receive(&mut self, bytes: &[u8])
        ensures
            final(self).buffer@ == old(self).buffer@ + bytes@,
    {
        push_bytes(&mut self.buffer, bytes);
    }

    /// Looks for the next request head. This comes before every read: a
    /// pipelined request may be in the buffer already.
    pub fn read_head(&self) -> (r: HeadStep)
        ensures
            match r {
                HeadStep::Ready(head) => is_head_end(self.buffer@, head.header_end as int)
                    && parsed_head(self.buffer@, head.header_end as nat) == Ok::<
                    HeadView,
                    HeadDefect,
                >(head@),
                HeadStep::Refused(defect) => if has_head(self.buffer@) {
                    exists|end: int| refused_at(self.buffer@, end, defect)
                } else {
                    self.buffer@.len() > MAX_HEADER_BYTES && defect == HeadDefect::TooLarge
                },
                HeadStep::More => !has_head(self.buffer@) && self.buffer@.len() <= MAX_HEADER_BYTES,
            },
    {
        let blank: Vec<u8> = vec![13, 10, 13, 10];
        assert(blank@ =~= blank_line());
        let n: usize = self.buffer.len();
        match find_bytes(self.buffer.as_slice(), blank.as_slice()) {
            Some(position) => {
                assert(position + 4 <= n);
                let end = position + 4;
                assert(is_head_end(self.buffer@, end as int));
                assert(has_head(self.buffer@));
                match parse_head(self.buffer.as_slice(), end) {
                    Ok(head) => {
                        assert(head@.header_end == end);
                        HeadStep::Ready(head)
                    },
                    Err(defect) => {
                        assert(refused_at(self.buffer@, end as int, defect));
                        HeadStep::Refused(defect)
                    },
                }
            },
            None => {
                if self.buffer.len() > MAX_HEADER_BYTES {
                    HeadStep::Refused(HeadDefect::TooLarge)
                } else {
                    HeadStep::More
                }
            },
        }
    }

    /// What it means that the peer closed while a head was being read.
    pub fn head_end(&self) -> (r: HeadEnd)
        ensures
            r == (if self.buffer@.len() == 0 {
                HeadEnd::Clean
            } else {
                HeadEnd::Incomplete
            }),
    {
        if self.buffer.len() == 0 {
            HeadEnd::Clean
        } else {
            HeadEnd::Incomplete
        }
    }

    /// Takes the body of a request and consumes the whole request, once all of
    /// it has been read; whatever is left belongs to the next one.
    pub fn read_body(&mut self, head: &RequestHead) -> (r: Option<Vec<u8>>)
        requires
            head.header_end <= MAX_HEADER_BYTES,
            head.content_length <= MAX_REQUEST_BYTES,
        ensures
            ({
                let from = head.header_end as int;
                let to = head.header_end + head.content_length;
                let before = old(self).buffer@;
                match r {
                    Some(body) => {
                        &&& to <= before.len()
                        &&& body@ == before.subrange(from, to)
                        &&& final(self).buffer@ == before.skip(to)
                    },
                    None => before.len() < to && final(self).buffer@ == before,
                }
            }),
    {
        let from = head.header_end;
        let to = head.header_end + head.content_length;
        if self.buffer.len() < to {
            return None;
        }
        let ghost before = self.buffer@;
        let mut body: Vec<u8> = Vec::new();
        push_bytes(&mut body, &self.buffer.as_slice()[from..to]);
        let mut rest: Vec<u8> = Vec::new();
        let end = self.buffer.len();
        push_bytes(&mut rest, &self.buffer.as_slice()[to..end]);
        assert(body@ =~= before.subrange(from as int, to as int));
        assert(rest@ =~= before.skip(to as int));
        self.buffer = rest;
        Some(body)
    }
}

/// What a request whose head is refused is told; the connection then closes,
/// because where its body ends is unknown.
pub fn head_refused(defect: HeadDefect) -> (r: Answer)
    ensures
        r@ == failure(400, defect.text()),
{
    fail(400, defect.message())
}

/// What a request that ends too early is told.
pub fn cut_short(in_body: bool) -> (r: Answer)
    ensures
        r@ == failure(
            400,
            if in_body {
                "incomplete body"@
            } else {
                "incomplete request"@
            },
        ),
{
    if in_body {
        fail(400, "incomplete body")
    } else {
        fail(400, "incomplete request")
    }
}

// ------------------------------------------------------------------------- gate

/// What is decided of a request before its body is read.
#[derive(Debug)]
pub enum Gate {
    /// The dashboard file is sent; this says whether the connection survives.
    File { keep_alive: bool },
    /// There is no dashboard; this says whether the connection survives.
    NoDashboard { answer: Answer, keep_alive: bool },
    /// The whole response of the auth gate; the connection closes.
    Denied { response: String },
    /// The body is read and the request served.
    Serve { access: Access, keep_alive: bool },
}

pub enum GateView {
    File { keep_alive: bool },
    NoDashboard { answer: AnswerView, keep_alive: bool },
    Denied { response: Seq<char> },
    Serve { access: Access, keep_alive: bool },
}

impl View for Gate {
    type V = GateView;

    open spec fn view(&self) -> GateView {
        match self {
            Gate::File { keep_alive } => GateView::File { keep_alive: *keep_alive },
            Gate::NoDashboard { answer, keep_alive } => GateView::NoDashboard {
                answer: answer@,
                keep_alive: *keep_alive,
            },
            Gate::Denied { response } => GateView::Denied { response: response@ },
            Gate::Serve { access, keep_alive } => GateView::Serve {
                access: *access,
                keep_alive: *keep_alive,
            },
        }
    }
}

/// Whether the client is willing to reuse the connection.
pub open spec fn persists(head: HeadView) -> bool {
    if head.version == "HTTP/1.1"@ {
        !lists_token(head.connection, "close"@)
    } else {
        lists_token(head.connection, "keep-alive"@)
    }
}

/// The path that a dashboard file is looked up by.
pub open spec fn ui_path_of(head: HeadView) -> Option<Seq<char>> {
    if head.method == "GET"@ {
        Some(decoded(target_parts(head.target).0))
    } else {
        None
    }
}

/// The path that a dashboard file is looked up by; only a `GET` has one.
pub fn ui_path(head: &RequestHead) -> (r: Option<String>)
    ensures
        opt_view(r) == ui_path_of(head@),
{
    if same(head.method.as_str(), "GET") {
        let (path, _) = split_target(head.target.as_str());
        Some(percent_decode(path.as_str()))
    } else {
        None
    }
}

pub open spec fn is_dashboard_path(path: Seq<char>) -> bool {
    path == "/"@ || path == "/dashboard"@ || path == "/dashboard/"@
}

/// What a scope lets a caller of the agent-facing endpoint do.
pub open spec fn access_of(scope: Scope) -> Access {
    match scope {
        Scope::ReadOnly => Access::Read,
        _ => Access::ReadWrite,
    }
}

/// Whether a request asks for an erasure.
pub open spec fn asks_to_erase(head: HeadView) -> bool {
    head.method == "POST"@ && target_parts(head.target).0 == "/v1/erasures"@
}

/// What the credentials make of a request. The agent-facing endpoint carries
/// reads and writes over one method, so there the method decides nothing. An
/// erasure is a `POST` like any ingest, so there the method is not enough.
pub open spec fn verdict(credentials: Option<Seq<CredentialView>>, head: HeadView) -> Result<
    Access,
    AuthFailure,
> {
    match credentials {
        None => Ok(Access::ReadWrite),
        Some(credentials) => match authenticated(credentials, head.authorization) {
            Err(failure) => Err(failure),
            Ok(scope) => if target_parts(head.target).0 == ENDPOINT@ {
                Ok(access_of(scope))
            } else if !scope.spec_permits(head.method) {
                Err(AuthFailure::Forbidden)
            } else if asks_to_erase(head) && scope != Scope::Admin {
                Err(AuthFailure::Forbidden)
            } else {
                Ok(Access::ReadWrite)
            },
        },
    }
}

pub open spec fn no_dashboard(directory: Seq<char>) -> AnswerView {
    advice(
        404,
        "no dashboard build found"@,
        "build it with: cd ui && npm ci && npm run build (serving "@ + directory + ")"@,
    )
}

/// What is decided of a request before its body is read. The dashboard comes
/// before the credentials: it carries no stored data, and what it asks for is
/// gated.
pub open spec fn gate_decision(
    head: HeadView,
    file_found: bool,
    directory: Seq<char>,
    credentials: Option<Seq<CredentialView>>,
) -> GateView {
    let survives = persists(head) && head.content_length == 0;
    match ui_path_of(head) {
        Some(path) if file_found => GateView::File { keep_alive: survives },
        Some(path) if is_dashboard_path(path) => GateView::NoDashboard {
            answer: no_dashboard(directory),
            keep_alive: survives,
        },
        _ => match verdict(credentials, head) {
            Ok(access) => GateView::Serve { access, keep_alive: persists(head) },
            Err(failure) => GateView::Denied { response: denied(failure) },
        },
    }
}

fn missing_dashboard(directory: &str) -> (r: Answer)
    ensures
        r@ == no_dashboard(directory@),
{
    let mut next = copy("build it with: cd ui && npm ci && npm run build (serving ");
    next.push_str(directory);
    next.push_str(")");
    advise(404, "no dashboard build found", next.as_str())
}

pub open spec fn credentials_of(auth: Option<&AuthConfig>) -> Option<Seq<CredentialView>> {
    match auth {
        Some(config) => Some(config.spec_credentials()),
        None => None,
    }
}

fn judge(auth: Option<&AuthConfig>, head: &RequestHead) -> (r: Result<Access, AuthFailure>)
    ensures
        r == verdict(credentials_of(auth), head@),
{
    match auth {
        None => Ok(Access::ReadWrite),
        Some(config) => {
            let authorization = match &head.authorization {
                Some(text) => Some(text.as_str()),
                None => None,
            };
            let (path, _) = split_target(head.target.as_str());
            let scope = match config.scope_for(authorization) {
                Ok(scope) => scope,
                Err(failure) => {
                    return Err(failure);
                },
            };
            if same(path.as_str(), ENDPOINT) {
                match scope {
                    Scope::ReadOnly => Ok(Access::Read),
                    _ => Ok(Access::ReadWrite),
                }
            } else if !scope.permits(head.method.as_str()) {
                Err(AuthFailure::Forbidden)
            } else if same(head.method.as_str(), "POST") && same(path.as_str(), "/v1/erasures")
                && !scope.permits_erasure() {
                Err(AuthFailure::Forbidden)
            } else {
                Ok(Access::ReadWrite)
            }
        },
    }
}

/// Decides what becomes of a request before its body is read. `file_found`
/// says whether the dashboard has a file under [`ui_path`].
pub fn handle_head(
    head: &RequestHead,
    file_found: bool,
    directory: &str,
    auth: Option<&AuthConfig>,
) -> (r: Gate)
    ensures
        r@ == gate_decision(head@, file_found, directory@, credentials_of(auth)),
{
    let keep_alive = head.wants_keep_alive();
    let survives = keep_alive && head.content_length == 0;
    if let Some(path) = ui_path(head) {
        if file_found {
            return Gate::File { keep_alive: survives };
        }
        if same(path.as_str(), "/") || same(path.as_str(), "/dashboard") || same(
            path.as_str(),
            "/dashboard/",
        ) {
            return Gate::NoDashboard { answer: missing_dashboard(directory), keep_alive: survives };
        }
    }
    match judge(auth, head) {
        Ok(access) => Gate::Serve { access, keep_alive },
        Err(failure) => Gate::Denied { response: denial(failure) },
    }
}

// ---------------------------------------------------------------------- arrivals

/// What becomes of a connection that was just accepted.
#[derive(Clone, Copy, Debug, PartialEq, Eq, Structural)]
pub enum Arrival {
    Serve,
    /// Tell it that the server is full.
    Refuse,
    /// Drop it: too many are being told already.
    Drop,
}

/// Decides what becomes of a connection: past the limit it is refused at once
/// rather than queued, and refusals are themselves bounded.
pub fn receive_arrival(live: usize, max_connections: usize, refusals: usize) -> (r: Arrival)
    ensures
        r == (if live < max_connections {
            Arrival::Serve
        } else if refusals < MAX_REFUSAL_THREADS {
            Arrival::Refuse
        } else {
            Arrival::Drop
        }),
{
    if live < max_connections {
        Arrival::Serve
    } else if refusals < MAX_REFUSAL_THREADS {
        Arrival::Refuse
    } else {
        Arrival::Drop
    }
}

// -------------------------------------------------------------------------- laws

/// What follows a request in the buffer changes nothing about its head, so
/// that requests may be sent one behind the other.
pub proof fn law_later_bytes_do_not_change_a_head(buffer: Seq<u8>, more: Seq<u8>, end: int)
    requires
        is_head_end(buffer, end),
    ensures
        is_head_end(buffer + more, end),
        parsed_head(buffer + more, end as nat) == parsed_head(buffer, end as nat),
{
    let blank = blank_line();
    assert forall|k: int| 0 <= k <= end - 4 implies #[trigger] bytes_at(buffer + more, blank, k)
        == bytes_at(buffer, blank, k) by {
        assert((buffer + more).subrange(k, k + 4) =~= buffer.subrange(k, k + 4));
    }
    assert(bytes_at(buffer + more, blank, end - 4));
    assert((buffer + more).take(end) =~= buffer.take(end));
}

/// A response sent without reading the request's body closes the connection:
/// the bytes left behind would otherwise be read as the next request.
pub proof fn law_an_unread_body_closes_the_connection(
    head: HeadView,
    file_found: bool,
    directory: Seq<char>,
    credentials: Option<Seq<CredentialView>>,
)
    requires
        head.content_length > 0,
    ensures
        match gate_decision(head, file_found, directory, credentials) {
            GateView::File { keep_alive } => !keep_alive,
            GateView::NoDashboard { keep_alive, .. } => !keep_alive,
            _ => true,
        },
{
}

/// With credentials configured, nothing is served to a request that does not
/// authenticate.
pub proof fn law_nothing_is_served_without_a_token(
    head: HeadView,
    file_found: bool,
    directory: Seq<char>,
    credentials: Seq<CredentialView>,
)
    requires
        authenticated(credentials, head.authorization).is_err(),
    ensures
        !(gate_decision(head, file_found, directory, Some(credentials)) is Serve),
{
}

/// With credentials configured, only a token that was issued for it erases:
/// one that may write telemetry may not destroy it.
pub proof fn law_only_an_admin_token_erases(
    head: HeadView,
    file_found: bool,
    directory: Seq<char>,
    credentials: Seq<CredentialView>,
)
    requires
        asks_to_erase(head),
        gate_decision(head, file_found, directory, Some(credentials)) is Serve,
    ensures
        authenticated(credentials, head.authorization) == Ok::<Scope, AuthFailure>(Scope::Admin),
{
    reveal_strlit("/v1/erasures");
    reveal_strlit("/v1/mcp");
}

/// A read-only token never gets to write: not by a method, and not through
/// the agent-facing endpoint.
pub proof fn law_a_read_only_token_never_writes(
    head: HeadView,
    file_found: bool,
    directory: Seq<char>,
    credentials: Seq<CredentialView>,
)
    requires
        authenticated(credentials, head.authorization) == Ok::<Scope, AuthFailure>(Scope::ReadOnly),
        gate_decision(head, file_found, directory, Some(credentials)) is Serve,
    ensures
        target_parts(head.target).0 == ENDPOINT@ ==> gate_decision(
            head,
            file_found,
            directory,
            Some(credentials),
        )->Serve_access == Access::Read,
        target_parts(head.target).0 != ENDPOINT@ ==> Scope::ReadOnly.spec_permits(head.method),
{
}

/// A request head ends with the first blank line.
pub proof fn law_where_a_head_ends(buffer: Seq<u8>, end: int)
    requires
        is_head_end(buffer, end),
    ensures
        4 <= end <= buffer.len(),
        buffer[end - 4] == 13 && buffer[end - 3] == 10 && buffer[end - 2] == 13 && buffer[end - 1]
            == 10,
        forall|k: int|
            0 <= k < end - 4 ==> !(#[trigger] buffer[k] == 13 && buffer[k + 1] == 10 && buffer[k + 2]
                == 13 && buffer[k + 3] == 10),
{
    let four = buffer.subrange(end - 4, end);
    assert(four[0] == buffer[end - 4] && four[1] == buffer[end - 3] && four[2] == buffer[end - 2]
        && four[3] == buffer[end - 1]);
    assert forall|k: int| 0 <= k < end - 4 implies !(#[trigger] buffer[k] == 13 && buffer[k + 1]
        == 10 && buffer[k + 2] == 13 && buffer[k + 3] == 10) by {
        if buffer[k] == 13 && buffer[k + 1] == 10 && buffer[k + 2] == 13 && buffer[k + 3] == 10 {
            assert(buffer.subrange(k, k + 4) =~= blank_line());
            assert(bytes_at(buffer, blank_line(), k));
        }
    }
}

/// A connection persists under HTTP/1.1 unless the client says `close`, and
/// under any other version only where it says `keep-alive`.
pub proof fn law_when_a_connection_persists(head: HeadView)
    ensures
        head.version == "HTTP/1.1"@ && !lists_token(head.connection, "close"@) ==> persists(head),
        head.version == "HTTP/1.1"@ && lists_token(head.connection, "close"@) ==> !persists(head),
        head.version != "HTTP/1.1"@ ==> (persists(head) <==> lists_token(
            head.connection,
            "keep-alive"@,
        )),
{
}

/// Who is let in to what. Without credentials everything is served. With them a
/// request without a known token is unauthorized; on the MCP endpoint any token
/// is let in, to read where it is read-only; elsewhere the token must permit
/// the method, and a `POST` to the erasures an admin's.
pub proof fn law_who_is_let_in(credentials: Seq<CredentialView>, head: HeadView, scope: Scope)
    ensures
        verdict(None, head) == Ok::<Access, AuthFailure>(Access::ReadWrite),
        ({
            let known = authenticated(credentials, head.authorization);
            let r = verdict(Some(credentials), head);
            let path = target_parts(head.target).0;
            let erasing = head.method == "POST"@ && path == "/v1/erasures"@;
            &&& known is Err ==> r == Err::<Access, AuthFailure>(known->Err_0)
            &&& known == Ok::<Scope, AuthFailure>(scope) ==> {
                &&& path == "/v1/mcp"@ && scope is ReadOnly ==> r == Ok::<Access, AuthFailure>(
                    Access::Read,
                )
                &&& path == "/v1/mcp"@ && !(scope is ReadOnly) ==> r == Ok::<Access, AuthFailure>(
                    Access::ReadWrite,
                )
                &&& path != "/v1/mcp"@ && !scope.spec_permits(head.method) ==> r == Err::<
                    Access,
                    AuthFailure,
                >(AuthFailure::Forbidden)
                &&& path != "/v1/mcp"@ && erasing && !(scope is Admin) ==> r == Err::<
                    Access,
                    AuthFailure,
                >(AuthFailure::Forbidden)
                &&& path != "/v1/mcp"@ && scope.spec_permits(head.method) && (!erasing
                    || scope is Admin) ==> r == Ok::<Access, AuthFailure>(Access::ReadWrite)
            }
        }),
{
}

/// What a request head is met with: a `GET` of a file that is there, the file;
/// one of the dashboard where it is not, advice; and any other request whatever
/// its credentials call for.
pub proof fn law_how_a_head_is_met(
    head: HeadView,
    file_found: bool,
    directory: Seq<char>,
    credentials: Option<Seq<CredentialView>>,
)
    ensures
        ({
            let r = gate_decision(head, file_found, directory, credentials);
            let get = head.method == "GET"@;
            let path = decoded(target_parts(head.target).0);
            let dashboard = path == "/"@ || path == "/dashboard"@ || path == "/dashboard/"@;
            let met = get && (file_found || dashboard);
            let judged = verdict(credentials, head);
            &&& get && file_found ==> r is File && r->File_keep_alive == (persists(head)
                && head.content_length == 0)
            &&& get && !file_found && dashboard ==> r is NoDashboard && r->answer.status == 404
                && r->NoDashboard_keep_alive == (persists(head) && head.content_length == 0)
            &&& !met && judged is Ok ==> r == (GateView::Serve {
                access: judged->Ok_0,
                keep_alive: persists(head),
            })
            &&& !met && judged is Err ==> r == (GateView::Denied {
                response: denied(judged->Err_0),
            })
        }),
{
}

} // verus!
