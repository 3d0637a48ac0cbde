//! What stands before the tool endpoint: which requests reach it, and what the
//! others are told.

use vstd::prelude::*;

use crate::answers::{advice, advise, Answer, AnswerView};
use crate::args::{McpOptions, McpView};
use crate::json::{
    entries_view, entry, json_document, object, read_json, text_json, texts_json, texts_view, Json,
    JsonView,
};
use crate::queries::joined;
use crate::text::{
    copy, cut_once, cut_text_once, opt_view, same, split, split_text, strip_prefix, text_after,
    texts, trim, trim_end_char, trim_text_end, trimmed,
};

verus! {

/// Where the endpoint is served.
pub const ENDPOINT: &'static str = "/v1/mcp";

/// The protocol version that the library itself speaks.
pub const PROTOCOL_VERSION: &'static str = "2025-06-18";

/// The version before it, which is served too.
pub const EARLIER_VERSION: &'static str = "2025-03-26";

/// What a caller of the endpoint may do.
#[derive(Clone, Copy, Debug, PartialEq, Eq, Structural)]
pub enum Access {
    Read,
    ReadWrite,
}

pub open spec fn is_supported(version: Seq<char>) -> bool {
    version == PROTOCOL_VERSION@ || version == EARLIER_VERSION@
}

pub fn supported(version: &str) -> (r: bool)
    ensures
        r == is_supported(version@),
{
    same(version, PROTOCOL_VERSION) || same(version, EARLIER_VERSION)
}

// -------------------------------------------------------------------- origins

/// The host of an authority: an IPv6 literal without its brackets, or what
/// stands before the port.
pub open spec fn host_of(authority: Seq<char>) -> Seq<char> {
    match strip_prefix(authority, "["@) {
        Some(rest) => split(rest, ']')[0],
        None => split(authority, ':')[0],
    }
}

/// The host part of an authority.
pub fn authority_host(authority: &str) -> (r: String)
    ensures
        r@ == host_of(authority@),
{
    match text_after(authority, "[") {
        Some(rest) => {
            let pieces = split_text(rest.as_str(), ']');
            assert(texts(pieces@)[0] == pieces@[0]@);
            copy(pieces[0].as_str())
        },
        None => {
            let pieces = split_text(authority, ':');
            assert(texts(pieces@)[0] == pieces@[0]@);
            copy(pieces[0].as_str())
        },
    }
}

/// An origin without the white space around it and the slashes behind it.
pub open spec fn bare_origin(origin: Seq<char>) -> Seq<char> {
    trim_end_char(trimmed(origin), '/')
}

/// A page that this machine served to itself.
pub open spec fn is_loopback_origin(origin: Seq<char>) -> bool {
    match cut_once(origin, "://"@) {
        Some((scheme, authority)) => {
            let host = host_of(authority);
            &&& scheme == "http"@ || scheme == "https"@
            &&& host == "localhost"@ || host == "127.0.0.1"@ || host == "::1"@
        },
        None => false,
    }
}

/// Whether a browser origin may drive the endpoint: it is a loopback page, or
/// the operator named it. Nothing else that the request carries counts.
pub open spec fn may_drive(origin: Seq<char>, allowed: Seq<Seq<char>>) -> bool {
    &&& origin != ""@
    &&& origin != "null"@
    &&& allowed.contains(bare_origin(origin)) || is_loopback_origin(bare_origin(origin))
}

fn listed(entries: &Vec<String>, text: &str) -> (r: bool)
    ensures
        r == texts(entries@).contains(text@),
{
    let ghost views = texts(entries@);
    let mut i: usize = 0;
    while i < entries.len()
        invariant
            i <= entries@.len(),
            views == texts(entries@),
            forall|k: int| 0 <= k < i ==> #[trigger] views[k] != text@,
        decreases entries@.len() - i,
    {
        assert(views[i as int] == entries@[i as int]@);
        if same(entries[i].as_str(), text) {
            return true;
        }
        i += 1;
    }
    false
}

/// Whether a browser `Origin` may drive the endpoint.
pub fn origin_allowed(origin: &str, allowed: &Vec<String>) -> (r: bool)
    ensures
        r == may_drive(origin@, texts(allowed@)),
{
    if same(origin, "") || same(origin, "null") {
        return false;
    }
    let bare = trim(origin);
    let bare = trim_text_end(bare.as_str(), '/');
    if listed(allowed, bare.as_str()) {
        return true;
    }
    match cut_text_once(bare.as_str(), "://") {
        Some((scheme, authority)) => {
            let host = authority_host(authority.as_str());
            (same(scheme.as_str(), "http") || same(scheme.as_str(), "https")) && (same(
                host.as_str(),
                "localhost",
            ) || same(host.as_str(), "127.0.0.1") || same(host.as_str(), "::1"))
        },
        None => false,
    }
}

// ------------------------------------------------------------------- messages

/// A JSON-RPC error.
pub open spec fn rpc_error(id: JsonView, code: Seq<char>, message: Seq<char>) -> JsonView {
    JsonView::Object(
        seq![
            ("jsonrpc"@, JsonView::Text("2.0"@)),
            ("id"@, id),
            (
                "error"@,
                JsonView::Object(
                    seq![
                        ("code"@, JsonView::Number(code)),
                        ("message"@, JsonView::Text(message)),
                    ],
                ),
            ),
        ],
    )
}

/// A JSON-RPC error; the code is given as it is printed.
pub fn error_response(id: Json, code: &str, message: &str) -> (r: Json)
    ensures
        r@ == rpc_error(id@, code@, message@),
{
    let mut inner: Vec<(String, Json)> = Vec::new();
    inner.push(entry("code", Json::Number(copy(code))));
    inner.push(entry("message", text_json(message)));
    assert(entries_view(inner@) =~= seq![
        ("code"@, JsonView::Number(code@)),
        ("message"@, JsonView::Text(message@)),
    ]);
    let error = object(inner);
    let mut outer: Vec<(String, Json)> = Vec::new();
    outer.push(entry("jsonrpc", text_json("2.0")));
    outer.push(entry("id", id));
    outer.push(entry("error", error));
    assert(entries_view(outer@) =~= rpc_error(id@, code@, message@)->Object_0);
    object(outer)
}

/// What a request to the endpoint carries.
#[derive(Debug)]
pub struct McpRequest {
    pub method: String,
    pub origin: Option<String>,
    pub version: Option<String>,
    pub body: Vec<u8>,
}

/// What becomes of a request to the endpoint.
#[derive(Debug)]
pub enum McpGate {
    /// It is answered at once.
    Refuse(Answer),
    /// Its message goes to the tools.
    Handle(Json),
}

pub enum McpGateView {
    Refuse(AnswerView),
    Handle(JsonView),
}

impl View for McpGate {
    type V = McpGateView;

    open spec fn view(&self) -> McpGateView {
        match self {
            McpGate::Refuse(answer) => McpGateView::Refuse(answer@),
            McpGate::Handle(message) => McpGateView::Handle(message@),
        }
    }
}

pub open spec fn unsupported_version(version: Seq<char>) -> AnswerView {
    AnswerView {
        status: 400,
        body: JsonView::Object(
            seq![
                ("error"@, JsonView::Text("unsupported MCP-Protocol-Version: "@ + version)),
                ("supported"@, texts_view(seq![PROTOCOL_VERSION@, EARLIER_VERSION@])),
            ],
        ),
    }
}

fn refuse_version(version: &str) -> (r: Answer)
    ensures
        r@ == unsupported_version(version@),
{
    let message = joined("unsupported MCP-Protocol-Version: ", version);
    let mut versions: Vec<String> = Vec::new();
    versions.push(copy(PROTOCOL_VERSION));
    versions.push(copy(EARLIER_VERSION));
    assert(texts(versions@) =~= seq![PROTOCOL_VERSION@, EARLIER_VERSION@]);
    let mut entries: Vec<(String, Json)> = Vec::new();
    entries.push(entry("error", text_json(message.as_str())));
    entries.push(entry("supported", texts_json(&versions)));
    assert(entries_view(entries@) =~= unsupported_version(version@).body->Object_0);
    Answer { status: 400, body: object(entries) }
}

/// What the message of a request makes of it: one JSON document that is not a
/// batch.
pub open spec fn message_gate(body: Seq<u8>) -> McpGateView {
    match json_document(body) {
        Err(error) => McpGateView::Refuse(
            AnswerView {
                status: 400,
                body: rpc_error(JsonView::Null, "-32700"@, "parse error: "@ + error),
            },
        ),
        Ok(JsonView::Array(_)) => McpGateView::Refuse(
            AnswerView {
                status: 400,
                body: rpc_error(
                    JsonView::Null,
                    "-32600"@,
                    "JSON-RPC batching was removed from MCP; send one message per request"@,
                ),
            },
        ),
        Ok(message) => McpGateView::Handle(message),
    }
}

/// What becomes of a request to the endpoint. The checks come in this order:
/// the endpoint is on, the origin may drive it, the version is served, the
/// method is `POST`, the message is one document.
pub open spec fn gate_of(
    options: McpView,
    method: Seq<char>,
    origin: Option<Seq<char>>,
    version: Option<Seq<char>>,
    body: Seq<u8>,
) -> McpGateView {
    if !options.enabled {
        McpGateView::Refuse(
            advice(
                404,
                "the MCP endpoint is not enabled"@,
                "restart traza-server with --mcp (add --mcp-annotations to let an rw token record annotations)"@,
            ),
        )
    } else if origin matches Some(origin) && !may_drive(origin, options.allowed_origins) {
        McpGateView::Refuse(
            advice(
                403,
                "origin not allowed"@,
                "loopback origins are allowed by default; name any other with --mcp-allowed-origin ORIGIN"@,
            ),
        )
    } else if version matches Some(version) && !is_supported(version) {
        McpGateView::Refuse(unsupported_version(version->Some_0))
    } else if method != "POST"@ {
        McpGateView::Refuse(
            advice(
                405,
                "this MCP endpoint accepts POST only"@,
                "POST one JSON-RPC message per request; there is no SSE stream and no session to delete"@,
            ),
        )
    } else {
        message_gate(body)
    }
}

fn read_message(body: &[u8]) -> (r: McpGate)
    ensures
        r@ == message_gate(body@),
{
    match read_json(body) {
        Err(error) => {
            let message = joined("parse error: ", error.as_str());
            let body = error_response(Json::Null, "-32700", message.as_str());
            McpGate::Refuse(Answer { status: 400, body })
        },
        Ok(Json::Array(_)) => McpGate::Refuse(
            Answer {
                status: 400,
                body: error_response(
                    Json::Null,
                    "-32600",
                    "JSON-RPC batching was removed from MCP; send one message per request",
                ),
            },
        ),
        Ok(message) => McpGate::Handle(message),
    }
}

/// Decides what becomes of a request to the endpoint.
pub fn serve_mcp(options: &McpOptions, request: &McpRequest) -> (r: McpGate)
    ensures
        r@ == gate_of(
            options@,
            request.method@,
            opt_view(request.origin),
            opt_view(request.version),
            request.body@,
        ),
{
    if !options.enabled {
        return McpGate::Refuse(
            advise(
                404,
                "the MCP endpoint is not enabled",
                "restart traza-server with --mcp (add --mcp-annotations to let an rw token record annotations)",
            ),
        );
    }
    if let Some(origin) = &request.origin {
        if !origin_allowed(origin.as_str(), &options.allowed_origins) {
            return McpGate::Refuse(
                advise(
                    403,
                    "origin not allowed",
                    "loopback origins are allowed by default; name any other with --mcp-allowed-origin ORIGIN",
                ),
            );
        }
    }
    if let Some(version) = &request.version {
        if !supported(version.as_str()) {
            return McpGate::Refuse(refuse_version(version.as_str()));
        }
    }
    if !same(request.method.as_str(), "POST") {
        return McpGate::Refuse(
            advise(
                405,
                "this MCP endpoint accepts POST only",
                "POST one JSON-RPC message per request; there is no SSE stream and no session to delete",
            ),
        );
    }
    read_message(request.body.as_slice())
}

// ----------------------------------------------------------------------- laws

/// The opaque origin that a sandboxed page sends drives nothing, whatever the
/// operator named.
pub proof fn law_an_opaque_origin_never_drives(allowed: Seq<Seq<char>>)
    ensures
        !may_drive("null"@, allowed),
        !may_drive(""@, allowed),
{
}

/// A request from an origin that may not drive the endpoint never reaches the
/// tools.
pub proof fn law_a_foreign_origin_is_refused(
    options: McpView,
    method: Seq<char>,
    origin: Seq<char>,
    version: Option<Seq<char>>,
    body: Seq<u8>,
)
    requires
        !options.allowed_origins.contains(bare_origin(origin)),
        !is_loopback_origin(bare_origin(origin)),
    ensures
        gate_of(options, method, Some(origin), version, body) is Refuse,
{
}

/// With the endpoint off, no request reaches the tools.
pub proof fn law_off_means_off(
    options: McpView,
    method: Seq<char>,
    origin: Option<Seq<char>>,
    version: Option<Seq<char>>,
    body: Seq<u8>,
)
    requires
        !options.enabled,
    ensures
        gate_of(options, method, origin, version, body) matches McpGateView::Refuse(answer)
            && answer.status == 404,
{
}

/// The protocol versions that are spoken, and no others.
pub proof fn law_supported_versions(version: Seq<char>)
    ensures
        is_supported(version) <==> version == "2025-06-18"@ || version == "2025-03-26"@,
{
}

/// An origin may drive the endpoint where it is listed, or where it is a page of
/// this machine under http or https, white space and slashes at its end left
/// aside; an opaque one never may.
pub proof fn law_which_origins_drive(origin: Seq<char>, allowed: Seq<Seq<char>>, a: Seq<char>)
    ensures
        ({
            let bare = trim_end_char(trimmed(origin), '/');
            let opaque = origin == ""@ || origin == "null"@;
            &&& opaque ==> !may_drive(origin, allowed)
            &&& !opaque && allowed.contains(bare) ==> may_drive(origin, allowed)
            &&& !opaque && is_loopback_origin(bare) ==> may_drive(origin, allowed)
            &&& may_drive(origin, allowed) ==> allowed.contains(bare) || is_loopback_origin(bare)
        }),
        ({
            let host = host_of(a);
            let near = host == "localhost"@ || host == "127.0.0.1"@ || host == "::1"@;
            &&& cut_once(origin, "://"@) == Some(("http"@, a)) ==> is_loopback_origin(origin)
                == near
            &&& cut_once(origin, "://"@) == Some(("https"@, a)) ==> is_loopback_origin(origin)
                == near
            &&& cut_once(origin, "://"@) is None ==> !is_loopback_origin(origin)
            &&& cut_once(origin, "://"@) is Some && (cut_once(origin, "://"@)->0).0 != "http"@ && (
            cut_once(origin, "://"@)->0).0 != "https"@ ==> !is_loopback_origin(origin)
        }),
{
}

/// The host of an authority is what precedes the port; an address in brackets
/// loses them.
pub proof fn law_the_host_of_an_authority(host: Seq<char>, rest: Seq<char>)
    ensures
        !host.contains(':') && (host.len() == 0 || host[0] != '[') ==> host_of(
            host.push(':') + rest,
        ) == host && host_of(host) == host,
        !host.contains(']') ==> host_of("["@ + (host.push(']') + rest)) == host,
{
    reveal_strlit("[");
    if !host.contains(':') && (host.len() == 0 || host[0] != '[') {
        lemma_first_piece(host, rest, ':');
        let whole = host.push(':') + rest;
        assert(whole[0] != '[') by {
            if host.len() > 0 {
                assert(whole[0] == host[0]);
            } else {
                assert(whole[0] == ':');
            }
        }
        if crate::text::starts_with(whole, "["@) {
            assert(whole.take(1)[0] == '[');
        }
        if crate::text::starts_with(host, "["@) {
            assert(host.take(1)[0] == '[');
        }
    }
    if !host.contains(']') {
        lemma_first_piece(host, rest, ']');
        crate::text::law_prefixes("["@, host.push(']') + rest, host);
    }
}

proof fn lemma_first_piece(head: Seq<char>, rest: Seq<char>, c: char)
    requires
        !head.contains(c),
    ensures
        split(head.push(c) + rest, c)[0] == head,
        split(head, c)[0] == head,
{
    let whole = head.push(c) + rest;
    crate::text::lemma_find(whole, c, 0);
    crate::text::lemma_find(head, c, 0);
    assert(whole[head.len() as int] == c);
    let k = crate::text::find(whole, c);
    if k < head.len() {
        assert(whole[k] == head[k]);
        assert(head.contains(c));
    }
    assert(whole.take(k) =~= head);
    if crate::text::find(head, c) < head.len() {
        assert(head.contains(c));
    }
}

/// How the endpoint meets a request, in this order: where it is off, 404; an
/// origin that may not drive it, 403; a version that is not spoken, 400; any
/// method but `POST`, 405; a body that is no JSON or a batch, 400; and anything
/// else is handled.
pub proof fn law_how_a_request_is_met(
    options: McpView,
    method: Seq<char>,
    origin: Option<Seq<char>>,
    version: Option<Seq<char>>,
    body: Seq<u8>,
)
    ensures
        ({
            let r = gate_of(options, method, origin, version, body);
            let on = options.enabled;
            let driven = on && (origin is None || may_drive(origin->0, options.allowed_origins));
            let spoken = driven && (version is None || is_supported(version->0));
            let posted = spoken && method == "POST"@;
            let document = json_document(body);
            &&& !on ==> r is Refuse && r->Refuse_0.status == 404
            &&& on && !driven ==> r is Refuse && r->Refuse_0.status == 403
            &&& driven && !spoken ==> r is Refuse && r->Refuse_0.status == 400
            &&& spoken && method != "POST"@ ==> r is Refuse && r->Refuse_0.status == 405
            &&& posted && document is Err ==> r is Refuse && r->Refuse_0.status == 400
            &&& posted && document is Ok && document->Ok_0 is Array ==> r is Refuse
                && r->Refuse_0.status == 400
            &&& posted && document is Ok && !(document->Ok_0 is Array) ==> r == McpGateView::Handle(
                document->Ok_0,
            )
        }),
{
}

/// An error answer names the protocol, the request and the error.
pub proof fn law_an_error_answer(id: JsonView, code: Seq<char>, message: Seq<char>)
    ensures
        rpc_error(id, code, message).field("jsonrpc"@) == Some(JsonView::Text("2.0"@)),
        rpc_error(id, code, message).field("id"@) == Some(id),
        rpc_error(id, code, message).field("error"@) is Some,
        (rpc_error(id, code, message).field("error"@)->0).field("code"@) == Some(
            JsonView::Number(code),
        ),
        (rpc_error(id, code, message).field("error"@)->0).field("message"@) == Some(
            JsonView::Text(message),
        ),
{
    reveal_strlit("jsonrpc");
    reveal_strlit("id");
    reveal_strlit("error");
    reveal_strlit("code");
    reveal_strlit("message");
    reveal_with_fuel(crate::json::entry_from, 4);
    let fields = rpc_error(id, code, message)->Object_0;
    assert("jsonrpc"@[0] == 'j' && "id"@[0] == 'i' && "error"@[0] == 'e' && "code"@[0] == 'c'
        && "message"@[0] == 'm');
    assert(fields[0].0 == "jsonrpc"@ && fields[1].0 == "id"@ && fields[2].0 == "error"@);
}

} // verus!
