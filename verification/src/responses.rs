//! The heads of responses, and the frames of streamed ones.

use vstd::prelude::*;
use vstd::utf8::encode_utf8;

use crate::auth::AuthFailure;
use crate::text::{copy, dec, decimal};

verus! {

/// What a response says the connection will do.
pub open spec fn connection_word(keep_alive: bool) -> Seq<char> {
    if keep_alive {
        "keep-alive"@
    } else {
        "close"@
    }
}

pub fn connection_header(keep_alive: bool) -> (r: &'static str)
    ensures
        r@ == connection_word(keep_alive),
{
    if keep_alive {
        "keep-alive"
    } else {
        "close"
    }
}

/// The words for a status.
pub open spec fn reason_of(status: u16) -> Seq<char> {
    if status == 200 {
        "OK"@
    } else if status == 400 {
        "Bad Request"@
    } else if status == 403 {
        "Forbidden"@
    } else if status == 404 {
        "Not Found"@
    } else if status == 405 {
        "Method Not Allowed"@
    } else if status == 413 {
        "Payload Too Large"@
    } else if status == 429 {
        "Too Many Requests"@
    } else if status == 503 {
        "Service Unavailable"@
    } else {
        "Error"@
    }
}

pub fn reason(status: u16) -> (r: &'static str)
    ensures
        r@ == reason_of(status),
{
    if status == 200 {
        "OK"
    } else if status == 400 {
        "Bad Request"
    } else if status == 403 {
        "Forbidden"
    } else if status == 404 {
        "Not Found"
    } else if status == 405 {
        "Method Not Allowed"
    } else if status == 413 {
        "Payload Too Large"
    } else if status == 429 {
        "Too Many Requests"
    } else if status == 503 {
        "Service Unavailable"
    } else {
        "Error"
    }
}

/// A status line.
pub open spec fn status_line(status: u16, words: Seq<char>) -> Seq<char> {
    "HTTP/1.1 "@ + dec(status as nat) + " "@ + words + "\r\n"@
}

fn write_status(status: u16, words: &str) -> (r: String)
    ensures
        r@ == status_line(status, words@),
{
    let mut r = copy("HTTP/1.1 ");
    let digits = decimal(status as u64);
    r.push_str(digits.as_str());
    r.push_str(" ");
    r.push_str(words);
    r.push_str("\r\n");
    r
}

/// One header line.
pub open spec fn header_line(name: Seq<char>, value: Seq<char>) -> Seq<char> {
    name + ": "@ + value + "\r\n"@
}

fn write_header(into: &mut String, name: &str, value: &str)
    ensures
        final(into)@ == old(into)@ + header_line(name@, value@),
{
    let mut line = copy(name);
    line.push_str(": ");
    line.push_str(value);
    line.push_str("\r\n");
    into.push_str(line.as_str());
}

/// The headers every response with a length ends in.
pub open spec fn closing(before: Seq<char>, length: nat, keep_alive: bool) -> Seq<char> {
    before + header_line("Content-Length"@, dec(length)) + header_line(
        "Connection"@,
        connection_word(keep_alive),
    ) + "\r\n"@
}

fn write_closing(into: &mut String, length: usize, keep_alive: bool)
    ensures
        final(into)@ == closing(old(into)@, length as nat, keep_alive),
{
    let digits = decimal(length as u64);
    write_header(into, "Content-Length", digits.as_str());
    write_header(into, "Connection", connection_header(keep_alive));
    into.push_str("\r\n");
}

/// The head of a response with a body of one type.
pub open spec fn typed_head(
    status: u16,
    words: Seq<char>,
    content_type: Seq<char>,
    length: nat,
    keep_alive: bool,
) -> Seq<char> {
    closing(
        status_line(status, words) + header_line("Content-Type"@, content_type),
        length,
        keep_alive,
    )
}

fn write_typed(status: u16, words: &str, content_type: &str, length: usize, keep_alive: bool) -> (r:
    String)
    ensures
        r@ == typed_head(status, words@, content_type@, length as nat, keep_alive),
{
    let mut r = write_status(status, words);
    write_header(&mut r, "Content-Type", content_type);
    write_closing(&mut r, length, keep_alive);
    r
}

/// The head of a JSON response.
pub fn json_head(status: u16, length: usize, keep_alive: bool) -> (r: String)
    ensures
        r@ == typed_head(status, reason_of(status), "application/json"@, length as nat, keep_alive),
{
    write_typed(status, reason(status), "application/json", length, keep_alive)
}

/// The response to a message that has no reply: it has no body.
pub fn accepted_head(keep_alive: bool) -> (r: String)
    ensures
        r@ == closing(status_line(202, "Accepted"@), 0, keep_alive),
{
    let mut r = write_status(202, "Accepted");
    write_closing(&mut r, 0, keep_alive);
    r
}

/// The head of a dashboard file, which no cache may keep and no browser may
/// reinterpret.
pub fn file_head(content_type: &str, length: usize, keep_alive: bool) -> (r: String)
    ensures
        r@ == closing(
            status_line(200, "OK"@) + header_line("Content-Type"@, content_type@) + header_line(
                "Cache-Control"@,
                "no-store"@,
            ) + header_line("X-Content-Type-Options"@, "nosniff"@),
            length as nat,
            keep_alive,
        ),
{
    let mut r = write_status(200, "OK");
    write_header(&mut r, "Content-Type", content_type);
    write_header(&mut r, "Cache-Control", "no-store");
    write_header(&mut r, "X-Content-Type-Options", "nosniff");
    write_closing(&mut r, length, keep_alive);
    r
}

/// The head of an accepted protobuf ingest, whose response has no bytes.
pub fn protobuf_head(keep_alive: bool) -> (r: String)
    ensures
        r@ == typed_head(200, "OK"@, "application/x-protobuf"@, 0, keep_alive),
{
    write_typed(200, "OK", "application/x-protobuf", 0, keep_alive)
}

/// The head of the metrics in the Prometheus text format.
pub fn metrics_head(length: usize, keep_alive: bool) -> (r: String)
    ensures
        r@ == typed_head(200, "OK"@, "text/plain; version=0.0.4"@, length as nat, keep_alive),
{
    write_typed(200, "OK", "text/plain; version=0.0.4", length, keep_alive)
}

/// The head of a payload.
pub fn payload_head(length: usize, keep_alive: bool) -> (r: String)
    ensures
        r@ == typed_head(200, "OK"@, "application/octet-stream"@, length as nat, keep_alive),
{
    write_typed(200, "OK", "application/octet-stream", length, keep_alive)
}

/// What a client is told when the server is at its connection limit.
pub const AT_LIMIT_BODY: &'static str = "{\"error\":\"server at connection limit\"}";

/// The whole response to a client beyond the connection limit.
pub fn refusal() -> (r: String)
    ensures
        r@ == typed_head(
            503,
            "Service Unavailable"@,
            "application/json"@,
            encode_utf8(AT_LIMIT_BODY@).len(),
            false,
        ) + AT_LIMIT_BODY@,
{
    let length: usize = AT_LIMIT_BODY.as_bytes().len();
    let mut r = write_typed(503, "Service Unavailable", "application/json", length, false);
    r.push_str(AT_LIMIT_BODY);
    r
}

/// The head of a refusal by the auth gate: it names the challenge, where there
/// is one, and closes the connection.
pub open spec fn denied(failure: AuthFailure) -> Seq<char> {
    let words = if failure.spec_status() == 401 {
        "Unauthorized"@
    } else {
        "Forbidden"@
    };
    let opening = status_line(failure.spec_status(), words);
    let challenged = match failure.spec_challenge() {
        Some(challenge) => opening + header_line("WWW-Authenticate"@, challenge),
        None => opening,
    };
    closing(
        challenged + header_line("Content-Type"@, "application/json"@),
        encode_utf8(failure.spec_body()).len(),
        false,
    ) + failure.spec_body()
}

/// The whole response of the auth gate.
pub fn denial(failure: AuthFailure) -> (r: String)
    ensures
        r@ == denied(failure),
{
    let words = if failure.status() == 401 {
        "Unauthorized"
    } else {
        "Forbidden"
    };
    let body = failure.body();
    let mut r = write_status(failure.status(), words);
    if let Some(challenge) = failure.www_authenticate() {
        write_header(&mut r, "WWW-Authenticate", challenge);
    }
    write_header(&mut r, "Content-Type", "application/json");
    write_closing(&mut r, body.as_bytes().len(), false);
    r.push_str(body);
    r
}

// -------------------------------------------------------------------- streaming

/// The digit of a hexadecimal number.
pub open spec fn hex_digit(d: int) -> char {
    if d < 10 {
        (48 + d) as char
    } else {
        (55 + d) as char
    }
}

/// A number in uppercase hexadecimal.
pub open spec fn hex_of(n: nat) -> Seq<char>
    decreases n,
{
    if n < 16 {
        seq![hex_digit(n as int)]
    } else {
        hex_of(n / 16).push(hex_digit((n % 16) as int))
    }
}

pub fn hexadecimal(n: u64) -> (r: String)
    ensures
        r@ == hex_of(n as nat),
    decreases n,
{
    let mut r = if n < 16 {
        String::new()
    } else {
        hexadecimal(n / 16)
    };
    let d = (n % 16) as u8;
    let c = if d < 10 {
        (48 + d) as char
    } else {
        (55 + d) as char
    };
    r.push(c);
    assert(n < 16 ==> r@ =~= hex_of(n as nat));
    r
}

/// One chunk of a chunked body: the length in hexadecimal, the bytes, and a
/// line break behind each.
pub open spec fn chunk_of(bytes: Seq<u8>) -> Seq<u8> {
    encode_utf8(hex_of(bytes.len()) + "\r\n"@) + bytes + encode_utf8("\r\n"@)
}

/// Frames bytes as one chunk.
pub fn write_chunk(bytes: &[u8]) -> (out: Vec<u8>)
    ensures
        out@ == chunk_of(bytes@),
{
    let n: usize = bytes.len();
    let mut size = hexadecimal(n as u64);
    size.push_str("\r\n");
    let mut out: Vec<u8> = Vec::new();
    push_bytes(&mut out, size.as_str().as_bytes());
    push_bytes(&mut out, bytes);
    push_bytes(&mut out, "\r\n".as_bytes());
    out
}

/// Appends bytes.
pub fn push_bytes(out: &mut Vec<u8>, bytes: &[u8])
    ensures
        final(out)@ == old(out)@ + bytes@,
{
    let ghost before = out@;
    let n: usize = bytes.len();
    let mut i: usize = 0;
    assert(before + bytes@.take(0) == before);
    while i < n
        invariant
            i <= n == bytes@.len(),
            out@ == before + bytes@.take(i as int),
        decreases n - i,
    {
        out.push(bytes[i]);
        assert(bytes@.take(i + 1) == bytes@.take(i as int).push(bytes@[i as int]));
        i += 1;
    }
    assert(bytes@.take(n as int) == bytes@);
}

/// The head of an export: rows as chunks, and how it ended as trailers.
pub const EXPORT_HEAD: &'static str =
    "HTTP/1.1 200 OK\r\nContent-Type: application/x-ndjson\r\nTransfer-Encoding: chunked\r\nTrailer: X-Traza-Export-Complete, X-Traza-Export-Count\r\nConnection: close\r\n\r\n";

/// The head of a live tail. The last header but two is for proxies that would
/// hold frames back until a buffer fills.
pub const TAIL_HEAD: &'static str =
    "HTTP/1.1 200 OK\r\nContent-Type: text/event-stream\r\nCache-Control: no-cache\r\nX-Accel-Buffering: no\r\nTransfer-Encoding: chunked\r\nConnection: close\r\n\r\n";

/// The end of an export: the last chunk and the trailers.
pub open spec fn export_end(complete: bool, emitted: nat) -> Seq<char> {
    "0\r\nX-Traza-Export-Complete: "@ + (if complete {
        "true"@
    } else {
        "false"@
    }) + "\r\nX-Traza-Export-Count: "@ + dec(emitted) + "\r\n\r\n"@
}

/// Ends an export: whether it is the whole dataset, and how many rows it
/// emitted.
pub fn finish_export(complete: bool, emitted: usize) -> (r: String)
    ensures
        r@ == export_end(complete, emitted as nat),
{
    let mut r = copy("0\r\nX-Traza-Export-Complete: ");
    r.push_str(
        if complete {
            "true"
        } else {
            "false"
        },
    );
    r.push_str("\r\nX-Traza-Export-Count: ");
    let digits = decimal(emitted as u64);
    r.push_str(digits.as_str());
    r.push_str("\r\n\r\n");
    r
}

// ----------------------------------------------------------------------- laws

/// The words of a status line, by status.
pub proof fn law_reasons(status: u16)
    ensures
        reason_of(200) == "OK"@,
        reason_of(400) == "Bad Request"@,
        reason_of(403) == "Forbidden"@,
        reason_of(404) == "Not Found"@,
        reason_of(405) == "Method Not Allowed"@,
        reason_of(413) == "Payload Too Large"@,
        reason_of(429) == "Too Many Requests"@,
        reason_of(503) == "Service Unavailable"@,
        connection_word(true) == "keep-alive"@,
        connection_word(false) == "close"@,
{
}

/// A response head is a status line, its headers, the length of the body, what
/// becomes of the connection, and a blank line.
pub proof fn law_a_response_head(
    status: u16,
    words: Seq<char>,
    content_type: Seq<char>,
    length: nat,
    keep_alive: bool,
)
    ensures
        typed_head(status, words, content_type, length, keep_alive) == "HTTP/1.1 "@ + dec(
            status as nat,
        ) + " "@ + words + "\r\n"@ + ("Content-Type"@ + ": "@ + content_type + "\r\n"@) + (
        "Content-Length"@ + ": "@ + dec(length) + "\r\n"@) + ("Connection"@ + ": "@ + (
        if keep_alive {
            "keep-alive"@
        } else {
            "close"@
        }) + "\r\n"@) + "\r\n"@,
{
}

/// A denial closes the connection and says why: 401 with a challenge, or 403.
pub proof fn law_denials()
    ensures
        denied(AuthFailure::Unauthorized) == closing(
            status_line(401, "Unauthorized"@) + header_line("WWW-Authenticate"@, "Bearer"@)
                + header_line("Content-Type"@, "application/json"@),
            encode_utf8("{\"error\":\"unauthorized\"}"@).len(),
            false,
        ) + "{\"error\":\"unauthorized\"}"@,
        denied(AuthFailure::Forbidden) == closing(
            status_line(403, "Forbidden"@) + header_line("Content-Type"@, "application/json"@),
            encode_utf8("{\"error\":\"forbidden\"}"@).len(),
            false,
        ) + "{\"error\":\"forbidden\"}"@,
{
}

/// Hexadecimal numbers: a digit stands for itself, `A` for ten and so on, and a
/// digit behind a number makes sixteen times the number and the digit.
pub proof fn law_hexadecimal(n: nat, d: nat)
    requires
        d < 16,
    ensures
        d < 10 ==> hex_of(d) == seq![(48 + d) as char],
        d >= 10 ==> hex_of(d) == seq![(65 + (d - 10)) as char],
        n > 0 ==> hex_of(16 * n + d) == hex_of(n) + hex_of(d),
{
    if n > 0 {
        assert((16 * n + d) / 16 == n && (16 * n + d) % 16 == d);
        assert(hex_of(16 * n + d) =~= hex_of(n) + hex_of(d));
    }
}

/// A chunk is its length, the bytes, and a line end behind each.
pub proof fn law_a_chunk(bytes: Seq<u8>)
    ensures
        chunk_of(bytes) == encode_utf8(hex_of(bytes.len()) + "\r\n"@) + bytes + encode_utf8(
            "\r\n"@,
        ),
{
}

/// An export ends with whether it is complete and how many spans it emitted.
pub proof fn law_an_export_ends(emitted: nat)
    ensures
        export_end(true, emitted) == "0\r\nX-Traza-Export-Complete: true"@
            + "\r\nX-Traza-Export-Count: "@ + dec(emitted) + "\r\n\r\n"@,
        export_end(false, emitted) == "0\r\nX-Traza-Export-Complete: false"@
            + "\r\nX-Traza-Export-Count: "@ + dec(emitted) + "\r\n\r\n"@,
{
    reveal_strlit("0\r\nX-Traza-Export-Complete: ");
    reveal_strlit("true");
    reveal_strlit("false");
    reveal_strlit("0\r\nX-Traza-Export-Complete: true");
    reveal_strlit("0\r\nX-Traza-Export-Complete: false");
    assert("0\r\nX-Traza-Export-Complete: "@ + "true"@ =~= "0\r\nX-Traza-Export-Complete: true"@);
    assert("0\r\nX-Traza-Export-Complete: "@ + "false"@
        =~= "0\r\nX-Traza-Export-Complete: false"@);
}

} // verus!
