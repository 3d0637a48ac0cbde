//! The client side of HTTP/1 that the tools and benchmarks speak.

use vstd::prelude::*;
use vstd::utf8::{decode_utf8, valid_utf8};

use crate::connection::blank_line;
use crate::http::{bytes_at, find_bytes, header_value, lossy_text, utf8_lossy, utf8_text};
use crate::json::{json_document, read_json, JsonView};
use crate::queries::{read_u64, read_usize, u64_of, usize_of};
use crate::responses::{connection_header, connection_word, push_bytes};
use crate::text::{
    as_nat, chars_of, copy, dec, decimal, lemma_texts_push, lowered, number_to, parse_number, same,
    same_ignoring_case, split, split_once, split_text, split_text_once, split_words, strip_prefix,
    text_after, text_of, texts, trim, trimmed, words,
};

verus! {

// ------------------------------------------------------------------------ lines

/// A line without the carriage return at its end.
pub open spec fn bare_line(s: Seq<char>) -> Seq<char> {
    if s.len() > 0 && s.last() == '\r' {
        s.drop_last()
    } else {
        s
    }
}

/// The lines of a text: each ends at a line feed, or at a carriage return and
/// a line feed; a line feed at the very end begins no further line.
pub open spec fn lines_of(s: Seq<char>) -> Seq<Seq<char>> {
    let pieces = split(s, '\n');
    let ended = Seq::new((pieces.len() - 1) as nat, |i: int| bare_line(pieces[i]));
    if pieces.last().len() == 0 {
        ended
    } else {
        ended.push(pieces.last())
    }
}

fn without_return(line: &str) -> (r: String)
    ensures
        r@ == bare_line(line@),
{
    let chars = chars_of(line);
    let n = chars.len();
    if n > 0 && chars[n - 1] == '\r' {
        let r = text_of(&chars, 0, n - 1);
        assert(r@ =~= line@.drop_last());
        r
    } else {
        copy(line)
    }
}

/// The lines of a text.
pub fn text_lines(text: &str) -> (r: Vec<String>)
    ensures
        texts(r@) == lines_of(text@),
{
    let pieces = split_text(text, '\n');
    let ghost all = split(text@, '\n');
    let n = pieces.len();
    assert(all.last() == pieces@[n - 1]@) by {
        assert(texts(pieces@)[n - 1] == pieces@[n - 1]@);
    }
    let count: usize = n - 1;
    let mut r: Vec<String> = Vec::new();
    let mut i: usize = 0;
    while i < count
        invariant
            i <= count < pieces@.len(),
            r@.len() == i,
            forall|k: int| 0 <= k < i ==> (#[trigger] r@[k])@ == bare_line(pieces@[k]@),
        decreases count - i,
    {
        r.push(without_return(pieces[i].as_str()));
        i += 1;
    }
    let ghost ended = Seq::new((all.len() - 1) as nat, |k: int| bare_line(all[k]));
    proof {
        assert forall|k: int| 0 <= k < count implies texts(r@)[k] == #[trigger] ended[k] by {
            assert(texts(pieces@)[k] == pieces@[k]@);
        }
        assert(texts(r@) =~= ended);
    }
    let last = chars_of(pieces[n - 1].as_str()).len();
    if last > 0 {
        let ghost before = r@;
        let text = copy(pieces[n - 1].as_str());
        r.push(text);
        proof {
            lemma_texts_push(before, text);
        }
    }
    r
}

// --------------------------------------------------------------------- requests

/// The head of a request on a connection of its own.
pub open spec fn request_head_of(method: Seq<char>, path: Seq<char>, length: nat) -> Seq<char> {
    method + " "@ + path
        + " HTTP/1.1\r\nHost: 127.0.0.1\r\nContent-Type: application/json\r\nContent-Length: "@
        + dec(length) + "\r\nConnection: close\r\n\r\n"@
}

/// Writes the head of a request on a connection of its own.
pub fn request_head(method: &str, path: &str, length: usize) -> (r: String)
    ensures
        r@ == request_head_of(method@, path@, length as nat),
{
    let mut r = copy(method);
    r.push_str(" ");
    r.push_str(path);
    r.push_str(
        " HTTP/1.1\r\nHost: 127.0.0.1\r\nContent-Type: application/json\r\nContent-Length: ",
    );
    let digits = decimal(length as u64);
    r.push_str(digits.as_str());
    r.push_str("\r\nConnection: close\r\n\r\n");
    r
}

/// Writes the head of a `POST` on a connection that may persist.
pub fn post_head(path: &str, content_type: &str, length: usize, keep_alive: bool) -> (r: String)
    ensures
        r@ == "POST "@ + path@ + " HTTP/1.1\r\nHost: 127.0.0.1\r\nContent-Type: "@ + content_type@
            + "\r\nContent-Length: "@ + dec(length as nat) + "\r\nConnection: "@ + connection_word(
            keep_alive,
        ) + "\r\n\r\n"@,
{
    let mut r = copy("POST ");
    r.push_str(path);
    r.push_str(" HTTP/1.1\r\nHost: 127.0.0.1\r\nContent-Type: ");
    r.push_str(content_type);
    r.push_str("\r\nContent-Length: ");
    let digits = decimal(length as u64);
    r.push_str(digits.as_str());
    r.push_str("\r\nConnection: ");
    r.push_str(connection_header(keep_alive));
    r.push_str("\r\n\r\n");
    r
}

/// Writes the head of a `GET` on a connection that may persist.
pub fn get_head(path: &str, keep_alive: bool) -> (r: String)
    ensures
        r@ == "GET "@ + path@ + " HTTP/1.1\r\nHost: 127.0.0.1\r\nConnection: "@ + connection_word(
            keep_alive,
        ) + "\r\n\r\n"@,
{
    let mut r = copy("GET ");
    r.push_str(path);
    r.push_str(" HTTP/1.1\r\nHost: 127.0.0.1\r\nConnection: ");
    r.push_str(connection_header(keep_alive));
    r.push_str("\r\n\r\n");
    r
}

/// The head of a `POST` to a server somewhere else, with a token if there is
/// one.
pub open spec fn remote_head(host: Seq<char>, path: Seq<char>, token: Seq<char>, length: nat) -> Seq<
    char,
> {
    "POST "@ + path + " HTTP/1.1\r\nHost: "@ + host + "\r\nContent-Type: application/json\r\n"@ + (
    if token == ""@ {
        ""@
    } else {
        "Authorization: Bearer "@ + token + "\r\n"@
    }) + "Content-Length: "@ + dec(length) + "\r\nConnection: close\r\n\r\n"@
}

/// Writes the head of a `POST` to a server somewhere else.
pub fn remote_post_head(host: &str, path: &str, token: &str, length: usize) -> (r: String)
    ensures
        r@ == remote_head(host@, path@, token@, length as nat),
{
    let authorization = if same(token, "") {
        copy("")
    } else {
        let mut line = copy("Authorization: Bearer ");
        line.push_str(token);
        line.push_str("\r\n");
        line
    };
    let mut r = copy("POST ");
    r.push_str(path);
    r.push_str(" HTTP/1.1\r\nHost: ");
    r.push_str(host);
    r.push_str("\r\nContent-Type: application/json\r\n");
    r.push_str(authorization.as_str());
    r.push_str("Content-Length: ");
    let digits = decimal(length as u64);
    r.push_str(digits.as_str());
    r.push_str("\r\nConnection: close\r\n\r\n");
    r
}

// ---------------------------------------------------------------------- replies

/// The status in the second word of a text.
pub open spec fn second_word_status(s: Seq<char>) -> Option<nat> {
    if words(s).len() > 1 {
        number_to(words(s)[1], u16::MAX as nat)
    } else {
        None
    }
}

/// Reads the status in the second word of a text.
pub fn read_second_word(text: &str) -> (r: Option<u16>)
    ensures
        match r {
            Some(status) => second_word_status(text@) == Some(status as nat),
            None => second_word_status(text@).is_none(),
        },
{
    let parts = split_words(text);
    assert(texts(parts@).len() == parts@.len());
    if parts.len() < 2 {
        return None;
    }
    assert(texts(parts@)[1] == parts@[1]@);
    match parse_number(parts[1].as_str(), 65_535) {
        Some(n) => Some(n as u16),
        None => None,
    }
}

/// The status in a response head's first line.
pub open spec fn head_status(head: Seq<char>) -> Option<nat> {
    if lines_of(head).len() > 0 {
        second_word_status(lines_of(head)[0])
    } else {
        None
    }
}

fn read_status(lines: &Vec<String>) -> (r: Option<u16>)
    ensures
        match r {
            Some(status) => texts(lines@).len() > 0 && second_word_status(texts(lines@)[0])
                == Some(status as nat),
            None => texts(lines@).len() > 0 ==> second_word_status(texts(lines@)[0]).is_none(),
        },
{
    if lines.len() == 0 {
        return None;
    }
    assert(texts(lines@)[0] == lines@[0]@);
    read_second_word(lines[0].as_str())
}

/// Why a response cannot be read.
#[derive(Clone, Copy, Debug, PartialEq, Eq, Structural)]
pub enum ReplyDefect {
    /// There is no blank line behind a head.
    Malformed,
    /// The head is not UTF-8.
    NotUtf8,
    /// The head has no status.
    NoStatus,
}

/// A response that was read to its end.
#[derive(Debug)]
pub struct Reply {
    pub status: u16,
    pub body: Vec<u8>,
}

/// What a response is, whose head ends at `at`.
pub open spec fn reply_at(response: Seq<u8>, at: int) -> Result<(nat, Seq<u8>), ReplyDefect> {
    let head = response.take(at);
    if !valid_utf8(head) {
        Err(ReplyDefect::NotUtf8)
    } else {
        match head_status(decode_utf8(head)) {
            Some(status) => Ok((status, response.skip(at + 4))),
            None => Err(ReplyDefect::NoStatus),
        }
    }
}

/// Where a response's head ends.
pub open spec fn is_reply_head(response: Seq<u8>, at: int) -> bool {
    &&& bytes_at(response, blank_line(), at)
    &&& forall|k: int| 0 <= k < at ==> !bytes_at(response, blank_line(), k)
}

pub open spec fn reply_result(r: Result<Reply, ReplyDefect>) -> Result<
    (nat, Seq<u8>),
    ReplyDefect,
> {
    match r {
        Ok(reply) => Ok((reply.status as nat, reply.body@)),
        Err(defect) => Err(defect),
    }
}

/// Reads a response that ended with its connection.
pub fn read_reply(response: &[u8]) -> (r: Result<Reply, ReplyDefect>)
    ensures
        forall|at: int| is_reply_head(response@, at) ==> reply_result(r) == reply_at(response@, at),
        (forall|at: int| !is_reply_head(response@, at)) ==> r == Err::<Reply, ReplyDefect>(
            ReplyDefect::Malformed,
        ),
{
    let n: usize = response.len();
    let blank: Vec<u8> = vec![13, 10, 13, 10];
    assert(blank@ =~= blank_line());
    let at = match find_bytes(response, blank.as_slice()) {
        Some(at) => at,
        None => {
            return Err(ReplyDefect::Malformed);
        },
    };
    assert(at + 4 <= n);
    assert(is_reply_head(response@, at as int));
    assert forall|other: int| is_reply_head(response@, other) implies other == at by {
        if other < at {
        } else if other > at {
        }
    }
    let head = &response[0..at];
    assert(head@ =~= response@.take(at as int));
    let text = match utf8_text(head) {
        Some(text) => text,
        None => {
            return Err(ReplyDefect::NotUtf8);
        },
    };
    let lines = text_lines(text);
    match read_status(&lines) {
        Some(status) => {
            let mut body: Vec<u8> = Vec::new();
            push_bytes(&mut body, &response[at + 4..n]);
            assert(body@ =~= response@.skip(at + 4));
            Ok(Reply { status, body })
        },
        None => Err(ReplyDefect::NoStatus),
    }
}

// ------------------------------------------------------------------- keep-alive

/// The length in a line, where the line declares one that can be read.
pub open spec fn line_length(line: Seq<char>) -> Option<usize> {
    match header_value(line, "content-length"@) {
        Some(value) => usize_of(value),
        None => None,
    }
}

/// The first length declared from line `i` on.
pub open spec fn declared_from(lines: Seq<Seq<char>>, i: int) -> Option<usize>
    decreases lines.len() - i,
{
    if i < 0 || i >= lines.len() {
        None
    } else {
        match line_length(lines[i]) {
            Some(n) => Some(n),
            None => declared_from(lines, i + 1),
        }
    }
}

/// Whether a list of tokens says `close`, in either case.
pub open spec fn says_close(list: Seq<char>) -> bool {
    exists|i: int|
        0 <= i < split(list, ',').len() && lowered(trimmed(#[trigger] split(list, ',')[i]))
            == lowered("close"@)
}

/// Whether a line announces that the connection closes.
pub open spec fn closing_line(line: Seq<char>) -> bool {
    match split_once(line, ':') {
        Some((name, value)) => lowered(name) == lowered("connection"@) && says_close(value),
        None => false,
    }
}

pub open spec fn any_closing(lines: Seq<Seq<char>>) -> bool {
    exists|i: int| 0 <= i < lines.len() && closing_line(#[trigger] lines[i])
}

/// What a response head says.
#[derive(Clone, Copy, Debug, PartialEq, Eq, Structural)]
pub struct ReplyHead {
    pub status: u16,
    pub length: usize,
    /// The server will close, whatever the client asked for.
    pub closing: bool,
}

/// What a response head says; nothing where it has no status.
pub open spec fn reply_head_of(head: Seq<char>) -> Option<ReplyHead> {
    match head_status(head) {
        Some(status) => Some(
            ReplyHead {
                status: status as u16,
                length: match declared_from(lines_of(head), 0) {
                    Some(n) => n,
                    None => 0,
                },
                closing: any_closing(lines_of(head)),
            },
        ),
        None => None,
    }
}

fn read_length(line: &str) -> (r: Option<usize>)
    ensures
        r == line_length(line@),
{
    match split_text_once(line, ':') {
        Some((name, value)) => {
            if same_ignoring_case(name.as_str(), "content-length") {
                let value = trim(value.as_str());
                read_usize(value.as_str())
            } else {
                None
            }
        },
        None => None,
    }
}

fn close_said(list: &str) -> (r: bool)
    ensures
        r == says_close(list@),
{
    let pieces = split_text(list, ',');
    let ghost views = split(list@, ',');
    let mut i: usize = 0;
    while i < pieces.len()
        invariant
            i <= pieces@.len(),
            views == split(list@, ','),
            views == texts(pieces@),
            forall|k: int|
                0 <= k < i ==> lowered(trimmed(#[trigger] views[k])) != lowered("close"@),
        decreases pieces@.len() - i,
    {
        assert(views[i as int] == pieces@[i as int]@);
        let piece = trim(pieces[i].as_str());
        if same_ignoring_case(piece.as_str(), "close") {
            return true;
        }
        i += 1;
    }
    false
}

fn announces_close(line: &str) -> (r: bool)
    ensures
        r == closing_line(line@),
{
    match split_text_once(line, ':') {
        Some((name, value)) => same_ignoring_case(name.as_str(), "connection") && close_said(
            value.as_str(),
        ),
        None => false,
    }
}

/// Reads a response head.
pub fn read_reply_head(head: &str) -> (r: Option<ReplyHead>)
    ensures
        r == reply_head_of(head@),
{
    let lines = text_lines(head);
    let ghost views = lines_of(head@);
    let status = match read_status(&lines) {
        Some(status) => status,
        None => {
            return None;
        },
    };
    let mut length: Option<usize> = None;
    let mut closing = false;
    let mut i: usize = 0;
    while i < lines.len()
        invariant
            i <= lines@.len(),
            views == texts(lines@),
            match length {
                Some(n) => declared_from(views, 0) == Some(n),
                None => declared_from(views, i as int) == declared_from(views, 0),
            },
            closing == (exists|k: int| 0 <= k < i && closing_line(#[trigger] views[k])),
        decreases lines@.len() - i,
    {
        assert(views[i as int] == lines@[i as int]@);
        if length.is_none() {
            length = read_length(lines[i].as_str());
        }
        if announces_close(lines[i].as_str()) {
            closing = true;
        }
        i += 1;
    }
    let length = match length {
        Some(n) => n,
        None => 0,
    };
    Some(ReplyHead { status, length, closing })
}

/// What a client's buffer holds of the next response.
#[derive(Debug)]
pub enum ReplyStep {
    /// The whole response: what its head says, and its body.
    Ready { head: ReplyHead, body: Vec<u8> },
    /// A head without a status.
    NoStatus,
    /// Not the whole head yet.
    MoreHead,
    /// Not the whole body yet.
    MoreBody,
}

/// Takes the next response from a buffer, leaving what follows it.
pub fn take_reply(buffer: &mut Vec<u8>) -> (r: ReplyStep)
    ensures
        match r {
            ReplyStep::Ready { head, body } => exists|at: int|
                #![trigger is_reply_head(old(buffer)@, at)]
                {
                    &&& is_reply_head(old(buffer)@, at)
                    &&& reply_head_of(utf8_lossy(old(buffer)@.take(at + 4))) == Some(head)
                    &&& at + 4 + head.length <= old(buffer)@.len()
                    &&& body@ == old(buffer)@.subrange(at + 4, at + 4 + head.length)
                    &&& final(buffer)@ == old(buffer)@.skip(at + 4 + head.length)
                },
            ReplyStep::NoStatus => final(buffer)@ == old(buffer)@ && exists|at: int|
                #![trigger is_reply_head(old(buffer)@, at)]
                is_reply_head(old(buffer)@, at) && reply_head_of(
                    utf8_lossy(old(buffer)@.take(at + 4)),
                ).is_none(),
            ReplyStep::MoreHead => final(buffer)@ == old(buffer)@ && forall|k: int|
                !bytes_at(old(buffer)@, blank_line(), k),
            ReplyStep::MoreBody => final(buffer)@ == old(buffer)@ && exists|at: int|
                #![trigger is_reply_head(old(buffer)@, at)]
                {
                    &&& is_reply_head(old(buffer)@, at)
                    &&& reply_head_of(utf8_lossy(old(buffer)@.take(at + 4))) matches Some(head)
                    &&& old(buffer)@.len() < at + 4 + head.length
                },
        },
{
    let n: usize = buffer.len();
    let blank: Vec<u8> = vec![13, 10, 13, 10];
    assert(blank@ =~= blank_line());
    let at = match find_bytes(buffer.as_slice(), blank.as_slice()) {
        Some(at) => at,
        None => {
            return ReplyStep::MoreHead;
        },
    };
    assert(at + 4 <= n);
    assert(is_reply_head(buffer@, at as int));
    let start = at + 4;
    let text = lossy_text(&buffer.as_slice()[0..start]);
    assert(buffer@.subrange(0, start as int) =~= buffer@.take(at + 4));
    let head = match read_reply_head(text.as_str()) {
        Some(head) => head,
        None => {
            return ReplyStep::NoStatus;
        },
    };
    if n - start < head.length {
        return ReplyStep::MoreBody;
    }
    let end = start + head.length;
    let ghost before = buffer@;
    let mut body: Vec<u8> = Vec::new();
    push_bytes(&mut body, &buffer.as_slice()[start..end]);
    let mut rest: Vec<u8> = Vec::new();
    push_bytes(&mut rest, &buffer.as_slice()[end..n]);
    assert(body@ =~= before.subrange(start as int, end as int));
    assert(rest@ =~= before.skip(end as int));
    *buffer = rest;
    ReplyStep::Ready { head, body }
}

// ---------------------------------------------------------------------- reports

/// The value of a sample in a line: its key, a space, and the number.
pub open spec fn line_metric(line: Seq<char>, name: Seq<char>) -> Option<u64> {
    match split_once(line, ' ') {
        Some((key, value)) => if key == name {
            u64_of(trimmed(value))
        } else {
            None
        },
        None => None,
    }
}

/// The first value of a metric from line `i` on.
pub open spec fn metric_from(lines: Seq<Seq<char>>, name: Seq<char>, i: int) -> Option<u64>
    decreases lines.len() - i,
{
    if i < 0 || i >= lines.len() {
        None
    } else {
        match line_metric(lines[i], name) {
            Some(n) => Some(n),
            None => metric_from(lines, name, i + 1),
        }
    }
}

/// The value of a metric in a report in the Prometheus text format.
pub fn metric_value(metrics: &str, name: &str) -> (r: Option<u64>)
    ensures
        r == metric_from(lines_of(metrics@), name@, 0),
{
    let lines = text_lines(metrics);
    let ghost views = lines_of(metrics@);
    let mut i: usize = 0;
    while i < lines.len()
        invariant
            i <= lines@.len(),
            views == texts(lines@),
            views == lines_of(metrics@),
            metric_from(views, name@, i as int) == metric_from(views, name@, 0),
        decreases lines@.len() - i,
    {
        assert(views[i as int] == lines@[i as int]@);
        if let Some((key, value)) = split_text_once(lines[i].as_str(), ' ') {
            if same(key.as_str(), name) {
                let value = trim(value.as_str());
                if let Some(n) = read_u64(value.as_str()) {
                    return Some(n);
                }
            }
        }
        i += 1;
    }
    None
}

/// The number behind the first line that begins with `prefix`, from line `i`
/// on.
pub open spec fn counter_from(lines: Seq<Seq<char>>, prefix: Seq<char>, i: int) -> Option<u64>
    decreases lines.len() - i,
{
    if i < 0 || i >= lines.len() {
        None
    } else {
        match strip_prefix(lines[i], prefix) {
            Some(value) => u64_of(trimmed(value)),
            None => counter_from(lines, prefix, i + 1),
        }
    }
}

/// How many merges a report counts; nothing unless it came with status 200.
pub open spec fn merges_of(status: u16, report: Seq<char>) -> Option<u64> {
    if status == 200 {
        counter_from(lines_of(report), "traza_segment_merges_total "@, 0)
    } else {
        None
    }
}

/// How many merges a response of the metrics endpoint counts.
pub fn merges_total(status: u16, body: &[u8]) -> (r: Option<u64>)
    ensures
        r == merges_of(status, utf8_lossy(body@)),
{
    if status != 200 {
        return None;
    }
    let text = lossy_text(body);
    let lines = text_lines(text.as_str());
    let ghost views = lines_of(text@);
    let mut i: usize = 0;
    while i < lines.len()
        invariant
            i <= lines@.len(),
            status == 200,
            views == texts(lines@),
            views == lines_of(utf8_lossy(body@)),
            counter_from(views, "traza_segment_merges_total "@, i as int) == counter_from(
                views,
                "traza_segment_merges_total "@,
                0,
            ),
        decreases lines@.len() - i,
    {
        assert(views[i as int] == lines@[i as int]@);
        if let Some(value) = text_after(lines[i].as_str(), "traza_segment_merges_total ") {
            let value = trim(value.as_str());
            return read_u64(value.as_str());
        }
        i += 1;
    }
    None
}

/// One number of a JSON report: nothing where the response did not succeed,
/// is not JSON, or has no such number.
pub open spec fn stat_of(
    status: u16,
    document: Result<JsonView, Seq<char>>,
    field: Seq<char>,
) -> Option<nat> {
    if status != 200 {
        None
    } else {
        match document {
            Ok(document) => document.uint_field(field),
            Err(_) => None,
        }
    }
}

/// One number of a JSON report.
pub fn stat(status: u16, body: &[u8], field: &str) -> (r: Option<u64>)
    ensures
        as_nat(r) == stat_of(status, json_document(body@), field@),
{
    if status != 200 {
        return None;
    }
    match read_json(body) {
        Ok(document) => document.uint_at(field),
        Err(_) => None,
    }
}

/// Whether a statistics response shows that the store holds as many records as
/// expected; the parse error where a success is not JSON.
pub open spec fn holds_of(
    status: u16,
    document: Result<JsonView, Seq<char>>,
    expected: nat,
) -> Result<bool, Seq<char>> {
    if status != 200 {
        Ok(false)
    } else {
        match document {
            Ok(document) => Ok(
                match document.uint_field("record_count"@) {
                    Some(n) => n >= expected,
                    None => expected == 0,
                },
            ),
            Err(message) => Err(message),
        }
    }
}

/// Reads a statistics response for whether the store holds as many records as
/// expected.
pub fn holds_records(status: u16, body: &[u8], expected: u64) -> (r: Result<bool, String>)
    ensures
        match r {
            Ok(done) => holds_of(status, json_document(body@), expected as nat) == Ok::<
                bool,
                Seq<char>,
            >(done),
            Err(message) => holds_of(status, json_document(body@), expected as nat) == Err::<
                bool,
                Seq<char>,
            >(message@),
        },
{
    if status != 200 {
        return Ok(false);
    }
    match read_json(body) {
        Ok(document) => Ok(
            match document.uint_at("record_count") {
                Some(n) => n >= expected,
                None => expected == 0,
            },
        ),
        Err(message) => Err(message),
    }
}

/// The lines of a text: each ends at a line feed, which is no part of it, nor is a
/// carriage return before it. What follows the last line feed is a line where it
/// is not empty.
pub proof fn law_lines(line: Seq<char>, rest: Seq<char>)
    requires
        !line.contains('\n'),
    ensures
        lines_of(line + seq!['\n'] + rest) == seq![bare_line(line)] + lines_of(rest),
        lines_of(seq![]) == Seq::<Seq<char>>::empty(),
        line.len() > 0 ==> lines_of(line) == seq![line],
        bare_line(line.push('\r')) == line,
        line.len() == 0 || line.last() != '\r' ==> bare_line(line) == line,
{
    crate::text::law_a_split_is_found(line, '\n', rest);
    crate::text::law_splitting_keeps_the_text(rest, '\n');
    let s = line + seq!['\n'] + rest;
    let pieces = split(s, '\n');
    let after = split(rest, '\n');
    assert(pieces.len() == after.len() + 1);
    assert(pieces.last() == after.last());
    let ended = Seq::new((pieces.len() - 1) as nat, |i: int| bare_line(pieces[i]));
    let ended_after = Seq::new((after.len() - 1) as nat, |i: int| bare_line(after[i]));
    assert(ended =~= seq![bare_line(line)] + ended_after);
    assert(lines_of(s) =~= seq![bare_line(line)] + lines_of(rest));
    let none = Seq::<char>::empty();
    assert(split(none, '\n') =~= seq![none]) by {
        crate::text::law_a_split_is_found(none, '\n', none);
    }
    assert(lines_of(none) =~= Seq::<Seq<char>>::empty());
    assert(line.push('\r').drop_last() =~= line);
    if line.len() > 0 {
        assert(lines_of(line) =~= seq![line]);
    }
}

/// The status of a reply is the number in the second word of its first line.
pub proof fn law_the_status_of_a_reply(line: Seq<char>, rest: Seq<char>)
    requires
        !line.contains('\n'),
        line.len() == 0 || line.last() != '\r',
    ensures
        head_status(line + seq!['\r', '\n'] + rest) == second_word_status(line),
        words(line).len() < 2 ==> second_word_status(line).is_none(),
        words(line).len() >= 2 ==> second_word_status(line) == number_to(words(line)[1], 65_535),
        head_status(seq![]).is_none(),
{
    let full = line.push('\r');
    assert(!full.contains('\n')) by {
        if full.contains('\n') {
            let k = choose|k: int| 0 <= k < full.len() && full[k] == '\n';
            assert(line[k] == '\n');
        }
    }
    law_lines(full, rest);
    assert(line + seq!['\r', '\n'] + rest =~= full + seq!['\n'] + rest);
    assert(full.drop_last() =~= line);
}

/// A reply is the status of its head and what stands behind the blank line.
pub proof fn law_what_a_reply_is(head: Seq<u8>, body: Seq<u8>)
    ensures
        ({
            let response = head + seq![13u8, 10u8, 13u8, 10u8] + body;
            let at = head.len() as int;
            &&& !valid_utf8(head) ==> reply_at(response, at) == Err::<(nat, Seq<u8>), ReplyDefect>(
                ReplyDefect::NotUtf8,
            )
            &&& valid_utf8(head) && head_status(decode_utf8(head)).is_none() ==> reply_at(
                response,
                at,
            ) == Err::<(nat, Seq<u8>), ReplyDefect>(ReplyDefect::NoStatus)
            &&& valid_utf8(head) && head_status(decode_utf8(head)) is Some ==> reply_at(
                response,
                at,
            ) == Ok::<(nat, Seq<u8>), ReplyDefect>((head_status(decode_utf8(head))->0, body))
        }),
{
    let response = head + seq![13u8, 10u8, 13u8, 10u8] + body;
    assert(response.take(head.len() as int) =~= head);
    assert(response.skip(head.len() as int + 4) =~= body);
}

proof fn lemma_declared(lines: Seq<Seq<char>>, i: int)
    requires
        0 <= i <= lines.len(),
    ensures
        declared_from(lines, i) is None ==> forall|j: int|
            i <= j < lines.len() ==> (#[trigger] line_length(lines[j])).is_none(),
        declared_from(lines, i) is Some ==> exists|k: int|
            {
                &&& i <= k < lines.len()
                &&& #[trigger] line_length(lines[k]) == declared_from(lines, i)
                &&& forall|j: int| i <= j < k ==> (#[trigger] line_length(lines[j])).is_none()
            },
    decreases lines.len() - i,
{
    if i < lines.len() {
        lemma_declared(lines, i + 1);
        if line_length(lines[i]) is None && declared_from(lines, i + 1) is Some {
            let k = choose|k: int|
                {
                    &&& i + 1 <= k < lines.len()
                    &&& #[trigger] line_length(lines[k]) == declared_from(lines, i + 1)
                    &&& forall|j: int|
                        i + 1 <= j < k ==> (#[trigger] line_length(lines[j])).is_none()
                };
            assert(line_length(lines[k]) == declared_from(lines, i));
        } else if line_length(lines[i]) is Some {
            assert(line_length(lines[i]) == declared_from(lines, i));
        }
    }
}

/// The head of a reply: the length is the first that a content-length line
/// declares, and none means nought.
pub proof fn law_the_length_of_a_reply(head: Seq<char>)
    ensures
        reply_head_of(head) is Some <==> head_status(head) is Some,
        reply_head_of(head) is Some && (forall|j: int|
            0 <= j < lines_of(head).len() ==> (#[trigger] line_length(lines_of(head)[j])).is_none())
            ==> reply_head_of(head)->0.length == 0,
        reply_head_of(head) is Some && (exists|j: int|
            0 <= j < lines_of(head).len() && #[trigger] line_length(lines_of(head)[j]) is Some)
            ==> exists|k: int|
            {
                &&& 0 <= k < lines_of(head).len()
                &&& #[trigger] line_length(lines_of(head)[k]) == Some(
                    reply_head_of(head)->0.length,
                )
                &&& forall|j: int|
                    0 <= j < k ==> (#[trigger] line_length(lines_of(head)[j])).is_none()
            },
        reply_head_of(head) matches Some(h) ==> h.closing == exists|j: int|
            0 <= j < lines_of(head).len() && closing_line(#[trigger] lines_of(head)[j]),
{
    lemma_declared(lines_of(head), 0);
}

/// A header line declares a length, or that the connection closes, in any case of
/// its name.
pub proof fn law_header_lines(name: Seq<char>, value: Seq<char>)
    requires
        !name.contains(':'),
    ensures
        ({
            let line = name + seq![':'] + value;
            &&& lowered(name) == lowered("content-length"@) ==> line_length(line) == usize_of(
                trimmed(value),
            )
            &&& lowered(name) != lowered("content-length"@) ==> line_length(line).is_none()
            &&& lowered(name) != lowered("connection"@) ==> !closing_line(line)
            &&& lowered(name) == lowered("connection"@) && lowered(trimmed(value)) == lowered(
                "close"@,
            ) && !value.contains(',') ==> closing_line(line)
            &&& closing_line(line) ==> exists|i: int|
                0 <= i < split(value, ',').len() && lowered(
                    trimmed(#[trigger] split(value, ',')[i]),
                ) == lowered("close"@)
        }),
{
    let line = name + seq![':'] + value;
    crate::text::law_a_split_is_found(name, ':', value);
    if !value.contains(',') {
        crate::text::law_a_split_is_found(value, ',', value);
        assert(split(value, ',')[0] == value);
    }
}

/// A metric is the number behind its name on the first line that gives it one.
pub proof fn law_metrics(name: Seq<char>, value: Seq<char>, lines: Seq<Seq<char>>, i: int)
    requires
        0 <= i < lines.len(),
        !name.contains(' '),
    ensures
        line_metric(name + seq![' '] + value, name) == u64_of(trimmed(value)),
        line_metric(name, name).is_none(),
        forall|other: Seq<char>|
            other != name ==> (#[trigger] line_metric(name + seq![' '] + value, other)).is_none(),
        line_metric(lines[i], name) is Some ==> metric_from(lines, name, i) == line_metric(
            lines[i],
            name,
        ),
        line_metric(lines[i], name).is_none() ==> metric_from(lines, name, i) == metric_from(
            lines,
            name,
            i + 1,
        ),
        metric_from(lines, name, lines.len() as int).is_none(),
{
    crate::text::law_a_split_is_found(name, ' ', value);
}

/// The count of merges is the number on the first line under its name, of a
/// report that was answered with 200.
pub proof fn law_merges(status: u16, value: Seq<char>, rest: Seq<char>)
    requires
        !value.contains('\n'),
        value.len() == 0 || value.last() != '\r',
    ensures
        status != 200 ==> merges_of(status, rest).is_none(),
        merges_of(
            200,
            "traza_segment_merges_total "@ + value + seq!['\n'] + rest,
        ) == u64_of(trimmed(value)),
        merges_of(200, seq![]).is_none(),
{
    let key = "traza_segment_merges_total "@;
    let line = key + value;
    reveal_strlit("traza_segment_merges_total ");
    assert(!line.contains('\n')) by {
        if line.contains('\n') {
            let k = choose|k: int| 0 <= k < line.len() && line[k] == '\n';
            if k >= key.len() {
                assert(value[k - key.len()] == '\n');
            } else {
                assert(key[k] == '\n');
            }
        }
    }
    law_lines(line, rest);
    assert(line.last() != '\r') by {
        if value.len() > 0 {
            assert(line.last() == value.last());
        } else {
            assert(line =~= key);
        }
    }
    crate::text::law_prefixes(key, value, line);
    assert(line.skip(key.len() as int) =~= value);
    assert(lines_of(line + seq!['\n'] + rest)[0] == line);
    law_lines(seq![], seq![]);
}

/// A statistic is read from a document answered with 200, and so is whether the
/// store holds as many records as expected.
pub proof fn law_statistics(document: JsonView, field: Seq<char>, expected: nat, status: u16)
    ensures
        stat_of(200, Ok(document), field) == document.uint_field(field),
        status != 200 ==> stat_of(status, Ok(document), field).is_none() && holds_of(
            status,
            Ok(document),
            expected,
        ) == Ok::<bool, Seq<char>>(false),
        forall|message: Seq<char>|
            #[trigger] holds_of(200, Err(message), expected) == Err::<bool, Seq<char>>(message),
        document.uint_field("record_count"@) is Some ==> holds_of(200, Ok(document), expected)
            == Ok::<bool, Seq<char>>(document.uint_field("record_count"@)->0 >= expected),
        document.uint_field("record_count"@).is_none() ==> holds_of(200, Ok(document), expected)
            == Ok::<bool, Seq<char>>(expected == 0),
{
}

/// A post to a server carries the token where there is one, and no header for it
/// where there is none.
pub proof fn law_the_token_is_carried(host: Seq<char>, path: Seq<char>, token: Seq<char>, length: nat)
    requires
        token.len() > 0,
    ensures
        remote_head(host, path, ""@, length) == "POST "@ + path + " HTTP/1.1\r\nHost: "@ + host
            + "\r\nContent-Type: application/json\r\n"@ + "Content-Length: "@ + dec(length)
            + "\r\nConnection: close\r\n\r\n"@,
        remote_head(host, path, token, length) == "POST "@ + path + " HTTP/1.1\r\nHost: "@ + host
            + "\r\nContent-Type: application/json\r\n"@ + ("Authorization: Bearer "@ + token
            + "\r\n"@) + "Content-Length: "@ + dec(length) + "\r\nConnection: close\r\n\r\n"@,
{
    reveal_strlit("");
    assert(token != ""@);
    assert(remote_head(host, path, ""@, length) =~= "POST "@ + path + " HTTP/1.1\r\nHost: "@ + host
        + "\r\nContent-Type: application/json\r\n"@ + "Content-Length: "@ + dec(length)
        + "\r\nConnection: close\r\n\r\n"@);
}

} // verus!
