//! The part of HTTP/1 that the server speaks: request heads, the buffer they
//! are read from, query strings and URLs.

use vstd::prelude::*;
use vstd::utf8::{
    decode_utf8, encode_utf8, encode_utf8_decode_utf8, encode_utf8_valid_utf8, valid_utf8,
};

use crate::text::{
    copy, cut, cut_text, lowered, number_to, opt_view, parse_number, same, same_ignoring_case,
    split, split_once, split_text, split_text_once, split_words, texts, to_lower, to_upper, trim,
    trimmed, uppered, words, lemma_texts_push,
};

verus! {

/// The longest request body that is accepted.
pub const MAX_REQUEST_BYTES: usize = 64 * 1024 * 1024;

/// The longest request head that is accepted.
pub const MAX_HEADER_BYTES: usize = 64 * 1024;

// --------------------------------------------------------------------- bytes

/// Whether `needle` stands at position `at`.
pub open spec fn bytes_at(haystack: Seq<u8>, needle: Seq<u8>, at: int) -> bool {
    0 <= at && at + needle.len() <= haystack.len() && haystack.subrange(at, at + needle.len())
        == needle
}

fn stand_at(haystack: &[u8], needle: &[u8], at: usize) -> (r: bool)
    requires
        at + needle@.len() <= haystack@.len(),
    ensures
        r == bytes_at(haystack@, needle@, at as int),
{
    let len: usize = haystack.len();
    let n: usize = needle.len();
    let mut i: usize = 0;
    while i < n
        invariant
            i <= n == needle@.len(),
            at + n <= haystack@.len() == len,
            forall|k: int| 0 <= k < i ==> haystack@[at + k] == needle@[k],
        decreases n - i,
    {
        if haystack[at + i] != needle[i] {
            assert(haystack@.subrange(at as int, at + needle@.len())[i as int] != needle@[i as int]);
            return false;
        }
        i += 1;
    }
    assert(haystack@.subrange(at as int, at + needle@.len()) == needle@);
    true
}

/// The first position at which `needle` stands in `haystack`.
pub fn find_bytes(haystack: &[u8], needle: &[u8]) -> (r: Option<usize>)
    requires
        needle@.len() > 0,
    ensures
        match r {
            Some(at) => bytes_at(haystack@, needle@, at as int) && forall|k: int|
                0 <= k < at ==> !bytes_at(haystack@, needle@, k),
            None => forall|k: int| !bytes_at(haystack@, needle@, k),
        },
{
    let len: usize = haystack.len();
    let n: usize = needle.len();
    if n > len {
        return None;
    }
    let mut at: usize = 0;
    while at <= len - n
        invariant
            n <= len == haystack@.len(),
            0 < n == needle@.len(),
            at <= len - n + 1,
            forall|k: int| 0 <= k < at ==> !bytes_at(haystack@, needle@, k),
        decreases len - at,
    {
        if stand_at(haystack, needle, at) {
            return Some(at);
        }
        at += 1;
    }
    None
}

// ------------------------------------------------------------ percent escapes

/// The value of a hexadecimal digit.
pub open spec fn hex_value(byte: u8) -> Option<u8> {
    if 48 <= byte <= 57 {
        Some((byte - 48) as u8)
    } else if 97 <= byte <= 102 {
        Some((byte - 87) as u8)
    } else if 65 <= byte <= 70 {
        Some((byte - 55) as u8)
    } else {
        None
    }
}

/// The value of a hexadecimal digit.
pub fn hex(byte: u8) -> (r: Option<u8>)
    ensures
        r == hex_value(byte),
{
    if 48 <= byte && byte <= 57 {
        Some(byte - 48)
    } else if 97 <= byte && byte <= 102 {
        Some(byte - 87)
    } else if 65 <= byte && byte <= 70 {
        Some(byte - 55)
    } else {
        None
    }
}

/// Whether a percent escape stands at position `i`: `%` and two hexadecimal
/// digits.
pub open spec fn escape_at(bytes: Seq<u8>, i: int) -> bool {
    &&& 0 <= i
    &&& i + 2 < bytes.len()
    &&& bytes[i] == 37
    &&& hex_value(bytes[i + 1]).is_some()
    &&& hex_value(bytes[i + 2]).is_some()
}

/// The bytes from position `i` on, with each escape replaced by the byte it
/// names and each `+` by a space.
pub open spec fn unescaped(bytes: Seq<u8>, i: int) -> Seq<u8>
    decreases bytes.len() - i,
{
    if i < 0 || i >= bytes.len() {
        seq![]
    } else if escape_at(bytes, i) {
        seq![(hex_value(bytes[i + 1]).unwrap() * 16 + hex_value(bytes[i + 2]).unwrap()) as u8]
            + unescaped(bytes, i + 3)
    } else {
        seq![
            if bytes[i] == 43 {
                32u8
            } else {
                bytes[i]
            },
        ] + unescaped(bytes, i + 1)
    }
}

/// What `String::from_utf8_lossy` makes of bytes.
pub uninterp spec fn utf8_lossy(bytes: Seq<u8>) -> Seq<char>;

/// `String::from_utf8_lossy`, owned: valid UTF-8 is decoded as it stands. In
/// other bytes the invalid sequences become replacement characters; the result
/// is a function of the bytes, and which sequences those are is not restated
/// here.
#[verifier::external_body]
pub(crate) fn lossy_text(bytes: &[u8]) -> (r: String)
    ensures
        r@ == utf8_lossy(bytes@),
        valid_utf8(bytes@) ==> r@ == decode_utf8(bytes@),
{
    String::from_utf8_lossy(bytes).into_owned()
}

/// `std::str::from_utf8`: the text of valid UTF-8 bytes, and an error for any
/// other bytes.
#[verifier::external_body]
pub(crate) fn utf8_text(bytes: &[u8]) -> (r: Option<&str>)
    ensures
        match r {
            Some(text) => valid_utf8(bytes@) && text@ == decode_utf8(bytes@),
            None => !valid_utf8(bytes@),
        },
{
    std::str::from_utf8(bytes).ok()
}

/// What a component of a URL stands for.
pub open spec fn decoded(text: Seq<char>) -> Seq<char> {
    utf8_lossy(unescaped(encode_utf8(text), 0))
}

/// The bytes that a component of a URL stands for.
pub fn unescape(bytes: &[u8]) -> (out: Vec<u8>)
    ensures
        out@ == unescaped(bytes@, 0),
{
    let mut out: Vec<u8> = Vec::new();
    let n: usize = bytes.len();
    let mut i: usize = 0;
    assert(out@ + unescaped(bytes@, 0) == unescaped(bytes@, 0));
    while i < n
        invariant
            i <= n == bytes@.len(),
            out@ + unescaped(bytes@, i as int) == unescaped(bytes@, 0),
        decreases n - i,
    {
        let ghost before = out@;
        if bytes[i] == 37 && n - i > 2 {
            if let (Some(high), Some(low)) = (hex(bytes[i + 1]), hex(bytes[i + 2])) {
                out.push(high * 16 + low);
                proof {
                    let rest = unescaped(bytes@, i + 3);
                    assert(before.push(out@.last()) + rest == before + (seq![out@.last()] + rest));
                }
                i += 3;
                continue ;
            }
        }
        out.push(
            if bytes[i] == 43 {
                32
            } else {
                bytes[i]
            },
        );
        proof {
            let rest = unescaped(bytes@, i + 1);
            assert(before.push(out@.last()) + rest == before + (seq![out@.last()] + rest));
        }
        i += 1;
    }
    assert(out@ + unescaped(bytes@, i as int) == out@);
    out
}

/// Decodes a component of a URL. A `%` that begins no escape stands for
/// itself.
pub fn percent_decode(input: &str) -> (r: String)
    ensures
        r@ == decoded(input@),
        valid_utf8(unescaped(encode_utf8(input@), 0)) ==> r@ == decode_utf8(
            unescaped(encode_utf8(input@), 0),
        ),
        (forall|i: int|
            0 <= i < encode_utf8(input@).len() ==> #[trigger] encode_utf8(input@)[i] != 37
                && encode_utf8(input@)[i] != 43) ==> r@ == input@,
{
    let bytes = input.as_bytes();
    let out = unescape(bytes);
    proof {
        if forall|i: int|
            0 <= i < bytes@.len() ==> #[trigger] bytes@[i] != 37 && bytes@[i] != 43 {
            lemma_nothing_escaped(bytes@, 0);
            assert(bytes@.skip(0) == bytes@);
            encode_utf8_valid_utf8(input@);
            encode_utf8_decode_utf8(input@);
        }
    }
    lossy_text(out.as_slice())
}

proof fn lemma_nothing_escaped(bytes: Seq<u8>, i: int)
    requires
        0 <= i <= bytes.len(),
        forall|k: int| 0 <= k < bytes.len() ==> #[trigger] bytes[k] != 37 && bytes[k] != 43,
    ensures
        unescaped(bytes, i) == bytes.skip(i),
    decreases bytes.len() - i,
{
    if i < bytes.len() {
        lemma_nothing_escaped(bytes, i + 1);
        assert(bytes.skip(i) == seq![bytes[i]] + bytes.skip(i + 1));
    } else {
        assert(bytes.skip(i) =~= Seq::<u8>::empty());
    }
}

// -------------------------------------------------------------- request heads

/// Why a request head is refused.
#[derive(Clone, Copy, Debug, PartialEq, Eq, Structural)]
pub enum HeadDefect {
    TooLarge,
    NotUtf8,
    InvalidRequestLine,
    TransferEncoded,
    DuplicateLength,
    InvalidLength,
    BodyTooLarge,
}

impl HeadDefect {
    pub open spec fn text(self) -> Seq<char> {
        match self {
            HeadDefect::TooLarge => "request headers too large"@,
            HeadDefect::NotUtf8 => "headers are not UTF-8"@,
            HeadDefect::InvalidRequestLine => "invalid request line"@,
            HeadDefect::TransferEncoded => {
                "transfer-encoded request bodies are not accepted; send Content-Length"@
            },
            HeadDefect::DuplicateLength => "duplicate content-length"@,
            HeadDefect::InvalidLength => "invalid content-length"@,
            HeadDefect::BodyTooLarge => "request body too large"@,
        }
    }

    /// The message for the log.
    pub fn message(self) -> (r: &'static str)
        ensures
            r@ == self.text(),
    {
        match self {
            HeadDefect::TooLarge => "request headers too large",
            HeadDefect::NotUtf8 => "headers are not UTF-8",
            HeadDefect::InvalidRequestLine => "invalid request line",
            HeadDefect::TransferEncoded => {
                "transfer-encoded request bodies are not accepted; send Content-Length"
            },
            HeadDefect::DuplicateLength => "duplicate content-length",
            HeadDefect::InvalidLength => "invalid content-length",
            HeadDefect::BodyTooLarge => "request body too large",
        }
    }
}

/// A parsed request head: everything but the body, which is read only once the
/// request has passed the auth gate.
#[derive(Debug)]
pub struct RequestHead {
    pub method: String,
    pub target: String,
    /// The request line's version in uppercase; it decides the keep-alive
    /// default.
    pub version: String,
    pub authorization: Option<String>,
    /// In lowercase; empty when absent.
    pub content_type: String,
    /// In lowercase; empty when absent.
    pub connection: String,
    /// In lowercase.
    pub origin: Option<String>,
    pub mcp_protocol_version: Option<String>,
    pub content_length: usize,
    pub header_end: usize,
}

pub struct HeadView {
    pub method: Seq<char>,
    pub target: Seq<char>,
    pub version: Seq<char>,
    pub authorization: Option<Seq<char>>,
    pub content_type: Seq<char>,
    pub connection: Seq<char>,
    pub origin: Option<Seq<char>>,
    pub mcp_protocol_version: Option<Seq<char>>,
    pub content_length: nat,
    pub header_end: nat,
}

impl View for RequestHead {
    type V = HeadView;

    open spec fn view(&self) -> HeadView {
        HeadView {
            method: self.method@,
            target: self.target@,
            version: self.version@,
            authorization: opt_view(self.authorization),
            content_type: self.content_type@,
            connection: self.connection@,
            origin: opt_view(self.origin),
            mcp_protocol_version: opt_view(self.mcp_protocol_version),
            content_length: self.content_length as nat,
            header_end: self.header_end as nat,
        }
    }
}

/// The value of a header line, where its name is the given one up to case.
pub open spec fn header_value(line: Seq<char>, name: Seq<char>) -> Option<Seq<char>> {
    match split_once(line, ':') {
        Some((key, value)) => if lowered(key) == lowered(name) {
            Some(trimmed(value))
        } else {
            None
        },
        None => None,
    }
}

/// The values of every header line of the given name, in order.
pub open spec fn header_values(lines: Seq<Seq<char>>, name: Seq<char>) -> Seq<Seq<char>>
    decreases lines.len(),
{
    if lines.len() == 0 {
        seq![]
    } else {
        let before = header_values(lines.drop_last(), name);
        match header_value(lines.last(), name) {
            Some(value) => before.push(value),
            None => before,
        }
    }
}

/// The last of several values: a header given twice counts as it was given
/// last.
pub open spec fn last_of(values: Seq<Seq<char>>) -> Option<Seq<char>> {
    if values.len() > 0 {
        Some(values.last())
    } else {
        None
    }
}

/// Piece `i` of several, or the alternative where there are not so many.
pub open spec fn piece_or(pieces: Seq<Seq<char>>, i: int, other: Seq<char>) -> Seq<char> {
    if 0 <= i < pieces.len() {
        pieces[i]
    } else {
        other
    }
}

pub open spec fn lowered_opt(value: Option<Seq<char>>) -> Option<Seq<char>> {
    match value {
        Some(text) => Some(lowered(text)),
        None => None,
    }
}

pub open spec fn or_empty(value: Option<Seq<char>>) -> Seq<char> {
    match value {
        Some(text) => text,
        None => seq![],
    }
}

/// The length of the body that a head declares: none declared is an empty
/// body. Anything ambiguous about where the body ends is refused.
pub open spec fn declared_length(headers: Seq<Seq<char>>) -> Result<nat, HeadDefect> {
    let lengths = header_values(headers, "content-length"@);
    if header_values(headers, "transfer-encoding"@).len() > 0 {
        Err(HeadDefect::TransferEncoded)
    } else if lengths.len() > 1 {
        Err(HeadDefect::DuplicateLength)
    } else if lengths.len() == 0 {
        Ok(0)
    } else {
        match number_to(lengths[0], usize::MAX as nat) {
            None => Err(HeadDefect::InvalidLength),
            Some(n) => if n > MAX_REQUEST_BYTES {
                Err(HeadDefect::BodyTooLarge)
            } else {
                Ok(n)
            },
        }
    }
}

/// The head that a text spells.
pub open spec fn head_of(text: Seq<char>, header_end: nat) -> Result<HeadView, HeadDefect> {
    let lines = cut(text, "\r\n"@);
    let request_line = words(lines[0]);
    let headers = lines.skip(1);
    if request_line.len() < 2 {
        Err(HeadDefect::InvalidRequestLine)
    } else {
        match declared_length(headers) {
            Err(defect) => Err(defect),
            Ok(content_length) => Ok(
                HeadView {
                    method: request_line[0],
                    target: request_line[1],
                    version: uppered(piece_or(request_line, 2, "HTTP/1.0"@)),
                    authorization: last_of(header_values(headers, "authorization"@)),
                    content_type: lowered(or_empty(last_of(header_values(headers, "content-type"@)))),
                    connection: lowered(or_empty(last_of(header_values(headers, "connection"@)))),
                    origin: lowered_opt(last_of(header_values(headers, "origin"@))),
                    mcp_protocol_version: last_of(header_values(headers, "mcp-protocol-version"@)),
                    content_length,
                    header_end,
                },
            ),
        }
    }
}

/// The head in the first `header_end` bytes.
pub open spec fn parsed_head(bytes: Seq<u8>, header_end: nat) -> Result<HeadView, HeadDefect> {
    let head = bytes.take(header_end as int);
    if header_end > MAX_HEADER_BYTES {
        Err(HeadDefect::TooLarge)
    } else if !valid_utf8(head) {
        Err(HeadDefect::NotUtf8)
    } else {
        head_of(decode_utf8(head), header_end)
    }
}

fn read_header_values(lines: &Vec<String>, name: &str) -> (values: Vec<String>)
    requires
        lines@.len() > 0,
    ensures
        texts(values@) == header_values(texts(lines@).skip(1), name@),
{
    let mut values: Vec<String> = Vec::new();
    let ghost all = texts(lines@).skip(1);
    let mut i: usize = 1;
    assert(texts(values@) =~= Seq::<Seq<char>>::empty());
    while i < lines.len()
        invariant
            1 <= i <= lines@.len(),
            all == texts(lines@).skip(1),
            texts(values@) == header_values(all.take(i - 1), name@),
        decreases lines@.len() - i,
    {
        proof {
            assert(all.take(i as int).drop_last() == all.take(i - 1));
            assert(all.take(i as int).last() == lines@[i as int]@);
        }
        if let Some((key, value)) = split_text_once(lines[i].as_str(), ':') {
            if same_ignoring_case(key.as_str(), name) {
                let value = trim(value.as_str());
                proof {
                    lemma_texts_push(values@, value);
                }
                values.push(value);
            }
        }
        i += 1;
    }
    assert(all.take(i - 1) == all);
    values
}

fn last_header(lines: &Vec<String>, name: &str) -> (r: Option<String>)
    requires
        lines@.len() > 0,
    ensures
        opt_view(r) == last_of(header_values(texts(lines@).skip(1), name@)),
{
    let mut values = read_header_values(lines, name);
    proof {
        assert(texts(values@).len() == values@.len());
    }
    values.pop()
}

fn lower_header(lines: &Vec<String>, name: &str) -> (r: Option<String>)
    requires
        lines@.len() > 0,
    ensures
        opt_view(r) == lowered_opt(last_of(header_values(texts(lines@).skip(1), name@))),
{
    match last_header(lines, name) {
        Some(value) => Some(to_lower(value.as_str())),
        None => None,
    }
}

fn header_or_empty(lines: &Vec<String>, name: &str) -> (r: String)
    requires
        lines@.len() > 0,
    ensures
        r@ == lowered(or_empty(last_of(header_values(texts(lines@).skip(1), name@)))),
{
    match lower_header(lines, name) {
        Some(value) => value,
        None => {
            let empty = String::new();
            assert(empty@ =~= lowered(Seq::<char>::empty()));
            empty
        },
    }
}

fn body_length(lines: &Vec<String>) -> (r: Result<usize, HeadDefect>)
    requires
        lines@.len() > 0,
    ensures
        match r {
            Ok(n) => declared_length(texts(lines@).skip(1)) == Ok::<nat, HeadDefect>(n as nat),
            Err(defect) => declared_length(texts(lines@).skip(1)) == Err::<nat, HeadDefect>(defect),
        },
{
    if read_header_values(lines, "transfer-encoding").len() > 0 {
        return Err(HeadDefect::TransferEncoded);
    }
    let lengths = read_header_values(lines, "content-length");
    proof {
        assert(texts(lengths@).len() == lengths@.len());
    }
    if lengths.len() > 1 {
        return Err(HeadDefect::DuplicateLength);
    }
    if lengths.len() == 0 {
        return Ok(0);
    }
    assert(texts(lengths@)[0] == lengths@[0]@);
    match parse_number(lengths[0].as_str(), usize::MAX as u64) {
        None => Err(HeadDefect::InvalidLength),
        Some(n) => {
            if n > MAX_REQUEST_BYTES as u64 {
                Err(HeadDefect::BodyTooLarge)
            } else {
                Ok(n as usize)
            }
        },
    }
}

/// Reads the request head in the first `header_end` bytes.
pub fn parse_head(bytes: &[u8], header_end: usize) -> (r: Result<RequestHead, HeadDefect>)
    requires
        header_end <= bytes@.len(),
    ensures
        match r {
            Ok(head) => parsed_head(bytes@, header_end as nat) == Ok::<HeadView, HeadDefect>(head@),
            Err(defect) => parsed_head(bytes@, header_end as nat) == Err::<HeadView, HeadDefect>(
                defect,
            ),
        },
{
    if header_end > MAX_HEADER_BYTES {
        return Err(HeadDefect::TooLarge);
    }
    let head = &bytes[0..header_end];
    assert(head@ == bytes@.take(header_end as int));
    let text = match utf8_text(head) {
        Some(text) => text,
        None => {
            return Err(HeadDefect::NotUtf8);
        },
    };
    proof {
        reveal_strlit("\r\n");
    }
    let lines = cut_text(text, "\r\n");
    assert(texts(lines@)[0] == lines@[0]@);
    let request_line = split_words(lines[0].as_str());
    proof {
        assert(texts(request_line@).len() == request_line@.len());
    }
    if request_line.len() < 2 {
        return Err(HeadDefect::InvalidRequestLine);
    }
    let content_length = match body_length(&lines) {
        Ok(n) => n,
        Err(defect) => {
            return Err(defect);
        },
    };
    let version = if request_line.len() > 2 {
        to_upper(request_line[2].as_str())
    } else {
        to_upper("HTTP/1.0")
    };
    Ok(
        RequestHead {
            method: copy(request_line[0].as_str()),
            target: copy(request_line[1].as_str()),
            version,
            authorization: last_header(&lines, "authorization"),
            content_type: header_or_empty(&lines, "content-type"),
            connection: header_or_empty(&lines, "connection"),
            origin: lower_header(&lines, "origin"),
            mcp_protocol_version: last_header(&lines, "mcp-protocol-version"),
            content_length,
            header_end,
        },
    )
}

/// Whether a comma-separated list holds a token.
pub open spec fn lists_token(list: Seq<char>, token: Seq<char>) -> bool {
    exists|i: int|
        0 <= i < split(list, ',').len() && trimmed(#[trigger] split(list, ',')[i]) == token
}

fn token_listed(list: &str, token: &str) -> (r: bool)
    ensures
        r == lists_token(list@, token@),
{
    let pieces = split_text(list, ',');
    let ghost views = split(list@, ',');
    let mut i: usize = 0;
    while i < pieces.len()
        invariant
            i <= pieces@.len(),
            views == split(list@, ','),
            views == texts(pieces@),
            forall|k: int| 0 <= k < i ==> trimmed(#[trigger] views[k]) != token@,
        decreases pieces@.len() - i,
    {
        assert(views[i as int] == pieces@[i as int]@);
        let piece = trim(pieces[i].as_str());
        if same(piece.as_str(), token) {
            return true;
        }
        i += 1;
    }
    false
}

impl RequestHead {
    /// Whether the client is willing to reuse this connection: HTTP/1.1 unless
    /// it says `close`, any other version only if it says `keep-alive`.
    pub fn wants_keep_alive(&self) -> (r: bool)
        ensures
            r == (if self.version@ == "HTTP/1.1"@ {
                !lists_token(self.connection@, "close"@)
            } else {
                lists_token(self.connection@, "keep-alive"@)
            }),
    {
        if same(self.version.as_str(), "HTTP/1.1") {
            !token_listed(self.connection.as_str(), "close")
        } else {
            token_listed(self.connection.as_str(), "keep-alive")
        }
    }
}

/// A head that leaves open where its body ends is refused, not resolved: one
/// with an encoded body, and one that declares two lengths.
pub proof fn law_ambiguous_framing_is_refused(text: Seq<char>, header_end: nat)
    ensures
        ({
            let headers = cut(text, "\r\n"@).skip(1);
            header_values(headers, "transfer-encoding"@).len() > 0 || header_values(
                headers,
                "content-length"@,
            ).len() > 1
        }) ==> head_of(text, header_end).is_err(),
{
}

/// A head that is accepted keeps to both limits.
pub proof fn law_an_accepted_head_keeps_the_limits(bytes: Seq<u8>, header_end: nat)
    ensures
        parsed_head(bytes, header_end) matches Ok(head) ==> head.header_end == header_end
            && header_end <= MAX_HEADER_BYTES && head.content_length <= MAX_REQUEST_BYTES,
{
}

// ------------------------------------------------------------- query strings

/// The parts of a request target before and after its first `?`.
pub open spec fn target_parts(target: Seq<char>) -> (Seq<char>, Seq<char>) {
    match split_once(target, '?') {
        Some(parts) => parts,
        None => (target, seq![]),
    }
}

/// Splits a request target into its path and its query.
pub fn split_target(target: &str) -> (r: (String, String))
    ensures
        (r.0@, r.1@) == target_parts(target@),
{
    match split_text_once(target, '?') {
        Some(parts) => parts,
        None => {
            let none = String::new();
            assert(none@ =~= Seq::<char>::empty());
            (copy(target), none)
        },
    }
}

/// The texts that are not empty, in order.
pub open spec fn non_empty(pieces: Seq<Seq<char>>) -> Seq<Seq<char>>
    decreases pieces.len(),
{
    if pieces.len() == 0 {
        seq![]
    } else if pieces.last().len() == 0 {
        non_empty(pieces.drop_last())
    } else {
        non_empty(pieces.drop_last()).push(pieces.last())
    }
}

/// The parameters of a query as they were sent.
pub open spec fn parameters(query: Seq<char>) -> Seq<Seq<char>> {
    non_empty(split(query, '&'))
}

/// Splits a query into its parameters.
pub fn split_query(query: &str) -> (r: Vec<String>)
    ensures
        texts(r@) == parameters(query@),
{
    let pieces = split_text(query, '&');
    let ghost all = texts(pieces@);
    let mut kept: Vec<String> = Vec::new();
    let mut i: usize = 0;
    assert(texts(kept@) =~= Seq::<Seq<char>>::empty());
    while i < pieces.len()
        invariant
            i <= pieces@.len(),
            all == texts(pieces@),
            texts(kept@) == non_empty(all.take(i as int)),
        decreases pieces@.len() - i,
    {
        proof {
            assert(all.take(i + 1).drop_last() == all.take(i as int));
            assert(all.take(i + 1).last() == pieces@[i as int]@);
        }
        let empty = same(pieces[i].as_str(), "");
        proof {
            reveal_strlit("");
            assert(pieces@[i as int]@.len() == 0 ==> pieces@[i as int]@ =~= ""@);
        }
        if !empty {
            let piece = copy(pieces[i].as_str());
            proof {
                lemma_texts_push(kept@, piece);
            }
            kept.push(piece);
        }
        i += 1;
    }
    assert(all.take(i as int) == all);
    kept
}

/// The key and the value of a parameter as they were sent; a parameter without
/// `=` has an empty value.
pub open spec fn key_value(parameter: Seq<char>) -> (Seq<char>, Seq<char>) {
    match split_once(parameter, '=') {
        Some(parts) => parts,
        None => (parameter, seq![]),
    }
}

pub fn split_parameter(parameter: &str) -> (r: (String, String))
    ensures
        (r.0@, r.1@) == key_value(parameter@),
{
    match split_text_once(parameter, '=') {
        Some(parts) => parts,
        None => {
            let none = String::new();
            assert(none@ =~= Seq::<char>::empty());
            (copy(parameter), none)
        },
    }
}

/// The key and the value that a parameter stands for.
pub open spec fn decoded_parameter(parameter: Seq<char>) -> (Seq<char>, Seq<char>) {
    (decoded(key_value(parameter).0), decoded(key_value(parameter).1))
}

/// Reads one parameter.
pub fn decode_parameter(parameter: &str) -> (r: (String, String))
    ensures
        (r.0@, r.1@) == decoded_parameter(parameter@),
{
    let (key, value) = split_parameter(parameter);
    (percent_decode(key.as_str()), percent_decode(value.as_str()))
}

// ----------------------------------------------------------------------- laws

/// The sixteen hex digits, in either case, and no others.
pub proof fn law_hex_digits(byte: u8, n: u8)
    requires
        n < 16,
    ensures
        n < 10 ==> hex_value((48 + n) as u8) == Some(n),
        n >= 10 ==> hex_value((97 + n - 10) as u8) == Some(n) && hex_value((65 + n - 10) as u8)
            == Some(n),
        !(48 <= byte <= 57) && !(97 <= byte <= 102) && !(65 <= byte <= 70) ==> hex_value(
            byte,
        ) is None,
{
}

proof fn lemma_unescaped_shift(front: Seq<u8>, rest: Seq<u8>, i: int)
    requires
        0 <= i <= rest.len(),
    ensures
        unescaped(front + rest, front.len() + i) == unescaped(rest, i),
    decreases rest.len() - i,
{
    let all = front + rest;
    if i < rest.len() {
        assert(all[front.len() + i] == rest[i]);
        if i + 2 < rest.len() {
            assert(all[front.len() + i + 1] == rest[i + 1]);
            assert(all[front.len() + i + 2] == rest[i + 2]);
        }
        if escape_at(rest, i) {
            lemma_unescaped_shift(front, rest, i + 3);
        } else {
            lemma_unescaped_shift(front, rest, i + 1);
        }
    }
}

/// A percent sign and two hex digits stand for the byte they spell, a plus for a
/// blank, and every other byte for itself, a percent sign without two hex
/// digits among them.
pub proof fn law_escapes(high: u8, low: u8, byte: u8, rest: Seq<u8>)
    requires
        high < 16,
        low < 16,
        byte != 37,
    ensures
        ({
            let digit = |n: u8|
                (if n < 10 {
                    48 + n
                } else {
                    55 + n
                }) as u8;
            &&& unescaped(Seq::empty(), 0).len() == 0
            &&& unescaped(seq![37u8, digit(high), digit(low)] + rest, 0) == seq![
                (16 * high + low) as u8,
            ] + unescaped(rest, 0)
            &&& byte != 43 ==> unescaped(seq![byte] + rest, 0) == seq![byte] + unescaped(rest, 0)
            &&& unescaped(seq![43u8] + rest, 0) == seq![32u8] + unescaped(rest, 0)
            &&& rest.len() >= 2 && !(hex_value(rest[0]) is Some && hex_value(rest[1]) is Some)
                ==> unescaped(seq![37u8] + rest, 0) == seq![37u8] + unescaped(rest, 0)
            &&& rest.len() < 2 ==> unescaped(seq![37u8] + rest, 0) == seq![37u8] + unescaped(
                rest,
                0,
            )
        }),
{
    let digit = |n: u8|
        (if n < 10 {
            48 + n
        } else {
            55 + n
        }) as u8;
    let three = seq![37u8, digit(high), digit(low)];
    let whole = three + rest;
    assert(whole[0] == 37 && whole[1] == digit(high) && whole[2] == digit(low));
    law_hex_digits(0, high);
    law_hex_digits(0, low);
    lemma_unescaped_shift(three, rest, 0);
    assert(escape_at(whole, 0));
    assert(high * 16 + low == 16 * high + low);
    let one = seq![byte] + rest;
    assert(one[0] == byte);
    lemma_unescaped_shift(seq![byte], rest, 0);
    let plus = seq![43u8] + rest;
    assert(plus[0] == 43);
    lemma_unescaped_shift(seq![43u8], rest, 0);
    let percent = seq![37u8] + rest;
    assert(percent[0] == 37);
    lemma_unescaped_shift(seq![37u8], rest, 0);
    if rest.len() >= 2 {
        assert(percent[1] == rest[0] && percent[2] == rest[1]);
    }
}

/// A header line is a name, a colon and a value: it is one of the header asked
/// for where the names are the same in any case, and its value is what follows
/// the first colon, without the white space around it.
pub proof fn law_a_header_line(key: Seq<char>, value: Seq<char>, name: Seq<char>, line: Seq<char>)
    requires
        !key.contains(':'),
    ensures
        lowered(key) == lowered(name) ==> header_value(key.push(':') + value, name) == Some(
            trimmed(value),
        ),
        lowered(key) != lowered(name) ==> header_value(key.push(':') + value, name) is None,
        !line.contains(':') ==> header_value(line, name) is None,
{
    let whole = key.push(':') + value;
    crate::text::lemma_find(whole, ':', 0);
    assert(whole[key.len() as int] == ':');
    let k = crate::text::find(whole, ':');
    if k < key.len() {
        assert(whole[k] == key[k]);
        assert(key.contains(':'));
    }
    assert(whole.take(k) =~= key);
    assert(whole.skip(k + 1) =~= value);
    crate::text::law_splitting_once(line, ':');
    if let Some((head, tail)) = split_once(line, ':') {
        assert(line[head.len() as int] == ':');
    }
}

/// The values of a header are those of its lines, in their order.
pub proof fn law_header_values(lines: Seq<Seq<char>>, line: Seq<char>, name: Seq<char>)
    ensures
        header_values(Seq::empty(), name).len() == 0,
        header_value(line, name) matches Some(value) ==> header_values(lines.push(line), name)
            == header_values(lines, name).push(value),
        header_value(line, name) is None ==> header_values(lines.push(line), name)
            == header_values(lines, name),
{
    assert(lines.push(line).drop_last() =~= lines);
}

/// How long a body is declared to be: a transfer encoding is refused, and so is
/// a length given twice, one that is no number, and one above 64 MiB; without a
/// length there is no body.
pub proof fn law_declared_lengths(headers: Seq<Seq<char>>)
    ensures
        ({
            let encoded = header_values(headers, "transfer-encoding"@).len() > 0;
            let lengths = header_values(headers, "content-length"@);
            let one = !encoded && lengths.len() == 1;
            let n = crate::text::number(lengths[0]);
            let fits = n is Some && n->0 <= usize::MAX;
            let r = declared_length(headers);
            &&& encoded ==> r == Err::<nat, HeadDefect>(HeadDefect::TransferEncoded)
            &&& !encoded && lengths.len() > 1 ==> r == Err::<nat, HeadDefect>(
                HeadDefect::DuplicateLength,
            )
            &&& !encoded && lengths.len() == 0 ==> r == Ok::<nat, HeadDefect>(0)
            &&& one && !fits ==> r == Err::<nat, HeadDefect>(HeadDefect::InvalidLength)
            &&& one && fits && n->0 > 67_108_864 ==> r == Err::<nat, HeadDefect>(
                HeadDefect::BodyTooLarge,
            )
            &&& one && fits && n->0 <= 67_108_864 ==> r == Ok::<nat, HeadDefect>(n->0)
        }),
{
}

/// What a request head says, line by line: the request line's first word is the
/// method, its second the target and its third the version, HTTP/1.0 where it
/// has none; the other lines are headers, of which the last of each name
/// stands.
pub proof fn law_a_request_head(text: Seq<char>, header_end: nat)
    ensures
        ({
            let lines = cut(text, "\r\n"@);
            let line = words(lines[0]);
            let headers = lines.skip(1);
            let value = |name: Seq<char>| header_values(headers, name);
            &&& line.len() < 2 ==> head_of(text, header_end) == Err::<HeadView, HeadDefect>(
                HeadDefect::InvalidRequestLine,
            )
            &&& line.len() >= 2 && declared_length(headers) is Err ==> head_of(text, header_end)
                == Err::<HeadView, HeadDefect>(declared_length(headers)->Err_0)
            &&& line.len() >= 2 && declared_length(headers) is Ok ==> head_of(text, header_end) is Ok
                && {
                let head = head_of(text, header_end)->Ok_0;
                &&& head.method == line[0]
                &&& head.target == line[1]
                &&& line.len() > 2 ==> head.version == uppered(line[2])
                &&& line.len() == 2 ==> head.version == "HTTP/1.0"@
                &&& head.content_length == declared_length(headers)->Ok_0
                &&& head.header_end == header_end
                &&& value("authorization"@).len() > 0 ==> head.authorization == Some(
                    value("authorization"@).last(),
                )
                &&& value("authorization"@).len() == 0 ==> head.authorization is None
                &&& value("content-type"@).len() > 0 ==> head.content_type == lowered(
                    value("content-type"@).last(),
                )
                &&& value("content-type"@).len() == 0 ==> head.content_type.len() == 0
                &&& value("connection"@).len() > 0 ==> head.connection == lowered(
                    value("connection"@).last(),
                )
                &&& value("connection"@).len() == 0 ==> head.connection.len() == 0
                &&& value("origin"@).len() > 0 ==> head.origin == Some(
                    lowered(value("origin"@).last()),
                )
                &&& value("origin"@).len() == 0 ==> head.origin is None
                &&& value("mcp-protocol-version"@).len() > 0 ==> head.mcp_protocol_version == Some(
                    value("mcp-protocol-version"@).last(),
                )
                &&& value("mcp-protocol-version"@).len() == 0 ==> head.mcp_protocol_version is None
            }
        }),
{
    reveal_strlit("HTTP/1.0");
    assert(uppered("HTTP/1.0"@) =~= "HTTP/1.0"@);
}

/// A head above 64 KiB is refused, and one that is not UTF-8; any other is read
/// as text.
pub proof fn law_head_limits(bytes: Seq<u8>, header_end: nat)
    requires
        header_end <= bytes.len(),
    ensures
        header_end > 65_536 ==> parsed_head(bytes, header_end) == Err::<HeadView, HeadDefect>(
            HeadDefect::TooLarge,
        ),
        header_end <= 65_536 && !valid_utf8(bytes.take(header_end as int)) ==> parsed_head(
            bytes,
            header_end,
        ) == Err::<HeadView, HeadDefect>(HeadDefect::NotUtf8),
        header_end <= 65_536 && valid_utf8(bytes.take(header_end as int)) ==> parsed_head(
            bytes,
            header_end,
        ) == head_of(decode_utf8(bytes.take(header_end as int)), header_end),
{
}

/// What a refused head is told, by its defect.
pub proof fn law_head_messages()
    ensures
        HeadDefect::TooLarge.text() == "request headers too large"@,
        HeadDefect::NotUtf8.text() == "headers are not UTF-8"@,
        HeadDefect::InvalidRequestLine.text() == "invalid request line"@,
        HeadDefect::TransferEncoded.text()
            == "transfer-encoded request bodies are not accepted; send Content-Length"@,
        HeadDefect::DuplicateLength.text() == "duplicate content-length"@,
        HeadDefect::InvalidLength.text() == "invalid content-length"@,
        HeadDefect::BodyTooLarge.text() == "request body too large"@,
{
}

/// What a caller reads off a head is what it holds.
pub proof fn law_a_head_shows_its_fields(h: RequestHead)
    ensures
        h@.method == h.method@ && h@.target == h.target@ && h@.version == h.version@,
        h@.content_type == h.content_type@ && h@.connection == h.connection@,
        h@.content_length == h.content_length && h@.header_end == h.header_end,
        h.authorization is Some ==> h@.authorization == Some(h.authorization->0@),
        h.authorization is None ==> h@.authorization is None,
        h.origin is Some ==> h@.origin == Some(h.origin->0@),
        h.origin is None ==> h@.origin is None,
        h.mcp_protocol_version is Some ==> h@.mcp_protocol_version == Some(
            h.mcp_protocol_version->0@,
        ),
        h.mcp_protocol_version is None ==> h@.mcp_protocol_version is None,
{
}

/// A list of tokens holds what stands in it between commas, white space left
/// aside, alone or before or behind others.
pub proof fn law_listed_tokens(token: Seq<char>)
    requires
        !token.contains(','),
        trimmed(token) == token,
    ensures
        lists_token(token, token),
        forall|other: Seq<char>| lists_token(token, other) ==> other == token,
{
    crate::text::lemma_find(token, ',', 0);
    assert(split(token, ',') =~= seq![token]) by {
        if crate::text::find(token, ',') < token.len() {
            assert(token.contains(','));
        }
    }
    assert(trimmed(split(token, ',')[0]) == token);
}

/// A target is a path, and a query behind the first question mark; a query is
/// its parameters between ampersands, empty ones left out; a parameter is a key
/// and, behind the first equals sign, a value.
pub proof fn law_targets(path: Seq<char>, query: Seq<char>, pieces: Seq<Seq<char>>, piece: Seq<char>)
    requires
        !path.contains('?'),
    ensures
        target_parts(path.push('?') + query) == (path, query),
        target_parts(path) == (path, Seq::<char>::empty()),
        non_empty(Seq::empty()).len() == 0,
        piece.len() > 0 ==> non_empty(pieces.push(piece)) == non_empty(pieces).push(piece),
        piece.len() == 0 ==> non_empty(pieces.push(piece)) == non_empty(pieces),
        parameters(query) == non_empty(split(query, '&')),
{
    assert(pieces.push(piece).drop_last() =~= pieces);
    lemma_split_at(path, query, '?');
    crate::text::law_splitting_once(path, '?');
    if let Some((head, tail)) = split_once(path, '?') {
        assert(path[head.len() as int] == '?');
    }
}

proof fn lemma_split_at(head: Seq<char>, tail: Seq<char>, c: char)
    requires
        !head.contains(c),
    ensures
        split_once(head.push(c) + tail, c) == Some((head, tail)),
{
    let whole = head.push(c) + tail;
    crate::text::lemma_find(whole, c, 0);
    assert(whole[head.len() as int] == c);
    let k = crate::text::find(whole, c);
    if k < head.len() {
        assert(whole[k] == head[k]);
        assert(head.contains(c));
    }
    assert(whole.take(k) =~= head);
    assert(whole.skip(k + 1) =~= tail);
}

/// A parameter's key and value, each with its escapes resolved.
pub proof fn law_parameters(key: Seq<char>, value: Seq<char>)
    requires
        !key.contains('='),
    ensures
        key_value(key.push('=') + value) == (key, value),
        key_value(key) == (key, Seq::<char>::empty()),
        decoded_parameter(key.push('=') + value) == (decoded(key), decoded(value)),
{
    lemma_split_at(key, value, '=');
    crate::text::law_splitting_once(key, '=');
    if let Some((head, tail)) = split_once(key, '=') {
        assert(key[head.len() as int] == '=');
    }
}

} // verus!
