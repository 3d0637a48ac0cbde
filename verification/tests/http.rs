//! Reading requests: heads, targets and parameters.

use traza::http::{
    decode_parameter, find_bytes, hex, parse_head, percent_decode, split_parameter, split_query,
    split_target, HeadDefect, RequestHead, MAX_HEADER_BYTES, MAX_REQUEST_BYTES,
};

fn head(text: &str) -> Result<RequestHead, HeadDefect> {
    let bytes = text.as_bytes();
    let end = find_bytes(bytes, b"\r\n\r\n").expect("a blank line");
    parse_head(bytes, end)
}

fn defect(text: &str) -> HeadDefect {
    match head(text) {
        Ok(_) => panic!("accepted"),
        Err(defect) => defect,
    }
}

#[test]
fn bytes_are_found_where_they_first_stand() {
    assert_eq!(find_bytes(b"abcabc", b"bc"), Some(1));
    assert_eq!(find_bytes(b"abc", b"x"), None);
    assert_eq!(find_bytes(b"ab", b"abc"), None);
}

#[test]
fn a_head_is_read_into_its_parts() {
    let head = head(
        "POST /v1/spans?x=1 HTTP/1.1\r\nHost: h\r\nAuthorization: Bearer t\r\nContent-Type: application/json\r\nContent-Length: 12\r\nConnection: keep-alive\r\nOrigin: http://a\r\n\r\n",
    )
    .expect("a head");
    assert_eq!(head.method, "POST");
    assert_eq!(head.target, "/v1/spans?x=1");
    assert_eq!(head.version, "HTTP/1.1");
    assert_eq!(head.authorization.as_deref(), Some("Bearer t"));
    assert_eq!(head.content_type, "application/json");
    assert_eq!(head.content_length, 12);
    assert_eq!(head.origin.as_deref(), Some("http://a"));
    assert!(head.wants_keep_alive());
}

#[test]
fn keep_alive_follows_the_version_and_the_header() {
    assert!(head("GET / HTTP/1.1\r\n\r\n").expect("head").wants_keep_alive());
    assert!(!head("GET / HTTP/1.0\r\n\r\n").expect("head").wants_keep_alive());
    assert!(!head("GET / HTTP/1.1\r\nConnection: Close\r\n\r\n")
        .expect("head")
        .wants_keep_alive());
    assert!(head("GET / HTTP/1.0\r\nConnection: x, Keep-Alive\r\n\r\n")
        .expect("head")
        .wants_keep_alive());
}

#[test]
fn ambiguous_framing_is_refused() {
    assert_eq!(
        defect("POST / HTTP/1.1\r\nTransfer-Encoding: chunked\r\n\r\n"),
        HeadDefect::TransferEncoded
    );
    assert_eq!(
        defect("POST / HTTP/1.1\r\nContent-Length: 1\r\nContent-Length: 1\r\n\r\n"),
        HeadDefect::DuplicateLength
    );
    assert_eq!(
        defect("POST / HTTP/1.1\r\nContent-Length: one\r\n\r\n"),
        HeadDefect::InvalidLength
    );
    assert_eq!(
        defect(&format!(
            "POST / HTTP/1.1\r\nContent-Length: {}\r\n\r\n",
            MAX_REQUEST_BYTES + 1
        )),
        HeadDefect::BodyTooLarge
    );
}

#[test]
fn malformed_heads_are_refused() {
    assert_eq!(defect("\r\n\r\n"), HeadDefect::InvalidRequestLine);
    let long = format!(
        "GET / HTTP/1.1\r\nX: {}\r\n\r\n",
        "y".repeat(MAX_HEADER_BYTES)
    );
    assert_eq!(defect(&long), HeadDefect::TooLarge);
    let bytes = b"GET /\xff HTTP/1.1\r\n\r\n";
    assert_eq!(
        parse_head(bytes, 16).expect_err("not UTF-8"),
        HeadDefect::NotUtf8
    );
    assert!(!HeadDefect::NotUtf8.message().is_empty());
}

#[test]
fn escapes_are_decoded() {
    assert_eq!(percent_decode("a%20b+c%2Fd"), "a b c/d");
    assert_eq!(percent_decode("100%"), "100%");
    assert_eq!(percent_decode("%zz"), "%zz");
    assert_eq!(percent_decode("%e4%b8%96"), "\u{4e16}");
    assert_eq!(percent_decode("%ff"), "\u{fffd}");
    assert_eq!(hex(b'f'), Some(15));
    assert_eq!(hex(b'F'), Some(15));
    assert_eq!(hex(b'9'), Some(9));
    assert_eq!(hex(b'g'), None);
}

#[test]
fn targets_and_queries_are_split() {
    assert_eq!(
        split_target("/v1/spans?a=1?b"),
        ("/v1/spans".to_owned(), "a=1?b".to_owned())
    );
    assert_eq!(split_target("/x"), ("/x".to_owned(), String::new()));
    assert_eq!(split_query("a=1&b=2"), ["a=1", "b=2"]);
    assert!(split_query("").is_empty());
    assert_eq!(split_query("a&&b").len(), 2);
    assert_eq!(split_parameter("a=b=c"), ("a".to_owned(), "b=c".to_owned()));
    assert_eq!(split_parameter("a"), ("a".to_owned(), String::new()));
    assert_eq!(
        decode_parameter("na%6De=a+b"),
        ("name".to_owned(), "a b".to_owned())
    );
}
