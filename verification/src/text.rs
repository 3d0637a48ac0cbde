//! Text as a sequence of characters: the few string operations the rest of
//! the library is written in.

use vstd::prelude::*;
use vstd::utf8::{encode_utf8, encode_utf8_decode_utf8};

verus! {

/// `String::push` appends the given character to the end of the string.
pub assume_specification[ String::push ](s: &mut String, ch: char)
    ensures
        final(s)@ == old(s)@.push(ch),
;

/// `String::push_str` appends the given text to the end of the string.
pub assume_specification[ String::push_str ](s: &mut String, text: &str)
    ensures
        final(s)@ == old(s)@ + text@,
;

/// The characters of a text, indexable.
pub fn chars_of(text: &str) -> (chars: Vec<char>)
    ensures
        chars@ == text@,
{
    let mut chars: Vec<char> = Vec::new();
    for c in iter: text.chars()
        invariant
            chars@ == text@.take(iter.index()),
            iter.seq() == text@,
    {
        chars.push(c);
    }
    assert(text@.take(text@.len() as int) == text@);
    chars
}

/// Whether two texts are the same characters.
pub fn same(a: &str, b: &str) -> (r: bool)
    ensures
        r == (a@ == b@),
{
    let left = a.as_bytes();
    let right = b.as_bytes();
    proof {
        encode_utf8_decode_utf8(a@);
        encode_utf8_decode_utf8(b@);
    }
    if left.len() != right.len() {
        return false;
    }
    let mut i: usize = 0;
    while i < left.len()
        invariant
            i <= left@.len(),
            left@.len() == right@.len(),
            left@ == encode_utf8(a@),
            right@ == encode_utf8(b@),
            forall|k: int| 0 <= k < i ==> left@[k] == right@[k],
        decreases left@.len() - i,
    {
        if left[i] != right[i] {
            return false;
        }
        i += 1;
    }
    assert(left@ == right@);
    true
}

/// The text made of `chars[from..to]`.
pub fn text_of(chars: &Vec<char>, from: usize, to: usize) -> (text: String)
    requires
        from <= to <= chars@.len(),
    ensures
        text@ == chars@.subrange(from as int, to as int),
{
    let mut text = String::new();
    let mut i: usize = from;
    while i < to
        invariant
            from <= i <= to <= chars@.len(),
            text@ == chars@.subrange(from as int, i as int),
        decreases to - i,
    {
        text.push(chars[i]);
        i += 1;
        assert(chars@.subrange(from as int, i as int) == chars@.subrange(
            from as int,
            i - 1,
        ).push(chars@[i - 1]));
    }
    text
}

pub fn copy(text: &str) -> (r: String)
    ensures
        r@ == text@,
{
    text.to_owned()
}

/// What `{:?}` prints of a text: the text in quotes, with the characters that
/// Rust escapes in a string literal escaped.
pub uninterp spec fn debug_text(text: Seq<char>) -> Seq<char>;

/// The `Debug` formatting of a `str`. Its result is a function of the text;
/// which characters it escapes is not restated here.
#[verifier::external_body]
fn format_debug(text: &str) -> (r: String)
    ensures
        r@ == debug_text(text@),
{
    format!("{text:?}")
}

/// A text in quotes, for an error message.
pub fn quoted(text: &str) -> (r: String)
    ensures
        r@ == debug_text(text@),
{
    format_debug(text)
}

// ---------------------------------------------------------------- characters

pub open spec fn is_digit(c: char) -> bool {
    '0' <= c <= '9'
}

pub open spec fn is_lower(c: char) -> bool {
    'a' <= c <= 'z'
}

pub open spec fn is_upper(c: char) -> bool {
    'A' <= c <= 'Z'
}

/// ASCII letters and digits.
pub open spec fn is_alnum(c: char) -> bool {
    is_digit(c) || is_lower(c) || is_upper(c)
}

/// ASCII lowercase; every other character stands for itself.
pub open spec fn lower(c: char) -> char {
    if is_upper(c) {
        (c as u32 + 32) as char
    } else {
        c
    }
}

/// ASCII uppercase; every other character stands for itself.
pub open spec fn upper(c: char) -> char {
    if is_lower(c) {
        (c as u32 - 32) as char
    } else {
        c
    }
}

pub open spec fn lowered(s: Seq<char>) -> Seq<char> {
    Seq::new(s.len(), |i: int| lower(s[i]))
}

pub open spec fn uppered(s: Seq<char>) -> Seq<char> {
    Seq::new(s.len(), |i: int| upper(s[i]))
}

/// Space, tab, line feed, form feed and carriage return.
pub open spec fn is_ascii_space(c: char) -> bool {
    c == ' ' || c == '\t' || c == '\n' || c == '\x0c' || c == '\r'
}

/// The characters with the Unicode `White_Space` property.
pub open spec fn is_space(c: char) -> bool {
    ||| '\x09' <= c <= '\x0d'
    ||| c == ' '
    ||| c == '\u{85}'
    ||| c == '\u{a0}'
    ||| c == '\u{1680}'
    ||| '\u{2000}' <= c <= '\u{200a}'
    ||| c == '\u{2028}'
    ||| c == '\u{2029}'
    ||| c == '\u{202f}'
    ||| c == '\u{205f}'
    ||| c == '\u{3000}'
}

pub fn digit_char(c: char) -> (r: bool)
    ensures
        r == is_digit(c),
{
    '0' <= c && c <= '9'
}

pub fn alnum_char(c: char) -> (r: bool)
    ensures
        r == is_alnum(c),
{
    ('0' <= c && c <= '9') || ('a' <= c && c <= 'z') || ('A' <= c && c <= 'Z')
}

pub fn space_char(c: char) -> (r: bool)
    ensures
        r == is_space(c),
{
    ('\x09' <= c && c <= '\x0d') || c == ' ' || c == '\u{85}' || c == '\u{a0}' || c == '\u{1680}'
        || ('\u{2000}' <= c && c <= '\u{200a}') || c == '\u{2028}' || c == '\u{2029}' || c
        == '\u{202f}' || c == '\u{205f}' || c == '\u{3000}'
}

pub fn ascii_space_char(c: char) -> (r: bool)
    ensures
        r == is_ascii_space(c),
{
    c == ' ' || c == '\t' || c == '\n' || c == '\x0c' || c == '\r'
}

pub fn lower_char(c: char) -> (r: char)
    ensures
        r == lower(c),
{
    if 'A' <= c && c <= 'Z' {
        (c as u8 + 32) as char
    } else {
        c
    }
}

pub fn upper_char(c: char) -> (r: char)
    ensures
        r == upper(c),
{
    if 'a' <= c && c <= 'z' {
        (c as u8 - 32) as char
    } else {
        c
    }
}

/// The text with its ASCII letters in lowercase.
pub fn to_lower(text: &str) -> (r: String)
    ensures
        r@ == lowered(text@),
{
    let mut r = String::new();
    for c in iter: text.chars()
        invariant
            r@ == lowered(text@.take(iter.index())),
            iter.seq() == text@,
    {
        let ghost k = iter.index();
        r.push(lower_char(c));
        assert(lowered(text@.take(k)).push(lower(text@[k])) == lowered(text@.take(k + 1)));
    }
    assert(text@.take(text@.len() as int) == text@);
    r
}

/// The text with its ASCII letters in uppercase.
pub fn to_upper(text: &str) -> (r: String)
    ensures
        r@ == uppered(text@),
{
    let mut r = String::new();
    for c in iter: text.chars()
        invariant
            r@ == uppered(text@.take(iter.index())),
            iter.seq() == text@,
    {
        let ghost k = iter.index();
        r.push(upper_char(c));
        assert(uppered(text@.take(k)).push(upper(text@[k])) == uppered(text@.take(k + 1)));
    }
    assert(text@.take(text@.len() as int) == text@);
    r
}

/// Whether two texts are equal up to the case of ASCII letters.
pub fn same_ignoring_case(a: &str, b: &str) -> (r: bool)
    ensures
        r == (lowered(a@) == lowered(b@)),
{
    let left = to_lower(a);
    let right = to_lower(b);
    same(left.as_str(), right.as_str())
}

// ------------------------------------------------------------------ searching

/// The first position from `i` on that holds `c`, or the length.
pub open spec fn find_from(s: Seq<char>, c: char, i: int) -> int
    decreases s.len() - i,
{
    if i < 0 || i >= s.len() {
        s.len() as int
    } else if s[i] == c {
        i
    } else {
        find_from(s, c, i + 1)
    }
}

/// The first position that holds `c`, or the length.
pub open spec fn find(s: Seq<char>, c: char) -> int {
    find_from(s, c, 0)
}

pub proof fn lemma_find(s: Seq<char>, c: char, i: int)
    requires
        0 <= i <= s.len(),
    ensures
        i <= find_from(s, c, i) <= s.len(),
        find_from(s, c, i) < s.len() ==> s[find_from(s, c, i)] == c,
        forall|k: int| i <= k < find_from(s, c, i) ==> s[k] != c,
    decreases s.len() - i,
{
    if i < s.len() && s[i] != c {
        lemma_find(s, c, i + 1);
    }
}

pub fn find_char(chars: &Vec<char>, c: char, from: usize) -> (r: usize)
    requires
        from <= chars@.len(),
    ensures
        r == find_from(chars@, c, from as int),
        from <= r <= chars@.len(),
        r < chars@.len() ==> chars@[r as int] == c,
{
    let mut i: usize = from;
    while i < chars.len()
        invariant
            from <= i <= chars@.len(),
            find_from(chars@, c, from as int) == find_from(chars@, c, i as int),
        decreases chars@.len() - i,
    {
        if chars[i] == c {
            return i;
        }
        i += 1;
    }
    i
}

/// The text before and after the first `c`.
pub open spec fn split_once(s: Seq<char>, c: char) -> Option<(Seq<char>, Seq<char>)> {
    if find(s, c) < s.len() {
        Some((s.take(find(s, c)), s.skip(find(s, c) + 1)))
    } else {
        None
    }
}

pub open spec fn pair_view(p: Option<(String, String)>) -> Option<(Seq<char>, Seq<char>)> {
    match p {
        Some((a, b)) => Some((a@, b@)),
        None => None,
    }
}

pub fn split_text_once(text: &str, c: char) -> (r: Option<(String, String)>)
    ensures
        pair_view(r) == split_once(text@, c),
{
    let chars = chars_of(text);
    let k = find_char(&chars, c, 0);
    if k < chars.len() {
        let head = text_of(&chars, 0, k);
        let tail = text_of(&chars, k + 1, chars.len());
        assert(head@ == text@.take(k as int));
        assert(tail@ == text@.skip(k + 1));
        Some((head, tail))
    } else {
        None
    }
}

/// The pieces of a text between occurrences of `c`; one more than there are
/// occurrences.
pub open spec fn split(s: Seq<char>, c: char) -> Seq<Seq<char>>
    decreases s.len(),
    via split_decreases
{
    if find(s, c) < s.len() {
        seq![s.take(find(s, c))] + split(s.skip(find(s, c) + 1), c)
    } else {
        seq![s]
    }
}

#[via_fn]
proof fn split_decreases(s: Seq<char>, c: char) {
    lemma_find(s, c, 0);
}

/// The texts of a vector of strings.
pub open spec fn texts(v: Seq<String>) -> Seq<Seq<char>> {
    Seq::new(v.len(), |i: int| v[i]@)
}

pub proof fn lemma_texts_push(v: Seq<String>, s: String)
    ensures
        texts(v.push(s)) == texts(v).push(s@),
{
    assert(texts(v.push(s)) =~= texts(v).push(s@));
}

pub proof fn lemma_find_skip(s: Seq<char>, c: char, from: int, i: int)
    requires
        0 <= from <= i <= s.len(),
    ensures
        find_from(s.skip(from), c, i - from) == find_from(s, c, i) - from,
    decreases s.len() - i,
{
    if i < s.len() {
        assert(s.skip(from)[i - from] == s[i]);
        if s[i] != c {
            lemma_find_skip(s, c, from, i + 1);
        }
    }
}

pub fn split_text(text: &str, c: char) -> (pieces: Vec<String>)
    ensures
        texts(pieces@) == split(text@, c),
        pieces@.len() > 0,
{
    let chars = chars_of(text);
    let mut pieces: Vec<String> = Vec::new();
    let mut start: usize = 0;
    assert(text@.skip(0) == text@);
    assert(texts(pieces@) + split(text@, c) == split(text@, c));
    loop
        invariant
            chars@ == text@,
            start <= chars@.len(),
            texts(pieces@) + split(text@.skip(start as int), c) == split(text@, c),
        decreases chars@.len() - start,
    {
        let k = find_char(&chars, c, start);
        let piece = text_of(&chars, start, k);
        let ghost before = pieces@;
        proof {
            lemma_find_skip(text@, c, start as int, start as int);
            lemma_find(text@, c, start as int);
            lemma_texts_push(before, piece);
        }
        pieces.push(piece);
        if k >= chars.len() {
            assert(piece@ == text@.skip(start as int));
            assert(texts(pieces@) == texts(before) + seq![piece@]);
            return pieces;
        }
        proof {
            let rest = text@.skip(start as int);
            assert(piece@ == rest.take(k - start));
            assert(rest.skip(k - start + 1) == text@.skip(k + 1));
            assert(texts(pieces@) + split(text@.skip(k + 1), c) == texts(before) + (seq![piece@]
                + split(text@.skip(k + 1), c)));
        }
        start = k + 1;
    }
}

pub open spec fn starts_with(s: Seq<char>, prefix: Seq<char>) -> bool {
    prefix.len() <= s.len() && s.take(prefix.len() as int) == prefix
}

pub open spec fn ends_with(s: Seq<char>, suffix: Seq<char>) -> bool {
    suffix.len() <= s.len() && s.skip(s.len() - suffix.len()) == suffix
}

/// Whether `needle` stands at position `at`.
pub open spec fn stands_at(s: Seq<char>, needle: Seq<char>, at: int) -> bool {
    0 <= at && at + needle.len() <= s.len() && s.subrange(at, at + needle.len()) == needle
}

pub open spec fn contains_text(s: Seq<char>, needle: Seq<char>) -> bool {
    exists|at: int| stands_at(s, needle, at)
}

pub fn chars_stand_at(chars: &Vec<char>, needle: &Vec<char>, at: usize) -> (r: bool)
    requires
        at <= chars@.len(),
    ensures
        r == stands_at(chars@, needle@, at as int),
{
    let len = chars.len();
    if len - at < needle.len() {
        return false;
    }
    let mut i: usize = 0;
    while i < needle.len()
        invariant
            i <= needle@.len(),
            at + needle@.len() <= chars@.len() == len,
            forall|k: int| 0 <= k < i ==> chars@[at + k] == needle@[k],
        decreases needle@.len() - i,
    {
        if chars[at + i] != needle[i] {
            assert(chars@.subrange(at as int, at + needle@.len())[i as int] != needle@[i as int]);
            return false;
        }
        i += 1;
    }
    assert(chars@.subrange(at as int, at + needle@.len()) == needle@);
    true
}

pub fn text_starts_with(text: &str, prefix: &str) -> (r: bool)
    ensures
        r == starts_with(text@, prefix@),
{
    let chars = chars_of(text);
    let p = chars_of(prefix);
    let r = chars_stand_at(&chars, &p, 0);
    assert(prefix@.len() <= text@.len() ==> text@.subrange(0, prefix@.len() as int) == text@.take(
        prefix@.len() as int,
    ));
    r
}

pub fn text_ends_with(text: &str, suffix: &str) -> (r: bool)
    ensures
        r == ends_with(text@, suffix@),
{
    let chars = chars_of(text);
    let p = chars_of(suffix);
    if p.len() > chars.len() {
        return false;
    }
    let at = chars.len() - p.len();
    let r = chars_stand_at(&chars, &p, at);
    assert(text@.subrange(at as int, text@.len() as int) == text@.skip(at as int));
    r
}

pub fn text_contains(text: &str, needle: &str) -> (r: bool)
    ensures
        r == contains_text(text@, needle@),
{
    let chars = chars_of(text);
    let p = chars_of(needle);
    if p.len() > chars.len() {
        return false;
    }
    let last = chars.len() - p.len();
    let mut at: usize = 0;
    while at <= last
        invariant
            at <= last + 1,
            chars@ == text@,
            p@ == needle@,
            last + p@.len() == chars@.len(),
            forall|k: int| 0 <= k < at ==> !stands_at(text@, needle@, k),
        decreases last + 1 - at,
    {
        if chars_stand_at(&chars, &p, at) {
            return true;
        }
        if at == last {
            assert forall|k: int| !stands_at(text@, needle@, k) by {
                if 0 <= k < at {
                }
            }
            return false;
        }
        at += 1;
    }
    false
}

/// The first position from `i` on where `needle` stands, or the length.
pub open spec fn find_text(s: Seq<char>, needle: Seq<char>, i: int) -> int
    decreases s.len() - i,
{
    if i < 0 || i >= s.len() {
        s.len() as int
    } else if stands_at(s, needle, i) {
        i
    } else {
        find_text(s, needle, i + 1)
    }
}

pub proof fn lemma_find_text(s: Seq<char>, needle: Seq<char>, i: int)
    requires
        0 <= i <= s.len(),
    ensures
        i <= find_text(s, needle, i) <= s.len(),
        find_text(s, needle, i) < s.len() ==> stands_at(s, needle, find_text(s, needle, i)),
        forall|k: int| i <= k < find_text(s, needle, i) ==> !stands_at(s, needle, k),
    decreases s.len() - i,
{
    if i < s.len() && !stands_at(s, needle, i) {
        lemma_find_text(s, needle, i + 1);
    }
}

pub fn find_chars(chars: &Vec<char>, needle: &Vec<char>, from: usize) -> (r: usize)
    requires
        from <= chars@.len(),
    ensures
        r == find_text(chars@, needle@, from as int),
        from <= r <= chars@.len(),
        r < chars@.len() ==> stands_at(chars@, needle@, r as int),
{
    let mut i: usize = from;
    while i < chars.len()
        invariant
            from <= i <= chars@.len(),
            find_text(chars@, needle@, from as int) == find_text(chars@, needle@, i as int),
        decreases chars@.len() - i,
    {
        if chars_stand_at(chars, needle, i) {
            return i;
        }
        i += 1;
    }
    i
}

/// The text before and after the first `needle`.
pub open spec fn cut_once(s: Seq<char>, needle: Seq<char>) -> Option<(Seq<char>, Seq<char>)> {
    let k = find_text(s, needle, 0);
    if k < s.len() {
        Some((s.take(k), s.skip(k + needle.len())))
    } else {
        None
    }
}

pub fn cut_text_once(text: &str, needle: &str) -> (r: Option<(String, String)>)
    ensures
        pair_view(r) == cut_once(text@, needle@),
{
    let chars = chars_of(text);
    let n = chars_of(needle);
    let k = find_chars(&chars, &n, 0);
    if k < chars.len() {
        let head = text_of(&chars, 0, k);
        let tail = text_of(&chars, k + n.len(), chars.len());
        assert(head@ == text@.take(k as int));
        assert(tail@ == text@.skip(k + n@.len()));
        Some((head, tail))
    } else {
        None
    }
}

/// The pieces of a text between occurrences of `needle`, from `start` on.
pub open spec fn cut_from(s: Seq<char>, needle: Seq<char>, start: int) -> Seq<Seq<char>>
    decreases s.len() - start,
    via cut_decreases
{
    if start < 0 || start > s.len() {
        seq![]
    } else {
        let k = find_text(s, needle, start);
        if k < s.len() && needle.len() > 0 {
            seq![s.subrange(start, k)] + cut_from(s, needle, k + needle.len())
        } else {
            seq![s.subrange(start, s.len() as int)]
        }
    }
}

#[via_fn]
proof fn cut_decreases(s: Seq<char>, needle: Seq<char>, start: int) {
    if 0 <= start <= s.len() {
        lemma_find_text(s, needle, start);
    }
}

/// The pieces of a text between occurrences of `needle`; one more than there
/// are occurrences.
pub open spec fn cut(s: Seq<char>, needle: Seq<char>) -> Seq<Seq<char>> {
    cut_from(s, needle, 0)
}

pub fn cut_text(text: &str, needle: &str) -> (pieces: Vec<String>)
    requires
        needle@.len() > 0,
    ensures
        texts(pieces@) == cut(text@, needle@),
        pieces@.len() > 0,
{
    let chars = chars_of(text);
    let n = chars_of(needle);
    let mut pieces: Vec<String> = Vec::new();
    let mut start: usize = 0;
    assert(texts(pieces@) + cut(text@, needle@) == cut(text@, needle@));
    loop
        invariant
            chars@ == text@,
            n@ == needle@,
            n@.len() > 0,
            start <= chars@.len(),
            texts(pieces@) + cut_from(text@, needle@, start as int) == cut(text@, needle@),
        decreases chars@.len() - start,
    {
        let k = find_chars(&chars, &n, start);
        let piece = text_of(&chars, start, k);
        let ghost before = texts(pieces@);
        proof {
            lemma_texts_push(pieces@, piece);
        }
        pieces.push(piece);
        if k >= chars.len() {
            assert(before.push(piece@) == before + seq![piece@]);
            return pieces;
        }
        start = k + n.len();
        proof {
            let rest = cut_from(text@, needle@, start as int);
            assert(before.push(piece@) + rest == before + (seq![piece@] + rest));
        }
    }
}

/// The last position that holds `c`, or -1.
pub open spec fn find_last(s: Seq<char>, c: char) -> int
    decreases s.len(),
{
    if s.len() == 0 {
        -1
    } else if s.last() == c {
        s.len() - 1
    } else {
        find_last(s.drop_last(), c)
    }
}

/// The text before and after the last `c`.
pub open spec fn split_once_last(s: Seq<char>, c: char) -> Option<(Seq<char>, Seq<char>)> {
    let k = find_last(s, c);
    if k >= 0 {
        Some((s.take(k), s.skip(k + 1)))
    } else {
        None
    }
}

pub fn split_text_last(text: &str, c: char) -> (r: Option<(String, String)>)
    ensures
        pair_view(r) == split_once_last(text@, c),
{
    let chars = chars_of(text);
    let mut i: usize = chars.len();
    assert(text@.take(text@.len() as int) == text@);
    while i > 0
        invariant
            chars@ == text@,
            i <= chars@.len(),
            find_last(text@.take(i as int), c) == find_last(text@, c),
        decreases i,
    {
        if chars[i - 1] == c {
            let head = text_of(&chars, 0, i - 1);
            let tail = text_of(&chars, i, chars.len());
            assert(head@ == text@.take(i - 1));
            assert(tail@ == text@.skip(i as int));
            return Some((head, tail));
        }
        assert(text@.take(i as int).drop_last() == text@.take(i - 1));
        i -= 1;
    }
    None
}

/// What follows `prefix`, where the text starts with it.
pub open spec fn strip_prefix(s: Seq<char>, prefix: Seq<char>) -> Option<Seq<char>> {
    if starts_with(s, prefix) {
        Some(s.skip(prefix.len() as int))
    } else {
        None
    }
}

pub open spec fn opt_view(o: Option<String>) -> Option<Seq<char>> {
    match o {
        Some(s) => Some(s@),
        None => None,
    }
}

pub fn text_after(text: &str, prefix: &str) -> (r: Option<String>)
    ensures
        opt_view(r) == strip_prefix(text@, prefix@),
{
    if !text_starts_with(text, prefix) {
        return None;
    }
    let chars = chars_of(text);
    let p = chars_of(prefix);
    let rest = text_of(&chars, p.len(), chars.len());
    assert(rest@ == text@.skip(prefix@.len() as int));
    Some(rest)
}

// ------------------------------------------------------------------- trimming

pub open spec fn trim_start(s: Seq<char>) -> Seq<char>
    decreases s.len(),
{
    if s.len() > 0 && is_space(s[0]) {
        trim_start(s.skip(1))
    } else {
        s
    }
}

pub open spec fn trim_end(s: Seq<char>) -> Seq<char>
    decreases s.len(),
{
    if s.len() > 0 && is_space(s.last()) {
        trim_end(s.drop_last())
    } else {
        s
    }
}

/// The text without the white space around it.
pub open spec fn trimmed(s: Seq<char>) -> Seq<char> {
    trim_end(trim_start(s))
}

pub fn trim(text: &str) -> (r: String)
    ensures
        r@ == trimmed(text@),
{
    let chars = chars_of(text);
    let mut from: usize = 0;
    assert(text@.skip(0) == text@);
    while from < chars.len() && space_char(chars[from])
        invariant
            chars@ == text@,
            from <= chars@.len(),
            trim_start(text@.skip(from as int)) == trim_start(text@),
        decreases chars@.len() - from,
    {
        assert(text@.skip(from as int).skip(1) == text@.skip(from + 1));
        from += 1;
    }
    let ghost middle = text@.skip(from as int);
    assert(trim_start(text@) == middle);
    let mut to: usize = chars.len();
    assert(text@.subrange(from as int, to as int) == middle);
    while to > from && space_char(chars[to - 1])
        invariant
            chars@ == text@,
            from <= to <= chars@.len(),
            trim_end(text@.subrange(from as int, to as int)) == trim_end(middle),
        decreases to,
    {
        assert(text@.subrange(from as int, to as int).drop_last() == text@.subrange(
            from as int,
            to - 1,
        ));
        to -= 1;
    }
    text_of(&chars, from, to)
}

/// The text without the `c`s at its end.
pub open spec fn trim_end_char(s: Seq<char>, c: char) -> Seq<char>
    decreases s.len(),
{
    if s.len() > 0 && s.last() == c {
        trim_end_char(s.drop_last(), c)
    } else {
        s
    }
}

pub fn trim_text_end(text: &str, c: char) -> (r: String)
    ensures
        r@ == trim_end_char(text@, c),
{
    let chars = chars_of(text);
    let mut to: usize = chars.len();
    assert(text@.take(to as int) == text@);
    while to > 0 && chars[to - 1] == c
        invariant
            chars@ == text@,
            to <= chars@.len(),
            trim_end_char(text@.take(to as int), c) == trim_end_char(text@, c),
        decreases to,
    {
        assert(text@.take(to as int).drop_last() == text@.take(to - 1));
        to -= 1;
    }
    let r = text_of(&chars, 0, to);
    assert(r@ == text@.take(to as int));
    r
}

/// The maximal runs of characters that are not white space.
pub open spec fn words(s: Seq<char>) -> Seq<Seq<char>> {
    words_from(s, 0, 0)
}

/// The words from position `i` on, where the word being read began at
/// `start`.
pub open spec fn words_from(s: Seq<char>, start: int, i: int) -> Seq<Seq<char>>
    decreases s.len() - i,
{
    let done = if start < i {
        seq![s.subrange(start, i)]
    } else {
        seq![]
    };
    if i >= s.len() || i < 0 {
        done
    } else if is_space(s[i]) {
        done + words_from(s, i + 1, i + 1)
    } else {
        words_from(s, start, i + 1)
    }
}

pub fn split_words(text: &str) -> (r: Vec<String>)
    ensures
        texts(r@) == words(text@),
{
    let chars = chars_of(text);
    let mut r: Vec<String> = Vec::new();
    let mut start: usize = 0;
    let mut i: usize = 0;
    assert(texts(r@) + words(text@) == words(text@));
    while i < chars.len()
        invariant
            chars@ == text@,
            start <= i <= chars@.len(),
            texts(r@) + words_from(text@, start as int, i as int) == words(text@),
        decreases chars@.len() - i,
    {
        let ghost before = texts(r@);
        if space_char(chars[i]) {
            let ghost rest = words_from(text@, i + 1, i + 1);
            if start < i {
                let word = text_of(&chars, start, i);
                proof {
                    lemma_texts_push(r@, word);
                    assert(before.push(word@) + rest == before + (seq![word@] + rest));
                }
                r.push(word);
            } else {
                assert(before + (Seq::<Seq<char>>::empty() + rest) == before + rest);
            }
            start = i + 1;
        }
        i += 1;
    }
    if start < i {
        let word = text_of(&chars, start, i);
        proof {
            lemma_texts_push(r@, word);
            assert(texts(r@) + seq![word@] == texts(r@).push(word@));
        }
        r.push(word);
    } else {
        assert(texts(r@) + Seq::<Seq<char>>::empty() == texts(r@));
    }
    r
}

// -------------------------------------------------------------------- numbers

pub open spec fn digit(d: int) -> char {
    (48 + d) as char
}

/// A number in decimal.
pub open spec fn dec(n: nat) -> Seq<char>
    decreases n,
{
    if n < 10 {
        seq![digit(n as int)]
    } else {
        dec(n / 10).push(digit((n % 10) as int))
    }
}

pub fn decimal(n: u64) -> (r: String)
    ensures
        r@ == dec(n as nat),
{
    wide_decimal(n as u128)
}

pub fn wide_decimal(n: u128) -> (r: String)
    ensures
        r@ == dec(n as nat),
    decreases n,
{
    let mut r = if n < 10 {
        String::new()
    } else {
        wide_decimal(n / 10)
    };
    r.push((48 + (n % 10) as u8) as char);
    assert(n < 10 ==> r@ =~= dec(n as nat));
    r
}

pub open spec fn all_digits(s: Seq<char>) -> bool {
    forall|i: int| 0 <= i < s.len() ==> is_digit(#[trigger] s[i])
}

/// The number that a run of decimal digits stands for.
pub open spec fn digits_value(s: Seq<char>) -> nat
    decreases s.len(),
{
    if s.len() == 0 {
        0
    } else {
        10 * digits_value(s.drop_last()) + (s.last() as nat - 48) as nat
    }
}

/// What a decimal number may look like: an optional plus sign and at least
/// one digit, nothing else.
pub open spec fn number(s: Seq<char>) -> Option<nat> {
    let digits = if s.len() > 0 && s[0] == '+' {
        s.skip(1)
    } else {
        s
    };
    if digits.len() > 0 && all_digits(digits) {
        Some(digits_value(digits))
    } else {
        None
    }
}

/// The number in a text, where it is at most `max`.
pub open spec fn number_to(s: Seq<char>, max: nat) -> Option<nat> {
    match number(s) {
        Some(n) => if n <= max {
            Some(n)
        } else {
            None
        },
        None => None,
    }
}

pub proof fn lemma_digits_grow(s: Seq<char>, i: int)
    requires
        0 <= i <= s.len(),
        all_digits(s),
    ensures
        digits_value(s.take(i)) <= digits_value(s),
    decreases s.len() - i,
{
    if i < s.len() {
        assert(s.take(i + 1).drop_last() == s.take(i));
        assert(is_digit(s[i]));
        lemma_digits_grow(s, i + 1);
    } else {
        assert(s.take(i) == s);
    }
}

pub open spec fn as_nat(o: Option<u64>) -> Option<nat> {
    match o {
        Some(n) => Some(n as nat),
        None => None,
    }
}

/// Reads a decimal number no larger than `max`.
pub fn parse_number(text: &str, max: u64) -> (r: Option<u64>)
    ensures
        as_nat(r) == number_to(text@, max as nat),
{
    let chars = chars_of(text);
    let start: usize = if chars.len() > 0 && chars[0] == '+' {
        1
    } else {
        0
    };
    let ghost digits = text@.skip(start as int);
    assert(start == 0 ==> digits == text@);
    if start >= chars.len() {
        return None;
    }
    let mut value: u64 = 0;
    let mut over = false;
    let mut i: usize = start;
    assert(digits.take(0) == Seq::<char>::empty());
    while i < chars.len()
        invariant
            chars@ == text@,
            start <= i <= chars@.len(),
            start < chars@.len(),
            digits == text@.skip(start as int),
            forall|k: int| 0 <= k < i - start ==> is_digit(#[trigger] digits[k]),
            !over ==> value == digits_value(digits.take(i - start)) && value <= max,
            over ==> digits_value(digits.take(i - start)) > max,
            number(text@) == (if all_digits(digits) {
                Some(digits_value(digits))
            } else {
                None
            }),
        decreases chars@.len() - i,
    {
        let c = chars[i];
        assert(digits[i - start] == c);
        if !digit_char(c) {
            return None;
        }
        let d: u64 = (c as u8 - 48) as u64;
        proof {
            assert(digits.take(i - start + 1).drop_last() == digits.take(i - start));
        }
        if !over {
            if value > max / 10 || d > max - value * 10 {
                over = true;
                assert(10 * value + d > max) by (nonlinear_arith)
                    requires
                        value > max / 10 || d > max - value * 10,
                ;
            } else {
                value = value * 10 + d;
            }
        }
        i += 1;
    }
    assert(digits.take(digits.len() as int) == digits);
    if over {
        None
    } else {
        Some(value)
    }
}

/// A decimal rendering reads back as the number it renders.
pub proof fn law_decimal_reads_back(n: nat)
    ensures
        number(dec(n)) == Some(n),
{
    lemma_dec(n);
    let s = dec(n);
    assert(is_digit(s[0]));
}

pub proof fn lemma_dec(n: nat)
    ensures
        dec(n).len() > 0,
        all_digits(dec(n)),
        digits_value(dec(n)) == n,
    decreases n,
{
    reveal_with_fuel(digits_value, 2);
    if n >= 10 {
        lemma_dec(n / 10);
        assert(dec(n).drop_last() == dec(n / 10));
    } else {
        assert(dec(n).drop_last() == Seq::<char>::empty());
    }
}

// ----------------------------------------------------------------------- laws

/// Lowercasing turns each of the letters `A` to `Z` into the letter 32 code
/// points on, and leaves every other character where it stands.
pub proof fn law_lowercase_is_ascii(s: Seq<char>, i: int)
    requires
        0 <= i < s.len(),
    ensures
        lowered(s).len() == s.len(),
        65 <= s[i] as u32 <= 90 ==> lowered(s)[i] as u32 == s[i] as u32 + 32,
        !(65 <= s[i] as u32 <= 90) ==> lowered(s)[i] == s[i],
{
}

/// Uppercasing turns each of the letters `a` to `z` into the letter 32 code
/// points before, and leaves every other character where it stands.
pub proof fn law_uppercase_is_ascii(s: Seq<char>, i: int)
    requires
        0 <= i < s.len(),
    ensures
        uppered(s).len() == s.len(),
        97 <= s[i] as u32 <= 122 ==> uppered(s)[i] as u32 == s[i] as u32 - 32,
        !(97 <= s[i] as u32 <= 122) ==> uppered(s)[i] == s[i],
{
}

/// The first `c` splits a text in two: put together again with that `c`
/// between them they are the text, and no `c` stands in the first part. A text
/// without `c` is not split.
pub proof fn law_splitting_once(s: Seq<char>, c: char)
    ensures
        match split_once(s, c) {
            Some((head, tail)) => head.push(c) + tail == s && !head.contains(c),
            None => !s.contains(c),
        },
{
    lemma_find(s, c, 0);
    if let Some((head, tail)) = split_once(s, c) {
        assert(head.push(c) + tail =~= s);
    }
}

/// The last `c` splits a text in two: no `c` stands in the second part.
pub proof fn law_splitting_at_the_last(s: Seq<char>, c: char)
    ensures
        match split_once_last(s, c) {
            Some((head, tail)) => head.push(c) + tail == s && !tail.contains(c),
            None => !s.contains(c),
        },
    decreases s.len(),
{
    if s.len() > 0 && s.last() != c {
        let init = s.drop_last();
        law_splitting_at_the_last(init, c);
        match split_once_last(init, c) {
            Some((head, tail)) => {
                let k = find_last(init, c);
                assert(0 <= k < init.len()) by {
                    lemma_find_last(init, c);
                }
                assert(s.take(k) =~= head);
                assert(s.skip(k + 1) =~= tail.push(s.last()));
                assert(head.push(c) + tail.push(s.last()) =~= (head.push(c) + tail).push(s.last()));
                assert(init.push(s.last()) =~= s);
                let longer = tail.push(s.last());
                assert(!longer.contains(c)) by {
                    if longer.contains(c) {
                        let i = choose|i: int| 0 <= i < longer.len() && longer[i] == c;
                        assert(tail[i] == c);
                    }
                }
            },
            None => {
                lemma_find_last(init, c);
                if s.contains(c) {
                    let i = choose|i: int| 0 <= i < s.len() && s[i] == c;
                    assert(init[i] == c);
                }
            },
        }
    } else if s.len() > 0 {
        assert(s.take(s.len() - 1).push(c) + s.skip(s.len() as int) =~= s);
    }
}

proof fn lemma_find_last(s: Seq<char>, c: char)
    ensures
        -1 <= find_last(s, c) < s.len(),
    decreases s.len(),
{
    if s.len() > 0 && s.last() != c {
        lemma_find_last(s.drop_last(), c);
    }
}

/// The pieces of a text put together with the separator between them.
pub open spec fn joined(pieces: Seq<Seq<char>>, separator: Seq<char>) -> Seq<char>
    decreases pieces.len(),
{
    if pieces.len() == 0 {
        seq![]
    } else if pieces.len() == 1 {
        pieces[0]
    } else {
        pieces[0] + separator + joined(pieces.skip(1), separator)
    }
}

/// Splitting undoes joining: the pieces, with the separator between them, are
/// the text, and no piece holds the separator.
pub proof fn law_splitting_keeps_the_text(s: Seq<char>, c: char)
    ensures
        split(s, c).len() > 0,
        joined(split(s, c), seq![c]) == s,
        forall|i: int| 0 <= i < split(s, c).len() ==> !(#[trigger] split(s, c)[i]).contains(c),
    decreases s.len(),
{
    lemma_find(s, c, 0);
    let k = find(s, c);
    if k < s.len() {
        let rest = split(s.skip(k + 1), c);
        law_splitting_keeps_the_text(s.skip(k + 1), c);
        let pieces = split(s, c);
        assert(pieces =~= seq![s.take(k)] + rest);
        assert(pieces.skip(1) =~= rest);
        assert(s.take(k) + seq![c] + s.skip(k + 1) =~= s);
        assert forall|i: int| 0 <= i < pieces.len() implies !(#[trigger] pieces[i]).contains(c) by {
            if i > 0 {
                assert(pieces[i] == rest[i - 1]);
            }
        }
    } else {
        assert(split(s, c) =~= seq![s]);
    }
}

/// Trimming takes white space off both ends and nothing else.
pub proof fn law_trimming(s: Seq<char>)
    ensures
        exists|a: int, b: int|
            {
                &&& 0 <= a <= b <= s.len()
                &&& trimmed(s) == #[trigger] s.subrange(a, b)
                &&& forall|i: int| 0 <= i < a ==> is_space(#[trigger] s[i])
                &&& forall|i: int| b <= i < s.len() ==> is_space(#[trigger] s[i])
                &&& a < b ==> !is_space(s[a]) && !is_space(s[b - 1])
            },
{
    lemma_trim_start(s);
    let a = s.len() - trim_start(s).len();
    let middle = trim_start(s);
    lemma_trim_end(middle);
    let b = a + trim_end(middle).len();
    assert(trimmed(s) =~= s.subrange(a, b));
    assert forall|i: int| b <= i < s.len() implies is_space(#[trigger] s[i]) by {
        assert(middle[i - a] == s[i]);
    }
    if a < b {
        assert(middle[0] == s[a]);
        assert(trim_end(middle).last() == s[b - 1]);
    }
}

proof fn lemma_trim_start(s: Seq<char>)
    ensures
        trim_start(s).len() <= s.len(),
        trim_start(s) == s.skip(s.len() - trim_start(s).len()),
        forall|i: int| 0 <= i < s.len() - trim_start(s).len() ==> is_space(#[trigger] s[i]),
        trim_start(s).len() > 0 ==> !is_space(trim_start(s)[0]),
    decreases s.len(),
{
    if s.len() > 0 && is_space(s[0]) {
        let rest = s.skip(1);
        lemma_trim_start(rest);
        assert(trim_start(s) =~= s.skip(s.len() - trim_start(s).len()));
        assert forall|i: int| 0 <= i < s.len() - trim_start(s).len() implies is_space(
            #[trigger] s[i],
        ) by {
            if i > 0 {
                assert(rest[i - 1] == s[i]);
            }
        }
    } else {
        assert(s.skip(0) =~= s);
    }
}

proof fn lemma_trim_end(s: Seq<char>)
    ensures
        trim_end(s).len() <= s.len(),
        trim_end(s) == s.take(trim_end(s).len() as int),
        forall|i: int| trim_end(s).len() <= i < s.len() ==> is_space(#[trigger] s[i]),
        trim_end(s).len() > 0 ==> !is_space(trim_end(s).last()),
    decreases s.len(),
{
    if s.len() > 0 && is_space(s.last()) {
        let init = s.drop_last();
        lemma_trim_end(init);
        assert(trim_end(s) =~= s.take(trim_end(s).len() as int));
        assert forall|i: int| trim_end(s).len() <= i < s.len() implies is_space(
            #[trigger] s[i],
        ) by {
            if i < init.len() {
                assert(init[i] == s[i]);
            }
        }
    } else {
        assert(s.take(s.len() as int) =~= s);
    }
}

/// White space is the space, what lies from tab to carriage return, and the
/// code points that Unicode lists; no letter, digit or visible ASCII mark is.
pub proof fn law_white_space(c: char)
    ensures
        is_space(c) == (9 <= c as u32 <= 13 || c as u32 == 32 || c as u32 == 0x85 || c as u32
            == 0xa0 || c as u32 == 0x1680 || 0x2000 <= c as u32 <= 0x200a || c as u32 == 0x2028
            || c as u32 == 0x2029 || c as u32 == 0x202f || c as u32 == 0x205f || c as u32
            == 0x3000),
        is_ascii_space(c) == (c as u32 == 9 || c as u32 == 10 || c as u32 == 12 || c as u32 == 13
            || c as u32 == 32),
{
}

/// Letters and digits are the 62 of ASCII.
pub proof fn law_letters_and_digits(c: char)
    ensures
        is_digit(c) == (48 <= c as u32 <= 57),
        is_lower(c) == (97 <= c as u32 <= 122),
        is_upper(c) == (65 <= c as u32 <= 90),
        is_alnum(c) == (48 <= c as u32 <= 57 || 97 <= c as u32 <= 122 || 65 <= c as u32 <= 90),
{
}

/// Appending a digit to a decimal number is ten times the number plus the
/// digit, and one digit stands for itself.
pub proof fn law_decimal_places(n: nat, d: nat)
    requires
        d < 10,
    ensures
        dec(d) == seq![(48 + d) as char],
        n > 0 ==> dec(10 * n + d) == dec(n).push((48 + d) as char),
{
    assert(n > 0 ==> (10 * n + d) / 10 == n && (10 * n + d) % 10 == d);
}

/// A text starts with what it is a prefix plus something of, and what is left
/// is that something.
pub proof fn law_prefixes(prefix: Seq<char>, rest: Seq<char>, s: Seq<char>)
    ensures
        starts_with(prefix + rest, prefix),
        strip_prefix(prefix + rest, prefix) == Some(rest),
        strip_prefix(s, prefix) matches Some(tail) ==> prefix + tail == s,
        ends_with(rest + prefix, prefix),
        ends_with(s, prefix) ==> s.take(s.len() - prefix.len()) + prefix == s,
{
    assert((prefix + rest).take(prefix.len() as int) =~= prefix);
    assert((prefix + rest).skip(prefix.len() as int) =~= rest);
    assert((rest + prefix).skip((rest + prefix).len() - prefix.len()) =~= prefix);
    if let Some(tail) = strip_prefix(s, prefix) {
        assert(prefix + tail =~= s);
    }
    if ends_with(s, prefix) {
        assert(s.take(s.len() - prefix.len()) + prefix =~= s);
    }
}

/// A text contains what stands anywhere in it.
pub proof fn law_containment(before: Seq<char>, needle: Seq<char>, after: Seq<char>, s: Seq<char>)
    ensures
        contains_text(before + needle + after, needle),
        contains_text(s, needle) ==> exists|head: Seq<char>, tail: Seq<char>|
            s == #[trigger] (head + needle + tail),
{
    let whole = before + needle + after;
    assert(whole.subrange(before.len() as int, (before.len() + needle.len()) as int) =~= needle);
    assert(stands_at(whole, needle, before.len() as int));
    if contains_text(s, needle) {
        let at = choose|at: int| stands_at(s, needle, at);
        let head = s.take(at);
        let tail = s.skip(at + needle.len());
        assert(s =~= head + needle + tail);
    }
}

/// What follows the first occurrence of a text, and what precedes it: together
/// they are the whole.
pub proof fn law_cutting_once(s: Seq<char>, needle: Seq<char>)
    requires
        needle.len() > 0,
    ensures
        match cut_once(s, needle) {
            Some((head, tail)) => head + needle + tail == s && forall|at: int|
                0 <= at < head.len() ==> !#[trigger] stands_at(s, needle, at),
            None => !contains_text(s, needle),
        },
{
    lemma_find_text(s, needle, 0);
    match cut_once(s, needle) {
        Some((head, tail)) => {
            assert(head + needle + tail =~= s);
        },
        None => {
            assert forall|at: int| !stands_at(s, needle, at) by {}
        },
    }
}

/// Cutting undoes joining, and a text without the needle stays whole.
pub proof fn law_cutting_keeps_the_text(s: Seq<char>, needle: Seq<char>)
    requires
        needle.len() > 0,
    ensures
        cut(s, needle).len() > 0,
        joined(cut(s, needle), needle) == s,
        !contains_text(s, needle) ==> cut(s, needle) == seq![s],
{
    lemma_cut_joined(s, needle, 0);
    assert(s.skip(0) =~= s);
    if !contains_text(s, needle) {
        lemma_find_text(s, needle, 0);
        assert(s.subrange(0, s.len() as int) =~= s);
    }
}

proof fn lemma_cut_joined(s: Seq<char>, needle: Seq<char>, start: int)
    requires
        needle.len() > 0,
        0 <= start <= s.len(),
    ensures
        cut_from(s, needle, start).len() > 0,
        joined(cut_from(s, needle, start), needle) == s.skip(start),
    decreases s.len() - start,
{
    lemma_find_text(s, needle, start);
    let k = find_text(s, needle, start);
    if k < s.len() {
        lemma_cut_joined(s, needle, k + needle.len());
        let rest = cut_from(s, needle, k + needle.len());
        let pieces = cut_from(s, needle, start);
        assert(pieces.skip(1) =~= rest);
        assert(s.subrange(start, k) + needle + s.skip(k + needle.len()) =~= s.skip(start));
    } else {
        assert(s.subrange(start, s.len() as int) =~= s.skip(start));
    }
}

/// A word holds no white space and is not empty.
pub proof fn law_words_hold_no_space(s: Seq<char>, w: int, i: int)
    requires
        0 <= w < words(s).len(),
        0 <= i < words(s)[w].len(),
    ensures
        !is_space(words(s)[w][i]),
{
    lemma_words(s, 0, 0, w, i);
}

proof fn lemma_words(s: Seq<char>, start: int, from: int, w: int, i: int)
    requires
        0 <= start <= from <= s.len(),
        forall|k: int| start <= k < from ==> !is_space(#[trigger] s[k]),
        0 <= w < words_from(s, start, from).len(),
        0 <= i < words_from(s, start, from)[w].len(),
    ensures
        !is_space(words_from(s, start, from)[w][i]),
    decreases s.len() - from,
{
    if from < s.len() {
        if is_space(s[from]) {
            let n: int = if start < from {
                1
            } else {
                0
            };
            if w >= n {
                assert(words_from(s, start, from)[w] == words_from(s, from + 1, from + 1)[w - n]);
                lemma_words(s, from + 1, from + 1, w - n, i);
            }
        } else {
            lemma_words(s, start, from + 1, w, i);
        }
    }
}

/// A number is at least one digit, perhaps after a plus sign, and reads as its
/// digits do; a text that holds anything else is none.
pub proof fn law_numbers(s: Seq<char>, d: char, max: nat)
    requires
        48 <= d as u32 <= 57,
    ensures
        number(seq![d]) == Some((d as u32 - 48) as nat),
        number(s.push(d)) matches Some(n) ==> n == 10 * (if s.len() == 0 || s == seq!['+'] {
            0
        } else {
            number(s)->0
        }) + (d as u32 - 48) as nat,
        number(s) is Some ==> number(s.push(d)) is Some,
        number(Seq::empty()) is None,
        number(seq!['-'] + s) is None,
        number_to(s, max) matches Some(n) ==> number(s) == Some(n) && n <= max,
        number_to(s, max) is None ==> number(s) is None || number(s)->0 > max,
{
    reveal_with_fuel(digits_value, 2);
    assert(seq![d].drop_last() =~= Seq::<char>::empty());
    let minus = seq!['-'] + s;
    assert(minus[0] == '-' && !is_digit(minus[0]));
    let longer = s.push(d);
    if s.len() > 0 {
        assert(longer[0] == s[0]);
        if s[0] == '+' {
            let digits = s.skip(1);
            assert(longer.skip(1) =~= digits.push(d));
            assert(digits.push(d).drop_last() =~= digits);
            if number(s) is Some {
                assert forall|i: int| 0 <= i < digits.push(d).len() implies is_digit(
                    #[trigger] digits.push(d)[i],
                ) by {
                    if i < digits.len() {
                        assert(is_digit(digits[i]));
                    }
                }
            }
            if number(longer) is Some {
                assert forall|i: int| 0 <= i < digits.len() implies is_digit(
                    #[trigger] digits[i],
                ) by {
                    assert(is_digit(digits.push(d)[i]));
                }
                if digits.len() == 0 {
                    assert(s =~= seq!['+']);
                }
            }
        } else {
            assert(longer.drop_last() =~= s);
            if number(s) is Some {
                assert forall|i: int| 0 <= i < longer.len() implies is_digit(
                    #[trigger] longer[i],
                ) by {
                    if i < s.len() {
                        assert(is_digit(s[i]));
                    }
                }
            }
            if number(longer) is Some {
                assert forall|i: int| 0 <= i < s.len() implies is_digit(#[trigger] s[i]) by {
                    assert(is_digit(longer[i]));
                }
            }
        }
    } else {
        assert(longer =~= seq![d]);
    }
}

/// What an optional text reads as.
pub proof fn law_optional_texts(o: Option<String>)
    ensures
        o is Some ==> opt_view(o) == Some(o->0@),
        o is None ==> opt_view(o) is None,
{
}

/// A text that a `c` divides is split there, when no `c` stands before it.
pub proof fn law_a_split_is_found(head: Seq<char>, c: char, tail: Seq<char>)
    requires
        !head.contains(c),
    ensures
        split_once(head + seq![c] + tail, c) == Some((head, tail)),
        split(head + seq![c] + tail, c) == seq![head] + split(tail, c),
        split_once(head, c).is_none(),
        split(head, c) == seq![head],
{
    let s = head + seq![c] + tail;
    lemma_find(s, c, 0);
    let k = find(s, c);
    assert(s[head.len() as int] == c);
    if k < head.len() {
        assert(head[k] == s[k]);
        assert(head.contains(c));
    }
    assert(k == head.len());
    assert(s.take(k) =~= head);
    assert(s.skip(k + 1) =~= tail);
    lemma_find(head, c, 0);
    if find(head, c) < head.len() {
        assert(head.contains(c));
    }
}

} // verus!
