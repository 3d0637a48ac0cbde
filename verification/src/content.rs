//! Token extraction and Bloom filters for content search.
//!
//! Content search is word search. Tokens are maximal runs of ASCII letters
//! and digits, lowercased; everything else separates. A filter over the words
//! of a text can say that a word is definitely absent and nothing else, so a
//! query is a conjunction of words, which is what the filter
//! over-approximates: [`law_a_match_is_admitted`].
//!
//! The tokenizer and the bit derivation are format constants: a filter built
//! by one process is probed by another.

use vstd::prelude::*;
use vstd::utf8::{
    encode_utf8, is_ascii_chars, is_ascii_chars_encode_utf8, is_char_boundary,
    is_char_boundary_iff_not_is_continuation_byte,
};

use crate::hash::{hash128, spec_hash128};
use crate::sort::{ascending, sort_unique};
use crate::text::{
    alnum_char, chars_of, copy, is_alnum, lemma_texts_push, lower, lower_char, lowered, same, texts,
    uppered,
};

verus! {

/// Longest token probed, in bytes. A longer token is hashed under its first
/// `MAX_TOKEN_LEN` bytes. The cap applies to the filter and to nothing else:
/// matching compares tokens in full.
pub const MAX_TOKEN_LEN: usize = 40;

/// Number of bit positions each token sets.
pub const HASH_COUNT: u32 = 4;

/// Bits budgeted per distinct token when sizing a filter.
pub const BITS_PER_TOKEN: usize = 8;

// --------------------------------------------------------------------- tokens

/// The tokens from position `i` on, where the run being read began at
/// `start`.
pub open spec fn tokens_from(s: Seq<char>, start: int, i: int) -> Seq<Seq<char>>
    decreases s.len() - i,
{
    let done = if start < i {
        seq![lowered(s.subrange(start, i))]
    } else {
        seq![]
    };
    if i < 0 || i >= s.len() {
        done
    } else if is_alnum(s[i]) {
        tokens_from(s, start, i + 1)
    } else {
        done + tokens_from(s, i + 1, i + 1)
    }
}

/// The tokens of a text, in order of appearance.
pub open spec fn spec_tokens(s: Seq<char>) -> Seq<Seq<char>> {
    tokens_from(s, 0, 0)
}

/// What every token looks like: at least one ASCII letter or digit, none of
/// them uppercase.
pub open spec fn is_token(t: Seq<char>) -> bool {
    &&& t.len() > 0
    &&& forall|i: int| 0 <= i < t.len() ==> is_alnum(#[trigger] t[i]) && lower(t[i]) == t[i]
}

proof fn lemma_tokens_from(s: Seq<char>, start: int, i: int)
    requires
        0 <= start <= i <= s.len(),
        forall|k: int| start <= k < i ==> is_alnum(#[trigger] s[k]),
    ensures
        forall|k: int|
            0 <= k < tokens_from(s, start, i).len() ==> is_token(
                #[trigger] tokens_from(s, start, i)[k],
            ),
    decreases s.len() - i,
{
    let all = tokens_from(s, start, i);
    let done = if start < i {
        seq![lowered(s.subrange(start, i))]
    } else {
        seq![]
    };
    if start < i {
        let t = lowered(s.subrange(start, i));
        assert forall|k: int| 0 <= k < t.len() implies is_alnum(#[trigger] t[k]) && lower(t[k])
            == t[k] by {
            assert(is_alnum(s[start + k]));
        }
        assert(is_token(t));
    }
    if i < s.len() && is_alnum(s[i]) {
        lemma_tokens_from(s, start, i + 1);
        let rest = tokens_from(s, start, i + 1);
        assert(all == rest);
        assert forall|k: int| 0 <= k < all.len() implies is_token(#[trigger] all[k]) by {
            assert(is_token(rest[k]));
        }
    } else if i < s.len() {
        lemma_tokens_from(s, i + 1, i + 1);
        let rest = tokens_from(s, i + 1, i + 1);
        assert(all == done + rest);
        assert forall|k: int| 0 <= k < all.len() implies is_token(#[trigger] all[k]) by {
            if k >= done.len() {
                assert(all[k] == rest[k - done.len()]);
            }
        }
    } else {
        assert(all == done);
        assert forall|k: int| 0 <= k < all.len() implies is_token(#[trigger] all[k]) by {
        }
    }
}

/// Every token is a word of lowercase ASCII letters and digits.
pub proof fn law_tokens_are_words(s: Seq<char>, k: int)
    requires
        0 <= k < spec_tokens(s).len(),
    ensures
        is_token(spec_tokens(s)[k]),
{
    lemma_tokens_from(s, 0, 0);
}

proof fn lemma_no_cut(s: Seq<char>, start: int, i: int)
    requires
        0 <= start <= i <= s.len(),
        forall|k: int| i <= k < s.len() ==> is_alnum(#[trigger] s[k]),
        start < s.len(),
    ensures
        tokens_from(s, start, i) == seq![lowered(s.skip(start))],
    decreases s.len() - i,
{
    if i < s.len() {
        lemma_no_cut(s, start, i + 1);
    } else {
        assert(s.subrange(start, i) == s.skip(start));
    }
}

/// A token is its own only token: tokenizing is idempotent on words.
pub proof fn law_a_token_is_its_own_token(t: Seq<char>)
    requires
        is_token(t),
    ensures
        spec_tokens(t) == seq![t],
{
    lemma_no_cut(t, 0, 0);
    assert(t.skip(0) == t);
    assert(lowered(t) == t);
}

proof fn lemma_tokens_behind(before: Seq<char>, s: Seq<char>, start: int, i: int)
    requires
        0 <= start <= i <= s.len(),
    ensures
        tokens_from(before + s, before.len() + start, before.len() + i) == tokens_from(s, start, i),
    decreases s.len() - i,
{
    let whole = before + s;
    let n = before.len();
    assert(whole.subrange(n + start, n + i) =~= s.subrange(start, i));
    if i < s.len() {
        assert(whole[n + i] == s[i]);
        if is_alnum(s[i]) {
            lemma_tokens_behind(before, s, start, i + 1);
        } else {
            lemma_tokens_behind(before, s, i + 1, i + 1);
        }
    }
}

proof fn lemma_tokens_apart(a: Seq<char>, c: char, b: Seq<char>, start: int, i: int)
    requires
        !is_alnum(c),
        0 <= start <= i <= a.len(),
    ensures
        tokens_from(a + seq![c] + b, start, i) == tokens_from(a, start, i) + spec_tokens(b),
    decreases a.len() - i,
{
    let whole = a + seq![c] + b;
    let done = if start < i {
        seq![lowered(a.subrange(start, i))]
    } else {
        seq![]
    };
    assert(whole.subrange(start, i) =~= a.subrange(start, i));
    if i < a.len() {
        assert(whole[i] == a[i]);
        if is_alnum(a[i]) {
            lemma_tokens_apart(a, c, b, start, i + 1);
        } else {
            lemma_tokens_apart(a, c, b, i + 1, i + 1);
            assert(done + (tokens_from(a, i + 1, i + 1) + spec_tokens(b)) =~= done + tokens_from(
                a,
                i + 1,
                i + 1,
            ) + spec_tokens(b));
        }
    } else {
        assert(whole[i] == c);
        lemma_tokens_behind(a + seq![c], b, 0, 0);
    }
}

/// Anything but a letter or digit between two texts keeps their tokens apart:
/// the whole has the tokens of the one and then those of the other.
pub proof fn law_a_separator_keeps_tokens_apart(a: Seq<char>, c: char, b: Seq<char>)
    requires
        !is_alnum(c),
    ensures
        spec_tokens(a + seq![c] + b) == spec_tokens(a) + spec_tokens(b),
{
    lemma_tokens_apart(a, c, b, 0, 0);
}

proof fn lemma_tokens_alike(a: Seq<char>, b: Seq<char>, start: int, i: int)
    requires
        lowered(a) == lowered(b),
        0 <= start <= i <= a.len(),
    ensures
        tokens_from(a, start, i) == tokens_from(b, start, i),
    decreases a.len() - i,
{
    assert(a.len() == lowered(a).len());
    assert(b.len() == lowered(b).len());
    assert(lowered(a.subrange(start, i)) =~= lowered(a).subrange(start, i));
    assert(lowered(b.subrange(start, i)) =~= lowered(b).subrange(start, i));
    if i < a.len() {
        assert(lowered(a)[i] == lower(a[i]));
        assert(lowered(b)[i] == lower(b[i]));
        if is_alnum(a[i]) {
            lemma_tokens_alike(a, b, start, i + 1);
        } else {
            lemma_tokens_alike(a, b, i + 1, i + 1);
        }
    }
}

/// Texts that differ only in case have the same tokens.
pub proof fn law_case_does_not_matter(a: Seq<char>, b: Seq<char>)
    requires
        lowered(a) == lowered(b),
    ensures
        spec_tokens(a) == spec_tokens(b),
{
    lemma_tokens_alike(a, b, 0, 0);
}

/// A text in upper case has the tokens of the text.
pub proof fn law_upper_case_changes_nothing(s: Seq<char>)
    ensures
        spec_tokens(uppered(s)) == spec_tokens(s),
{
    assert(lowered(uppered(s)) =~= lowered(s));
    law_case_does_not_matter(uppered(s), s);
}

/// Words with a blank between them.
pub open spec fn spaced(words: Seq<Seq<char>>) -> Seq<char>
    decreases words.len(),
{
    if words.len() == 0 {
        seq![]
    } else if words.len() == 1 {
        words[0]
    } else {
        spaced(words.drop_last()) + seq![' '] + words.last()
    }
}

proof fn lemma_spaced(words: Seq<Seq<char>>)
    requires
        forall|k: int| 0 <= k < words.len() ==> is_token(#[trigger] words[k]),
    ensures
        spec_tokens(spaced(words)) == words,
    decreases words.len(),
{
    if words.len() == 0 {
        assert(spec_tokens(spaced(words)) =~= words);
    } else {
        assert(is_token(words[words.len() - 1]));
        law_a_token_is_its_own_token(words.last());
        if words.len() == 1 {
            assert(seq![words[0]] =~= words);
        } else {
            let front = words.drop_last();
            assert forall|k: int| 0 <= k < front.len() implies is_token(#[trigger] front[k]) by {
                assert(front[k] == words[k]);
            }
            lemma_spaced(front);
            law_a_separator_keeps_tokens_apart(spaced(front), ' ', words.last());
            assert(front + seq![words.last()] =~= words);
        }
    }
}

/// The tokens of a text, written out with blanks between them, read back as
/// the same tokens.
pub proof fn law_tokens_read_back(s: Seq<char>)
    ensures
        spec_tokens(spaced(spec_tokens(s))) == spec_tokens(s),
{
    assert forall|k: int| 0 <= k < spec_tokens(s).len() implies is_token(
        #[trigger] spec_tokens(s)[k],
    ) by {
        law_tokens_are_words(s, k);
    }
    lemma_spaced(spec_tokens(s));
}

/// Appends every token of `text`, lowercased, in order of appearance.
pub fn for_each_token(text: &str, out: &mut Vec<String>)
    ensures
        texts(final(out)@) == texts(old(out)@) + spec_tokens(text@),
{
    let chars = chars_of(text);
    let mut start: usize = 0;
    let mut i: usize = 0;
    let ghost prior = texts(out@);
    while i < chars.len()
        invariant
            chars@ == text@,
            start <= i <= chars@.len(),
            texts(out@) + tokens_from(text@, start as int, i as int) == prior + spec_tokens(text@),
        decreases chars@.len() - i,
    {
        if !alnum_char(chars[i]) {
            let ghost before = texts(out@);
            let ghost rest = tokens_from(text@, i + 1, i + 1);
            if start < i {
                let token = lowered_run(&chars, start, i);
                proof {
                    lemma_texts_push(out@, token);
                    assert(before.push(token@) + rest == before + (seq![token@] + rest));
                }
                out.push(token);
            } else {
                assert(before + (Seq::<Seq<char>>::empty() + rest) == before + rest);
            }
            start = i + 1;
        }
        i += 1;
    }
    if start < i {
        let token = lowered_run(&chars, start, i);
        proof {
            lemma_texts_push(out@, token);
            assert(texts(out@) + seq![token@] == texts(out@).push(token@));
        }
        out.push(token);
    } else {
        assert(texts(out@) + Seq::<Seq<char>>::empty() == texts(out@));
    }
}

fn lowered_run(chars: &Vec<char>, from: usize, to: usize) -> (run: String)
    requires
        from <= to <= chars@.len(),
    ensures
        run@ == lowered(chars@.subrange(from as int, to as int)),
{
    let mut run = String::new();
    let mut i: usize = from;
    while i < to
        invariant
            from <= i <= to <= chars@.len(),
            run@ == lowered(chars@.subrange(from as int, i as int)),
        decreases to - i,
    {
        run.push(lower_char(chars[i]));
        assert(lowered(chars@.subrange(from as int, i + 1)) == lowered(
            chars@.subrange(from as int, i as int),
        ).push(lower(chars@[i as int])));
        i += 1;
    }
    run
}

/// The tokens in `text`, lowercased, in order of appearance.
pub fn tokens(text: &str) -> (r: Vec<String>)
    ensures
        texts(r@) == spec_tokens(text@),
{
    let mut r: Vec<String> = Vec::new();
    for_each_token(text, &mut r);
    assert(texts(Seq::<String>::empty()) + spec_tokens(text@) == spec_tokens(text@));
    r
}

// ----------------------------------------------------------------- probe keys

/// The bytes a token is hashed under.
pub open spec fn probe_bytes(token: Seq<char>) -> Seq<u8> {
    let bytes = encode_utf8(token);
    if bytes.len() > MAX_TOKEN_LEN {
        bytes.take(MAX_TOKEN_LEN as int)
    } else {
        bytes
    }
}

/// Whether a text can be cut at the probe length. Every token can.
pub open spec fn probeable(token: Seq<char>) -> bool {
    let bytes = encode_utf8(token);
    bytes.len() > MAX_TOKEN_LEN ==> is_char_boundary(bytes, MAX_TOKEN_LEN as int)
}

/// The probe key of a token, as characters.
pub open spec fn spec_probe_key(token: Seq<char>) -> Seq<char> {
    if token.len() > MAX_TOKEN_LEN {
        token.take(MAX_TOKEN_LEN as int)
    } else {
        token
    }
}

pub proof fn lemma_token_bytes(t: Seq<char>)
    requires
        is_token(t),
    ensures
        encode_utf8(t).len() == t.len(),
        probeable(t),
        encode_utf8(spec_probe_key(t)) == probe_bytes(t),
        probe_bytes(spec_probe_key(t)) == probe_bytes(t),
        is_token(spec_probe_key(t)),
{
    assert(is_ascii_chars(t)) by {
        assert forall|i: int| 0 <= i < t.len() implies 0 <= (#[trigger] t[i]) as nat <= 127 by {
            assert(is_alnum(t[i]));
        }
    }
    is_ascii_chars_encode_utf8(t);
    let bytes = encode_utf8(t);
    let key = spec_probe_key(t);
    assert forall|i: int| 0 <= i < key.len() implies is_alnum(#[trigger] key[i]) && lower(key[i])
        == key[i] by {
        assert(key[i] == t[i]);
    }
    assert(is_ascii_chars(key)) by {
        assert forall|i: int| 0 <= i < key.len() implies 0 <= (#[trigger] key[i]) as nat <= 127 by {
            assert(is_alnum(t[i]));
        }
    }
    is_ascii_chars_encode_utf8(key);
    assert(encode_utf8(key) =~= probe_bytes(t));
    if bytes.len() > MAX_TOKEN_LEN {
        assert(is_alnum(t[40]));
        assert(bytes[40] < 128);
        vstd::utf8::encode_utf8_valid_utf8(t);
        is_char_boundary_iff_not_is_continuation_byte(bytes, 40);
    }
}

/// The key a token is hashed under: the token itself, or its first
/// [`MAX_TOKEN_LEN`] bytes if it is longer.
pub fn probe_key(token: &str) -> (r: &str)
    requires
        probeable(token@),
    ensures
        encode_utf8(r@) == probe_bytes(token@),
        is_token(token@) ==> r@ == spec_probe_key(token@),
{
    proof {
        if is_token(token@) {
            lemma_token_bytes(token@);
        }
    }
    if token.as_bytes().len() > MAX_TOKEN_LEN {
        let (key, rest) = token.split_at(MAX_TOKEN_LEN);
        proof {
            vstd::utf8::encode_utf8_decode_utf8(key@);
            vstd::utf8::encode_utf8_decode_utf8(spec_probe_key(token@));
            assert(encode_utf8(key@) =~= probe_bytes(token@));
        }
        key
    } else {
        token
    }
}

pub open spec fn str_views(s: Seq<&str>) -> Seq<Seq<char>> {
    Seq::new(s.len(), |i: int| s[i]@)
}

/// Whether a token occurs in one of the texts.
pub open spec fn has_token(texts: Seq<Seq<char>>, token: Seq<char>) -> bool {
    exists|i: int| 0 <= i < texts.len() && (#[trigger] spec_tokens(texts[i])).contains(token)
}

/// Whether `key` is the probe key of a token of the texts.
pub open spec fn has_key(texts: Seq<Seq<char>>, key: Seq<char>) -> bool {
    exists|token: Seq<char>| #[trigger] has_token(texts, token) && key == spec_probe_key(token)
}

proof fn lemma_held_token(documents: Seq<Seq<char>>, token: Seq<char>)
    requires
        has_token(documents, token),
    ensures
        is_token(token),
{
    let d = choose|d: int|
        0 <= d < documents.len() && (#[trigger] spec_tokens(documents[d])).contains(token);
    let j = choose|j: int|
        0 <= j < spec_tokens(documents[d]).len() && spec_tokens(documents[d])[j] == token;
    law_tokens_are_words(documents[d], j);
}

/// The distinct probe keys across many texts, in ascending order: what a
/// filter is built from.
pub fn distinct_probe_keys(documents: &[&str]) -> (keys: Vec<String>)
    ensures
        ascending(texts(keys@)),
        forall|key: Seq<char>|
            #[trigger] texts(keys@).contains(key) == has_key(str_views(documents@), key),
{
    let ghost views = str_views(documents@);
    let mut all: Vec<String> = Vec::new();
    let mut i: usize = 0;
    while i < documents.len()
        invariant
            i <= documents@.len(),
            views == str_views(documents@),
            forall|k: int| 0 <= k < all@.len() ==> has_key(views, (#[trigger] all@[k])@),
            forall|d: int, j: int|
                #![trigger spec_tokens(views[d])[j]]
                0 <= d < i && 0 <= j < spec_tokens(views[d]).len() ==> texts(all@).contains(
                    spec_probe_key(spec_tokens(views[d])[j]),
                ),
        decreases documents@.len() - i,
    {
        let found = tokens(documents[i]);
        let ghost ts = spec_tokens(views[i as int]);
        assert(texts(found@) == ts);
        let mut j: usize = 0;
        while j < found.len()
            invariant
                i < documents@.len(),
                j <= found@.len(),
                views == str_views(documents@),
                ts == spec_tokens(views[i as int]),
                texts(found@) == ts,
                forall|k: int| 0 <= k < all@.len() ==> has_key(views, (#[trigger] all@[k])@),
                forall|d: int, m: int|
                    #![trigger spec_tokens(views[d])[m]]
                    0 <= d < i && 0 <= m < spec_tokens(views[d]).len() ==> texts(all@).contains(
                        spec_probe_key(spec_tokens(views[d])[m]),
                    ),
                forall|m: int|
                    0 <= m < j ==> texts(all@).contains(spec_probe_key(#[trigger] ts[m])),
            decreases found@.len() - j,
        {
            let ghost before = all@;
            let ghost token = ts[j as int];
            proof {
                law_tokens_are_words(views[i as int], j as int);
                lemma_token_bytes(token);
                assert(texts(found@)[j as int] == token);
                assert(ts.contains(token));
                assert(has_token(views, token));
            }
            let key = copy(probe_key(found[j].as_str()));
            all.push(key);
            proof {
                lemma_texts_push(before, key);
                assert(has_key(views, key@));
                assert forall|x: Seq<char>| texts(before).contains(x) implies texts(
                    all@,
                ).contains(x) by {
                    let w = choose|w: int| 0 <= w < texts(before).len() && texts(before)[w] == x;
                    assert(texts(all@)[w] == x);
                }
                assert(texts(all@)[before.len() as int] == spec_probe_key(token));
            }
            j += 1;
        }
        i += 1;
    }
    let ghost gathered = texts(all@);
    let keys = sort_unique(all);
    proof {
        assert forall|key: Seq<char>| #[trigger] texts(keys@).contains(key) == has_key(
            views,
            key,
        ) by {
            if gathered.contains(key) {
                let k = choose|k: int| 0 <= k < gathered.len() && gathered[k] == key;
                assert(all@[k]@ == key);
            }
            if has_key(views, key) {
                let token = choose|token: Seq<char>| #[trigger]
                    has_token(views, token) && key == spec_probe_key(token);
                let d = choose|d: int|
                    0 <= d < views.len() && (#[trigger] spec_tokens(views[d])).contains(token);
                let j = choose|j: int|
                    0 <= j < spec_tokens(views[d]).len() && spec_tokens(views[d])[j] == token;
                assert(gathered.contains(spec_probe_key(spec_tokens(views[d])[j])));
            }
        }
    }
    keys
}

// -------------------------------------------------------------------- queries

/// Whether the texts hold every word, and there is a word to hold.
pub open spec fn spec_matches(words: Seq<Seq<char>>, documents: Seq<Seq<char>>) -> bool {
    &&& words.len() > 0
    &&& forall|k: int| 0 <= k < words.len() ==> has_token(documents, #[trigger] words[k])
}

/// A parsed content query: the distinct words a matching span must contain.
#[derive(Clone, Debug, PartialEq, Eq)]
pub struct Query {
    needle: String,
    tokens: Vec<String>,
}

impl Query {
    pub closed spec fn spec_needle(&self) -> Seq<char> {
        self.needle@
    }

    /// The words of the query.
    pub closed spec fn words(&self) -> Seq<Seq<char>> {
        texts(self.tokens@)
    }

    /// The words are those of the needle, each once, in ascending order.
    pub open spec fn well_formed(&self) -> bool {
        &&& ascending(self.words())
        &&& forall|t: Seq<char>| #[trigger]
            self.words().contains(t) == spec_tokens(self.spec_needle()).contains(t)
    }

    /// Parses a content query.
    pub fn new(needle: &str) -> (r: Self)
        ensures
            r.spec_needle() == needle@,
            r.well_formed(),
    {
        let words = sort_unique(tokens(needle));
        Query { needle: copy(needle), tokens: words }
    }

    /// The text as the caller wrote it, for error messages and echoing back.
    pub fn needle(&self) -> (r: &str)
        ensures
            r@ == self.spec_needle(),
    {
        self.needle.as_str()
    }

    /// The words a matching span must contain.
    pub fn tokens(&self) -> (r: &[String])
        ensures
            texts(r@) == self.words(),
    {
        self.tokens.as_slice()
    }

    /// Whether the index can narrow this query at all: a query with no tokens
    /// matches nothing and cannot be probed.
    pub fn is_indexable(&self) -> (r: bool)
        ensures
            r == (self.words().len() > 0),
    {
        self.tokens.len() > 0
    }

    /// Whether `documents` collectively contain every word of the query.
    pub fn matches(&self, documents: &[&str]) -> (r: bool)
        ensures
            r == spec_matches(self.words(), str_views(documents@)),
    {
        if self.tokens.len() == 0 {
            return false;
        }
        let ghost views = str_views(documents@);
        let mut k: usize = 0;
        while k < self.tokens.len()
            invariant
                k <= self.tokens@.len(),
                views == str_views(documents@),
                forall|m: int| 0 <= m < k ==> has_token(views, #[trigger] self.words()[m]),
            decreases self.tokens@.len() - k,
        {
            assert(self.words()[k as int] == self.tokens@[k as int]@);
            if !holds_token(documents, self.tokens[k].as_str()) {
                return false;
            }
            k += 1;
        }
        true
    }
}

/// Whether one of the texts holds the token.
fn holds_token(documents: &[&str], token: &str) -> (r: bool)
    ensures
        r == has_token(str_views(documents@), token@),
{
    let ghost views = str_views(documents@);
    let mut i: usize = 0;
    while i < documents.len()
        invariant
            i <= documents@.len(),
            views == str_views(documents@),
            forall|d: int| 0 <= d < i ==> !(#[trigger] spec_tokens(views[d])).contains(token@),
        decreases documents@.len() - i,
    {
        let found = tokens(documents[i]);
        assert(texts(found@) == spec_tokens(views[i as int]));
        let mut j: usize = 0;
        while j < found.len()
            invariant
                i < documents@.len(),
                j <= found@.len(),
                views == str_views(documents@),
                texts(found@) == spec_tokens(views[i as int]),
                forall|m: int| 0 <= m < j ==> #[trigger] texts(found@)[m] != token@,
            decreases found@.len() - j,
        {
            if same(found[j].as_str(), token) {
                assert(texts(found@)[j as int] == token@);
                assert(spec_tokens(views[i as int]).contains(token@));
                return true;
            }
            j += 1;
        }
        i += 1;
    }
    false
}

// -------------------------------------------------------------------- filters

/// The `i`-th bit position that a token sets in a filter of `bit_len` bits:
/// an arithmetic progression seeded by the two halves of one digest, with an
/// odd step.
pub open spec fn position(token: Seq<char>, bit_len: nat, i: int) -> int {
    let digest = spec_hash128(probe_bytes(token));
    (digest.0.wrapping_add((i as u64).wrapping_mul(digest.1 | 1)) & ((bit_len - 1) as u64)) as int
}

pub open spec fn has_bit(bits: Seq<u8>, p: int) -> bool {
    bits[p / 8] & (1u8 << ((p % 8) as u8)) != 0
}

/// Whether every bit of the token is set: the token may be present.
pub open spec fn admits(bits: Seq<u8>, token: Seq<char>) -> bool {
    forall|i: int|
        0 <= i < HASH_COUNT ==> has_bit(bits, #[trigger] position(token, bits.len() * 8, i))
}

/// Whether `p` is one of the token's bits.
pub open spec fn is_position(token: Seq<char>, bit_len: nat, p: int) -> bool {
    exists|i: int| 0 <= i < HASH_COUNT && p == #[trigger] position(token, bit_len, i)
}

/// The bits set among the first `n`.
pub open spec fn bits_set(bits: Seq<u8>, n: nat) -> nat
    decreases n,
{
    if n == 0 {
        0
    } else {
        bits_set(bits, (n - 1) as nat) + (if has_bit(bits, n - 1) {
            1nat
        } else {
            0
        })
    }
}

proof fn lemma_mask_bound(x: u64, mask: u64)
    by (bit_vector)
    ensures
        x & mask <= mask,
{
}

proof fn lemma_set_bit(x: u8, s: u8, t: u8)
    by (bit_vector)
    requires
        s < 8,
        t < 8,
    ensures
        ((x | (1u8 << s)) & (1u8 << t) != 0) == (x & (1u8 << t) != 0 || s == t),
{
}

pub proof fn lemma_position_in_range(token: Seq<char>, bit_len: nat, i: int)
    requires
        0 < bit_len <= u64::MAX,
    ensures
        0 <= position(token, bit_len, i) < bit_len,
{
    let digest = spec_hash128(probe_bytes(token));
    lemma_mask_bound(
        digest.0.wrapping_add((i as u64).wrapping_mul(digest.1 | 1)),
        (bit_len - 1) as u64,
    );
}

proof fn lemma_low_bits(x: u64, mask: u64)
    by (bit_vector)
    requires
        mask % 8 == 7,
    ensures
        (x & mask) % 8 == x % 8,
{
}

proof fn lemma_odd_step(x: u64)
    by (bit_vector)
    ensures
        (x | 1) % 2 == 1,
{
}

proof fn lemma_same_in_byte(x: int, a: int, b: int)
    requires
        a % 8 == b % 8,
    ensures
        (x + a) % 8 == (x + b) % 8,
{
}

proof fn lemma_wrapped_sum(x: u64, y: u64)
    ensures
        x.wrapping_add(y) % 8 == (x + y) % 8,
{
}

proof fn lemma_wrapped_product(x: u64, y: u64)
    ensures
        x.wrapping_mul(y) % 8 == (x * y) % 8,
{
    assert(x * y >= 0) by (nonlinear_arith)
        requires
            x >= 0,
            y >= 0,
    ;
    vstd::arithmetic::div_mod::lemma_mod_mod(x * y, 8, 0x2000_0000_0000_0000);
}

/// An odd step leaves its place within the byte for as long as it is taken.
proof fn lemma_odd_steps_apart(x: int, step: int, i: int, j: int)
    requires
        step % 2 == 1,
        0 <= i < j < HASH_COUNT,
    ensures
        (x + i * step) % 8 != (x + j * step) % 8,
{
    if i == 0 && j == 1 {
    } else if i == 0 && j == 2 {
    } else if i == 0 && j == 3 {
    } else if i == 1 && j == 2 {
    } else if i == 1 && j == 3 {
    } else {
        assert(i == 2 && j == 3);
    }
}

proof fn lemma_step_in_byte(low: u64, step: u64, i: u64, mask: u64)
    requires
        mask % 8 == 7,
    ensures
        (low.wrapping_add(i.wrapping_mul(step)) & mask) as int % 8 == (low + i * step) % 8,
{
    let moved = i.wrapping_mul(step);
    lemma_wrapped_product(i, step);
    lemma_wrapped_sum(low, moved);
    lemma_same_in_byte(low as int, moved as int, i * step);
    lemma_low_bits(low.wrapping_add(moved), mask);
}

/// Within its byte, a position follows the progression without wrapping.
proof fn lemma_position_in_byte(token: Seq<char>, bit_len: nat, i: int)
    requires
        0 < bit_len <= u64::MAX,
        bit_len % 8 == 0,
        0 <= i < HASH_COUNT,
    ensures
        ({
            let digest = spec_hash128(probe_bytes(token));
            position(token, bit_len, i) % 8 == (digest.0 + i * (digest.1 | 1)) % 8
        }),
{
    let digest = spec_hash128(probe_bytes(token));
    let mask = (bit_len - 1) as u64;
    assert(mask % 8 == 7);
    lemma_step_in_byte(digest.0, digest.1 | 1, i as u64, mask);
}

/// The positions of a token are apart in every filter of whole bytes: the step
/// is odd, so that none of them falls on another.
pub proof fn law_positions_are_apart(token: Seq<char>, bit_len: nat, i: int, j: int)
    requires
        0 < bit_len <= u64::MAX,
        bit_len % 8 == 0 || (is_pow2(bit_len) && bit_len >= 8),
        0 <= i < j < HASH_COUNT,
    ensures
        0 <= position(token, bit_len, i) < bit_len,
        0 <= position(token, bit_len, j) < bit_len,
        position(token, bit_len, i) != position(token, bit_len, j),
{
    if is_pow2(bit_len) && bit_len >= 8 {
        lemma_pow2_even(bit_len);
    }
    lemma_position_in_range(token, bit_len, i);
    lemma_position_in_range(token, bit_len, j);
    lemma_position_in_byte(token, bit_len, i);
    lemma_position_in_byte(token, bit_len, j);
    let digest = spec_hash128(probe_bytes(token));
    lemma_odd_step(digest.1);
    lemma_odd_steps_apart(digest.0 as int, (digest.1 | 1) as int, i, j);
}

/// The positions of a token are those of its probe key.
pub proof fn law_positions_follow_the_probe_key(a: Seq<char>, b: Seq<char>, bit_len: nat, i: int)
    requires
        probe_bytes(a) == probe_bytes(b),
    ensures
        position(a, bit_len, i) == position(b, bit_len, i),
{
}

/// The `HASH_COUNT` bit positions a token sets in a filter of `bit_len` bits.
pub fn bit_positions(token: &str, bit_len: usize) -> (r: Vec<usize>)
    requires
        probeable(token@),
        bit_len > 0,
    ensures
        r@.len() == HASH_COUNT,
        forall|i: int|
            0 <= i < HASH_COUNT ==> (#[trigger] r@[i]) as int == position(
                token@,
                bit_len as nat,
                i,
            ) && r@[i] < bit_len,
        bit_len % 8 == 0 || (is_pow2(bit_len as nat) && bit_len >= 8) ==> r@.no_duplicates(),
{
    let key = probe_key(token);
    let (low, high) = hash128(key.as_bytes());
    let mask: u64 = (bit_len - 1) as u64;
    let step: u64 = high | 1;
    let mut r: Vec<usize> = Vec::new();
    let mut i: u32 = 0;
    while i < HASH_COUNT
        invariant
            i <= HASH_COUNT,
            r@.len() == i,
            bit_len > 0,
            mask == bit_len - 1,
            step == high | 1,
            (low, high) == spec_hash128(probe_bytes(token@)),
            forall|k: int|
                0 <= k < i ==> (#[trigger] r@[k]) as int == position(token@, bit_len as nat, k)
                    && r@[k] < bit_len,
        decreases HASH_COUNT - i,
    {
        let at: u64 = low.wrapping_add((i as u64).wrapping_mul(step)) & mask;
        proof {
            lemma_mask_bound(low.wrapping_add((i as u64).wrapping_mul(step)), mask);
        }
        r.push(at as usize);
        i += 1;
    }
    proof {
        if bit_len % 8 == 0 || (is_pow2(bit_len as nat) && bit_len >= 8) {
            assert forall|a: int, b: int| 0 <= a < b < r@.len() implies r@[a] != r@[b] by {
                law_positions_are_apart(token@, bit_len as nat, a, b);
            }
        }
    }
    r
}

/// A Bloom filter over tokens, sized in whole bytes.
#[derive(Clone, Debug, PartialEq, Eq)]
pub struct Bloom {
    bits: Vec<u8>,
}

impl Bloom {
    /// The filter's bytes.
    pub closed spec fn bytes(&self) -> Seq<u8> {
        self.bits@
    }

    /// Whether the filter has a bit to set, and its bits can be counted.
    pub open spec fn usable(&self) -> bool {
        0 < self.bytes().len() && self.bytes().len() * 8 <= usize::MAX
    }

    /// An empty filter holding `bits` bits, which must be a power of two and
    /// at least eight.
    pub fn new(bits: usize) -> (r: Self)
        requires
            is_pow2(bits as nat),
            bits >= 8,
        ensures
            r.bytes() == Seq::new((bits / 8) as nat, |i: int| 0u8),
            r.usable(),
            forall|p: int| 0 <= p < bits ==> !has_bit(r.bytes(), p),
    {
        proof {
            lemma_pow2_even(bits as nat);
        }
        Bloom::blank(bits / 8)
    }

    /// A filter of so many bytes with no bit set.
    fn blank(bytes: usize) -> (r: Self)
        ensures
            r.bytes() == Seq::new(bytes as nat, |i: int| 0u8),
            forall|p: int| 0 <= p < bytes * 8 ==> !has_bit(r.bytes(), p),
    {
        let zeros: Vec<u8> = vec![0u8; bytes];
        assert(zeros@ =~= Seq::new(bytes as nat, |i: int| 0u8));
        assert forall|p: int| 0 <= p < bytes * 8 implies !has_bit(zeros@, p) by {
            let t = (p % 8) as u8;
            assert(0u8 & (1u8 << t) == 0) by (bit_vector);
        }
        Bloom { bits: zeros }
    }

    /// Wraps bytes read from a segment.
    pub fn from_bytes(bytes: Vec<u8>) -> (r: Self)
        ensures
            r.bytes() == bytes@,
    {
        Bloom { bits: bytes }
    }

    /// The filter's bytes, exactly as stored.
    pub fn as_bytes(&self) -> (r: &[u8])
        ensures
            r@ == self.bytes(),
    {
        self.bits.as_slice()
    }

    /// The filter's size in bits.
    pub fn bit_len(&self) -> (r: usize)
        requires
            self.bytes().len() * 8 <= usize::MAX,
        ensures
            r == self.bytes().len() * 8,
    {
        self.bits.len() * 8
    }

    /// Records that `token` is present: sets its bits and no other.
    pub fn insert(&mut self, token: &str)
        requires
            old(self).usable(),
            probeable(token@),
        ensures
            final(self).usable(),
            final(self).bytes().len() == old(self).bytes().len(),
            forall|p: int|
                0 <= p < old(self).bytes().len() * 8 ==> (#[trigger] has_bit(
                    final(self).bytes(),
                    p,
                ) == (has_bit(old(self).bytes(), p) || is_position(
                    token@,
                    old(self).bytes().len() * 8,
                    p,
                ))),
            admits(final(self).bytes(), token@),
    {
        let ghost before = self.bits@;
        let ghost n = before.len() * 8;
        let bit_len = self.bit_len();
        let positions = bit_positions(token, bit_len);
        let mut k: usize = 0;
        while k < positions.len()
            invariant
                k <= positions@.len() == HASH_COUNT,
                self.bits@.len() == before.len(),
                0 < before.len(),
                n == before.len() * 8,
                forall|i: int|
                    0 <= i < HASH_COUNT ==> (#[trigger] positions@[i]) as int == position(
                        token@,
                        n,
                        i,
                    ) && positions@[i] < n,
                forall|p: int|
                    0 <= p < n ==> (#[trigger] has_bit(self.bits@, p) == (has_bit(before, p)
                        || exists|i: int| 0 <= i < k && p == #[trigger] position(token@, n, i))),
            decreases positions@.len() - k,
        {
            let at: usize = positions[k];
            let byte: usize = at / 8;
            let shift: u8 = (at % 8) as u8;
            let ghost prior = self.bits@;
            assert(position(token@, n, k as int) == at);
            let value: u8 = self.bits[byte] | (1u8 << shift);
            self.bits.set(byte, value);
            proof {
                assert forall|p: int| 0 <= p < n implies (#[trigger] has_bit(self.bits@, p) == (
                has_bit(before, p) || exists|i: int|
                    0 <= i < k + 1 && p == #[trigger] position(token@, n, i))) by {
                    lemma_set_bit(prior[byte as int], shift, (p % 8) as u8);
                    assert(has_bit(self.bits@, p) == (has_bit(prior, p) || p == at));
                    assert(has_bit(prior, p) == (has_bit(before, p) || exists|i: int|
                        0 <= i < k && p == #[trigger] position(token@, n, i)));
                    if exists|i: int| 0 <= i < k && p == #[trigger] position(token@, n, i) {
                        let i = choose|i: int| 0 <= i < k && p == #[trigger] position(token@, n, i);
                        assert(0 <= i < k + 1 && p == position(token@, n, i));
                    }
                }
            }
            k += 1;
        }
        proof {
            assert forall|i: int| 0 <= i < HASH_COUNT implies has_bit(
                self.bits@,
                #[trigger] position(token@, self.bits@.len() * 8, i),
            ) by {
                lemma_position_in_range(token@, n, i);
                assert(is_position(token@, n, position(token@, n, i)));
            }
        }
    }

    /// Whether `token` may be present. `false` means definitely absent.
    pub fn may_contain(&self, token: &str) -> (r: bool)
        requires
            self.usable(),
            probeable(token@),
        ensures
            r == admits(self.bytes(), token@),
    {
        let bit_len = self.bit_len();
        let positions = bit_positions(token, bit_len);
        let mut k: usize = 0;
        while k < positions.len()
            invariant
                k <= positions@.len() == HASH_COUNT,
                bit_len == self.bits@.len() * 8,
                forall|i: int|
                    0 <= i < HASH_COUNT ==> (#[trigger] positions@[i]) as int == position(
                        token@,
                        bit_len as nat,
                        i,
                    ) && positions@[i] < bit_len,
                forall|i: int|
                    0 <= i < k ==> has_bit(
                        self.bits@,
                        #[trigger] position(token@, bit_len as nat, i),
                    ),
            decreases positions@.len() - k,
        {
            let at: usize = positions[k];
            let shift: u8 = (at % 8) as u8;
            assert(position(token@, bit_len as nat, k as int) == at);
            if self.bits[at / 8] & (1u8 << shift) == 0 {
                assert(!has_bit(self.bits@, position(token@, bit_len as nat, k as int)));
                return false;
            }
            k += 1;
        }
        true
    }

    /// Whether every one of `tokens` may be present.
    pub fn may_contain_all(&self, tokens: &[String]) -> (r: bool)
        requires
            self.usable(),
            forall|k: int| 0 <= k < tokens@.len() ==> probeable((#[trigger] tokens@[k])@),
        ensures
            r == forall|k: int| 0 <= k < tokens@.len() ==> admits(self.bytes(), (#[trigger] tokens@[k])@),
    {
        let mut i: usize = 0;
        while i < tokens.len()
            invariant
                i <= tokens@.len(),
                self.usable(),
                forall|k: int| 0 <= k < tokens@.len() ==> probeable((#[trigger] tokens@[k])@),
                forall|k: int| 0 <= k < i ==> admits(self.bytes(), (#[trigger] tokens@[k])@),
            decreases tokens@.len() - i,
        {
            if !self.may_contain(tokens[i].as_str()) {
                return false;
            }
            i += 1;
        }
        true
    }

    /// How many bits are set. A filter with nearly all of them set has
    /// saturated and no longer prunes; it is still correct.
    pub fn set_bits(&self) -> (r: usize)
        requires
            self.bytes().len() * 8 <= usize::MAX,
        ensures
            r == bits_set(self.bytes(), self.bytes().len() * 8),
    {
        let n = self.bit_len();
        let mut count: usize = 0;
        let mut p: usize = 0;
        while p < n
            invariant
                p <= n,
                n == self.bits@.len() * 8,
                count == bits_set(self.bits@, p as nat),
                count <= p,
            decreases n - p,
        {
            let shift: u8 = (p % 8) as u8;
            if self.bits[p / 8] & (1u8 << shift) != 0 {
                count += 1;
            }
            p += 1;
        }
        count
    }
}

// --------------------------------------------------------------------- sizing

pub open spec fn is_pow2(n: nat) -> bool
    decreases n,
{
    n == 1 || (n > 1 && n % 2 == 0 && is_pow2(n / 2))
}

/// The smallest power of two that is at least `n`.
pub open spec fn ceil_pow2(n: nat) -> nat
    decreases n,
{
    if n <= 1 {
        1
    } else {
        2 * ceil_pow2((n + 1) / 2)
    }
}

proof fn lemma_pow2_even(n: nat)
    requires
        is_pow2(n),
        n >= 8,
    ensures
        n % 8 == 0,
{
    reveal_with_fuel(is_pow2, 4);
}

pub proof fn lemma_ceil_pow2(n: nat)
    ensures
        is_pow2(ceil_pow2(n)),
        ceil_pow2(n) >= n,
        n >= 1 ==> ceil_pow2(n) < 2 * n,
    decreases n,
{
    if n > 1 {
        lemma_ceil_pow2((n + 1) / 2);
    }
}

/// No smaller power of two reaches `n`.
pub proof fn lemma_ceil_pow2_least(n: nat, q: nat)
    requires
        is_pow2(q),
        n <= q,
    ensures
        ceil_pow2(n) <= q,
    decreases n,
{
    if n > 1 {
        lemma_ceil_pow2_least((n + 1) / 2, q / 2);
    }
}

/// The largest power of two that is at most `n`; none is at most zero.
pub open spec fn floor_pow2(n: nat) -> nat
    decreases n,
{
    if n == 0 {
        0
    } else if n == 1 {
        1
    } else {
        2 * floor_pow2(n / 2)
    }
}

pub proof fn lemma_floor_pow2(n: nat)
    requires
        n >= 1,
    ensures
        is_pow2(floor_pow2(n)),
        floor_pow2(n) <= n < 2 * floor_pow2(n),
    decreases n,
{
    if n > 1 {
        lemma_floor_pow2(n / 2);
    }
}

/// No larger power of two stays within `n`.
pub proof fn lemma_floor_pow2_most(n: nat, q: nat)
    requires
        is_pow2(q),
        q <= n,
    ensures
        q <= floor_pow2(n),
    decreases n,
{
    if n > 1 && q > 1 {
        lemma_floor_pow2_most(n / 2, q / 2);
    } else if n >= 1 {
        lemma_floor_pow2(n);
    }
}

/// Whether a filter of whole bytes within the bounds can have a power of two
/// of bits.
pub open spec fn has_pow2_between(min_bytes: nat, max_bytes: nat) -> bool {
    exists|q: nat| #[trigger] is_pow2(q) && min_bytes * 8 <= q <= max_bytes * 8
}

fn last_power_of_two(n: usize) -> (r: usize)
    ensures
        r == floor_pow2(n as nat),
        r <= n,
    decreases n,
{
    if n <= 1 {
        n
    } else {
        2 * last_power_of_two(n / 2)
    }
}

fn next_power_of_two(n: usize) -> (r: usize)
    requires
        ceil_pow2(n as nat) <= usize::MAX,
    ensures
        r == ceil_pow2(n as nat),
    decreases n,
{
    if n <= 1 {
        1
    } else {
        assert((n + 1) / 2 == n / 2 + n % 2);
        2 * next_power_of_two(n / 2 + n % 2)
    }
}

/// The filter size for so many distinct tokens: eight bits each, rounded up to
/// a power of two, at least the minimum, and at most the last power of two
/// within the maximum. Where the bounds leave no power of two, the size wanted
/// is above them, and they cut it to the maximum.
pub open spec fn spec_size_bits(distinct: nat, min_bytes: nat, max_bytes: nat) -> nat {
    let wanted = ceil_pow2(if distinct * 8 < min_bytes * 8 {
        min_bytes * 8
    } else {
        distinct * 8
    });
    let limit = floor_pow2(max_bytes * 8);
    if limit < min_bytes * 8 {
        max_bytes * 8
    } else if wanted > limit {
        limit
    } else {
        wanted
    }
}

/// A size lies within its bounds, and is a power of two where one does.
pub proof fn law_sizes_are_clamped(distinct: nat, min_bytes: nat, max_bytes: nat)
    requires
        min_bytes <= max_bytes,
    ensures
        min_bytes * 8 <= spec_size_bits(distinct, min_bytes, max_bytes) <= max_bytes * 8,
        has_pow2_between(min_bytes, max_bytes) ==> is_pow2(
            spec_size_bits(distinct, min_bytes, max_bytes),
        ),
{
    let low = min_bytes * 8;
    let asked = if distinct * 8 < low {
        low
    } else {
        distinct * 8
    };
    lemma_ceil_pow2(asked);
    if max_bytes > 0 {
        lemma_floor_pow2(max_bytes * 8);
    }
    if has_pow2_between(min_bytes, max_bytes) {
        let q = choose|q: nat| #[trigger] is_pow2(q) && low <= q <= max_bytes * 8;
        lemma_floor_pow2_most(max_bytes * 8, q);
    }
}

/// The filter size for `distinct_tokens`, in bits: eight bits each, rounded up
/// to a power of two and clamped to `[min_bytes, max_bytes]`. Where the bounds
/// leave no power of two, it is the upper one.
pub fn size_bits(distinct_tokens: usize, min_bytes: usize, max_bytes: usize) -> (r: usize)
    requires
        min_bytes <= max_bytes,
        max_bytes * 8 <= usize::MAX,
    ensures
        r == spec_size_bits(distinct_tokens as nat, min_bytes as nat, max_bytes as nat),
        min_bytes * 8 <= r && r <= max_bytes * 8,
        has_pow2_between(min_bytes as nat, max_bytes as nat) ==> is_pow2(r as nat),
{
    let low: usize = min_bytes * BITS_PER_TOKEN;
    let asked: usize = if distinct_tokens <= usize::MAX / BITS_PER_TOKEN {
        distinct_tokens * BITS_PER_TOKEN
    } else {
        usize::MAX
    };
    let needed: usize = if asked < low {
        low
    } else {
        asked
    };
    let limit = last_power_of_two(max_bytes * BITS_PER_TOKEN);
    proof {
        let exact: nat = if distinct_tokens * 8 < low {
            low as nat
        } else {
            (distinct_tokens * 8) as nat
        };
        lemma_ceil_pow2(exact);
        law_sizes_are_clamped(distinct_tokens as nat, min_bytes as nat, max_bytes as nat);
        if max_bytes > 0 {
            lemma_floor_pow2(max_bytes as nat * 8);
            if needed < limit {
                assert(exact == needed);
                lemma_ceil_pow2_least(exact, limit as nat);
            }
        }
    }
    if limit < low {
        max_bytes * BITS_PER_TOKEN
    } else if needed >= limit {
        limit
    } else {
        next_power_of_two(needed)
    }
}

/// Builds a filter over the distinct tokens of `documents`, at the size they
/// ask for within the bounds.
pub fn build(documents: &[&str], min_bytes: usize, max_bytes: usize) -> (bloom: Bloom)
    requires
        min_bytes <= max_bytes,
        1 <= max_bytes,
        min_bytes >= 1 || exists|token: Seq<char>| #[trigger]
            has_token(str_views(documents@), token),
        max_bytes * 8 <= usize::MAX,
    ensures
        bloom.usable(),
        built_over(bloom.bytes(), str_views(documents@), min_bytes as nat, max_bytes as nat),
{
    let ghost views = str_views(documents@);
    let keys = distinct_probe_keys(documents);
    proof {
        lemma_ceil_pow2(keys@.len() * 8);
        lemma_floor_pow2(max_bytes as nat * 8);
        if min_bytes == 0 {
            let token = choose|token: Seq<char>| #[trigger] has_token(views, token);
            assert(has_key(views, spec_probe_key(token)));
            assert(texts(keys@).contains(spec_probe_key(token)));
            reveal_with_fuel(is_pow2, 4);
            lemma_floor_pow2_most(max_bytes as nat * 8, 8);
        }
    }
    let size = size_bits(keys.len(), min_bytes, max_bytes);
    proof {
        if is_pow2(size as nat) {
            lemma_pow2_even(size as nat);
        }
    }
    let mut bloom = Bloom::blank(size / 8);
    let ghost n = bloom.bytes().len() * 8;
    assert(n == size);
    let mut k: usize = 0;
    while k < keys.len()
        invariant
            k <= keys@.len(),
            bloom.usable(),
            n == bloom.bytes().len() * 8,
            n == spec_size_bits(keys@.len(), min_bytes as nat, max_bytes as nat),
            ascending(texts(keys@)),
            views == str_views(documents@),
            forall|key: Seq<char>| #[trigger] texts(keys@).contains(key) == has_key(views, key),
            forall|p: int|
                0 <= p < n ==> (#[trigger] has_bit(bloom.bytes(), p) == exists|m: int|
                    0 <= m < k && #[trigger] is_position(texts(keys@)[m], n, p)),
        decreases keys@.len() - k,
    {
        let ghost before = bloom.bytes();
        proof {
            assert(texts(keys@)[k as int] == keys@[k as int]@);
            assert(texts(keys@).contains(keys@[k as int]@));
            let token = choose|token: Seq<char>| #[trigger]
                has_token(views, token) && keys@[k as int]@ == spec_probe_key(token);
            lemma_held_token(views, token);
            lemma_token_bytes(token);
            lemma_token_bytes(keys@[k as int]@);
        }
        bloom.insert(keys[k].as_str());
        proof {
            assert forall|p: int| 0 <= p < n implies (#[trigger] has_bit(bloom.bytes(), p)
                == exists|m: int| 0 <= m < k + 1 && #[trigger] is_position(texts(keys@)[m], n, p))
                by {
                if has_bit(before, p) {
                    let m = choose|m: int|
                        0 <= m < k && #[trigger] is_position(texts(keys@)[m], n, p);
                    assert(0 <= m < k + 1 && is_position(texts(keys@)[m], n, p));
                }
                if is_position(keys@[k as int]@, n, p) {
                    assert(is_position(texts(keys@)[k as int], n, p));
                }
            }
        }
        k += 1;
    }
    proof {
        let bits = bloom.bytes();
        let words = texts(keys@);
        assert(built_with(
            bits,
            words,
            spec_size_bits(words.len(), min_bytes as nat, max_bytes as nat),
        ));
    }
    bloom
}

/// Whether the bits that are set are exactly those of the keys.
pub open spec fn built_with(bits: Seq<u8>, keys: Seq<Seq<char>>, bit_len: nat) -> bool {
    &&& bits.len() * 8 == bit_len
    &&& forall|p: int|
        0 <= p < bit_len ==> (#[trigger] has_bit(bits, p) == exists|m: int|
            0 <= m < keys.len() && #[trigger] is_position(keys[m], bit_len, p))
}

/// Whether a filter holds exactly the distinct probe keys of the texts, at the
/// size those keys ask for.
pub open spec fn built_over(
    bits: Seq<u8>,
    documents: Seq<Seq<char>>,
    min_bytes: nat,
    max_bytes: nat,
) -> bool {
    exists|keys: Seq<Seq<char>>|
        {
            &&& ascending(keys)
            &&& forall|key: Seq<char>| #[trigger] keys.contains(key) == has_key(documents, key)
            &&& #[trigger] built_with(bits, keys, spec_size_bits(keys.len(), min_bytes, max_bytes))
        }
}

// ----------------------------------------------------------------------- laws

/// A filter built over texts admits every token of those texts: it has no
/// false negatives.
pub proof fn law_no_false_negatives(
    bits: Seq<u8>,
    documents: Seq<Seq<char>>,
    min_bytes: nat,
    max_bytes: nat,
    token: Seq<char>,
)
    requires
        built_over(bits, documents, min_bytes, max_bytes),
        0 < bits.len() * 8 <= u64::MAX,
        has_token(documents, token),
    ensures
        admits(bits, token),
{
    let keys = choose|keys: Seq<Seq<char>>|
        {
            &&& ascending(keys)
            &&& forall|key: Seq<char>| #[trigger] keys.contains(key) == has_key(documents, key)
            &&& #[trigger] built_with(bits, keys, spec_size_bits(keys.len(), min_bytes, max_bytes))
        };
    let n = bits.len() * 8;
    lemma_held_token(documents, token);
    lemma_token_bytes(token);
    let key = spec_probe_key(token);
    assert(has_key(documents, key));
    assert(keys.contains(key));
    let m = choose|m: int| 0 <= m < keys.len() && keys[m] == key;
    assert forall|i: int| 0 <= i < HASH_COUNT implies has_bit(
        bits,
        #[trigger] position(token, bits.len() * 8, i),
    ) by {
        lemma_position_in_range(token, n, i);
        assert(position(token, n, i) == position(key, n, i));
        assert(is_position(keys[m], n, position(token, n, i)));
    }
}

/// What a query matches, the filter admits, at every size and however full it
/// is: a block that the filter rules out could never have matched.
pub proof fn law_a_match_is_admitted(
    bits: Seq<u8>,
    documents: Seq<Seq<char>>,
    min_bytes: nat,
    max_bytes: nat,
    words: Seq<Seq<char>>,
)
    requires
        built_over(bits, documents, min_bytes, max_bytes),
        0 < bits.len() * 8 <= u64::MAX,
        spec_matches(words, documents),
    ensures
        forall|k: int| 0 <= k < words.len() ==> admits(bits, #[trigger] words[k]),
{
    assert forall|k: int| 0 <= k < words.len() implies admits(bits, #[trigger] words[k]) by {
        law_no_false_negatives(bits, documents, min_bytes, max_bytes, words[k]);
    }
}

proof fn lemma_same_byte(x: u8, y: u8)
    by (bit_vector)
    requires
        (x & (1u8 << 0u8) != 0) == (y & (1u8 << 0u8) != 0),
        (x & (1u8 << 1u8) != 0) == (y & (1u8 << 1u8) != 0),
        (x & (1u8 << 2u8) != 0) == (y & (1u8 << 2u8) != 0),
        (x & (1u8 << 3u8) != 0) == (y & (1u8 << 3u8) != 0),
        (x & (1u8 << 4u8) != 0) == (y & (1u8 << 4u8) != 0),
        (x & (1u8 << 5u8) != 0) == (y & (1u8 << 5u8) != 0),
        (x & (1u8 << 6u8) != 0) == (y & (1u8 << 6u8) != 0),
        (x & (1u8 << 7u8) != 0) == (y & (1u8 << 7u8) != 0),
    ensures
        x == y,
{
}

/// Bytes are what their bits are.
proof fn lemma_same_bits(a: Seq<u8>, b: Seq<u8>)
    requires
        a.len() == b.len(),
        forall|p: int| 0 <= p < a.len() * 8 ==> #[trigger] has_bit(a, p) == has_bit(b, p),
    ensures
        a == b,
{
    assert forall|k: int| 0 <= k < a.len() implies a[k] == b[k] by {
        assert forall|t: int| 0 <= t < 8 implies #[trigger] has_bit(a, 8 * k + t) == has_bit(
            b,
            8 * k + t,
        ) && (8 * k + t) / 8 == k && (8 * k + t) % 8 == t by {
        }
        assert(has_bit(a, 8 * k + 0) == has_bit(b, 8 * k + 0));
        assert(has_bit(a, 8 * k + 1) == has_bit(b, 8 * k + 1));
        assert(has_bit(a, 8 * k + 2) == has_bit(b, 8 * k + 2));
        assert(has_bit(a, 8 * k + 3) == has_bit(b, 8 * k + 3));
        assert(has_bit(a, 8 * k + 4) == has_bit(b, 8 * k + 4));
        assert(has_bit(a, 8 * k + 5) == has_bit(b, 8 * k + 5));
        assert(has_bit(a, 8 * k + 6) == has_bit(b, 8 * k + 6));
        assert(has_bit(a, 8 * k + 7) == has_bit(b, 8 * k + 7));
        lemma_same_byte(a[k], b[k]);
    }
}

/// Filters over the same words, each of them once, are the same.
proof fn lemma_same_keys(a: Seq<u8>, b: Seq<u8>, left: Seq<Seq<char>>, right: Seq<Seq<char>>, n: nat)
    requires
        built_with(a, left, n),
        built_with(b, right, n),
        forall|key: Seq<char>| #[trigger] left.contains(key) == right.contains(key),
    ensures
        a == b,
{
    assert forall|p: int| 0 <= p < a.len() * 8 implies #[trigger] has_bit(a, p) == has_bit(
        b,
        p,
    ) by {
        if has_bit(a, p) {
            let m = choose|m: int| 0 <= m < left.len() && #[trigger] is_position(left[m], n, p);
            assert(left.contains(left[m]));
            let k = choose|k: int| 0 <= k < right.len() && right[k] == left[m];
            assert(is_position(right[k], n, p));
        }
        if has_bit(b, p) {
            let m = choose|m: int| 0 <= m < right.len() && #[trigger] is_position(right[m], n, p);
            assert(left.contains(right[m]));
            let k = choose|k: int| 0 <= k < left.len() && left[k] == right[m];
            assert(is_position(left[k], n, p));
        }
    }
    lemma_same_bits(a, b);
}

/// The tokens decide the filter: texts that hold the same tokens, in any order
/// and however often, give the same bytes.
pub proof fn law_the_tokens_decide_the_filter(
    a: Seq<u8>,
    b: Seq<u8>,
    left: Seq<Seq<char>>,
    right: Seq<Seq<char>>,
    min_bytes: nat,
    max_bytes: nat,
)
    requires
        built_over(a, left, min_bytes, max_bytes),
        built_over(b, right, min_bytes, max_bytes),
        forall|token: Seq<char>| #[trigger] has_token(left, token) == has_token(right, token),
    ensures
        a == b,
{
    let xs = choose|keys: Seq<Seq<char>>|
        {
            &&& ascending(keys)
            &&& forall|key: Seq<char>| #[trigger] keys.contains(key) == has_key(left, key)
            &&& #[trigger] built_with(a, keys, spec_size_bits(keys.len(), min_bytes, max_bytes))
        };
    let ys = choose|keys: Seq<Seq<char>>|
        {
            &&& ascending(keys)
            &&& forall|key: Seq<char>| #[trigger] keys.contains(key) == has_key(right, key)
            &&& #[trigger] built_with(b, keys, spec_size_bits(keys.len(), min_bytes, max_bytes))
        };
    assert forall|key: Seq<char>| #[trigger] xs.contains(key) == ys.contains(key) by {
        if has_key(left, key) {
            let token = choose|token: Seq<char>| #[trigger]
                has_token(left, token) && key == spec_probe_key(token);
            assert(has_token(right, token));
        }
        if has_key(right, key) {
            let token = choose|token: Seq<char>| #[trigger]
                has_token(right, token) && key == spec_probe_key(token);
            assert(has_token(left, token));
        }
    }
    assert(xs.to_set() =~= ys.to_set());
    xs.unique_seq_to_set();
    ys.unique_seq_to_set();
    lemma_same_keys(a, b, xs, ys, spec_size_bits(xs.len(), min_bytes, max_bytes));
}

/// Reordering texts, or repeating some, does not change their filter.
pub proof fn law_order_and_repeats_do_not_matter(
    a: Seq<u8>,
    b: Seq<u8>,
    left: Seq<Seq<char>>,
    right: Seq<Seq<char>>,
    min_bytes: nat,
    max_bytes: nat,
)
    requires
        built_over(a, left, min_bytes, max_bytes),
        built_over(b, right, min_bytes, max_bytes),
        left.to_set() == right.to_set(),
    ensures
        a == b,
{
    assert forall|token: Seq<char>| #[trigger] has_token(left, token) == has_token(
        right,
        token,
    ) by {
        if has_token(left, token) {
            let i = choose|i: int|
                0 <= i < left.len() && (#[trigger] spec_tokens(left[i])).contains(token);
            assert(left.to_set().contains(left[i]));
            let k = choose|k: int| 0 <= k < right.len() && right[k] == left[i];
            assert(spec_tokens(right[k]).contains(token));
        }
        if has_token(right, token) {
            let i = choose|i: int|
                0 <= i < right.len() && (#[trigger] spec_tokens(right[i])).contains(token);
            assert(right.to_set().contains(right[i]));
            let k = choose|k: int| 0 <= k < left.len() && left[k] == right[i];
            assert(spec_tokens(left[k]).contains(token));
        }
    }
    law_the_tokens_decide_the_filter(a, b, left, right, min_bytes, max_bytes);
}

/// Inserting a token keeps every token that the filter already admits.
pub proof fn law_insert_forgets_nothing(
    before: Seq<u8>,
    after: Seq<u8>,
    inserted: Seq<char>,
    held: Seq<char>,
)
    requires
        0 < before.len() * 8 <= u64::MAX,
        after.len() == before.len(),
        forall|p: int|
            0 <= p < before.len() * 8 ==> (#[trigger] has_bit(after, p) == (has_bit(before, p)
                || is_position(inserted, before.len() * 8, p))),
        admits(before, held),
    ensures
        admits(after, held),
{
    assert forall|i: int| 0 <= i < HASH_COUNT implies has_bit(
        after,
        #[trigger] position(held, after.len() * 8, i),
    ) by {
        lemma_position_in_range(held, before.len() * 8, i);
        assert(has_bit(before, position(held, before.len() * 8, i)));
    }
}

/// Two words that share their first `MAX_TOKEN_LEN` characters are candidates
/// for each other in every filter.
pub proof fn law_a_shared_prefix_admits_both(bits: Seq<u8>, a: Seq<char>, b: Seq<char>)
    requires
        is_token(a),
        is_token(b),
        spec_probe_key(a) == spec_probe_key(b),
    ensures
        admits(bits, a) == admits(bits, b),
{
    lemma_token_bytes(a);
    lemma_token_bytes(b);
    assert forall|i: int| 0 <= i < HASH_COUNT implies #[trigger] position(a, bits.len() * 8, i)
        == position(b, bits.len() * 8, i) by {
    }
    if admits(bits, a) {
        assert forall|i: int| 0 <= i < HASH_COUNT implies has_bit(
            bits,
            #[trigger] position(b, bits.len() * 8, i),
        ) by {
            assert(has_bit(bits, position(a, bits.len() * 8, i)));
        }
    }
    if admits(bits, b) {
        assert forall|i: int| 0 <= i < HASH_COUNT implies has_bit(
            bits,
            #[trigger] position(a, bits.len() * 8, i),
        ) by {
            assert(has_bit(bits, position(b, bits.len() * 8, i)));
        }
    }
}

/// Whether a word is one of the words of one of the texts.
pub open spec fn stands_in(documents: Seq<Seq<char>>, word: Seq<char>) -> bool {
    exists|d: int| 0 <= d < documents.len() && spec_tokens(#[trigger] documents[d]).contains(word)
}

/// A query matches texts that together hold every one of its words, each as a
/// whole word; one without words matches nothing.
pub proof fn law_what_a_query_matches(words: Seq<Seq<char>>, documents: Seq<Seq<char>>)
    ensures
        spec_matches(words, documents) <==> words.len() > 0 && forall|k: int|
            0 <= k < words.len() ==> stands_in(documents, #[trigger] words[k]),
{
    assert forall|k: int| 0 <= k < words.len() implies has_token(documents, #[trigger] words[k])
        == stands_in(documents, words[k]) by {
        let w = words[k];
        if has_token(documents, w) {
            let d = choose|d: int|
                0 <= d < documents.len() && (#[trigger] spec_tokens(documents[d])).contains(w);
            assert(spec_tokens(documents[d]).contains(w));
        }
        if stands_in(documents, w) {
            let d = choose|d: int|
                0 <= d < documents.len() && spec_tokens(#[trigger] documents[d]).contains(w);
            assert(spec_tokens(documents[d]).contains(w));
        }
    }
}

/// A text that holds a word only as a part of a longer one does not hold the
/// word: each token is a whole run of letters and digits.
pub proof fn law_no_word_within_a_word(word: Seq<char>, longer: Seq<char>)
    requires
        is_token(word),
        is_token(longer),
        word != longer,
    ensures
        !spec_matches(seq![word], seq![longer]),
        spec_matches(seq![word], seq![word]),
{
    law_a_token_is_its_own_token(longer);
    law_a_token_is_its_own_token(word);
    let one = seq![word];
    let docs = seq![longer];
    if spec_matches(one, docs) {
        assert(has_token(docs, one[0]));
        let d = choose|d: int|
            0 <= d < docs.len() && (#[trigger] spec_tokens(docs[d])).contains(word);
        assert(seq![longer].contains(word));
    }
    assert(has_token(one, word)) by {
        assert(spec_tokens(one[0])[0] == word);
        assert(spec_tokens(one[0]).contains(word));
    }
}

/// A word of up to forty characters is probed as it is, a longer one by its
/// first forty.
pub proof fn law_probe_keys(token: Seq<char>)
    ensures
        token.len() <= 40 ==> spec_probe_key(token) == token,
        token.len() > 40 ==> spec_probe_key(token).len() == 40 && spec_probe_key(token)
            == token.take(40),
{
}

/// A filter admits a word where all four of its bits are set, and only there.
pub proof fn law_a_word_has_four_bits(bits: Seq<u8>, token: Seq<char>)
    ensures
        admits(bits, token) <==> {
            let n = bits.len() * 8;
            &&& has_bit(bits, position(token, n, 0))
            &&& has_bit(bits, position(token, n, 1))
            &&& has_bit(bits, position(token, n, 2))
            &&& has_bit(bits, position(token, n, 3))
        },
{
}

/// The bits of a word are an arithmetic progression: from the low half of its
/// digest by odd steps from the high half, within the filter.
pub proof fn law_bits_come_from_the_digest(token: Seq<char>, bit_len: nat, i: int)
    requires
        0 <= i < 4,
        encode_utf8(token).len() <= 40,
    ensures
        ({
            let digest = spec_hash128(encode_utf8(token));
            position(token, bit_len, i) == (digest.0.wrapping_add(
                (i as u64).wrapping_mul(digest.1 | 1),
            ) & ((bit_len - 1) as u64)) as int
        }),
{
}

/// Powers of two: one, and twice any of them, and nothing else.
pub proof fn law_powers_of_two(n: nat)
    requires
        n > 0,
    ensures
        is_pow2(1),
        !is_pow2(0),
        is_pow2(2 * n) == is_pow2(n),
        !is_pow2(2 * n + 1),
{
    assert((2 * n) / 2 == n);
}

/// A filter has eight bits for every distinct word, rounded up to the next power
/// of two and no further, where the bounds leave room; where they do not, it is
/// as large as they allow.
pub proof fn law_eight_bits_a_word(distinct: nat, min_bytes: nat, max_bytes: nat)
    requires
        min_bytes <= max_bytes,
        has_pow2_between(min_bytes, max_bytes),
    ensures
        ({
            let r = spec_size_bits(distinct, min_bytes, max_bytes);
            &&& r >= 8 * distinct || 2 * r > 8 * max_bytes
            &&& r > 1 ==> r < 16 * distinct || r < 16 * min_bytes
        }),
{
    let low = min_bytes * 8;
    let asked = if distinct * 8 < low {
        low
    } else {
        distinct * 8
    };
    lemma_ceil_pow2(asked);
    lemma_ceil_tight(asked);
    if max_bytes > 0 {
        lemma_floor_pow2(max_bytes * 8);
    }
    let q = choose|q: nat| #[trigger] is_pow2(q) && low <= q <= max_bytes * 8;
    lemma_floor_pow2_most(max_bytes * 8, q);
}

proof fn lemma_ceil_tight(n: nat)
    ensures
        n > 1 ==> ceil_pow2(n) < 2 * n && ceil_pow2(n) % 2 == 0,
        n <= 1 ==> ceil_pow2(n) == 1,
    decreases n,
{
    if n > 1 {
        let h = (n + 1) / 2;
        lemma_ceil_tight(h);
        assert(2 * h <= n + 1);
        if h > 1 {
            assert(ceil_pow2(h) <= 2 * h - 2);
        }
    }
}

/// How full a filter is: the number of its bits that are set.
pub proof fn law_set_bits_are_counted(bits: Seq<u8>, n: nat)
    ensures
        bits_set(bits, 0) == 0,
        has_bit(bits, n as int) ==> bits_set(bits, n + 1) == bits_set(bits, n) + 1,
        !has_bit(bits, n as int) ==> bits_set(bits, n + 1) == bits_set(bits, n),
{
}

} // verus!
