//! The content-search benchmark: a corpus of synthetic prose, the queries that
//! span the range of selectivity, and how two runs over it are held against
//! each other.

use vstd::prelude::*;
use vstd::utf8::encode_utf8;

use crate::args::{default_config, Config, Durability};
use crate::batches::text_view;
use crate::corpus::{labelled, EPOCH_NS};
use crate::json::{entries_view, entry, object, text_json, uint_json, uint_view, Json, JsonView};
use crate::queries::{joined, read_usize, usize_of};
use crate::text::{
    contains_text, copy, cut, cut_text, dec, decimal, is_digit, lemma_dec, same, stands_at, texts, trim,
    trimmed,
};

verus! {

// ------------------------------------------------------------------------- prose

/// How many words the prose draws from: few enough that common words really
/// are common.
pub const VOCABULARY: usize = 32;

/// The word in a place of the vocabulary.
pub open spec fn common_word(i: int) -> Seq<char> {
    if i == 0 {
        "the"@
    } else if i == 1 {
        "user"@
    } else if i == 2 {
        "asked"@
    } else if i == 3 {
        "about"@
    } else if i == 4 {
        "their"@
    } else if i == 5 {
        "order"@
    } else if i == 6 {
        "status"@
    } else if i == 7 {
        "and"@
    } else if i == 8 {
        "the"@
    } else if i == 9 {
        "assistant"@
    } else if i == 10 {
        "replied"@
    } else if i == 11 {
        "with"@
    } else if i == 12 {
        "a"@
    } else if i == 13 {
        "summary"@
    } else if i == 14 {
        "of"@
    } else if i == 15 {
        "recent"@
    } else if i == 16 {
        "activity"@
    } else if i == 17 {
        "including"@
    } else if i == 18 {
        "shipping"@
    } else if i == 19 {
        "details"@
    } else if i == 20 {
        "payment"@
    } else if i == 21 {
        "method"@
    } else if i == 22 {
        "and"@
    } else if i == 23 {
        "estimated"@
    } else if i == 24 {
        "delivery"@
    } else if i == 25 {
        "window"@
    } else if i == 26 {
        "for"@
    } else if i == 27 {
        "each"@
    } else if i == 28 {
        "item"@
    } else if i == 29 {
        "in"@
    } else if i == 30 {
        "the"@
    } else {
        "basket"@
    }
}

fn common(i: usize) -> (r: &'static str)
    requires
        i < VOCABULARY,
    ensures
        r@ == common_word(i as int),
{
    if i == 0 {
        "the"
    } else if i == 1 {
        "user"
    } else if i == 2 {
        "asked"
    } else if i == 3 {
        "about"
    } else if i == 4 {
        "their"
    } else if i == 5 {
        "order"
    } else if i == 6 {
        "status"
    } else if i == 7 {
        "and"
    } else if i == 8 {
        "the"
    } else if i == 9 {
        "assistant"
    } else if i == 10 {
        "replied"
    } else if i == 11 {
        "with"
    } else if i == 12 {
        "a"
    } else if i == 13 {
        "summary"
    } else if i == 14 {
        "of"
    } else if i == 15 {
        "recent"
    } else if i == 16 {
        "activity"
    } else if i == 17 {
        "including"
    } else if i == 18 {
        "shipping"
    } else if i == 19 {
        "details"
    } else if i == 20 {
        "payment"
    } else if i == 21 {
        "method"
    } else if i == 22 {
        "and"
    } else if i == 23 {
        "estimated"
    } else if i == 24 {
        "delivery"
    } else if i == 25 {
        "window"
    } else if i == 26 {
        "for"
    } else if i == 27 {
        "each"
    } else if i == 28 {
        "item"
    } else if i == 29 {
        "in"
    } else if i == 30 {
        "the"
    } else {
        "basket"
    }
}

/// The state of the generator behind a state.
pub open spec fn lcg_next(state: u64) -> u64 {
    state.wrapping_mul(6_364_136_223_846_793_005).wrapping_add(1_442_695_040_888_963_407)
}

/// What a state draws below a bound.
pub open spec fn drawn(state: u64, upper: nat) -> nat {
    ((state >> 33) as nat) % upper
}

/// A generator that draws the same from the same state.
#[derive(Clone, Copy, Debug, PartialEq, Eq, Structural)]
pub struct Lcg {
    pub state: u64,
}

impl Lcg {
    /// Steps the generator.
    pub fn next(&mut self) -> (r: u64)
        ensures
            final(self).state == lcg_next(old(self).state),
            r == final(self).state,
    {
        self.state = self.state.wrapping_mul(6_364_136_223_846_793_005).wrapping_add(
            1_442_695_040_888_963_407,
        );
        self.state
    }

    /// Draws a number below a bound.
    pub fn below(&mut self, upper: usize) -> (r: usize)
        requires
            upper > 0,
        ensures
            final(self).state == lcg_next(old(self).state),
            r == drawn(final(self).state, upper as nat),
            r < upper,
    {
        let n = self.next();
        assert(n >> 33 < 0x8000_0000u64) by (bit_vector);
        (n >> 33) as usize % upper
    }
}

/// So many words, each with a space behind it: the generator's state after
/// them, and their text.
pub open spec fn spoken(state: u64, words: nat) -> (u64, Seq<char>)
    decreases words,
{
    if words == 0 {
        (state, Seq::empty())
    } else {
        let (before, said) = spoken(state, (words - 1) as nat);
        let after = lcg_next(before);
        (after, said + common_word(drawn(after, VOCABULARY as nat) as int) + seq![' '])
    }
}

fn speak(rng: &mut Lcg, words: usize) -> (r: String)
    ensures
        (final(rng).state, r@) == spoken(old(rng).state, words as nat),
{
    let ghost start = rng.state;
    let mut r = String::new();
    let mut i: usize = 0;
    assert(r@ =~= Seq::<char>::empty());
    while i < words
        invariant
            i <= words,
            (rng.state, r@) == spoken(start, i as nat),
        decreases words - i,
    {
        let ghost before = r@;
        let place = rng.below(VOCABULARY);
        r.push_str(common(place));
        r.push(' ');
        i += 1;
        assert(r@ =~= before + common_word(place as int) + seq![' ']);
    }
    r
}

/// The word that one span of the corpus has, and no other.
pub const RARE_WORD: &'static str = "antidisestablishmentarianism";

/// The prompt and the completion of the span at an index, and the generator's
/// state after them.
pub open spec fn text_of(state: u64, index: nat, words: nat) -> (u64, Seq<char>, Seq<char>) {
    let (between, asked) = spoken(state, words);
    let (after, said) = spoken(between, words);
    (
        after,
        asked + ("ticket"@ + dec(index)),
        if index == 0 {
            said + RARE_WORD@
        } else {
            said
        },
    )
}

/// Writes the prompt and the completion of the span at an index: ordinary
/// words, and a word of the span's own, so that the vocabulary grows with the
/// corpus.
pub fn text(rng: &mut Lcg, index: usize, words: usize) -> (r: (String, String))
    ensures
        (final(rng).state, r.0@, r.1@) == text_of(old(rng).state, index as nat, words as nat),
{
    let mut prompt = speak(rng, words);
    let own = labelled("ticket", index);
    prompt.push_str(own.as_str());
    let mut completion = speak(rng, words);
    if index == 0 {
        completion.push_str(RARE_WORD);
    }
    (prompt, completion)
}

// -------------------------------------------------------------------------- laws

proof fn lemma_words_are_short(i: int)
    ensures
        common_word(i).len() <= 9,
{
    reveal_strlit("the");
    reveal_strlit("user");
    reveal_strlit("asked");
    reveal_strlit("about");
    reveal_strlit("their");
    reveal_strlit("order");
    reveal_strlit("status");
    reveal_strlit("and");
    reveal_strlit("assistant");
    reveal_strlit("replied");
    reveal_strlit("with");
    reveal_strlit("a");
    reveal_strlit("summary");
    reveal_strlit("of");
    reveal_strlit("recent");
    reveal_strlit("activity");
    reveal_strlit("including");
    reveal_strlit("shipping");
    reveal_strlit("details");
    reveal_strlit("payment");
    reveal_strlit("method");
    reveal_strlit("estimated");
    reveal_strlit("delivery");
    reveal_strlit("window");
    reveal_strlit("for");
    reveal_strlit("each");
    reveal_strlit("item");
    reveal_strlit("in");
    reveal_strlit("basket");
}

/// Whether a stretch of a text has a space in it.
pub open spec fn spaced(s: Seq<char>, from: int, to: int) -> bool {
    exists|j: int| from <= j < to && #[trigger] s[j] == ' '
}

proof fn lemma_prose_is_spaced(state: u64, words: nat)
    ensures
        ({
            let s = spoken(state, words).1;
            &&& s.len() > 0 ==> s.last() == ' '
            &&& forall|i: int| 0 <= i && i + 10 <= s.len() ==> #[trigger] spaced(s, i, i + 10)
        }),
    decreases words,
{
    if words > 0 {
        let (before, said) = spoken(state, (words - 1) as nat);
        let after = lcg_next(before);
        let word = common_word(drawn(after, VOCABULARY as nat) as int);
        lemma_prose_is_spaced(state, (words - 1) as nat);
        lemma_words_are_short(drawn(after, VOCABULARY as nat) as int);
        let s = spoken(state, words).1;
        assert(s == said + word + seq![' ']);
        assert(s.len() == said.len() + word.len() + 1);
        assert forall|i: int| 0 <= i && i + 10 <= s.len() implies #[trigger] spaced(
            s,
            i,
            i + 10,
        ) by {
            if i + 10 <= said.len() {
                assert(spaced(said, i, i + 10));
                let j = choose|j: int| i <= j < i + 10 && #[trigger] said[j] == ' ';
                assert(s[j] == ' ');
            } else if i + 10 == s.len() {
                assert(s[s.len() - 1] == ' ');
            } else {
                assert(s[said.len() - 1] == said.last());
            }
        }
    }
}

proof fn lemma_rare_word()
    ensures
        RARE_WORD@.len() == 28,
        RARE_WORD@[0] == 'a',
        forall|k: int| 0 <= k < 28 ==> #[trigger] RARE_WORD@[k] != ' ',
{
    reveal_strlit("antidisestablishmentarianism");
    assert(RARE_WORD@ == "antidisestablishmentarianism"@);
}

proof fn lemma_prose_has_no_rare_word(state: u64, words: nat, tail: Seq<char>)
    requires
        forall|k: int| 0 <= k < tail.len() ==> #[trigger] tail[k] != 'a',
    ensures
        !contains_text(spoken(state, words).1 + tail, RARE_WORD@),
{
    let said = spoken(state, words).1;
    let s = said + tail;
    lemma_prose_is_spaced(state, words);
    lemma_rare_word();
    assert forall|at: int| !stands_at(s, RARE_WORD@, at) by {
        if stands_at(s, RARE_WORD@, at) {
            let held = s.subrange(at, at + 28);
            assert forall|k: int| 0 <= k < 28 implies #[trigger] s[at + k] == RARE_WORD@[k] by {
                assert(held[k] == s[at + k]);
            }
            assert(s[at + 0] == 'a');
            if at >= said.len() {
                assert(s[at] == tail[at - said.len()]);
            } else if at + 10 <= said.len() {
                assert(spaced(said, at, at + 10));
                let j = choose|j: int| at <= j < at + 10 && #[trigger] said[j] == ' ';
                assert(s[at + (j - at)] == ' ');
                assert(RARE_WORD@[j - at] != ' ');
            } else {
                let last = said.len() - 1;
                assert(s[at + (last - at)] == said.last());
                assert(RARE_WORD@[last - at] != ' ');
            }
        }
    }
}

/// The rare word is in the completion of the first span of the corpus, and in
/// no other text of it.
pub proof fn law_the_rare_word_is_in_one_span(state: u64, index: nat, words: nat)
    ensures
        !contains_text(text_of(state, index, words).1, RARE_WORD@),
        contains_text(text_of(state, index, words).2, RARE_WORD@) <==> index == 0,
{
    let (between, asked) = spoken(state, words);
    let (_, said) = spoken(between, words);
    let own = "ticket"@ + dec(index);
    reveal_strlit("ticket");
    lemma_dec(index);
    assert forall|k: int| 0 <= k < own.len() implies #[trigger] own[k] != 'a' by {
        if k >= 6 {
            assert(is_digit(dec(index)[k - 6]));
        }
    }
    lemma_prose_has_no_rare_word(state, words, own);
    if index == 0 {
        let s = said + RARE_WORD@;
        let (from, to) = (said.len() as int, (said.len() + RARE_WORD@.len()) as int);
        assert(s.subrange(from, to) =~= RARE_WORD@);
        assert(stands_at(s, RARE_WORD@, said.len() as int));
    } else {
        lemma_prose_has_no_rare_word(between, words, Seq::empty());
        assert(said + Seq::<char>::empty() =~= said);
    }
}

// ------------------------------------------------------------------------- spans

/// Whether the times of the span at an index fit in a `u64`.
pub open spec fn prose_in_time(index: int) -> bool {
    EPOCH_NS + index * 1_000 + 500 <= u64::MAX
}

pub open spec fn prose_attributes(prompt: Seq<char>, completion: Seq<char>) -> JsonView {
    JsonView::Object(
        seq![
            ("gen_ai.prompt"@, text_view(prompt)),
            ("gen_ai.completion"@, text_view(completion)),
            ("gen_ai.request.model"@, text_view("gpt-4o"@)),
        ],
    )
}

/// The span at an index with its prompt and completion.
pub open spec fn prose_span(index: int, prompt: Seq<char>, completion: Seq<char>) -> JsonView {
    JsonView::Object(
        seq![
            ("trace_id"@, text_view("t"@ + dec((index / 4) as nat))),
            ("span_id"@, text_view("s"@ + dec(index as nat))),
            ("name"@, text_view("chat"@)),
            ("service"@, text_view("agent"@)),
            ("start_time_ns"@, uint_view((EPOCH_NS + index * 1_000) as nat)),
            ("end_time_ns"@, uint_view((EPOCH_NS + index * 1_000 + 500) as nat)),
            ("attributes"@, prose_attributes(prompt, completion)),
        ],
    )
}

/// The span at an index with its prompt and completion.
pub fn span(index: usize, prompt: String, completion: String) -> (r: Json)
    requires
        prose_in_time(index as int),
    ensures
        r@ == prose_span(index as int, prompt@, completion@),
{
    let start_ns = EPOCH_NS + index as u64 * 1_000;
    let mut attributes: Vec<(String, Json)> = Vec::new();
    let ghost (asked, said) = (prompt@, completion@);
    attributes.push(entry("gen_ai.prompt", Json::Text(prompt)));
    attributes.push(entry("gen_ai.completion", Json::Text(completion)));
    attributes.push(entry("gen_ai.request.model", text_json("gpt-4o")));
    assert(entries_view(attributes@) =~= prose_attributes(asked, said)->Object_0);
    let held = object(attributes);
    let mut entries: Vec<(String, Json)> = Vec::new();
    entries.push(entry("trace_id", Json::Text(labelled("t", index / 4))));
    entries.push(entry("span_id", Json::Text(labelled("s", index))));
    entries.push(entry("name", text_json("chat")));
    entries.push(entry("service", text_json("agent")));
    entries.push(entry("start_time_ns", uint_json(start_ns)));
    entries.push(entry("end_time_ns", uint_json(start_ns + 500)));
    entries.push(entry("attributes", held));
    assert(entries_view(entries@) =~= prose_span(index as int, asked, said)->Object_0);
    object(entries)
}

/// Where the corpus begins.
pub const PROSE_SEED: u64 = 0x5eed_1234_5678_9abc;

/// Spans in one ingest.
pub const PROSE_BATCH: usize = 1_000;

/// The generator's state before the span at an index.
pub open spec fn state_before(index: nat, words: nat) -> u64
    decreases index,
{
    if index == 0 {
        PROSE_SEED
    } else {
        text_of(state_before((index - 1) as nat, words), (index - 1) as nat, words).0
    }
}

/// The span at an index of the corpus.
pub open spec fn corpus_span(index: nat, words: nat) -> JsonView {
    let (_, prompt, completion) = text_of(state_before(index, words), index, words);
    prose_span(index as int, prompt, completion)
}

/// The bytes of text in the spans before an index.
pub open spec fn text_bytes_before(index: nat, words: nat) -> nat
    decreases index,
{
    if index == 0 {
        0
    } else {
        let last = (index - 1) as nat;
        let (_, prompt, completion) = text_of(state_before(last, words), last, words);
        text_bytes_before(last, words) + encode_utf8(prompt).len() + encode_utf8(completion).len()
    }
}

/// A corpus as it is generated: the same for every run with as many words.
#[derive(Debug)]
pub struct Prose {
    rng: Lcg,
    index: usize,
    words: usize,
    text_bytes: u128,
}

impl Prose {
    /// How many spans were generated.
    pub closed spec fn generated(&self) -> nat {
        self.index as nat
    }

    /// How many words a field has.
    pub closed spec fn words(&self) -> nat {
        self.words as nat
    }

    #[verifier::type_invariant]
    spec fn well_formed(self) -> bool {
        &&& self.rng.state == state_before(self.index as nat, self.words as nat)
        &&& self.text_bytes == text_bytes_before(self.index as nat, self.words as nat)
        &&& self.text_bytes <= self.index * 2 * u64::MAX
    }

    /// The corpus before its first span.
    pub fn new(words: usize) -> (r: Prose)
        ensures
            r.generated() == 0,
            r.words() == words,
    {
        Prose { rng: Lcg { state: PROSE_SEED }, index: 0, words, text_bytes: 0 }
    }

    /// The bytes of text in the spans generated so far.
    pub fn text_bytes(&self) -> (r: u128)
        ensures
            r == text_bytes_before(self.generated(), self.words()),
    {
        proof {
            use_type_invariant(self);
        }
        self.text_bytes
    }

    /// The next spans, at most a batch of them and at most up to `spans`.
    pub fn next_batch(&mut self, spans: usize) -> (r: Vec<Json>)
        requires
            prose_in_time(spans as int),
        ensures
            final(self).words() == old(self).words(),
            final(self).generated() == old(self).generated() + r@.len(),
            r@.len() == if spans <= old(self).generated() {
                0int
            } else if spans - old(self).generated() > PROSE_BATCH {
                PROSE_BATCH as int
            } else {
                spans - old(self).generated()
            },
            forall|k: int|
                0 <= k < r@.len() ==> (#[trigger] r@[k])@ == corpus_span(
                    (old(self).generated() + k) as nat,
                    old(self).words(),
                ),
    {
        proof {
            use_type_invariant(&*self);
        }
        let words = self.words;
        let start = self.index;
        let mut rng = self.rng;
        let mut index: usize = start;
        let mut items: Vec<Json> = Vec::new();
        let mut text_bytes: u128 = self.text_bytes;
        while index < spans && items.len() < PROSE_BATCH
            invariant
                start <= index,
                index <= spans || index == start,
                prose_in_time(spans as int),
                items@.len() == index - start,
                items@.len() <= PROSE_BATCH,
                rng.state == state_before(index as nat, words as nat),
                forall|k: int|
                    0 <= k < items@.len() ==> (#[trigger] items@[k])@ == corpus_span(
                        (start + k) as nat,
                        words as nat,
                    ),
                text_bytes == text_bytes_before(index as nat, words as nat),
                text_bytes <= index * 2 * u64::MAX,
            decreases spans - index,
        {
            let ghost state = rng.state;
            let (prompt, completion) = text(&mut rng, index, words);
            let asked: usize = prompt.as_str().as_bytes().len();
            let said: usize = completion.as_str().as_bytes().len();
            text_bytes = text_bytes + asked as u128 + said as u128;
            items.push(span(index, prompt, completion));
            index += 1;
            assert(state_before(index as nat, words as nat) == text_of(
                state,
                (index - 1) as nat,
                words as nat,
            ).0);
        }
        *self = Prose { rng, index, words, text_bytes };
        items
    }
}

// ----------------------------------------------------------------------- queries

/// How many queries a run asks.
pub const QUERIES: usize = 4;

/// The label and the text of a query: one word of one span, two words of
/// which only one is rare, a word of nearly every span, and one of none.
pub open spec fn query_of(i: int) -> (Seq<char>, Seq<char>) {
    if i == 0 {
        ("rare"@, RARE_WORD@)
    } else if i == 1 {
        ("selective_pair"@, "ticket7 shipping"@)
    } else if i == 2 {
        ("common"@, "shipping"@)
    } else {
        ("absent"@, "zygomorphic"@)
    }
}

/// The label and the text of a query.
pub fn query(i: usize) -> (r: (&'static str, &'static str))
    requires
        i < QUERIES,
    ensures
        (r.0@, r.1@) == query_of(i as int),
{
    if i == 0 {
        ("rare", RARE_WORD)
    } else if i == 1 {
        ("selective_pair", "ticket7 shipping")
    } else if i == 2 {
        ("common", "shipping")
    } else {
        ("absent", "zygomorphic")
    }
}

/// How the store of a run is opened: without a log, which would put text back
/// in memory, and without compaction, so that the corpus alone decides the
/// number of segments.
pub fn content_config(content_index: bool) -> (r: Config)
    ensures
        r == (Config {
            durability: Durability::Buffered,
            compaction: None,
            flush_spans: 2_000,
            payload_threshold: None,
            content_index,
            ..default_config()
        }),
{
    let mut config = Config::default();
    config.durability = Durability::Buffered;
    config.compaction = None;
    config.flush_spans = 2_000;
    config.payload_threshold = None;
    config.content_index = content_index;
    config
}

/// The fastest of the repeats: the one least disturbed by what else the
/// machine was doing.
pub fn best_of(times: &Vec<u64>) -> (r: u64)
    requires
        times@.len() > 0,
    ensures
        times@.contains(r),
        forall|i: int| 0 <= i < times@.len() ==> r <= #[trigger] times@[i],
{
    let mut best: u64 = times[0];
    let mut i: usize = 1;
    assert(times@[0] == best);
    while i < times.len()
        invariant
            1 <= i <= times@.len(),
            times@.contains(best),
            forall|k: int| 0 <= k < i ==> best <= #[trigger] times@[k],
        decreases times@.len() - i,
    {
        if times[i] < best {
            best = times[i];
            assert(times@[i as int] == best);
        }
        i += 1;
    }
    best
}

/// How often a query is timed: at least once.
pub fn repeats_of(repeats: usize) -> (r: usize)
    ensures
        r == if repeats == 0 {
            1
        } else {
            repeats
        },
{
    if repeats == 0 {
        1
    } else {
        repeats
    }
}

/// The first query from `i` on whose number of matches depends on the index.
pub open spec fn disagreement(with: Seq<usize>, without: Seq<usize>, i: int) -> Option<int>
    decreases with.len() - i,
{
    if i < 0 || i >= with.len() {
        None
    } else if with[i] != without[i] {
        Some(i)
    } else {
        disagreement(with, without, i + 1)
    }
}

/// Finds a query whose number of matches depends on the index: the index must
/// not change an answer.
pub fn first_disagreement(with: &Vec<usize>, without: &Vec<usize>) -> (r: Option<usize>)
    requires
        with@.len() == without@.len(),
    ensures
        match r {
            Some(i) => disagreement(with@, without@, 0) == Some(i as int),
            None => disagreement(with@, without@, 0).is_none(),
        },
{
    let mut i: usize = 0;
    while i < with.len()
        invariant
            i <= with@.len(),
            with@.len() == without@.len(),
            disagreement(with@, without@, i as int) == disagreement(with@, without@, 0),
        decreases with@.len() - i,
    {
        if with[i] != without[i] {
            return Some(i);
        }
        i += 1;
    }
    None
}

/// Two runs that do not disagree found the same numbers.
pub proof fn law_agreement_is_equality(with: Seq<usize>, without: Seq<usize>, i: int)
    requires
        with.len() == without.len(),
        0 <= i <= with.len(),
    ensures
        disagreement(with, without, i).is_none() <==> with.skip(i) == without.skip(i),
    decreases with.len() - i,
{
    if i < with.len() {
        law_agreement_is_equality(with, without, i + 1);
        if with[i] == without[i] {
            if disagreement(with, without, i + 1).is_none() {
                assert forall|k: int| 0 <= k < with.len() - i implies #[trigger] with.skip(i)[k]
                    == without.skip(i)[k] by {
                    if k > 0 {
                        assert(with.skip(i + 1)[k - 1] == without.skip(i + 1)[k - 1]);
                    }
                }
                assert(with.skip(i) =~= without.skip(i));
            } else if with.skip(i) == without.skip(i) {
                assert forall|k: int| 0 <= k < with.len() - i - 1 implies #[trigger] with.skip(
                    i + 1,
                )[k] == without.skip(i + 1)[k] by {
                    assert(with.skip(i)[k + 1] == without.skip(i)[k + 1]);
                }
                assert(with.skip(i + 1) =~= without.skip(i + 1));
            }
        } else {
            assert(with.skip(i)[0] != without.skip(i)[0]);
        }
    } else {
        assert(with.skip(i) =~= without.skip(i));
    }
}

// --------------------------------------------------------------------- arguments

/// What a run was asked for.
#[derive(Clone, Copy, Debug, PartialEq, Eq, Structural)]
pub struct ContentOptions {
    pub spans: usize,
    pub words: usize,
    pub repeats: usize,
}

pub open spec fn default_content() -> ContentOptions {
    ContentOptions { spans: 100_000, words: 60, repeats: 3 }
}

/// Whether an argument takes a number.
pub open spec fn takes_number(flag: Seq<char>) -> bool {
    flag == "--spans"@ || flag == "--words"@ || flag == "--repeats"@
}

pub open spec fn with_number(o: ContentOptions, flag: Seq<char>, n: usize) -> ContentOptions {
    if flag == "--spans"@ {
        ContentOptions { spans: n, ..o }
    } else if flag == "--words"@ {
        ContentOptions { words: n, ..o }
    } else {
        ContentOptions { repeats: n, ..o }
    }
}

/// Reads the arguments from `i` on.
pub open spec fn scan(args: Seq<Seq<char>>, i: int, o: ContentOptions) -> Result<
    ContentOptions,
    Seq<char>,
>
    decreases args.len() - i,
{
    if i < 0 || i >= args.len() {
        Ok(o)
    } else if takes_number(args[i]) {
        if i + 1 >= args.len() {
            Err(args[i] + " needs a value"@)
        } else {
            match usize_of(args[i + 1]) {
                Some(n) => scan(args, i + 2, with_number(o, args[i], n)),
                None => Err(args[i] + " needs an integer"@),
            }
        }
    } else {
        Err("unknown argument "@ + args[i])
    }
}

/// Reads the arguments of the benchmark.
pub fn parse(args: &[String]) -> (r: Result<ContentOptions, String>)
    ensures
        match r {
            Ok(options) => scan(texts(args@), 0, default_content()) == Ok::<
                ContentOptions,
                Seq<char>,
            >(options),
            Err(message) => scan(texts(args@), 0, default_content()) == Err::<
                ContentOptions,
                Seq<char>,
            >(message@),
        },
{
    let mut options = ContentOptions { spans: 100_000, words: 60, repeats: 3 };
    let ghost all = texts(args@);
    let n: usize = args.len();
    let mut i: usize = 0;
    while i < n
        invariant
            n == args@.len(),
            i <= n,
            all == texts(args@),
            scan(all, i as int, options) == scan(all, 0, default_content()),
        decreases n - i,
    {
        assert(all[i as int] == args@[i as int]@);
        let flag = args[i].as_str();
        if !(same(flag, "--spans") || same(flag, "--words") || same(flag, "--repeats")) {
            return Err(joined("unknown argument ", flag));
        }
        if i + 1 >= n {
            return Err(joined(flag, " needs a value"));
        }
        assert(all[i + 1] == args@[i + 1]@);
        let value = match read_usize(args[i + 1].as_str()) {
            Some(value) => value,
            None => {
                return Err(joined(flag, " needs an integer"));
            },
        };
        if same(flag, "--spans") {
            options.spans = value;
        } else if same(flag, "--words") {
            options.words = value;
        } else {
            options.repeats = value;
        }
        i += 2;
    }
    Ok(options)
}

/// What stands behind the first place of a text in another, up to its next.
pub open spec fn behind(s: Seq<char>, needle: Seq<char>) -> Option<Seq<char>> {
    if cut(s, needle).len() > 1 {
        Some(cut(s, needle)[1])
    } else {
        None
    }
}

fn text_behind(text: &str, needle: &str) -> (r: Option<String>)
    requires
        needle@.len() > 0,
    ensures
        match r {
            Some(rest) => behind(text@, needle@) == Some(rest@),
            None => behind(text@, needle@).is_none(),
        },
{
    let pieces = cut_text(text, needle);
    assert(texts(pieces@).len() == pieces@.len());
    if pieces.len() > 1 {
        assert(texts(pieces@)[1] == pieces@[1]@);
        Some(copy(pieces[1].as_str()))
    } else {
        None
    }
}

/// The load averages in what the host prints of its uptime.
pub open spec fn load_averages(printed: Seq<char>) -> Seq<char> {
    match behind(printed, "load averages:"@) {
        Some(rest) => trimmed(rest),
        None => match behind(printed, "load average:"@) {
            Some(rest) => trimmed(rest),
            None => "unknown"@,
        },
    }
}

/// Reads the load averages out of what the host prints of its uptime.
pub fn load_average(printed: &str) -> (r: String)
    ensures
        r@ == load_averages(printed@),
{
    proof {
        reveal_strlit("load averages:");
        reveal_strlit("load average:");
    }
    match text_behind(printed, "load averages:") {
        Some(rest) => trim(rest.as_str()),
        None => match text_behind(printed, "load average:") {
            Some(rest) => trim(rest.as_str()),
            None => copy("unknown"),
        },
    }
}

// ------------------------------------------------------------------------ report

/// A query as it ran with the index and without; figures are texts.
#[derive(Debug)]
pub struct Compared {
    pub label: String,
    pub matches: usize,
    pub with_index: String,
    pub without_index: String,
    pub speedup: String,
}

/// What the index costs, with it and without; figures are texts.
#[derive(Debug)]
pub struct IndexCosts {
    pub text: String,
    pub segments: usize,
    pub ingest: (String, String),
    pub disk: (String, String),
    pub resident: (String, String),
    pub filters: (String, String),
    pub fill: Option<String>,
    pub overhead: String,
}

/// The row of a query.
pub open spec fn compared_row(c: Compared) -> Seq<char> {
    "| "@ + c.label@ + " | "@ + dec(c.matches as nat) + " | "@ + c.with_index@ + " ms | "@
        + c.without_index@ + " ms | "@ + c.speedup@ + "x |\n"@
}

/// A row of what the index costs.
pub open spec fn cost_row(label: Seq<char>, figures: (String, String), unit: Seq<char>) -> Seq<
    char,
> {
    "| "@ + label + " | "@ + figures.0@ + unit + " | "@ + figures.1@ + unit + " |\n"@
}

/// How full the summary filter is.
pub open spec fn fill_line(fill: Option<String>) -> Seq<char> {
    match fill {
        Some(share) => "\nsummary filter fill: "@ + share@ + FILL_WORDS@,
        None => "\nno content index was built\n"@,
    }
}

pub const FILL_WORDS: &'static str =
    "% (a filter approaching 100% has saturated and stopped pruning)\n";

pub const QUERY_HEAD: &'static str =
    " segments\n\n| query | matches | with index | without index | speedup |\n|---|---:|---:|---:|---:|\n";

pub const COST_HEAD: &'static str =
    "\n| cost | with index | without index |\n|---|---:|---:|\n";

/// The report up to the rows of some queries.
pub open spec fn report_until(costs: IndexCosts, rows: Seq<Compared>) -> Seq<char>
    decreases rows.len(),
{
    if rows.len() == 0 {
        "\ntext ingested: "@ + costs.text@ + " MiB across "@ + dec(costs.segments as nat)
            + QUERY_HEAD@
    } else {
        report_until(costs, rows.drop_last()) + compared_row(rows.last())
    }
}

/// The report.
pub open spec fn comparison_of(rows: Seq<Compared>, costs: IndexCosts) -> Seq<char> {
    report_until(costs, rows) + COST_HEAD@ + cost_row("ingest + seal"@, costs.ingest, " s"@)
        + cost_row("segment bytes"@, costs.disk, " MiB"@) + cost_row(
        "resident index"@,
        costs.resident,
        " MiB"@,
    ) + cost_row("of which content filters"@, costs.filters, " MiB"@) + fill_line(costs.fill)
        + "index overhead on disk: "@ + costs.overhead@ + "%\n"@
}

fn row(c: &Compared) -> (r: String)
    ensures
        r@ == compared_row(*c),
{
    let mut r = copy("| ");
    r.push_str(c.label.as_str());
    r.push_str(" | ");
    let matches = decimal(c.matches as u64);
    r.push_str(matches.as_str());
    r.push_str(" | ");
    r.push_str(c.with_index.as_str());
    r.push_str(" ms | ");
    r.push_str(c.without_index.as_str());
    r.push_str(" ms | ");
    r.push_str(c.speedup.as_str());
    r.push_str("x |\n");
    r
}

fn cost(label: &str, figures: &(String, String), unit: &str) -> (r: String)
    ensures
        r@ == cost_row(label@, *figures, unit@),
{
    let mut r = copy("| ");
    r.push_str(label);
    r.push_str(" | ");
    r.push_str(figures.0.as_str());
    r.push_str(unit);
    r.push_str(" | ");
    r.push_str(figures.1.as_str());
    r.push_str(unit);
    r.push_str(" |\n");
    r
}

fn fill(share: &Option<String>) -> (r: String)
    ensures
        r@ == fill_line(*share),
{
    match share {
        Some(share) => {
            let mut r = copy("\nsummary filter fill: ");
            r.push_str(share.as_str());
            r.push_str(FILL_WORDS);
            r
        },
        None => copy("\nno content index was built\n"),
    }
}

/// Writes the report.
pub fn comparison(rows: &Vec<Compared>, costs: &IndexCosts) -> (r: String)
    ensures
        r@ == comparison_of(rows@, *costs),
{
    let mut r = copy("\ntext ingested: ");
    r.push_str(costs.text.as_str());
    r.push_str(" MiB across ");
    let segments = decimal(costs.segments as u64);
    r.push_str(segments.as_str());
    r.push_str(QUERY_HEAD);
    let mut i: usize = 0;
    assert(rows@.take(0) =~= Seq::<Compared>::empty());
    while i < rows.len()
        invariant
            i <= rows@.len(),
            r@ == report_until(*costs, rows@.take(i as int)),
        decreases rows@.len() - i,
    {
        assert(rows@.take(i + 1).drop_last() =~= rows@.take(i as int));
        let next = row(&rows[i]);
        r.push_str(next.as_str());
        i += 1;
    }
    assert(rows@.take(rows@.len() as int) =~= rows@);
    let ingest = cost("ingest + seal", &costs.ingest, " s");
    let disk = cost("segment bytes", &costs.disk, " MiB");
    let resident = cost("resident index", &costs.resident, " MiB");
    let filters = cost("of which content filters", &costs.filters, " MiB");
    let filled = fill(&costs.fill);
    r.push_str(COST_HEAD);
    r.push_str(ingest.as_str());
    r.push_str(disk.as_str());
    r.push_str(resident.as_str());
    r.push_str(filters.as_str());
    r.push_str(filled.as_str());
    r.push_str("index overhead on disk: ");
    r.push_str(costs.overhead.as_str());
    r.push_str("%\n");
    r
}

proof fn lemma_prose_names()
    ensures
        "gen_ai.prompt"@.len() == 13 && "gen_ai.prompt"@[0] == 'g',
        "gen_ai.completion"@.len() == 17,
        "gen_ai.request.model"@.len() == 20,
        "trace_id"@.len() == 8,
        "span_id"@.len() == 7 && "span_id"@[1] == 'p',
        "name"@.len() == 4,
        "service"@.len() == 7 && "service"@[1] == 'e',
        "start_time_ns"@.len() == 13 && "start_time_ns"@[0] == 's',
        "end_time_ns"@.len() == 11,
        "attributes"@.len() == 10,
{
    reveal_strlit("gen_ai.prompt");
    reveal_strlit("gen_ai.completion");
    reveal_strlit("gen_ai.request.model");
    reveal_strlit("trace_id");
    reveal_strlit("span_id");
    reveal_strlit("name");
    reveal_strlit("service");
    reveal_strlit("start_time_ns");
    reveal_strlit("end_time_ns");
    reveal_strlit("attributes");
}

proof fn lemma_content_flags()
    ensures
        "--spans"@.len() == 7 && "--spans"@[2] == 's',
        "--words"@.len() == 7 && "--words"@[2] == 'w',
        "--repeats"@.len() == 9,
{
    reveal_strlit("--spans");
    reveal_strlit("--words");
    reveal_strlit("--repeats");
}

/// What a span of prose holds: four to a trace, a microsecond apart and half of one
/// long, with what was asked and what was said.
pub proof fn law_a_span_of_prose(index: int, prompt: Seq<char>, completion: Seq<char>)
    ensures
        ({
            let v = prose_span(index, prompt, completion);
            let a = prose_attributes(prompt, completion);
            &&& v.field("trace_id"@) == Some(JsonView::Text("t"@ + dec((index / 4) as nat)))
            &&& v.field("span_id"@) == Some(JsonView::Text("s"@ + dec(index as nat)))
            &&& v.field("start_time_ns"@) == Some(JsonView::Number(dec((1_700_000_000_000_000_000 + index * 1_000) as nat)))
            &&& v.field("end_time_ns"@) == Some(JsonView::Number(dec((1_700_000_000_000_000_000 + index * 1_000 + 500) as nat)))
            &&& v.field("attributes"@) == Some(a)
            &&& v.field("name"@) == Some(JsonView::Text("chat"@))
            &&& v.field("service"@) == Some(JsonView::Text("agent"@))
            &&& a.field("gen_ai.prompt"@) == Some(JsonView::Text(prompt))
            &&& a.field("gen_ai.completion"@) == Some(JsonView::Text(completion))
            &&& a.field("gen_ai.request.model"@) == Some(JsonView::Text("gpt-4o"@))
        }),
{
    lemma_prose_names();
    reveal_with_fuel(crate::json::entry_from, 8);
}

/// One number follows another by the generator's multiplier and increment, and a
/// draw is of its top 31 bits.
pub proof fn law_draws(state: u64, upper: nat)
    requires
        upper > 0,
    ensures
        lcg_next(state) as int == (state * 6_364_136_223_846_793_005 + 1_442_695_040_888_963_407)
            % 0x1_0000_0000_0000_0000,
        drawn(state, upper) < upper,
        drawn(state, upper) == (state as nat / 0x2_0000_0000) % upper,
{
    assert(state >> 33 == state / 0x2_0000_0000) by (bit_vector);
    let m = 0x1_0000_0000_0000_0000int;
    let x = state * 6_364_136_223_846_793_005;
    let product = state.wrapping_mul(6_364_136_223_846_793_005);
    assert(product as int == x % m);
    vstd::arithmetic::div_mod::lemma_add_mod_noop(x, 1_442_695_040_888_963_407, m);
    vstd::arithmetic::div_mod::lemma_add_mod_noop(x % m, 1_442_695_040_888_963_407, m);
    vstd::arithmetic::div_mod::lemma_mod_twice(x, m);
    assert(lcg_next(state) as int == (product + 1_442_695_040_888_963_407) % m);
}

/// What is said is so many words of the vocabulary, each followed by a space and
/// drawn by the next number.
pub proof fn law_what_is_said(state: u64, words: nat)
    ensures
        spoken(state, 0) == (state, Seq::<char>::empty()),
        spoken(state, words + 1).0 == lcg_next(spoken(state, words).0),
        spoken(state, words + 1).1 == spoken(state, words).1 + (common_word(
            (spoken(state, words + 1).0 as nat / 0x2_0000_0000 % 32) as int,
        ) + seq![' ']),
{
    law_draws(spoken(state, words + 1).0, 32);
    let said = spoken(state, words).1;
    let word = common_word(drawn(spoken(state, words + 1).0, 32) as int);
    assert(said + word + seq![' '] =~= said + (word + seq![' ']));
}

/// A prompt ends in the ticket of its span, and the next span goes on where the
/// numbers stand.
pub proof fn law_the_text_of_a_span(state: u64, index: nat, words: nat)
    ensures
        ({
            let (after, prompt, completion) = text_of(state, index, words);
            let ticket = "ticket"@ + dec(index);
            &&& prompt == spoken(state, words).1 + ticket
            &&& after == spoken(spoken(state, words).0, words).0
            &&& index > 0 ==> completion == spoken(spoken(state, words).0, words).1
            &&& index == 0 ==> completion == spoken(spoken(state, words).0, words).1
                + "antidisestablishmentarianism"@
        }),
        state_before(0, words) == 0x5eed_1234_5678_9abc,
        state_before(index + 1, words) == text_of(state_before(index, words), index, words).0,
        text_bytes_before(0, words) == 0,
        ({
            let (_, prompt, completion) = text_of(state_before(index, words), index, words);
            &&& text_bytes_before(index + 1, words) == text_bytes_before(index, words)
                + encode_utf8(prompt).len() + encode_utf8(completion).len()
            &&& corpus_span(index, words) == prose_span(index as int, prompt, completion)
        }),
{
}

/// The queries that are compared: one word that is rare, two that select, one that
/// is everywhere and one that is nowhere.
pub proof fn law_compared_queries()
    ensures
        query_of(0) == ("rare"@, "antidisestablishmentarianism"@),
        query_of(1) == ("selective_pair"@, "ticket7 shipping"@),
        query_of(2) == ("common"@, "shipping"@),
        query_of(3) == ("absent"@, "zygomorphic"@),
{
}

/// Each flag sets what it names to the number behind it and nothing else; anything
/// else is refused.
pub proof fn law_content_flags(args: Seq<Seq<char>>, i: int, o: ContentOptions)
    requires
        0 <= i <= args.len(),
    ensures
        i == args.len() ==> scan(args, i, o) == Ok::<ContentOptions, Seq<char>>(o),
        i < args.len() ==> ({
            let flag = args[i];
            let known = flag == "--spans"@ || flag == "--words"@ || flag == "--repeats"@;
            &&& !known ==> scan(args, i, o) == Err::<ContentOptions, Seq<char>>(
                "unknown argument "@ + flag,
            )
            &&& known && i + 1 == args.len() ==> scan(args, i, o) == Err::<
                ContentOptions,
                Seq<char>,
            >(flag + " needs a value"@)
            &&& known && i + 1 < args.len() && usize_of(args[i + 1]).is_none() ==> scan(args, i, o)
                == Err::<ContentOptions, Seq<char>>(flag + " needs an integer"@)
        }),
        i + 1 < args.len() && usize_of(args[i + 1]) is Some ==> ({
            let n = usize_of(args[i + 1])->0;
            &&& args[i] == "--spans"@ ==> scan(args, i, o) == scan(
                args,
                i + 2,
                ContentOptions { spans: n, ..o },
            )
            &&& args[i] == "--words"@ ==> scan(args, i, o) == scan(
                args,
                i + 2,
                ContentOptions { words: n, ..o },
            )
            &&& args[i] == "--repeats"@ ==> scan(args, i, o) == scan(
                args,
                i + 2,
                ContentOptions { repeats: n, ..o },
            )
        }),
        default_content().spans == 100_000 && default_content().words == 60
            && default_content().repeats == 3,
{
    lemma_content_flags();
}

/// The load is what stands behind its label, and unknown without one.
pub proof fn law_loads(printed: Seq<char>)
    ensures
        behind(printed, "load averages:"@) is Some ==> load_averages(printed) == trimmed(
            behind(printed, "load averages:"@)->0,
        ),
        behind(printed, "load averages:"@).is_none() && behind(printed, "load average:"@) is Some
            ==> load_averages(printed) == trimmed(behind(printed, "load average:"@)->0),
        behind(printed, "load averages:"@).is_none() && behind(printed, "load average:"@).is_none()
            ==> load_averages(printed) == "unknown"@,
{
}

} // verus!
