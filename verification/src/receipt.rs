//! The erasure receipt: every domain the subject's bytes could inhabit, with
//! the result of each, and the scans and classifications it rests on.

use vstd::prelude::*;

use crate::erasure::Subject;
use crate::sets::{adjoin_all, keys, picked, Distinct};
use crate::sort::{sort_texts, sorted};
use crate::span::KeyView;
use crate::text::{chars_of, copy, dec, decimal, same, starts_with, text_starts_with, texts};

verus! {

// -------------------------------------------------------------------- reports

/// One domain's verification result.
#[derive(Debug)]
pub struct DomainReport {
    /// The domain checked, by name.
    pub domain: String,
    /// `clear`, `holds-data`, `attention`, `retained-by-design`, or
    /// `not-applicable`.
    pub result: String,
    /// What was checked and what was found, in one sentence.
    pub detail: String,
    /// Erased keys found live again. Any nonzero count fails the receipt.
    pub re_delivered: usize,
    /// Spans matching the subject under keys the erasure never covered.
    /// Informational, never a failure.
    pub new_activity: usize,
    /// Byte-level occurrences of the subject's identifiers.
    pub occurrences: usize,
    /// Named findings.
    pub items: Vec<String>,
}

/// Whether a count is left out of a report.
pub fn is_zero(count: &usize) -> (r: bool)
    ensures
        r == (*count == 0),
{
    *count == 0
}

impl DomainReport {
    /// A domain in which nothing was found.
    pub fn clear(domain: &str, detail: String) -> (r: Self)
        ensures
            r.domain@ == domain@,
            r.result@ == "clear"@,
            r.detail == detail,
            r.re_delivered == 0 && r.new_activity == 0 && r.occurrences == 0,
            r.items@.len() == 0,
    {
        DomainReport {
            domain: copy(domain),
            result: copy("clear"),
            detail,
            re_delivered: 0,
            new_activity: 0,
            occurrences: 0,
            items: Vec::new(),
        }
    }
}

/// The erasure receipt.
#[derive(Debug)]
pub struct Receipt {
    /// The erasure being verified.
    pub erasure_id: u64,
    /// Its subject.
    pub subject: Subject,
    /// When the erasure was requested, nanoseconds since the Unix epoch.
    pub requested_unix_ns: u64,
    /// When this verification ran, nanoseconds since the Unix epoch.
    pub verified_unix_ns: u64,
    /// The generation that published the deletion, when it has settled.
    pub generation: Option<u64>,
    /// Whether the erasure has settled at all.
    pub settled: bool,
    /// Per-domain results, in a stable order.
    pub domains: Vec<DomainReport>,
    /// `erased` when every semantic check is clear or retained for a stated
    /// reason; `incomplete` otherwise.
    pub result: String,
    /// Whether the verification is also free of unexplained byte-level
    /// matches.
    pub conclusive: bool,
}

/// `n` blanks.
pub open spec fn blanks(n: nat) -> Seq<char> {
    Seq::new(n, |i: int| ' ')
}

/// A text filled up with blanks on the right to a width.
pub open spec fn padded(s: Seq<char>, width: nat) -> Seq<char> {
    if s.len() < width {
        s + blanks((width - s.len()) as nat)
    } else {
        s
    }
}

pub fn pad(text: &str, width: usize) -> (r: String)
    ensures
        r@ == padded(text@, width as nat),
{
    let mut r = copy(text);
    let mut n: usize = chars_of(text).len();
    assert(r@ =~= text@ + blanks(0));
    while n < width
        invariant
            n >= text@.len(),
            n <= width || n == text@.len(),
            r@ == text@ + blanks((n - text@.len()) as nat),
        decreases width - n,
    {
        let ghost before = r@;
        r.push(' ');
        n += 1;
        assert(r@ =~= text@ + blanks((n - text@.len()) as nat));
    }
    assert(text@ + blanks(0) =~= text@);
    r
}

pub open spec fn item_line(item: Seq<char>) -> Seq<char> {
    "  "@ + padded(""@, 24) + " "@ + padded(""@, 20) + "   - "@ + item + "\n"@
}

pub open spec fn item_lines(items: Seq<Seq<char>>) -> Seq<char>
    decreases items.len(),
{
    if items.len() == 0 {
        Seq::empty()
    } else {
        item_lines(items.drop_last()) + item_line(items.last())
    }
}

pub open spec fn domain_lines(report: DomainReport) -> Seq<char> {
    "  "@ + padded(report.domain@, 24) + " "@ + padded(report.result@, 20) + " "@ + report.detail@
        + "\n"@ + item_lines(texts(report.items@))
}

pub open spec fn all_domain_lines(reports: Seq<DomainReport>) -> Seq<char>
    decreases reports.len(),
{
    if reports.len() == 0 {
        Seq::empty()
    } else {
        all_domain_lines(reports.drop_last()) + domain_lines(reports.last())
    }
}

impl Receipt {
    pub open spec fn heading(&self) -> Seq<char> {
        "erasure "@ + dec(self.erasure_id as nat) + " — "@ + self.subject@.described()
            + "\nrequested "@ + dec(self.requested_unix_ns as nat) + " ns · settled: "@
            + if self.settled {
            "yes"@
        } else {
            "NO — purge has not completed"@
        } + match self.generation {
            Some(generation) => " · published in generation "@ + dec(generation as nat),
            None => Seq::empty(),
        } + "\n\n"@
    }

    pub open spec fn closing(&self) -> Seq<char> {
        "\nresult: "@ + self.result@ + if self.result@ == "erased"@ && !self.conclusive {
            " (INCONCLUSIVE: occurrence scans found the subject's identifiers; see the attention domains above)"@
        } else {
            Seq::empty()
        } + "\n"@
    }

    pub open spec fn rendered(&self) -> Seq<char> {
        self.heading() + all_domain_lines(self.domains@) + self.closing()
    }

    /// The receipt as the report an operator reads first.
    pub fn render_text(&self) -> (r: String)
        ensures
            r@ == self.rendered(),
    {
        let mut out = copy("erasure ");
        out.push_str(decimal(self.erasure_id).as_str());
        out.push_str(" — ");
        out.push_str(self.subject.describe().as_str());
        out.push_str("\nrequested ");
        out.push_str(decimal(self.requested_unix_ns).as_str());
        out.push_str(" ns · settled: ");
        if self.settled {
            out.push_str("yes");
        } else {
            out.push_str("NO — purge has not completed");
        }
        match self.generation {
            Some(generation) => {
                let mut note = copy(" · published in generation ");
                note.push_str(decimal(generation).as_str());
                out.push_str(note.as_str());
            },
            None => {
                assert(out@ + Seq::<char>::empty() =~= out@);
            },
        }
        out.push_str("\n\n");
        assert(out@ == self.heading());
        let mut body = String::new();
        let mut i: usize = 0;
        assert(body@ =~= Seq::<char>::empty());
        assert(self.domains@.take(0) =~= seq![]);
        while i < self.domains.len()
            invariant
                i <= self.domains@.len(),
                body@ == all_domain_lines(self.domains@.take(i as int)),
            decreases self.domains@.len() - i,
        {
            assert(self.domains@.take(i + 1).drop_last() =~= self.domains@.take(i as int));
            body.push_str(render_domain(&self.domains[i]).as_str());
            i += 1;
        }
        assert(self.domains@.take(i as int) =~= self.domains@);
        out.push_str(body.as_str());
        let mut end = copy("\nresult: ");
        end.push_str(self.result.as_str());
        if same(self.result.as_str(), "erased") && !self.conclusive {
            end.push_str(
                " (INCONCLUSIVE: occurrence scans found the subject's identifiers; see the attention domains above)",
            );
        } else {
            assert(end@ + Seq::<char>::empty() =~= end@);
        }
        end.push_str("\n");
        assert(end@ == self.closing());
        out.push_str(end.as_str());
        out
    }
}

fn render_domain(report: &DomainReport) -> (r: String)
    ensures
        r@ == domain_lines(*report),
{
    let mut out = copy("  ");
    out.push_str(pad(report.domain.as_str(), 24).as_str());
    out.push_str(" ");
    out.push_str(pad(report.result.as_str(), 20).as_str());
    out.push_str(" ");
    out.push_str(report.detail.as_str());
    out.push_str("\n");
    let mut lines = String::new();
    let ghost all = texts(report.items@);
    let mut i: usize = 0;
    assert(lines@ =~= Seq::<char>::empty());
    assert(all.take(0) =~= seq![]);
    while i < report.items.len()
        invariant
            i <= report.items@.len(),
            all == texts(report.items@),
            lines@ == item_lines(all.take(i as int)),
        decreases report.items@.len() - i,
    {
        assert(all.take(i + 1).drop_last() =~= all.take(i as int));
        let mut line = copy("  ");
        line.push_str(pad("", 24).as_str());
        line.push_str(" ");
        line.push_str(pad("", 20).as_str());
        line.push_str("   - ");
        line.push_str(report.items[i].as_str());
        line.push_str("\n");
        lines.push_str(line.as_str());
        i += 1;
    }
    assert(all.take(i as int) =~= all);
    out.push_str(lines.as_str());
    out
}

// ---------------------------------------------------------------- occurrences

/// Whether `needle` stands in `hay` at position `p`.
pub open spec fn occurs_at(hay: Seq<u8>, needle: Seq<u8>, p: int) -> bool {
    0 <= p && p + needle.len() <= hay.len() && hay.subrange(p, p + needle.len()) == needle
}

/// At how many positions from `lo` to `hi` a needle stands.
pub open spec fn occurrences_between(hay: Seq<u8>, needle: Seq<u8>, lo: int, hi: int) -> nat
    decreases hi - lo,
{
    if lo >= hi {
        0
    } else {
        (if occurs_at(hay, needle, lo) {
            1nat
        } else {
            0nat
        }) + occurrences_between(hay, needle, lo + 1, hi)
    }
}

/// At how many positions a needle stands; overlapping ones count each. The
/// empty needle stands nowhere.
pub open spec fn occurrences(hay: Seq<u8>, needle: Seq<u8>) -> nat {
    if needle.len() == 0 {
        0
    } else {
        occurrences_between(hay, needle, 0, hay.len() as int)
    }
}

/// The occurrences of several needles together.
pub open spec fn total_occurrences(hay: Seq<u8>, needles: Seq<Seq<u8>>) -> nat
    decreases needles.len(),
{
    if needles.len() == 0 {
        0
    } else {
        total_occurrences(hay, needles.drop_last()) + occurrences(hay, needles.last())
    }
}

fn stands_at(hay: &[u8], needle: &[u8], p: usize) -> (r: bool)
    requires
        p <= hay@.len(),
    ensures
        r == occurs_at(hay@, needle@, p as int),
{
    let length: usize = hay.len();
    if needle.len() > length - p {
        return false;
    }
    let ghost part = hay@.subrange(p as int, p + needle@.len());
    let mut i: usize = 0;
    while i < needle.len()
        invariant
            i <= needle@.len(),
            p + needle@.len() <= length == hay@.len(),
            part == hay@.subrange(p as int, p + needle@.len()),
            forall|k: int| 0 <= k < i ==> part[k] == needle@[k],
        decreases needle@.len() - i,
    {
        if hay[p + i] != needle[i] {
            assert(part[i as int] != needle@[i as int]);
            return false;
        }
        i += 1;
    }
    assert(part =~= needle@);
    true
}

/// Counts the positions at which a needle stands.
pub fn count_in(haystack: &[u8], needle: &[u8]) -> (r: usize)
    ensures
        r == occurrences(haystack@, needle@),
        r <= haystack@.len(),
{
    if needle.len() == 0 {
        return 0;
    }
    let mut count: usize = 0;
    let mut p: usize = 0;
    while p < haystack.len()
        invariant
            p <= haystack@.len(),
            count <= p,
            count + occurrences_between(haystack@, needle@, p as int, haystack@.len() as int)
                == occurrences_between(haystack@, needle@, 0, haystack@.len() as int),
        decreases haystack@.len() - p,
    {
        if stands_at(haystack, needle, p) {
            count += 1;
        }
        p += 1;
    }
    count
}

proof fn lemma_split(hay: Seq<u8>, needle: Seq<u8>, a: int, b: int, c: int)
    requires
        a <= b <= c,
    ensures
        occurrences_between(hay, needle, a, c) == occurrences_between(hay, needle, a, b)
            + occurrences_between(hay, needle, b, c),
    decreases b - a,
{
    if a < b {
        lemma_split(hay, needle, a + 1, b, c);
    }
}

proof fn lemma_shift(h: Seq<u8>, g: Seq<u8>, needle: Seq<u8>, lo: int, hi: int, d: int)
    requires
        forall|p: int|
            lo <= p < hi ==> #[trigger] occurs_at(h, needle, p) == occurs_at(g, needle, p + d),
    ensures
        occurrences_between(h, needle, lo, hi) == occurrences_between(g, needle, lo + d, hi + d),
    decreases hi - lo,
{
    if lo < hi {
        assert(occurs_at(h, needle, lo) == occurs_at(g, needle, lo + d));
        lemma_shift(h, g, needle, lo + 1, hi, d);
    }
}

proof fn lemma_nowhere(hay: Seq<u8>, needle: Seq<u8>, lo: int, hi: int)
    requires
        lo + needle.len() > hay.len(),
    ensures
        occurrences_between(hay, needle, lo, hi) == 0,
    decreases hi - lo,
{
    if lo < hi {
        lemma_nowhere(hay, needle, lo + 1, hi);
    }
}

/// How much of what came before has to be kept so that a needle split across
/// a boundary is seen whole.
pub open spec fn tail(seen: Seq<u8>, longest: nat) -> Seq<u8> {
    let keep = if longest == 0 {
        0
    } else if seen.len() < longest - 1 {
        seen.len() as int
    } else {
        longest - 1
    };
    seen.skip(seen.len() - keep)
}

/// A chunk adds the occurrences in the kept tail and the chunk together, less
/// those that lie in the tail alone.
pub proof fn lemma_chunk(seen: Seq<u8>, chunk: Seq<u8>, needle: Seq<u8>, longest: nat)
    requires
        needle.len() <= longest,
    ensures
        occurrences(seen + chunk, needle) + occurrences(tail(seen, longest), needle)
            == occurrences(seen, needle) + occurrences(tail(seen, longest) + chunk, needle),
{
    if needle.len() > 0 {
        let all = seen + chunk;
        let kept = tail(seen, longest);
        let window = kept + chunk;
        let d = seen.len() - kept.len();
        let m = if seen.len() >= needle.len() {
            seen.len() - needle.len() + 1
        } else {
            0
        };
        assert(d <= m);
        assert forall|p: int| 0 <= p < m implies #[trigger] occurs_at(all, needle, p) == occurs_at(
            seen,
            needle,
            p + 0,
        ) by {
            assert(all.subrange(p, p + needle.len()) =~= seen.subrange(p, p + needle.len()));
        }
        lemma_shift(all, seen, needle, 0, m, 0);
        lemma_split(all, needle, 0, m, all.len() as int);
        if m <= seen.len() {
            lemma_split(seen, needle, 0, m, seen.len() as int);
            lemma_nowhere(seen, needle, m, seen.len() as int);
        }
        assert forall|p: int| m - d <= p < window.len() implies #[trigger] occurs_at(
            window,
            needle,
            p,
        ) == occurs_at(all, needle, p + d) by {
            if p + needle.len() <= window.len() {
                assert(window.subrange(p, p + needle.len()) =~= all.subrange(
                    p + d,
                    p + d + needle.len(),
                ));
            }
        }
        lemma_shift(window, all, needle, m - d, window.len() as int, d);
        lemma_split(window, needle, 0, m - d, window.len() as int);
        assert forall|p: int| 0 <= p < m - d implies #[trigger] occurs_at(window, needle, p)
            == occurs_at(kept, needle, p + 0) by {
            assert(window.subrange(p, p + needle.len()) =~= kept.subrange(p, p + needle.len()));
        }
        lemma_shift(window, kept, needle, 0, m - d, 0);
        lemma_split(kept, needle, 0, m - d, kept.len() as int);
        lemma_nowhere(kept, needle, m - d, kept.len() as int);
    }
}

pub open spec fn byte_views(v: Seq<Vec<u8>>) -> Seq<Seq<u8>> {
    Seq::new(v.len(), |i: int| v[i]@)
}

/// The larger of two lengths at most; counts stop at the largest number.
pub open spec fn saturated(n: nat) -> usize {
    if n <= usize::MAX {
        n as usize
    } else {
        usize::MAX
    }
}

/// Counts the occurrences of needles in a stream that comes in chunks, keeping
/// only a tail of it.
pub struct OccurrenceCounter {
    needles: Vec<Vec<u8>>,
    longest: usize,
    carry: Vec<u8>,
    count: usize,
    seen: Ghost<Seq<u8>>,
}

impl OccurrenceCounter {
    /// The needles sought.
    pub closed spec fn sought(&self) -> Seq<Seq<u8>> {
        byte_views(self.needles@)
    }

    /// The bytes fed so far.
    pub closed spec fn fed(&self) -> Seq<u8> {
        self.seen@
    }

    pub closed spec fn well_formed(&self) -> bool {
        &&& forall|i: int|
            0 <= i < self.needles@.len() ==> (#[trigger] self.needles@[i])@.len() <= self.longest
        &&& self.carry@ == tail(self.seen@, self.longest as nat)
        &&& self.count == saturated(total_occurrences(self.seen@, self.sought()))
    }

    pub fn new(needles: Vec<Vec<u8>>) -> (r: Self)
        ensures
            r.well_formed(),
            r.sought() == byte_views(needles@),
            r.fed() == Seq::<u8>::empty(),
    {
        let mut longest: usize = 0;
        let mut i: usize = 0;
        while i < needles.len()
            invariant
                i <= needles@.len(),
                forall|k: int| 0 <= k < i ==> (#[trigger] needles@[k])@.len() <= longest,
            decreases needles@.len() - i,
        {
            if needles[i].len() > longest {
                longest = needles[i].len();
            }
            i += 1;
        }
        proof {
            lemma_nothing(byte_views(needles@));
        }
        let carry: Vec<u8> = Vec::new();
        assert(carry@ =~= tail(seq![], longest as nat));
        OccurrenceCounter { needles, longest, carry, count: 0, seen: Ghost(Seq::empty()) }
    }

    /// Takes the next chunk.
    pub fn feed(&mut self, chunk: &[u8])
        requires
            old(self).well_formed(),
            old(self).fed().len() + chunk@.len() <= usize::MAX,
        ensures
            final(self).well_formed(),
            final(self).sought() == old(self).sought(),
            final(self).fed() == old(self).fed() + chunk@,
    {
        let ghost before = self.seen@;
        let ghost after = before + chunk@;
        let ghost all = self.sought();
        let mut window: Vec<u8> = Vec::new();
        extend(&mut window, self.carry.as_slice());
        extend(&mut window, chunk);
        assert(window@ =~= self.carry@ + chunk@);
        let mut i: usize = 0;
        let mut count: usize = self.count;
        let ghost mut sum: nat = total_occurrences(before, all);
        assert(all.take(0) =~= seq![]);
        while i < self.needles.len()
            invariant
                i <= self.needles@.len(),
                *self == *old(self),
                all == byte_views(self.needles@),
                before == self.seen@,
                after == before + chunk@,
                forall|k: int|
                    0 <= k < self.needles@.len() ==> (#[trigger] self.needles@[k])@.len()
                        <= self.longest,
                self.carry@ == tail(before, self.longest as nat),
                window@ == self.carry@ + chunk@,
                count == saturated(sum),
                sum + total_occurrences(before, all.take(i as int)) == total_occurrences(
                    before,
                    all,
                ) + total_occurrences(after, all.take(i as int)),
            decreases self.needles@.len() - i,
        {
            let needle = self.needles[i].as_slice();
            let inside = count_in(self.carry.as_slice(), needle);
            let whole = count_in(window.as_slice(), needle);
            proof {
                assert(all.take(i + 1).drop_last() =~= all.take(i as int));
                assert(all.take(i + 1).last() == needle@);
                lemma_chunk(before, chunk@, needle@, self.longest as nat);
                lemma_grows(before, chunk@, needle@);
                sum = sum + (whole - inside) as nat;
            }
            count = count.saturating_add(whole - inside);
            i += 1;
        }
        assert(all.take(i as int) =~= all);
        let keep: usize = if self.longest == 0 {
            0
        } else if window.len() < self.longest - 1 {
            window.len()
        } else {
            self.longest - 1
        };
        let mut carry: Vec<u8> = Vec::new();
        extend(&mut carry, &window.as_slice()[window.len() - keep..window.len()]);
        proof {
            lemma_tail(before, chunk@, self.longest as nat);
            assert(carry@ =~= window@.skip(window@.len() - keep));
        }
        self.carry = carry;
        self.count = count;
        self.seen = Ghost(after);
    }

    /// How many occurrences the stream so far holds.
    pub fn total(&self) -> (r: usize)
        requires
            self.well_formed(),
        ensures
            r == saturated(total_occurrences(self.fed(), self.sought())),
    {
        self.count
    }
}

fn extend(into: &mut Vec<u8>, more: &[u8])
    ensures
        final(into)@ == old(into)@ + more@,
{
    let ghost start = into@;
    let mut i: usize = 0;
    assert(start + more@.take(0) =~= start);
    while i < more.len()
        invariant
            i <= more@.len(),
            into@ == start + more@.take(i as int),
        decreases more@.len() - i,
    {
        into.push(more[i]);
        assert(start + more@.take(i + 1) =~= (start + more@.take(i as int)).push(more@[i as int]));
        i += 1;
    }
    assert(more@.take(i as int) =~= more@);
}

proof fn lemma_nothing(needles: Seq<Seq<u8>>)
    ensures
        total_occurrences(seq![], needles) == 0,
    decreases needles.len(),
{
    if needles.len() > 0 {
        lemma_nothing(needles.drop_last());
    }
}

/// More bytes never hold fewer occurrences.
proof fn lemma_grows(seen: Seq<u8>, chunk: Seq<u8>, needle: Seq<u8>)
    ensures
        occurrences(seen + chunk, needle) >= occurrences(seen, needle),
{
    if needle.len() > 0 {
        lemma_grows_from(seen, chunk, needle, 0);
        lemma_split(
            seen + chunk,
            needle,
            0,
            seen.len() as int,
            (seen + chunk).len() as int,
        );
    }
}

proof fn lemma_grows_from(seen: Seq<u8>, chunk: Seq<u8>, needle: Seq<u8>, p: int)
    requires
        0 <= p,
    ensures
        occurrences_between(seen + chunk, needle, p, seen.len() as int) >= occurrences_between(
            seen,
            needle,
            p,
            seen.len() as int,
        ),
    decreases seen.len() - p,
{
    if p < seen.len() {
        lemma_grows_from(seen, chunk, needle, p + 1);
        if occurs_at(seen, needle, p) {
            assert((seen + chunk).subrange(p, p + needle.len()) =~= seen.subrange(
                p,
                p + needle.len(),
            ));
        }
    }
}

/// The tail of what has been seen is the tail of the kept tail and the chunk.
proof fn lemma_tail(seen: Seq<u8>, chunk: Seq<u8>, longest: nat)
    ensures
        tail(seen + chunk, longest) == tail(tail(seen, longest) + chunk, longest),
{
    assert(tail(seen + chunk, longest) =~= tail(tail(seen, longest) + chunk, longest));
}

// ------------------------------------------------------------- classification

/// Live spans found matching a subject, by kind.
#[derive(Clone, Copy, Debug, PartialEq, Eq, Structural)]
pub struct MatchClasses {
    /// Erased keys found live again.
    pub re_delivered: usize,
    /// Subject-matching spans under keys the erasure never covered.
    pub new_activity: usize,
}

pub open spec fn among(erased: Seq<KeyView>) -> spec_fn(KeyView) -> bool {
    |k: KeyView| erased.contains(k)
}

/// Splits matches against the erased keys: each distinct key counts once, as a
/// re-delivery if it was erased and as new activity if not.
pub fn classify_matches(
    erased_keys: &Distinct<(String, String, String)>,
    matches: &Vec<(String, String, String)>,
) -> (r: MatchClasses)
    ensures
        r.re_delivered == picked(adjoin_all(seq![], keys(matches@)), among(erased_keys@)).len(),
        r.re_delivered + r.new_activity == adjoin_all(seq![], keys(matches@)).len(),
{
    let mut re_delivered: usize = 0;
    let mut new_activity: usize = 0;
    let mut seen: Distinct<(String, String, String)> = Distinct::new();
    let ghost all = keys(matches@);
    let ghost p = among(erased_keys@);
    let mut i: usize = 0;
    assert(all.take(0) =~= seq![]);
    while i < matches.len()
        invariant
            i <= matches@.len(),
            all == keys(matches@),
            p == among(erased_keys@),
            seen@ == adjoin_all(seq![], all.take(i as int)),
            re_delivered == picked(seen@, p).len(),
            re_delivered + new_activity == seen@.len(),
            seen@.len() <= i,
        decreases matches@.len() - i,
    {
        let ghost before = seen@;
        assert(all.take(i + 1).drop_last() =~= all.take(i as int));
        let key = (
            copy(matches[i].0.as_str()),
            copy(matches[i].1.as_str()),
            copy(matches[i].2.as_str()),
        );
        if seen.insert(key) {
            assert(seen@.drop_last() =~= before);
            if erased_keys.contains(&matches[i]) {
                re_delivered += 1;
            } else {
                new_activity += 1;
            }
        }
        i += 1;
    }
    assert(all.take(i as int) =~= all);
    MatchClasses { re_delivered, new_activity }
}

// ----------------------------------------------------------------------- pins

/// The pin labels among a directory's entries, each a name and whether it is a
/// directory.
pub open spec fn labels_of(entries: Seq<(String, bool)>) -> Seq<Seq<char>>
    decreases entries.len(),
{
    if entries.len() == 0 {
        seq![]
    } else {
        let before = labels_of(entries.drop_last());
        let (name, is_dir) = entries.last();
        if is_dir && !starts_with(name@, "."@) {
            before.push(name@)
        } else {
            before
        }
    }
}

/// The pins directory's labels, sorted: its directories, hidden ones left out.
pub fn pin_labels(entries: &Vec<(String, bool)>) -> (r: Vec<String>)
    ensures
        texts(r@) == sorted(labels_of(entries@)),
{
    let mut labels: Vec<String> = Vec::new();
    let mut i: usize = 0;
    assert(entries@.take(0) =~= seq![]);
    assert(texts(labels@) =~= seq![]);
    while i < entries.len()
        invariant
            i <= entries@.len(),
            texts(labels@) == labels_of(entries@.take(i as int)),
        decreases entries@.len() - i,
    {
        let ghost before = labels@;
        assert(entries@.take(i + 1).drop_last() =~= entries@.take(i as int));
        if entries[i].1 && !text_starts_with(entries[i].0.as_str(), ".") {
            let name = copy(entries[i].0.as_str());
            labels.push(name);
            assert(texts(labels@) =~= texts(before).push(name@));
        }
        i += 1;
    }
    assert(entries@.take(i as int) =~= entries@);
    sort_texts(labels)
}

// ----------------------------------------------------------------------- laws

/// However a stream is cut, the count is that of the whole.
pub proof fn law_chunking_does_not_matter(
    seen: Seq<u8>,
    chunk: Seq<u8>,
    needle: Seq<u8>,
    longest: nat,
)
    requires
        needle.len() <= longest,
    ensures
        occurrences(seen + chunk, needle) == occurrences(seen, needle) + occurrences(
            tail(seen, longest) + chunk,
            needle,
        ) - occurrences(tail(seen, longest), needle),
{
    lemma_chunk(seen, chunk, needle, longest);
}

/// A byte-level scan never misses: wherever an identifier stands, it counts.
pub proof fn law_a_scan_never_misses(hay: Seq<u8>, needle: Seq<u8>, p: int)
    requires
        needle.len() > 0,
        occurs_at(hay, needle, p),
    ensures
        occurrences(hay, needle) > 0,
{
    lemma_split(hay, needle, 0, p, hay.len() as int);
}

/// A needle is counted once for every place where its bytes stand, overlapping
/// places among them; the empty needle stands nowhere.
pub proof fn law_occurrences_are_places(hay: Seq<u8>, needle: Seq<u8>)
    ensures
        needle.len() == 0 ==> occurrences(hay, needle) == 0,
        needle.len() > 0 ==> occurrences(hay, needle) == Seq::new(hay.len(), |p: int| p).filter(
            |p: int|
                p + needle.len() <= hay.len() && hay.subrange(p, p + needle.len()) == needle,
        ).len(),
{
    if needle.len() > 0 {
        lemma_places(hay, needle, hay.len() as int);
        assert(Seq::new(hay.len(), |p: int| p) =~= Seq::new(hay.len() as int as nat, |p: int| p));
    }
}

proof fn lemma_places(hay: Seq<u8>, needle: Seq<u8>, hi: int)
    requires
        0 <= hi,
    ensures
        occurrences_between(hay, needle, 0, hi) == Seq::new(hi as nat, |p: int| p).filter(
            |p: int|
                p + needle.len() <= hay.len() && hay.subrange(p, p + needle.len()) == needle,
        ).len(),
    decreases hi,
{
    reveal(Seq::filter);
    let all = Seq::new(hi as nat, |p: int| p);
    if hi > 0 {
        lemma_places(hay, needle, hi - 1);
        lemma_split(hay, needle, 0, hi - 1, hi);
        reveal_with_fuel(occurrences_between, 2);
        assert(all.drop_last() =~= Seq::new((hi - 1) as nat, |p: int| p));
        assert(all.last() == hi - 1);
    }
}

/// Several needles are counted each for itself.
pub proof fn law_needles_add_up(hay: Seq<u8>, needles: Seq<Seq<u8>>, needle: Seq<u8>)
    ensures
        total_occurrences(hay, Seq::empty()) == 0,
        total_occurrences(hay, needles.push(needle)) == total_occurrences(hay, needles)
            + occurrences(hay, needle),
{
    assert(needles.push(needle).drop_last() =~= needles);
}

/// A count is what it counts, or the largest number where no number holds it.
pub proof fn law_counts_saturate(n: nat)
    ensures
        n <= usize::MAX ==> saturated(n) == n,
        n > usize::MAX ==> saturated(n) == usize::MAX,
{
}

/// Matches are counted by key, each once: those that were erased are
/// re-deliveries, and the others are new activity.
pub proof fn law_matches_are_classified(erased: Seq<KeyView>, matches: Seq<KeyView>)
    ensures
        ({
            let distinct = adjoin_all(seq![], matches);
            let back = picked(distinct, among(erased));
            &&& distinct.no_duplicates()
            &&& forall|k: KeyView| #[trigger] distinct.contains(k) == matches.contains(k)
            &&& forall|k: KeyView| #[trigger]
                back.contains(k) == (matches.contains(k) && erased.contains(k))
            &&& back == distinct.filter(|k: KeyView| erased.contains(k))
        }),
{
    let distinct = adjoin_all(seq![], matches);
    crate::sets::lemma_adjoin_all(Seq::<KeyView>::empty(), matches);
    crate::sets::lemma_picked(distinct, among(erased));
    crate::sets::law_picking_is_filtering(distinct, among(erased));
    let q = |k: KeyView| erased.contains(k);
    assert(among(erased) =~= q);
}

/// The pins are the directories whose names do not begin with a dot.
pub proof fn law_pins_are_directories(entries: Seq<(String, bool)>, name: Seq<char>)
    ensures
        labels_of(entries).contains(name) <==> exists|i: int|
            0 <= i < entries.len() && (#[trigger] entries[i]).0@ == name && entries[i].1 && (
            name.len() == 0 || name[0] != '.'),
    decreases entries.len(),
{
    reveal_strlit(".");
    assert(starts_with(name, "."@) == (name.len() > 0 && name[0] == '.')) by {
        if starts_with(name, "."@) {
            assert(name.take(1)[0] == "."@[0]);
        }
        if name.len() > 0 && name[0] == '.' {
            assert(name.take(1) =~= "."@);
        }
    }
    if entries.len() > 0 {
        let init = entries.drop_last();
        let n = entries.len() - 1;
        law_pins_are_directories(init, name);
        let before = labels_of(init);
        let after = labels_of(entries);
        assert(entries[n] == entries.last());
        assert forall|i: int| 0 <= i < n implies #[trigger] init[i] == entries[i] by {}
        assert forall|i: int| 0 <= i < n implies #[trigger] entries[i] == init[i] by {}
        if before.contains(name) {
            let k = choose|k: int| 0 <= k < before.len() && before[k] == name;
            assert(after[k] == name);
        }
        if after.contains(name) && !before.contains(name) {
            let k = choose|k: int| 0 <= k < after.len() && after[k] == name;
            if k < before.len() {
                assert(before[k] == name);
            }
        }
        if entries.last().1 && !starts_with(entries.last().0@, "."@) {
            assert(after[before.len() as int] == entries.last().0@);
        }
    }
}

/// A field is filled up with blanks to its width and never cut.
pub proof fn law_padding(s: Seq<char>, width: nat, i: int)
    requires
        0 <= i < padded(s, width).len(),
    ensures
        i < s.len() ==> padded(s, width)[i] == s[i],
        i >= s.len() ==> padded(s, width)[i] == ' ',
        padded(s, width).len() == if s.len() < width {
            width
        } else {
            s.len()
        },
{
}

/// A receipt closes with its result, and says that it is inconclusive where it
/// reads `erased` and the scans found something, and nowhere else.
pub proof fn law_a_receipt_closes_with_its_result(r: Receipt)
    ensures
        r.result@ == "erased"@ && !r.conclusive ==> r.closing() == "\nresult: erased"@
            + " (INCONCLUSIVE: occurrence scans found the subject's identifiers; see the attention domains above)"@
            + "\n"@,
        r.result@ != "erased"@ || r.conclusive ==> r.closing() == "\nresult: "@ + r.result@ + "\n"@,
{
    reveal_strlit("\nresult: ");
    reveal_strlit("erased");
    reveal_strlit("\nresult: erased");
    assert("\nresult: "@ + "erased"@ =~= "\nresult: erased"@);
    assert("\nresult: "@ + r.result@ + Seq::<char>::empty() =~= "\nresult: "@ + r.result@);
}

/// A receipt begins with the erasure and its subject, when it was requested,
/// whether it has settled, and the generation that published it.
pub proof fn law_a_receipt_begins_with_its_erasure(r: Receipt)
    ensures
        ({
            let front = "erasure "@ + dec(r.erasure_id as nat) + " — "@ + r.subject@.described()
                + "\nrequested "@ + dec(r.requested_unix_ns as nat) + " ns · settled: "@;
            let state = if r.settled {
                "yes"@
            } else {
                "NO — purge has not completed"@
            };
            &&& r.generation is None ==> r.heading() == front + state + "\n\n"@
            &&& r.generation is Some ==> r.heading() == front + state
                + " · published in generation "@ + dec(r.generation->0 as nat) + "\n\n"@
        }),
{
    let front = "erasure "@ + dec(r.erasure_id as nat) + " — "@ + r.subject@.described()
        + "\nrequested "@ + dec(r.requested_unix_ns as nat) + " ns · settled: "@;
    let state = if r.settled {
        "yes"@
    } else {
        "NO — purge has not completed"@
    };
    if r.generation is None {
        assert(front + state + Seq::<char>::empty() =~= front + state);
    } else {
        let note = " · published in generation "@;
        let g = dec(r.generation->0 as nat);
        assert(front + state + (note + g) =~= front + state + note + g);
    }
}

/// A receipt lists every domain in order, each with its result, its detail and
/// its findings.
pub proof fn law_a_receipt_lists_its_domains(
    reports: Seq<DomainReport>,
    report: DomainReport,
    items: Seq<Seq<char>>,
    item: Seq<char>,
)
    ensures
        all_domain_lines(Seq::empty()).len() == 0,
        all_domain_lines(reports.push(report)) == all_domain_lines(reports) + domain_lines(report),
        domain_lines(report) == "  "@ + padded(report.domain@, 24) + " "@ + padded(
            report.result@,
            20,
        ) + " "@ + report.detail@ + "\n"@ + item_lines(texts(report.items@)),
        item_lines(Seq::empty()).len() == 0,
        item_lines(items.push(item)) == item_lines(items) + ("  "@ + padded(""@, 24) + " "@
            + padded(""@, 20) + "   - "@ + item + "\n"@),
{
    assert(reports.push(report).drop_last() =~= reports);
    assert(items.push(item).drop_last() =~= items);
}

} // verus!
