//! Stable sorting by a total preorder, stated exactly: the result is the
//! sequence that inserting the items one by one gives, each behind every item
//! that may stand before it.

use vstd::prelude::*;
use vstd::utf8::{encode_utf8, encode_utf8_decode_utf8};

use crate::text::{copy, lemma_texts_push, same, texts};

verus! {

/// Items with a total preorder.
pub trait Ranked: Sized {
    /// Whether `self` may stand before `other`.
    spec fn ranks(&self, other: &Self) -> bool;

    proof fn total(a: &Self, b: &Self)
        ensures
            a.ranks(b) || b.ranks(a),
    ;

    proof fn transitive(a: &Self, b: &Self, c: &Self)
        requires
            a.ranks(b),
            b.ranks(c),
        ensures
            a.ranks(c),
    ;
}

/// Ranked items that can be compared.
pub trait Sortable: Ranked {
    fn at_most(&self, other: &Self) -> (r: bool)
        ensures
            r == self.ranks(other),
    ;
}

/// Where `x` goes in `s`: behind the last item that may stand before it.
pub open spec fn slot<T: Ranked>(s: Seq<T>, x: T) -> int
    decreases s.len(),
{
    if s.len() == 0 || s.last().ranks(&x) {
        s.len() as int
    } else {
        slot(s.drop_last(), x)
    }
}

/// The items inserted one by one.
pub open spec fn sorted<T: Ranked>(s: Seq<T>) -> Seq<T>
    decreases s.len(),
{
    if s.len() == 0 {
        s
    } else {
        let front = sorted(s.drop_last());
        front.insert(slot(front, s.last()), s.last())
    }
}

pub open spec fn in_order<T: Ranked>(s: Seq<T>) -> bool {
    forall|i: int, j: int| #![trigger s[i], s[j]] 0 <= i < j < s.len() ==> s[i].ranks(&s[j])
}

pub proof fn lemma_slot<T: Ranked>(s: Seq<T>, x: T)
    ensures
        0 <= slot(s, x) <= s.len(),
        slot(s, x) > 0 ==> s[slot(s, x) - 1].ranks(&x),
        forall|i: int| slot(s, x) <= i < s.len() ==> !(#[trigger] s[i]).ranks(&x),
    decreases s.len(),
{
    if s.len() > 0 && !s.last().ranks(&x) {
        lemma_slot(s.drop_last(), x);
        assert forall|i: int| slot(s, x) <= i < s.len() implies !(#[trigger] s[i]).ranks(&x) by {
            if i < s.len() - 1 {
                assert(s.drop_last()[i] == s[i]);
            }
        }
        if slot(s, x) > 0 {
            assert(s.drop_last()[slot(s, x) - 1] == s[slot(s, x) - 1]);
        }
    }
}

pub proof fn lemma_slot_in_order<T: Ranked>(s: Seq<T>, x: T)
    requires
        in_order(s),
    ensures
        forall|i: int| 0 <= i < slot(s, x) ==> (#[trigger] s[i]).ranks(&x),
        in_order(s.insert(slot(s, x), x)),
{
    lemma_slot(s, x);
    let p = slot(s, x);
    assert forall|i: int| 0 <= i < p implies (#[trigger] s[i]).ranks(&x) by {
        if i < p - 1 {
            T::transitive(&s[i], &s[p - 1], &x);
        }
    }
    let t = s.insert(p, x);
    assert forall|i: int, j: int| #![trigger t[i], t[j]] 0 <= i < j < t.len() implies t[i].ranks(
        &t[j],
    ) by {
        if i == p {
            T::total(&x, &s[j - 1]);
        } else if j == p {
        } else {
            let a = if i < p {
                i
            } else {
                i - 1
            };
            let b = if j < p {
                j
            } else {
                j - 1
            };
            assert(s[a].ranks(&s[b]));
        }
    }
}

/// Sorting puts the items in order.
pub proof fn law_sorted_is_in_order<T: Ranked>(s: Seq<T>)
    ensures
        in_order(sorted(s)),
    decreases s.len(),
{
    if s.len() > 0 {
        law_sorted_is_in_order(s.drop_last());
        lemma_slot_in_order(sorted(s.drop_last()), s.last());
    }
}

/// Sorting neither loses nor invents an item.
pub proof fn law_sorted_keeps_the_items<T: Ranked>(s: Seq<T>)
    ensures
        sorted(s).to_multiset() == s.to_multiset(),
        sorted(s).len() == s.len(),
    decreases s.len(),
{
    broadcast use vstd::seq_lib::group_to_multiset_ensures;

    if s.len() > 0 {
        let front = sorted(s.drop_last());
        law_sorted_keeps_the_items(s.drop_last());
        lemma_slot(front, s.last());
        let p = slot(front, s.last());
        vstd::seq_lib::to_multiset_insert(front, p, s.last());
        assert(s.drop_last().push(s.last()) == s);
    }
}

pub proof fn lemma_sorted_members<T: Ranked>(s: Seq<T>, x: T)
    ensures
        sorted(s).contains(x) == s.contains(x),
{
    broadcast use vstd::seq_lib::group_to_multiset_ensures;

    law_sorted_keeps_the_items(s);
    assert(sorted(s).contains(x) == (sorted(s).to_multiset().count(x) > 0));
    assert(s.contains(x) == (s.to_multiset().count(x) > 0));
}

proof fn lemma_slot_through<T: Ranked, U: Ranked>(s: Seq<T>, x: T, f: spec_fn(T) -> U)
    requires
        forall|a: T, b: T| #[trigger] a.ranks(&b) == f(a).ranks(&f(b)),
    ensures
        slot(s.map_values(f), f(x)) == slot(s, x),
    decreases s.len(),
{
    if s.len() > 0 {
        lemma_slot_through(s.drop_last(), x, f);
        assert(s.map_values(f).drop_last() =~= s.drop_last().map_values(f));
        assert(s.last().ranks(&x) == f(s.last()).ranks(&f(x)));
    }
}

/// Where items rank by what they stand for, what sorted items stand for is
/// what they stand for, sorted.
pub proof fn lemma_sorted_through<T: Ranked, U: Ranked>(s: Seq<T>, f: spec_fn(T) -> U)
    requires
        forall|a: T, b: T| #[trigger] a.ranks(&b) == f(a).ranks(&f(b)),
    ensures
        sorted(s).map_values(f) == sorted(s.map_values(f)),
    decreases s.len(),
{
    if s.len() > 0 {
        let front = sorted(s.drop_last());
        lemma_sorted_through(s.drop_last(), f);
        assert(s.map_values(f).drop_last() =~= s.drop_last().map_values(f));
        lemma_slot(front, s.last());
        lemma_slot_through(front, s.last(), f);
        let p = slot(front, s.last());
        assert(front.insert(p, s.last()).map_values(f) =~= front.map_values(f).insert(
            p,
            f(s.last()),
        ));
    } else {
        assert(s.map_values(f) =~= seq![]);
    }
}

/// The first position whose item may not stand before `x`.
fn find_slot<T: Sortable>(items: &Vec<T>, x: &T) -> (p: usize)
    requires
        in_order(items@),
    ensures
        p == slot(items@, *x),
{
    let mut low: usize = 0;
    let mut high: usize = items.len();
    while low < high
        invariant
            low <= high <= items@.len(),
            in_order(items@),
            forall|i: int| 0 <= i < low ==> (#[trigger] items@[i]).ranks(x),
            forall|i: int| high <= i < items@.len() ==> !(#[trigger] items@[i]).ranks(x),
        decreases high - low,
    {
        let middle: usize = low + (high - low) / 2;
        if items[middle].at_most(x) {
            assert forall|i: int| 0 <= i < middle + 1 implies (#[trigger] items@[i]).ranks(x) by {
                if i < middle {
                    T::transitive(&items@[i], &items@[middle as int], x);
                }
            }
            low = middle + 1;
        } else {
            assert forall|i: int| middle <= i < items@.len() implies !(#[trigger] items@[i]).ranks(
                x,
            ) by {
                if i > middle && items@[i].ranks(x) {
                    T::transitive(&items@[middle as int], &items@[i], x);
                }
            }
            high = middle;
        }
    }
    proof {
        lemma_slot(items@, *x);
        let p = slot(items@, *x);
        if p < low {
            assert(items@[p].ranks(x));
        }
        if p > low {
            assert(!items@[p - 1].ranks(x));
        }
    }
    low
}

/// Sorts the items.
pub fn sort<T: Sortable>(items: Vec<T>) -> (r: Vec<T>)
    ensures
        r@ == sorted(items@),
{
    let ghost all = items@;
    let mut rest = items;
    let mut turned: Vec<T> = Vec::new();
    // Turned round, so that taking from the end takes from the front.
    while rest.len() > 0
        invariant
            all == rest@ + turned@.reverse(),
        decreases rest@.len(),
    {
        let ghost before = rest@;
        let ghost after = turned@;
        match rest.pop() {
            Some(item) => {
                turned.push(item);
                assert(before + after.reverse() == rest@ + turned@.reverse());
            },
            None => {},
        }
    }
    assert(all == turned@.reverse());
    let mut done: Vec<T> = Vec::new();
    assert(all.take(0) == Seq::<T>::empty());
    let ghost mut k: int = 0;
    while turned.len() > 0
        invariant
            0 <= k <= all.len(),
            turned@.reverse() == all.skip(k),
            done@ == sorted(all.take(k)),
        decreases turned@.len(),
    {
        let ghost before = turned@;
        proof {
            law_sorted_is_in_order(all.take(k));
            assert(before.reverse().len() == before.len());
            assert(before.reverse()[0] == before.last());
            assert(all.skip(k)[0] == all[k]);
            assert(all.take(k + 1).drop_last() == all.take(k));
        }
        match turned.pop() {
            Some(item) => {
                let p = find_slot(&done, &item);
                proof {
                    lemma_slot(done@, item);
                }
                done.insert(p, item);
                assert(turned@.reverse() =~= all.skip(k + 1)) by {
                    assert(turned@.reverse() =~= before.reverse().skip(1));
                    assert(all.skip(k).skip(1) =~= all.skip(k + 1));
                }
            },
            None => {},
        }
        proof {
            k = k + 1;
        }
    }
    assert(turned@.reverse().len() == 0);
    assert(all.take(k) == all);
    done
}

// ----------------------------------------------------------------- text order

/// Lexicographic order of byte sequences.
pub open spec fn bytes_le(a: Seq<u8>, b: Seq<u8>) -> bool
    decreases a.len(),
{
    if a.len() == 0 {
        true
    } else if b.len() == 0 {
        false
    } else if a[0] != b[0] {
        a[0] < b[0]
    } else {
        bytes_le(a.skip(1), b.skip(1))
    }
}

/// Texts are ordered by their UTF-8 bytes.
pub open spec fn text_le(a: Seq<char>, b: Seq<char>) -> bool {
    bytes_le(encode_utf8(a), encode_utf8(b))
}

pub proof fn lemma_bytes_le_total(a: Seq<u8>, b: Seq<u8>)
    ensures
        bytes_le(a, b) || bytes_le(b, a),
    decreases a.len(),
{
    if a.len() > 0 && b.len() > 0 && a[0] == b[0] {
        lemma_bytes_le_total(a.skip(1), b.skip(1));
    }
}

pub proof fn lemma_bytes_le_transitive(a: Seq<u8>, b: Seq<u8>, c: Seq<u8>)
    requires
        bytes_le(a, b),
        bytes_le(b, c),
    ensures
        bytes_le(a, c),
    decreases a.len(),
{
    if a.len() > 0 && b.len() > 0 && c.len() > 0 && a[0] == b[0] && b[0] == c[0] {
        lemma_bytes_le_transitive(a.skip(1), b.skip(1), c.skip(1));
    }
}

pub proof fn lemma_bytes_le_antisymmetric(a: Seq<u8>, b: Seq<u8>)
    requires
        bytes_le(a, b),
        bytes_le(b, a),
    ensures
        a == b,
    decreases a.len(),
{
    if a.len() > 0 && b.len() > 0 {
        assert(a[0] == b[0]);
        lemma_bytes_le_antisymmetric(a.skip(1), b.skip(1));
        assert(a == seq![a[0]] + a.skip(1));
        assert(b == seq![b[0]] + b.skip(1));
    } else {
        assert(a =~= b);
    }
}

pub proof fn lemma_text_le_antisymmetric(a: Seq<char>, b: Seq<char>)
    requires
        text_le(a, b),
        text_le(b, a),
    ensures
        a == b,
{
    lemma_bytes_le_antisymmetric(encode_utf8(a), encode_utf8(b));
    encode_utf8_decode_utf8(a);
    encode_utf8_decode_utf8(b);
}

pub fn text_at_most(a: &str, b: &str) -> (r: bool)
    ensures
        r == text_le(a@, b@),
{
    let left = a.as_bytes();
    let right = b.as_bytes();
    let mut i: usize = 0;
    assert(left@.skip(0) == left@);
    assert(right@.skip(0) == right@);
    while i < left.len()
        invariant
            i <= left@.len(),
            i <= right@.len(),
            bytes_le(left@, right@) == bytes_le(left@.skip(i as int), right@.skip(i as int)),
            left@ == encode_utf8(a@),
            right@ == encode_utf8(b@),
        decreases left@.len() - i,
    {
        if i >= right.len() {
            return false;
        }
        if left[i] != right[i] {
            return left[i] < right[i];
        }
        assert(left@.skip(i as int).skip(1) == left@.skip(i + 1));
        assert(right@.skip(i as int).skip(1) == right@.skip(i + 1));
        i += 1;
    }
    true
}

impl Ranked for String {
    open spec fn ranks(&self, other: &Self) -> bool {
        text_le(self@, other@)
    }

    proof fn total(a: &Self, b: &Self) {
        lemma_bytes_le_total(encode_utf8(a@), encode_utf8(b@));
    }

    proof fn transitive(a: &Self, b: &Self, c: &Self) {
        lemma_bytes_le_transitive(encode_utf8(a@), encode_utf8(b@), encode_utf8(c@));
    }
}

impl Sortable for String {
    fn at_most(&self, other: &Self) -> (r: bool) {
        text_at_most(self.as_str(), other.as_str())
    }
}

impl Ranked for Seq<char> {
    open spec fn ranks(&self, other: &Self) -> bool {
        text_le(*self, *other)
    }

    proof fn total(a: &Self, b: &Self) {
        lemma_bytes_le_total(encode_utf8(*a), encode_utf8(*b));
    }

    proof fn transitive(a: &Self, b: &Self, c: &Self) {
        lemma_bytes_le_transitive(encode_utf8(*a), encode_utf8(*b), encode_utf8(*c));
    }
}

impl Ranked for u64 {
    open spec fn ranks(&self, other: &Self) -> bool {
        *self <= *other
    }

    proof fn total(a: &Self, b: &Self) {
    }

    proof fn transitive(a: &Self, b: &Self, c: &Self) {
    }
}

impl Sortable for u64 {
    fn at_most(&self, other: &Self) -> (r: bool) {
        *self <= *other
    }
}

/// Sorts texts.
pub fn sort_texts(items: Vec<String>) -> (r: Vec<String>)
    ensures
        texts(r@) == sorted(texts(items@)),
{
    let ghost all = items@;
    let r = sort(items);
    proof {
        let f = |t: String| t@;
        lemma_sorted_through(all, f);
        assert(all.map_values(f) =~= texts(all));
        assert(sorted(all).map_values(f) =~= texts(sorted(all)));
    }
    r
}

/// Lexicographic order of sequences of texts.
pub open spec fn lex_le(a: Seq<Seq<char>>, b: Seq<Seq<char>>) -> bool
    decreases a.len(),
{
    if a.len() == 0 {
        true
    } else if b.len() == 0 {
        false
    } else if a[0] != b[0] {
        text_le(a[0], b[0])
    } else {
        lex_le(a.skip(1), b.skip(1))
    }
}

pub proof fn lemma_text_le(a: Seq<char>, b: Seq<char>)
    ensures
        text_le(a, b) || text_le(b, a),
{
    lemma_bytes_le_total(encode_utf8(a), encode_utf8(b));
}

pub proof fn lemma_text_le_transitive(a: Seq<char>, b: Seq<char>, c: Seq<char>)
    requires
        text_le(a, b),
        text_le(b, c),
    ensures
        text_le(a, c),
{
    lemma_bytes_le_transitive(encode_utf8(a), encode_utf8(b), encode_utf8(c));
}

pub proof fn lemma_lex_le_total(a: Seq<Seq<char>>, b: Seq<Seq<char>>)
    ensures
        lex_le(a, b) || lex_le(b, a),
    decreases a.len(),
{
    if a.len() > 0 && b.len() > 0 {
        lemma_text_le(a[0], b[0]);
        lemma_lex_le_total(a.skip(1), b.skip(1));
    }
}

pub proof fn lemma_lex_le_transitive(a: Seq<Seq<char>>, b: Seq<Seq<char>>, c: Seq<Seq<char>>)
    requires
        lex_le(a, b),
        lex_le(b, c),
    ensures
        lex_le(a, c),
    decreases a.len(),
{
    if a.len() > 0 && b.len() > 0 && c.len() > 0 {
        if a[0] == b[0] && b[0] == c[0] {
            lemma_lex_le_transitive(a.skip(1), b.skip(1), c.skip(1));
        } else if a[0] != b[0] && b[0] != c[0] {
            if a[0] == c[0] {
                lemma_text_le_antisymmetric(a[0], b[0]);
            }
            lemma_text_le_transitive(a[0], b[0], c[0]);
        }
    }
}

pub open spec fn str_views(v: Seq<&str>) -> Seq<Seq<char>> {
    Seq::new(v.len(), |i: int| v[i]@)
}

/// Whether a sequence of texts may stand before another.
pub fn lex_at_most(a: &[&str], b: &[&str]) -> (r: bool)
    ensures
        r == lex_le(str_views(a@), str_views(b@)),
{
    let ghost left = str_views(a@);
    let ghost right = str_views(b@);
    let mut i: usize = 0;
    assert(left.skip(0) == left);
    assert(right.skip(0) == right);
    while i < a.len()
        invariant
            i <= a@.len(),
            i <= b@.len(),
            left == str_views(a@),
            right == str_views(b@),
            lex_le(left, right) == lex_le(left.skip(i as int), right.skip(i as int)),
        decreases a@.len() - i,
    {
        if i >= b.len() {
            return false;
        }
        if !same(a[i], b[i]) {
            return text_at_most(a[i], b[i]);
        }
        assert(left.skip(i as int).skip(1) == left.skip(i + 1));
        assert(right.skip(i as int).skip(1) == right.skip(i + 1));
        i += 1;
    }
    true
}

/// Texts in ascending order, none twice.
pub open spec fn ascending(s: Seq<Seq<char>>) -> bool {
    forall|i: int, j: int|
        #![trigger s[i], s[j]]
        0 <= i < j < s.len() ==> text_le(s[i], s[j]) && s[i] != s[j]
}

/// Sorts texts and drops repeats.
pub fn sort_unique(items: Vec<String>) -> (r: Vec<String>)
    ensures
        ascending(texts(r@)),
        forall|t: Seq<char>| #[trigger] texts(r@).contains(t) == texts(items@).contains(t),
        r@.len() <= items@.len(),
{
    let ghost all = items@;
    let ordered = sort(items);
    proof {
        law_sorted_is_in_order(all);
        law_sorted_keeps_the_items(all);
    }
    let mut r: Vec<String> = Vec::new();
    let mut i: usize = 0;
    while i < ordered.len()
        invariant
            i <= ordered@.len(),
            in_order(ordered@),
            ascending(texts(r@)),
            r@.len() <= i,
            r@.len() == 0 <==> i == 0,
            i > 0 ==> r@.last()@ == ordered@[i - 1]@,
            forall|k: int| 0 <= k < i ==> texts(r@).contains(#[trigger] ordered@[k]@),
            forall|k: int|
                0 <= k < r@.len() ==> exists|m: int|
                    0 <= m < i && (#[trigger] r@[k])@ == (#[trigger] ordered@[m])@,
        decreases ordered@.len() - i,
    {
        let ghost before = r@;
        let repeat = i > 0 && same(ordered[i - 1].as_str(), ordered[i].as_str());
        if !repeat {
            let text = copy(ordered[i].as_str());
            r.push(text);
            proof {
                lemma_texts_push(before, text);
                let t = texts(r@);
                assert forall|a: int, b: int|
                    #![trigger t[a], t[b]]
                    0 <= a < b < t.len() implies text_le(t[a], t[b]) && t[a] != t[b] by {
                    if b < before.len() {
                        assert(texts(before)[a] == t[a] && texts(before)[b] == t[b]);
                    } else {
                        let m = choose|m: int| 0 <= m < i && before[a]@ == ordered@[m]@;
                        assert(ordered@[m].ranks(&ordered@[i as int]));
                        assert(ordered@[i - 1].ranks(&ordered@[i as int]));
                        if ordered@[m]@ == ordered@[i as int]@ {
                            if m < i - 1 {
                                assert(ordered@[m].ranks(&ordered@[i - 1]));
                            }
                            lemma_text_le_antisymmetric(ordered@[i - 1]@, ordered@[i as int]@);
                        }
                    }
                }
                assert forall|k: int| 0 <= k < i + 1 implies t.contains(
                    #[trigger] ordered@[k]@,
                ) by {
                    if k < i {
                        let w = choose|w: int|
                            0 <= w < texts(before).len() && texts(before)[w] == ordered@[k]@;
                        assert(t[w] == ordered@[k]@);
                    } else {
                        assert(t[before.len() as int] == ordered@[k]@);
                    }
                }
                assert forall|k: int| 0 <= k < r@.len() implies exists|m: int|
                    0 <= m < i + 1 && (#[trigger] r@[k])@ == (#[trigger] ordered@[m])@ by {
                    if k < before.len() {
                        let m = choose|m: int| 0 <= m < i && before[k]@ == ordered@[m]@;
                        assert(r@[k]@ == ordered@[m]@);
                    } else {
                        assert(r@[k]@ == ordered@[i as int]@);
                    }
                }
            }
        } else {
            assert(texts(r@).contains(ordered@[i as int]@));
        }
        i += 1;
    }
    proof {
        let t = texts(r@);
        assert forall|x: Seq<char>| #[trigger] t.contains(x) == texts(all).contains(x) by {
            if t.contains(x) {
                let k = choose|k: int| 0 <= k < t.len() && t[k] == x;
                let m = choose|m: int| 0 <= m < ordered@.len() && r@[k]@ == ordered@[m]@;
                lemma_sorted_members(all, ordered@[m]);
                assert(sorted(all).contains(ordered@[m]));
                let w = choose|w: int| 0 <= w < all.len() && all[w] == ordered@[m];
                assert(texts(all)[w] == x);
            }
            if texts(all).contains(x) {
                let w = choose|w: int| 0 <= w < texts(all).len() && texts(all)[w] == x;
                assert(all.contains(all[w]));
                lemma_sorted_members(all, all[w]);
                let m = choose|m: int| 0 <= m < sorted(all).len() && sorted(all)[m] == all[w];
                assert(ordered@[m]@ == x);
            }
        }
    }
    r
}

// ----------------------------------------------------------------------- laws

/// Bytes are ordered by the first place where they differ; what another begins
/// with comes before it.
pub proof fn law_byte_order(a: Seq<u8>, b: Seq<u8>, k: int)
    requires
        0 <= k <= a.len(),
        k <= b.len(),
        forall|i: int| 0 <= i < k ==> a[i] == b[i],
    ensures
        k == a.len() ==> bytes_le(a, b),
        k == b.len() && k < a.len() ==> !bytes_le(a, b),
        k < a.len() && k < b.len() && a[k] < b[k] ==> bytes_le(a, b),
        k < a.len() && k < b.len() && a[k] > b[k] ==> !bytes_le(a, b),
    decreases k,
{
    if k > 0 {
        assert forall|i: int| 0 <= i < k - 1 implies a.skip(1)[i] == b.skip(1)[i] by {
            assert(a[i + 1] == b[i + 1]);
        }
        law_byte_order(a.skip(1), b.skip(1), k - 1);
    }
}

/// Pairs of texts are ordered by the first, and by the second where the first
/// are the same.
pub proof fn law_pair_order(a: Seq<char>, b: Seq<char>, c: Seq<char>, d: Seq<char>)
    ensures
        a != c ==> lex_le(seq![a, b], seq![c, d]) == bytes_le(encode_utf8(a), encode_utf8(c)),
        a == c ==> lex_le(seq![a, b], seq![c, d]) == bytes_le(encode_utf8(b), encode_utf8(d)),
{
    reveal_with_fuel(lex_le, 3);
    assert(seq![a, b].skip(1) =~= seq![b]);
    assert(seq![c, d].skip(1) =~= seq![d]);
    if b == d {
        lemma_bytes_le_total(encode_utf8(b), encode_utf8(b));
    }
}

/// Sequences of texts that begin alike are ordered by what follows.
pub proof fn law_text_sequences(front: Seq<Seq<char>>, a: Seq<char>, b: Seq<char>, x: Seq<Seq<char>>, y: Seq<Seq<char>>)
    requires
        a != b,
    ensures
        lex_le(front + seq![a] + x, front + seq![b] + y) == bytes_le(encode_utf8(a), encode_utf8(b)),
        lex_le(front, front + x),
        x.len() > 0 ==> !lex_le(front + x, front),
    decreases front.len(),
{
    reveal_with_fuel(lex_le, 2);
    let left = front + seq![a] + x;
    let right = front + seq![b] + y;
    if front.len() > 0 {
        law_text_sequences(front.skip(1), a, b, x, y);
        assert(left.skip(1) =~= front.skip(1) + seq![a] + x);
        assert(right.skip(1) =~= front.skip(1) + seq![b] + y);
        assert((front + x).skip(1) =~= front.skip(1) + x);
    }
}

/// Sorting is stable: of items that rank alike, the one that came first stays
/// first.
pub proof fn law_sorting_is_stable<T: Ranked>(s: Seq<T>, x: T)
    ensures
        sorted(s.push(x)).len() == s.len() + 1,
        exists|p: int|
            {
                &&& 0 <= p <= s.len()
                &&& sorted(s.push(x)) == #[trigger] sorted(s).insert(p, x)
                &&& forall|i: int| 0 <= i < p ==> (#[trigger] sorted(s)[i]).ranks(&x)
                &&& forall|i: int| p <= i < s.len() ==> !(#[trigger] sorted(s)[i]).ranks(&x)
            },
{
    let front = sorted(s);
    assert(s.push(x).drop_last() =~= s);
    law_sorted_keeps_the_items(s);
    law_sorted_keeps_the_items(s.push(x));
    law_sorted_is_in_order(s);
    lemma_slot(front, x);
    lemma_slot_in_order(front, x);
    let p = slot(front, x);
    assert(sorted(s.push(x)) == front.insert(p, x));
}

} // verus!
