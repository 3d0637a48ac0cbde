//! Sets and tables over keys that compare by what they stand for: an item
//! occurs once, and what came first stays first.

use vstd::prelude::*;

use crate::text::same;

verus! {

/// Values that compare by what they stand for.
pub trait Same: Sized {
    type S;

    /// What the value stands for.
    spec fn key(&self) -> Self::S;

    fn same_as(&self, other: &Self) -> (r: bool)
        ensures
            r == (self.key() == other.key()),
    ;
}

impl Same for String {
    type S = Seq<char>;

    open spec fn key(&self) -> Seq<char> {
        self@
    }

    fn same_as(&self, other: &Self) -> (r: bool) {
        same(self.as_str(), other.as_str())
    }
}

impl Same for u64 {
    type S = u64;

    open spec fn key(&self) -> u64 {
        *self
    }

    fn same_as(&self, other: &Self) -> (r: bool) {
        *self == *other
    }
}

impl Same for (String, String) {
    type S = (Seq<char>, Seq<char>);

    open spec fn key(&self) -> (Seq<char>, Seq<char>) {
        (self.0@, self.1@)
    }

    fn same_as(&self, other: &Self) -> (r: bool) {
        same(self.0.as_str(), other.0.as_str()) && same(self.1.as_str(), other.1.as_str())
    }
}

impl Same for (String, String, String) {
    type S = (Seq<char>, Seq<char>, Seq<char>);

    open spec fn key(&self) -> (Seq<char>, Seq<char>, Seq<char>) {
        (self.0@, self.1@, self.2@)
    }

    fn same_as(&self, other: &Self) -> (r: bool) {
        same(self.0.as_str(), other.0.as_str()) && same(self.1.as_str(), other.1.as_str()) && same(
            self.2.as_str(),
            other.2.as_str(),
        )
    }
}

pub open spec fn keys<T: Same>(items: Seq<T>) -> Seq<T::S> {
    Seq::new(items.len(), |i: int| items[i].key())
}

/// A sequence with an item added, where it is not there yet.
pub open spec fn adjoin<S>(s: Seq<S>, x: S) -> Seq<S> {
    if s.contains(x) {
        s
    } else {
        s.push(x)
    }
}

/// A sequence with many items added, in order.
pub open spec fn adjoin_all<S>(s: Seq<S>, more: Seq<S>) -> Seq<S>
    decreases more.len(),
{
    if more.len() == 0 {
        s
    } else {
        adjoin(adjoin_all(s, more.drop_last()), more.last())
    }
}

pub proof fn lemma_adjoin<S>(s: Seq<S>, x: S)
    ensures
        s.no_duplicates() ==> adjoin(s, x).no_duplicates(),
        forall|y: S| #[trigger] adjoin(s, x).contains(y) == (s.contains(y) || y == x),
{
    let t = adjoin(s, x);
    assert forall|y: S| #[trigger] t.contains(y) == (s.contains(y) || y == x) by {
        if s.contains(y) && !s.contains(x) {
            let i = choose|i: int| 0 <= i < s.len() && s[i] == y;
            assert(t[i] == y);
        }
        if y == x && !s.contains(x) {
            assert(t[s.len() as int] == x);
        }
        if t.contains(y) && !s.contains(x) {
            let i = choose|i: int| 0 <= i < t.len() && t[i] == y;
            if i < s.len() {
                assert(s[i] == y);
            }
        }
    }
    if s.no_duplicates() && !s.contains(x) {
        assert forall|i: int, j: int| 0 <= i < t.len() && 0 <= j < t.len() && i != j implies t[i]
            != t[j] by {
            if i < s.len() && j == s.len() {
                assert(s.contains(s[i]));
            }
            if j < s.len() && i == s.len() {
                assert(s.contains(s[j]));
            }
        }
    }
}

pub proof fn lemma_adjoin_all<S>(s: Seq<S>, more: Seq<S>)
    ensures
        s.no_duplicates() ==> adjoin_all(s, more).no_duplicates(),
        forall|y: S| #[trigger]
            adjoin_all(s, more).contains(y) == (s.contains(y) || more.contains(y)),
    decreases more.len(),
{
    if more.len() > 0 {
        let init = more.drop_last();
        lemma_adjoin_all(s, init);
        lemma_adjoin(adjoin_all(s, init), more.last());
        assert forall|y: S| more.contains(y) == (init.contains(y) || y == more.last()) by {
            if more.contains(y) {
                let i = choose|i: int| 0 <= i < more.len() && more[i] == y;
                if i < init.len() {
                    assert(init[i] == y);
                }
            }
            if init.contains(y) {
                let i = choose|i: int| 0 <= i < init.len() && init[i] == y;
                assert(more[i] == y);
            }
            if y == more.last() {
                assert(more[more.len() - 1] == y);
            }
        }
    }
}

pub proof fn lemma_adjoin_all_concat<S>(s: Seq<S>, a: Seq<S>, b: Seq<S>)
    ensures
        adjoin_all(s, a + b) == adjoin_all(adjoin_all(s, a), b),
    decreases b.len(),
{
    if b.len() == 0 {
        assert(a + b =~= a);
    } else {
        lemma_adjoin_all_concat(s, a, b.drop_last());
        assert((a + b).drop_last() =~= a + b.drop_last());
        assert((a + b).last() == b.last());
    }
}

/// A set: its items in the order in which they came, none twice.
#[derive(Debug)]
pub struct Distinct<T: Same> {
    items: Vec<T>,
}

impl<T: Same> View for Distinct<T> {
    type V = Seq<T::S>;

    closed spec fn view(&self) -> Seq<T::S> {
        keys(self.items@)
    }
}

impl<T: Same> Distinct<T> {
    #[verifier::type_invariant]
    spec fn sound(self) -> bool {
        keys(self.items@).no_duplicates()
    }

    pub fn new() -> (r: Self)
        ensures
            r@ == Seq::<T::S>::empty(),
    {
        let r = Distinct { items: Vec::new() };
        assert(r@ =~= Seq::<T::S>::empty());
        r
    }


    pub fn contains(&self, x: &T) -> (r: bool)
        ensures
            r == self@.contains(x.key()),
    {
        let mut i: usize = 0;
        while i < self.items.len()
            invariant
                i <= self.items@.len(),
                forall|k: int| 0 <= k < i ==> #[trigger] self@[k] != x.key(),
            decreases self.items@.len() - i,
        {
            if self.items[i].same_as(x) {
                assert(self@[i as int] == x.key());
                return true;
            }
            i += 1;
        }
        false
    }

    /// Adds an item; whether it was not there before.
    pub fn insert(&mut self, x: T) -> (r: bool)
        ensures
            final(self)@ == adjoin(old(self)@, x.key()),
            r == !old(self)@.contains(x.key()),
    {
        proof {
            use_type_invariant(&*self);
            lemma_adjoin(self@, x.key());
        }
        if self.contains(&x) {
            return false;
        }
        let ghost before = self@;
        let mut items: Vec<T> = Vec::new();
        std::mem::swap(&mut items, &mut self.items);
        let ghost held = items@;
        items.push(x);
        assert(keys(items@) =~= keys(held).push(x.key()));
        self.items = items;
        true
    }

    pub fn len(&self) -> (r: usize)
        ensures
            r == self@.len(),
            self@.no_duplicates(),
    {
        proof {
            use_type_invariant(self);
        }
        self.items.len()
    }

    /// The items, in the order in which they came.
    pub fn items(&self) -> (r: &Vec<T>)
        ensures
            keys(r@) == self@,
            self@.no_duplicates(),
    {
        proof {
            use_type_invariant(self);
        }
        &self.items
    }
}

// -------------------------------------------------------------------- picking

/// The items that a predicate admits, in their order.
pub open spec fn picked<A>(s: Seq<A>, p: spec_fn(A) -> bool) -> Seq<A>
    decreases s.len(),
{
    if s.len() == 0 {
        seq![]
    } else {
        let before = picked(s.drop_last(), p);
        if p(s.last()) {
            before.push(s.last())
        } else {
            before
        }
    }
}

pub proof fn lemma_picked<A>(s: Seq<A>, p: spec_fn(A) -> bool)
    ensures
        picked(s, p).len() <= s.len(),
        forall|x: A| #[trigger] picked(s, p).contains(x) == (s.contains(x) && p(x)),
        (forall|i: int| 0 <= i < s.len() ==> p(#[trigger] s[i])) ==> picked(s, p) == s,
    decreases s.len(),
{
    if s.len() > 0 {
        let init = s.drop_last();
        let before = picked(init, p);
        lemma_picked(init, p);
        assert forall|x: A| #[trigger] picked(s, p).contains(x) == (s.contains(x) && p(x)) by {
            assert(s.contains(x) == (init.contains(x) || x == s.last())) by {
                if init.contains(x) {
                    let i = choose|i: int| 0 <= i < init.len() && init[i] == x;
                    assert(s[i] == x);
                }
                if s.contains(x) && x != s.last() {
                    let i = choose|i: int| 0 <= i < s.len() && s[i] == x;
                    assert(init[i] == x);
                }
            }
            assert(before.contains(x) == (init.contains(x) && p(x)));
            if p(s.last()) {
                let after = before.push(s.last());
                if before.contains(x) {
                    let i = choose|i: int| 0 <= i < before.len() && before[i] == x;
                    assert(after[i] == x);
                }
                if x == s.last() {
                    assert(after[before.len() as int] == x);
                }
                if after.contains(x) && x != s.last() {
                    let i = choose|i: int| 0 <= i < after.len() && after[i] == x;
                    assert(before[i] == x);
                }
            }
        }
        if forall|i: int| 0 <= i < s.len() ==> p(#[trigger] s[i]) {
            assert forall|i: int| 0 <= i < init.len() implies p(#[trigger] init[i]) by {
                assert(p(s[i]));
            }
            assert(p(s[s.len() - 1]));
            assert(init.push(s.last()) =~= s);
        }
    } else {
        assert(picked(s, p) =~= s);
    }
}

/// At most `limit` items from the front.
pub open spec fn capped<A>(s: Seq<A>, limit: Option<usize>) -> Seq<A> {
    match limit {
        Some(n) => if n < s.len() {
            s.take(n as int)
        } else {
            s
        },
        None => s,
    }
}

// -------------------------------------------------------------------- indexes

/// The positions at which a key stands.
pub open spec fn positions<S>(all: Seq<Option<S>>, k: S) -> Seq<usize>
    decreases all.len(),
{
    if all.len() == 0 {
        seq![]
    } else {
        let before = positions(all.drop_last(), k);
        if all.last() == Some(k) {
            before.push((all.len() - 1) as usize)
        } else {
            before
        }
    }
}

/// Going through the positions of a key instead of through all items finds the
/// same items, where no item under another key is admitted.
pub proof fn lemma_positions_pick<A, S>(
    items: Seq<A>,
    all: Seq<Option<S>>,
    k: S,
    p: spec_fn(A) -> bool,
)
    requires
        items.len() == all.len(),
        items.len() <= usize::MAX,
        forall|i: int| 0 <= i < items.len() && p(#[trigger] items[i]) ==> all[i] == Some(k),
    ensures
        forall|i: int|
            0 <= i < positions(all, k).len() ==> (#[trigger] positions(all, k)[i]) < items.len(),
        picked(
            Seq::new(positions(all, k).len(), |i: int| items[positions(all, k)[i] as int]),
            p,
        ) == picked(items, p),
    decreases items.len(),
{
    let at = positions(all, k);
    let there = Seq::new(at.len(), |i: int| items[at[i] as int]);
    if items.len() > 0 {
        let init = items.drop_last();
        let before = all.drop_last();
        assert forall|i: int| 0 <= i < init.len() && p(#[trigger] init[i]) implies before[i]
            == Some(k) by {
            assert(items[i] == init[i]);
        }
        lemma_positions_pick(init, before, k, p);
        let was = positions(before, k);
        let there_before = Seq::new(was.len(), |i: int| init[was[i] as int]);
        if all.last() == Some(k) {
            assert(at =~= was.push((all.len() - 1) as usize));
            assert(there.drop_last() =~= there_before);
            assert(there.last() == items.last());
        } else {
            assert(there =~= there_before);
            assert(!p(items[items.len() - 1]));
        }
    } else {
        assert(there =~= seq![]);
    }
}

pub open spec fn held_from<T: Same>(
    slots: Seq<(T, Vec<usize>)>,
    k: T::S,
    i: int,
) -> Seq<usize>
    decreases slots.len() - i,
{
    if i < 0 || i >= slots.len() {
        seq![]
    } else if slots[i].0.key() == k {
        slots[i].1@
    } else {
        held_from(slots, k, i + 1)
    }
}

/// Positions by key.
#[derive(Debug)]
pub struct Index<T: Same> {
    slots: Vec<(T, Vec<usize>)>,
}

impl<T: Same> Index<T> {
    /// The positions recorded for a key, in the order in which they came.
    pub closed spec fn at(&self, k: T::S) -> Seq<usize> {
        held_from(self.slots@, k, 0)
    }

    pub fn new() -> (r: Self)
        ensures
            forall|k: T::S| #[trigger] r.at(k) == Seq::<usize>::empty(),
    {
        Index { slots: Vec::new() }
    }

    /// Records one more position for a key.
    pub fn record(&mut self, key: T, position: usize)
        ensures
            forall|k: T::S| #[trigger]
                final(self).at(k) == if k == key.key() {
                    old(self).at(k).push(position)
                } else {
                    old(self).at(k)
                },
    {
        let ghost before = self.slots@;
        let mut i: usize = 0;
        while i < self.slots.len()
            invariant
                i <= self.slots@.len(),
                self.slots@ == before,
                *old(self) == *self,
                forall|j: int| 0 <= j < i ==> (#[trigger] before[j]).0.key() != key.key(),
            decreases self.slots@.len() - i,
        {
            if self.slots[i].0.same_as(&key) {
                self.slots[i].1.push(position);
                proof {
                    let after = self.slots@;
                    assert forall|k: T::S| #[trigger] held_from(after, k, 0) == if k == key.key() {
                        held_from(before, k, 0).push(position)
                    } else {
                        held_from(before, k, 0)
                    } by {
                        lemma_held_update(before, after, k, i as int, 0);
                    }
                }
                return ;
            }
            i += 1;
        }
        let mut list: Vec<usize> = Vec::new();
        list.push(position);
        self.slots.push((key, list));
        proof {
            let after = self.slots@;
            assert forall|k: T::S| #[trigger] held_from(after, k, 0) == if k == key.key() {
                held_from(before, k, 0).push(position)
            } else {
                held_from(before, k, 0)
            } by {
                lemma_held_push(before, after, k, 0);
            }
        }
    }

    /// The positions recorded for a key.
    pub fn lookup(&self, key: &T) -> (r: Option<&Vec<usize>>)
        ensures
            match r {
                Some(list) => list@ == self.at(key.key()),
                None => self.at(key.key()).len() == 0,
            },
    {
        let mut i: usize = 0;
        while i < self.slots.len()
            invariant
                i <= self.slots@.len(),
                held_from(self.slots@, key.key(), i as int) == self.at(key.key()),
            decreases self.slots@.len() - i,
        {
            if self.slots[i].0.same_as(key) {
                return Some(&self.slots[i].1);
            }
            i += 1;
        }
        None
    }
}

proof fn lemma_held_update<T: Same>(
    before: Seq<(T, Vec<usize>)>,
    after: Seq<(T, Vec<usize>)>,
    k: T::S,
    p: int,
    i: int,
)
    requires
        0 <= i <= before.len(),
        0 <= p < before.len(),
        after.len() == before.len(),
        forall|j: int| 0 <= j < before.len() && j != p ==> #[trigger] after[j] == before[j],
        after[p].0 == before[p].0,
        forall|j: int| 0 <= j < p ==> (#[trigger] before[j]).0.key() != before[p].0.key(),
    ensures
        held_from(after, k, i) == if k == before[p].0.key() && i <= p {
            after[p].1@
        } else {
            held_from(before, k, i)
        },
        k == before[p].0.key() && i <= p ==> held_from(before, k, i) == before[p].1@,
    decreases before.len() - i,
{
    if i < before.len() {
        lemma_held_update(before, after, k, p, i + 1);
        if i != p {
            assert(after[i] == before[i]);
        }
    }
}

proof fn lemma_held_push<T: Same>(
    before: Seq<(T, Vec<usize>)>,
    after: Seq<(T, Vec<usize>)>,
    k: T::S,
    i: int,
)
    requires
        0 <= i <= before.len(),
        after.len() == before.len() + 1,
        forall|j: int| 0 <= j < before.len() ==> #[trigger] after[j] == before[j],
        forall|j: int|
            0 <= j < before.len() ==> (#[trigger] before[j]).0.key() != after.last().0.key(),
    ensures
        held_from(after, k, i) == if k == after.last().0.key() {
            after.last().1@
        } else {
            held_from(before, k, i)
        },
        k == after.last().0.key() ==> held_from(before, k, i) == Seq::<usize>::empty(),
    decreases before.len() - i,
{
    reveal_with_fuel(held_from, 2);
    if i < before.len() {
        lemma_held_push(before, after, k, i + 1);
        assert(after[i] == before[i]);
    }
}

// ----------------------------------------------------------------------- laws

/// Adding items to a list keeps what was there in its place, adds every item
/// that was missing, and nothing else; no item comes twice.
pub proof fn law_adding_many<S>(s: Seq<S>, more: Seq<S>)
    ensures
        s.len() <= adjoin_all(s, more).len() <= s.len() + more.len(),
        adjoin_all(s, more).take(s.len() as int) == s,
        forall|y: S| #[trigger]
            adjoin_all(s, more).contains(y) == (s.contains(y) || more.contains(y)),
        s.no_duplicates() ==> adjoin_all(s, more).no_duplicates(),
    decreases more.len(),
{
    lemma_adjoin_all(s, more);
    if more.len() > 0 {
        law_adding_many(s, more.drop_last());
        let before = adjoin_all(s, more.drop_last());
        assert(before.push(more.last()).take(s.len() as int) =~= before.take(s.len() as int));
    } else {
        assert(s.take(s.len() as int) =~= s);
    }
}

/// What is picked is what a filter leaves: the admitted items, in order, each
/// as often as it occurs.
pub proof fn law_picking_is_filtering<A>(s: Seq<A>, p: spec_fn(A) -> bool)
    ensures
        picked(s, p) == s.filter(p),
    decreases s.len(),
{
    reveal(Seq::filter);
    if s.len() > 0 {
        law_picking_is_filtering(s.drop_last(), p);
    } else {
        assert(picked(s, p) =~= s.filter(p));
    }
}

/// A limit keeps the front: as many items as it says, or all where there are
/// fewer.
pub proof fn law_a_limit_keeps_the_front<A>(s: Seq<A>, limit: Option<usize>, i: int)
    requires
        0 <= i < capped(s, limit).len(),
    ensures
        capped(s, limit)[i] == s[i],
        limit matches Some(n) ==> capped(s, limit).len() == (if n < s.len() {
            n as nat
        } else {
            s.len()
        }),
        limit is None ==> capped(s, limit).len() == s.len(),
{
}

/// The positions of a key are those where it stands, in ascending order.
pub proof fn law_positions<S>(all: Seq<Option<S>>, k: S, i: int)
    requires
        all.len() <= usize::MAX,
        0 <= i < all.len(),
    ensures
        positions(all, k).contains(i as usize) == (all[i] == Some(k)),
        forall|a: int, b: int|
            0 <= a < b < positions(all, k).len() ==> positions(all, k)[a] < positions(all, k)[b],
        forall|a: int|
            0 <= a < positions(all, k).len() ==> (#[trigger] positions(all, k)[a]) < all.len(),
    decreases all.len(),
{
    let init = all.drop_last();
    let before = positions(init, k);
    let here = positions(all, k);
    let n = (all.len() - 1) as usize;
    if init.len() > 0 {
        law_positions(init, k, if i < init.len() {
            i
        } else {
            0
        });
    }
    if all.last() == Some(k) {
        assert(here =~= before.push(n));
        assert(here[before.len() as int] == n);
    }
    if before.contains(i as usize) {
        let w = choose|w: int| 0 <= w < before.len() && before[w] == i as usize;
        assert(here[w] == i as usize);
    }
    if here.contains(i as usize) && i < init.len() {
        let w = choose|w: int| 0 <= w < here.len() && here[w] == i as usize;
        assert(before[w] == i as usize);
    }
}

} // verus!
