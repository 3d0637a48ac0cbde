//! Tables keyed by text, and lists of hashes with fast lookup.

use std::collections::HashSet;

use vstd::prelude::*;

use crate::text::{copy, same};

verus! {

pub open spec fn key_stands_at<V>(entries: Seq<(String, V)>, k: Seq<char>, i: int) -> bool {
    0 <= i < entries.len() && entries[i].0@ == k
}

pub open spec fn table_of<V: View>(entries: Seq<(String, V)>) -> Map<Seq<char>, V::V> {
    Map::new(
        |k: Seq<char>| exists|i: int| key_stands_at(entries, k, i),
        |k: Seq<char>| entries[choose|i: int| key_stands_at(entries, k, i)].1@,
    )
}

pub open spec fn keys_differ<V>(entries: Seq<(String, V)>) -> bool {
    forall|i: int, j: int|
        #![trigger entries[i], entries[j]]
        0 <= i < j < entries.len() ==> entries[i].0@ != entries[j].0@
}

pub proof fn lemma_table_at<V: View>(entries: Seq<(String, V)>, i: int)
    requires
        keys_differ(entries),
        0 <= i < entries.len(),
    ensures
        table_of(entries).contains_key(entries[i].0@),
        table_of(entries)[entries[i].0@] == entries[i].1@,
{
    let k = entries[i].0@;
    assert(key_stands_at(entries, k, i));
    let j = choose|j: int| key_stands_at(entries, k, j);
    assert(key_stands_at(entries, k, j));
    if i < j {
        assert(entries[i].0@ != entries[j].0@);
    }
    if j < i {
        assert(entries[j].0@ != entries[i].0@);
    }
}

/// Values by key.
#[derive(Debug)]
pub struct Table<V: View> {
    entries: Vec<(String, V)>,
}

impl<V: View> View for Table<V> {
    type V = Map<Seq<char>, V::V>;

    closed spec fn view(&self) -> Map<Seq<char>, V::V> {
        table_of(self.entries@)
    }
}

impl<V: View> Table<V> {
    #[verifier::type_invariant]
    spec fn sound(self) -> bool {
        keys_differ(self.entries@)
    }

    pub fn new() -> (r: Self)
        ensures
            r@ == Map::<Seq<char>, V::V>::empty(),
    {
        let r = Table { entries: Vec::new() };
        assert(r@ =~= Map::<Seq<char>, V::V>::empty()) by {
            assert forall|k: Seq<char>| !r@.contains_key(k) by {
                if exists|i: int| key_stands_at(r.entries@, k, i) {
                    let i = choose|i: int| key_stands_at(r.entries@, k, i);
                    assert(key_stands_at(r.entries@, k, i));
                }
            }
        }
        r
    }

    fn find(&self, key: &str) -> (r: Option<usize>)
        ensures
            match r {
                Some(i) => i < self.entries@.len() && self.entries@[i as int].0@ == key@
                    && self@.contains_key(key@) && self@[key@] == self.entries@[i as int].1@,
                None => !self@.contains_key(key@),
            },
    {
        proof {
            use_type_invariant(self);
        }
        let mut i: usize = 0;
        while i < self.entries.len()
            invariant
                i <= self.entries@.len(),
                keys_differ(self.entries@),
                forall|k: int| 0 <= k < i ==> (#[trigger] self.entries@[k]).0@ != key@,
            decreases self.entries@.len() - i,
        {
            if same(self.entries[i].0.as_str(), key) {
                proof {
                    lemma_table_at(self.entries@, i as int);
                }
                return Some(i);
            }
            i += 1;
        }
        assert(!self@.contains_key(key@)) by {
            if exists|i: int| key_stands_at(self.entries@, key@, i) {
                let i = choose|i: int| key_stands_at(self.entries@, key@, i);
                assert(self.entries@[i].0@ == key@);
            }
        }
        None
    }

    /// What the table holds under a key.
    pub fn get(&self, key: &str) -> (r: Option<&V>)
        ensures
            match r {
                Some(value) => self@.contains_key(key@) && self@[key@] == value@,
                None => !self@.contains_key(key@),
            },
    {
        match self.find(key) {
            Some(i) => Some(&self.entries[i].1),
            None => None,
        }
    }

    /// Takes a value out.
    pub fn remove(&mut self, key: &str) -> (r: Option<V>)
        ensures
            match r {
                Some(value) => old(self)@.contains_key(key@) && old(self)@[key@] == value@,
                None => !old(self)@.contains_key(key@),
            },
            final(self)@ == old(self)@.remove(key@),
    {
        proof {
            use_type_invariant(&*self);
        }
        match self.find(key) {
            Some(i) => {
                let ghost before = self.entries@;
                let mut entries: Vec<(String, V)> = Vec::new();
                std::mem::swap(&mut entries, &mut self.entries);
                let (_, value) = entries.swap_remove(i);
                proof {
                    lemma_removed(before, entries@, i as int);
                }
                self.entries = entries;
                Some(value)
            },
            None => {
                assert(self@ =~= self@.remove(key@));
                None
            },
        }
    }

    /// Puts a value under a key, in place of what stood there.
    pub fn put(&mut self, key: &str, value: V)
        ensures
            final(self)@ == old(self)@.insert(key@, value@),
    {
        let ghost before = self@;
        self.remove(key);
        proof {
            use_type_invariant(&*self);
            assert(!self@.contains_key(key@));
        }
        let ghost rest = self.entries@;
        let mut entries: Vec<(String, V)> = Vec::new();
        std::mem::swap(&mut entries, &mut self.entries);
        let text = copy(key);
        entries.push((text, value));
        proof {
            assert(entries@.drop_last() =~= rest);
            lemma_pushed(rest, entries@);
            assert(table_of(entries@) =~= before.insert(key@, value@));
        }
        self.entries = entries;
    }

    /// The entries, each key once, in no particular order.
    pub fn entries(&self) -> (r: &Vec<(String, V)>)
        ensures
            keys_differ(r@),
            self@ == table_of(r@),
    {
        proof {
            use_type_invariant(self);
        }
        &self.entries
    }
}

proof fn lemma_removed<V: View>(before: Seq<(String, V)>, after: Seq<(String, V)>, i: int)
    requires
        keys_differ(before),
        0 <= i < before.len(),
        after == before.update(i, before.last()).drop_last(),
    ensures
        keys_differ(after),
        table_of(after) == table_of(before).remove(before[i].0@),
{
    let n = before.len() - 1;
    assert forall|a: int, b: int|
        #![trigger after[a], after[b]]
        0 <= a < b < after.len() implies after[a].0@ != after[b].0@ by {
        let x = if a == i {
            n
        } else {
            a
        };
        let y = if b == i {
            n
        } else {
            b
        };
        if x < y {
            assert(before[x].0@ != before[y].0@);
        } else {
            assert(before[y].0@ != before[x].0@);
        }
    }
    let k = before[i].0@;
    assert forall|q: Seq<char>| #[trigger] table_of(after).contains_key(q) == table_of(
        before,
    ).remove(k).contains_key(q) by {
        if table_of(after).contains_key(q) {
            let a = choose|a: int| key_stands_at(after, q, a);
            let x = if a == i {
                n
            } else {
                a
            };
            assert(key_stands_at(before, q, x));
            if x < i {
                assert(before[x].0@ != before[i].0@);
            } else {
                assert(before[i].0@ != before[x].0@);
            }
        }
        if table_of(before).contains_key(q) && q != k {
            let x = choose|x: int| key_stands_at(before, q, x);
            assert(key_stands_at(before, q, x));
            if x == n {
                assert(key_stands_at(after, q, i));
            } else {
                assert(key_stands_at(after, q, x));
            }
        }
    }
    assert forall|q: Seq<char>| table_of(after).contains_key(q) implies #[trigger] table_of(
        after,
    )[q] == table_of(before)[q] by {
        let a = choose|a: int| key_stands_at(after, q, a);
        assert(key_stands_at(after, q, a));
        let x = if a == i {
            n
        } else {
            a
        };
        assert(after[a] == before[x]);
        lemma_table_at(after, a);
        lemma_table_at(before, x);
    }
    assert(table_of(after) =~= table_of(before).remove(k));
}

pub proof fn lemma_pushed<V: View>(before: Seq<(String, V)>, after: Seq<(String, V)>)
    requires
        keys_differ(before),
        after.len() > 0,
        after.drop_last() == before,
        !table_of(before).contains_key(after.last().0@),
    ensures
        keys_differ(after),
        table_of(after) == table_of(before).insert(after.last().0@, after.last().1@),
{
    let n = before.len() as int;
    let k = after.last().0@;
    assert forall|i: int| 0 <= i < n implies (#[trigger] before[i]).0@ != k by {
        if before[i].0@ == k {
            assert(key_stands_at(before, k, i));
        }
    }
    assert forall|i: int| 0 <= i < n implies #[trigger] after[i] == before[i] by {
        assert(after.drop_last()[i] == before[i]);
    }
    assert(after[n] == after.last());
    assert forall|q: Seq<char>| #[trigger] table_of(after).contains_key(q) == table_of(
        before,
    ).insert(k, after.last().1@).contains_key(q) by {
        if table_of(after).contains_key(q) {
            let a = choose|a: int| key_stands_at(after, q, a);
            assert(key_stands_at(after, q, a));
            if a < n {
                assert(key_stands_at(before, q, a));
            }
        }
        if table_of(before).contains_key(q) {
            let x = choose|x: int| key_stands_at(before, q, x);
            assert(key_stands_at(before, q, x));
            assert(key_stands_at(after, q, x));
        }
        if q == k {
            assert(key_stands_at(after, q, n));
        }
    }
    assert forall|q: Seq<char>| table_of(after).contains_key(q) implies #[trigger] table_of(
        after,
    )[q] == table_of(before).insert(k, after.last().1@)[q] by {
        let a = choose|a: int| key_stands_at(after, q, a);
        assert(key_stands_at(after, q, a));
        lemma_table_at(after, a);
        if a < n {
            lemma_table_at(before, a);
        }
    }
    assert(table_of(after) =~= table_of(before).insert(k, after.last().1@));
}

// --------------------------------------------------------------------- hashes

/// Numbers, each once, in the order in which they came.
#[derive(Debug)]
pub struct Hashes {
    list: Vec<u64>,
    set: HashSet<u64>,
}

impl View for Hashes {
    type V = Set<u64>;

    closed spec fn view(&self) -> Set<u64> {
        self.list@.to_set()
    }
}

impl Hashes {
    #[verifier::type_invariant]
    spec fn agree(self) -> bool {
        self.set@ == self.list@.to_set()
    }

    pub fn new() -> (r: Self)
        ensures
            r@ == Set::<u64>::empty(),
    {
        broadcast use vstd::std_specs::hash::group_hash_axioms;

        let list: Vec<u64> = Vec::new();
        assert(list@.to_set() =~= Set::<u64>::empty());
        Hashes { list, set: HashSet::new() }
    }

    pub fn contains(&self, hash: u64) -> (r: bool)
        ensures
            r == self@.contains(hash),
    {
        broadcast use vstd::std_specs::hash::group_hash_axioms;

        proof {
            use_type_invariant(self);
        }
        self.set.contains(&hash)
    }

    pub fn insert(&mut self, hash: u64)
        ensures
            final(self)@ == old(self)@.insert(hash),
    {
        broadcast use vstd::std_specs::hash::group_hash_axioms;

        let mut held = Hashes::new();
        std::mem::swap(self, &mut held);
        proof {
            use_type_invariant(&held);
        }
        let Hashes { mut list, mut set } = held;
        let ghost before = list@;
        if set.insert(hash) {
            list.push(hash);
            assert(list@.to_set() =~= before.to_set().insert(hash)) by {
                assert forall|h: u64| list@.to_set().contains(h) == before.to_set().insert(
                    hash,
                ).contains(h) by {
                    if before.contains(h) {
                        let i = choose|i: int| 0 <= i < before.len() && before[i] == h;
                        assert(list@[i] == h);
                    }
                    if h == hash {
                        assert(list@[before.len() as int] == h);
                    }
                    if list@.contains(h) && h != hash {
                        let i = choose|i: int| 0 <= i < list@.len() && list@[i] == h;
                        assert(before[i] == h);
                    }
                }
            }
        } else {
            assert(before.to_set() =~= before.to_set().insert(hash));
        }
        *self = Hashes { list, set };
    }

    /// Adds every number of another list.
    pub fn extend(&mut self, other: &Hashes)
        ensures
            final(self)@ == old(self)@.union(other@),
    {
        let ghost start = self@;
        let mut i: usize = 0;
        assert(other.list@.take(0).to_set() =~= Set::<u64>::empty());
        assert(start.union(Set::<u64>::empty()) =~= start);
        while i < other.list.len()
            invariant
                i <= other.list@.len(),
                self@ == start.union(other.list@.take(i as int).to_set()),
            decreases other.list@.len() - i,
        {
            self.insert(other.list[i]);
            assert(other.list@.take(i + 1) =~= other.list@.take(i as int).push(
                other.list@[i as int],
            ));
            assert(other.list@.take(i + 1).to_set() =~= other.list@.take(i as int).to_set().insert(
                other.list@[i as int],
            )) by {
                lemma_push_to_set(other.list@.take(i as int), other.list@[i as int]);
            }
            assert(self@ =~= start.union(other.list@.take(i + 1).to_set()));
            i += 1;
        }
        assert(other.list@.take(i as int) =~= other.list@);
    }

    /// Whether any number is also in another list.
    pub fn meets(&self, other: &Hashes) -> (r: bool)
        ensures
            r == exists|h: u64| #[trigger] self@.contains(h) && other@.contains(h),
    {
        let mut i: usize = 0;
        while i < self.list.len()
            invariant
                i <= self.list@.len(),
                forall|k: int| 0 <= k < i ==> !other@.contains(#[trigger] self.list@[k]),
            decreases self.list@.len() - i,
        {
            let hash: u64 = self.list[i];
            if other.contains(hash) {
                assert(self.list@.contains(hash));
                assert(self@.contains(hash));
                return true;
            }
            i += 1;
        }
        assert forall|h: u64| #[trigger] self@.contains(h) implies !other@.contains(h) by {
            let k = choose|k: int| 0 <= k < self.list@.len() && self.list@[k] == h;
            assert(!other@.contains(self.list@[k]));
        }
        false
    }
}

proof fn lemma_push_to_set(s: Seq<u64>, x: u64)
    ensures
        s.push(x).to_set() == s.to_set().insert(x),
{
    assert forall|h: u64| s.push(x).to_set().contains(h) == s.to_set().insert(x).contains(h) by {
        if s.contains(h) {
            let i = choose|i: int| 0 <= i < s.len() && s[i] == h;
            assert(s.push(x)[i] == h);
        }
        if h == x {
            assert(s.push(x)[s.len() as int] == h);
        }
        if s.push(x).contains(h) && h != x {
            let i = choose|i: int| 0 <= i < s.push(x).len() && s.push(x)[i] == h;
            assert(s[i] == h);
        }
    }
    assert(s.push(x).to_set() =~= s.to_set().insert(x));
}

} // verus!
