//! Rankings: rows by weight, the larger the earlier, and then by key.

use vstd::prelude::*;

use crate::sort::{sort, text_at_most, text_le, Ranked, Sortable};

verus! {

// ------------------------------------------------------------------- rankings

/// Whether rows stand in strict order, each before all that follow.
pub open spec fn in_strict_order<A>(rows: Seq<A>, before: spec_fn(A, A) -> bool) -> bool {
    forall|i: int, j: int|
        #![trigger rows[i], rows[j]]
        0 <= i < j < rows.len() ==> before(rows[i], rows[j])
}

/// Two rows in strict order that hold the same things are the same: a ranking
/// is determined by what it ranks.
pub proof fn law_a_ranking_is_determined<A>(
    a: Seq<A>,
    b: Seq<A>,
    before: spec_fn(A, A) -> bool,
)
    requires
        in_strict_order(a, before),
        in_strict_order(b, before),
        forall|x: A, y: A| !(#[trigger] before(x, y) && before(y, x)),
        forall|x: A| a.contains(x) == b.contains(x),
    ensures
        a == b,
    decreases a.len(),
{
    if a.len() == 0 {
        if b.len() > 0 {
            assert(b.contains(b[0]));
        }
        assert(a =~= b);
    } else {
        assert(a.contains(a[0]));
        assert(b.contains(a[0]));
        let j = choose|j: int| 0 <= j < b.len() && b[j] == a[0];
        assert(b.contains(b[0]));
        let i = choose|i: int| 0 <= i < a.len() && a[i] == b[0];
        if j > 0 {
            assert(before(b[0], b[j]));
            if i > 0 {
                assert(before(a[0], a[i]));
            }
        }
        assert(a[0] == b[0]);
        let x = a.skip(1);
        let y = b.skip(1);
        assert forall|i: int, j: int| #![trigger x[i], x[j]] 0 <= i < j < x.len() implies before(
            x[i],
            x[j],
        ) by {
            assert(before(a[i + 1], a[j + 1]));
        }
        assert forall|i: int, j: int| #![trigger y[i], y[j]] 0 <= i < j < y.len() implies before(
            y[i],
            y[j],
        ) by {
            assert(before(b[i + 1], b[j + 1]));
        }
        assert forall|z: A| x.contains(z) == y.contains(z) by {
            if x.contains(z) {
                let k = choose|k: int| 0 <= k < x.len() && x[k] == z;
                assert(a[k + 1] == z);
                assert(a.contains(z));
                let m = choose|m: int| 0 <= m < b.len() && b[m] == z;
                if m == 0 {
                    assert(before(a[0], a[k + 1]));
                    assert(before(z, z));
                } else {
                    assert(y[m - 1] == z);
                }
            }
            if y.contains(z) {
                let k = choose|k: int| 0 <= k < y.len() && y[k] == z;
                assert(b[k + 1] == z);
                assert(b.contains(z));
                let m = choose|m: int| 0 <= m < a.len() && a[m] == z;
                if m == 0 {
                    assert(before(b[0], b[k + 1]));
                    assert(before(z, z));
                } else {
                    assert(x[m - 1] == z);
                }
            }
        }
        law_a_ranking_is_determined(x, y, before);
        assert(a =~= seq![a[0]] + x);
        assert(b =~= seq![b[0]] + y);
    }
}

/// A row's place in a ranking: by two weights, the larger the earlier, and
/// then by key.
#[derive(Debug)]
pub struct Weighed {
    pub first: i128,
    pub second: i128,
    pub key: String,
    /// Where the row stood.
    pub at: usize,
}

impl Ranked for Weighed {
    open spec fn ranks(&self, other: &Self) -> bool {
        if self.first != other.first {
            self.first > other.first
        } else if self.second != other.second {
            self.second > other.second
        } else {
            text_le(self.key@, other.key@)
        }
    }

    proof fn total(a: &Self, b: &Self) {
        crate::sort::lemma_text_le(a.key@, b.key@);
    }

    proof fn transitive(a: &Self, b: &Self, c: &Self) {
        if a.first == b.first && b.first == c.first && a.second == b.second && b.second
            == c.second {
            crate::sort::lemma_text_le_transitive(a.key@, b.key@, c.key@);
        }
    }
}

impl Sortable for Weighed {
    fn at_most(&self, other: &Self) -> (r: bool) {
        if self.first != other.first {
            return self.first > other.first;
        }
        if self.second != other.second {
            return self.second > other.second;
        }
        text_at_most(self.key.as_str(), other.key.as_str())
    }
}

pub open spec fn lists_position(order: Seq<usize>, k: int) -> bool {
    exists|i: int| 0 <= i < order.len() && #[trigger] order[i] == k
}

/// Whether positions list the rows, each once, in their ranking.
pub open spec fn ranks_rows(order: Seq<usize>, rows: Seq<Weighed>) -> bool {
    &&& order.len() == rows.len()
    &&& forall|i: int| 0 <= i < order.len() ==> (#[trigger] order[i]) < rows.len()
    &&& forall|k: int| 0 <= k < rows.len() ==> #[trigger] lists_position(order, k)
    &&& forall|i: int, j: int|
        #![trigger order[i], order[j]]
        0 <= i < j < order.len() ==> order[i] != order[j] && rows[order[i] as int].ranks(
            &rows[order[j] as int],
        )
}

/// The positions of rows in their ranking.
pub fn rank_rows(rows: Vec<Weighed>) -> (r: Vec<usize>)
    requires
        forall|i: int| 0 <= i < rows@.len() ==> (#[trigger] rows@[i]).at == i,
    ensures
        ranks_rows(r@, rows@),
{
    let ghost all = rows@;
    let ordered = sort(rows);
    proof {
        crate::sort::law_sorted_is_in_order(all);
        crate::sort::law_sorted_keeps_the_items(all);
        assert forall|i: int| 0 <= i < ordered@.len() implies (#[trigger] ordered@[i]).at < all.len()
            && all[ordered@[i].at as int] == ordered@[i] by {
            crate::sort::lemma_sorted_members(all, ordered@[i]);
            assert(ordered@.contains(ordered@[i]));
            let k = choose|k: int| 0 <= k < all.len() && all[k] == ordered@[i];
            assert(all[k].at == k);
        }
        assert forall|x: int, y: int|
            0 <= x < all.len() && 0 <= y < all.len() && x != y implies all[x] != all[y] by {
            assert(all[x].at == x && all[y].at == y);
        }
        assert(all.no_duplicates());
        all.lemma_multiset_has_no_duplicates();
        ordered@.lemma_multiset_has_no_duplicates_conv();
    }
    let mut r: Vec<usize> = Vec::new();
    let mut i: usize = 0;
    while i < ordered.len()
        invariant
            i <= ordered@.len(),
            r@.len() == i,
            forall|k: int| 0 <= k < i ==> #[trigger] r@[k] == ordered@[k].at,
        decreases ordered@.len() - i,
    {
        r.push(ordered[i].at);
        i += 1;
    }
    proof {
        assert forall|k: int| 0 <= k < all.len() implies #[trigger] lists_position(r@, k) by {
            assert(all.contains(all[k]));
            crate::sort::lemma_sorted_members(all, all[k]);
            let i = choose|i: int| 0 <= i < ordered@.len() && ordered@[i] == all[k];
            assert(r@[i] == k);
        }
        assert forall|i: int, j: int| #![trigger r@[i], r@[j]] 0 <= i < j < r@.len() implies r@[i]
            != r@[j] && all[r@[i] as int].ranks(&all[r@[j] as int]) by {
            assert(ordered@[i].ranks(&ordered@[j]));
            assert(ordered@[i] != ordered@[j]);
            assert(all[ordered@[i].at as int] == ordered@[i]);
            assert(all[ordered@[j].at as int] == ordered@[j]);
        }
    }
    r
}
} // verus!
