//! Timings, kept as counts in buckets whose upper bounds are within a
//! sixteenth of every value they hold.

use vstd::arithmetic::power2::{
    lemma2_to64, lemma2_to64_rest, lemma_pow2_pos, lemma_pow2_unfold, pow2,
};
use vstd::prelude::*;

verus! {

/// How many buckets hold every `u64`.
pub const BUCKETS: usize = 976;

/// How often a value is halved until it is below 32.
pub open spec fn halvings(v: nat) -> nat
    decreases v,
{
    if v < 32 {
        0
    } else {
        1 + halvings(v / 2)
    }
}

/// What is left of a value once it has been halved until it is below 32.
pub open spec fn remnant(v: nat) -> nat
    decreases v,
{
    if v < 32 {
        v
    } else {
        remnant(v / 2)
    }
}

/// The bucket of a value: sixteen buckets for every halving.
pub open spec fn bucket(v: nat) -> nat {
    16 * halvings(v) + remnant(v)
}

/// The largest value of a bucket that `halved` halvings and a remnant make.
pub open spec fn upper(halved: nat, rest: nat) -> nat {
    ((rest + 1) * pow2(halved) - 1) as nat
}

/// The largest value in bucket `b`.
pub open spec fn bucket_upper(b: nat) -> nat {
    if b < 32 {
        b
    } else {
        upper(((b - 16) / 16) as nat, b % 16 + 16)
    }
}

proof fn lemma_remnant(v: nat)
    ensures
        remnant(v) < 32,
        v >= 16 ==> remnant(v) >= 16,
        remnant(v) * pow2(halvings(v)) <= v < (remnant(v) + 1) * pow2(halvings(v)),
    decreases v,
{
    lemma2_to64();
    if v >= 32 {
        lemma_remnant(v / 2);
        let h = halvings(v / 2);
        lemma_pow2_unfold(h + 1);
        let r = remnant(v);
        let p = pow2(h);
        assert(r * (2 * p) == 2 * (r * p)) by (nonlinear_arith);
        assert((r + 1) * (2 * p) == 2 * ((r + 1) * p)) by (nonlinear_arith);
    } else {
        assert(remnant(v) * 1 == v) by (nonlinear_arith)
            requires
                remnant(v) == v,
        ;
        assert((remnant(v) + 1) * 1 == v + 1) by (nonlinear_arith)
            requires
                remnant(v) == v,
        ;
    }
}

proof fn lemma_small(v: nat)
    ensures
        v < 32 ==> halvings(v) == 0 && bucket(v) == v,
        v >= 32 ==> bucket(v) >= 32,
{
    lemma_remnant(v);
}

/// The upper bound of a value's bucket is at least the value and at most a
/// sixteenth above it.
pub proof fn law_a_bucket_is_tight(v: nat)
    ensures
        v <= bucket_upper(bucket(v)),
        16 * (bucket_upper(bucket(v)) - v) <= v,
{
    lemma_remnant(v);
    lemma_small(v);
    if v >= 32 {
        let h = halvings(v);
        let r = remnant(v);
        let b = bucket(v);
        assert((b - 16) / 16 == h && b % 16 + 16 == r);
        lemma_pow2_pos(h);
        let p = pow2(h);
        assert((r + 1) * p == r * p + p) by (nonlinear_arith);
        assert(16 * p <= r * p) by (nonlinear_arith)
            requires
                r >= 16,
                p > 0,
        ;
    }
}

/// Larger values never have smaller buckets.
pub proof fn law_buckets_keep_the_order(a: nat, b: nat)
    requires
        a <= b,
    ensures
        bucket(a) <= bucket(b),
    decreases b,
{
    lemma_remnant(a);
    lemma_remnant(b);
    if a >= 32 {
        law_buckets_keep_the_order(a / 2, b / 2);
    } else {
        lemma_small(b);
    }
}

proof fn lemma_bucket_bound(v: nat, k: nat)
    requires
        v < 32 * pow2(k),
    ensures
        halvings(v) <= k,
    decreases k,
{
    lemma2_to64();
    if v >= 32 {
        if k == 0 {
            assert(false);
        }
        lemma_pow2_unfold(k);
        assert(32 * (2 * pow2((k - 1) as nat)) == 2 * (32 * pow2((k - 1) as nat)));
        lemma_bucket_bound(v / 2, (k - 1) as nat);
    }
}

fn find_bucket(v: u64) -> (r: usize)
    ensures
        r == bucket(v as nat),
        r < BUCKETS,
{
    proof {
        lemma2_to64();
        lemma2_to64_rest();
        lemma_bucket_bound(v as nat, 59);
        lemma_remnant(v as nat);
    }
    let mut rest: u64 = v;
    let mut halved: usize = 0;
    while rest >= 32
        invariant
            halved + halvings(rest as nat) == halvings(v as nat),
            remnant(rest as nat) == remnant(v as nat),
            halvings(v as nat) <= 59,
        decreases rest,
    {
        rest = rest / 2;
        halved += 1;
    }
    16 * halved + rest as usize
}

fn power(k: usize) -> (r: u64)
    requires
        k <= 59,
    ensures
        r == pow2(k as nat),
{
    let mut r: u64 = 1;
    let mut i: usize = 0;
    proof {
        lemma2_to64();
        lemma2_to64_rest();
    }
    while i < k
        invariant
            i <= k <= 59,
            r == pow2(i as nat),
            pow2(59) <= 0x0800_0000_0000_0000,
        decreases k - i,
    {
        proof {
            lemma_pow2_unfold((i + 1) as nat);
            lemma_pow2_grows((i + 1) as nat, 59);
        }
        r = 2 * r;
        i += 1;
    }
    r
}

proof fn lemma_pow2_grows(a: nat, b: nat)
    requires
        a <= b,
    ensures
        pow2(a) <= pow2(b),
    decreases b - a,
{
    if a < b {
        lemma_pow2_unfold(b);
        lemma_pow2_grows(a, (b - 1) as nat);
    }
}

fn upper_bound(b: usize) -> (r: u64)
    requires
        b < BUCKETS,
    ensures
        r == bucket_upper(b as nat),
{
    if b < 32 {
        return b as u64;
    }
    let halved = (b - 16) / 16;
    let rest = (b % 16 + 16) as u64;
    let p = power(halved);
    proof {
        lemma2_to64();
        lemma2_to64_rest();
        lemma_pow2_grows(halved as nat, 59);
        lemma_pow2_pos(halved as nat);
        assert((rest + 1) * p == rest * p + p) by (nonlinear_arith);
        assert(rest * p <= 31 * 0x0800_0000_0000_0000) by (nonlinear_arith)
            requires
                rest <= 31,
                p <= 0x0800_0000_0000_0000,
        ;
    }
    rest * p + (p - 1)
}

// -------------------------------------------------------------------- timings

/// The counts of the first `n` buckets together.
pub open spec fn held(counts: Seq<u64>, n: int) -> nat
    decreases n,
{
    if n <= 0 {
        0
    } else {
        held(counts, n - 1) + counts[n - 1] as nat
    }
}

/// The first bucket from `b` on with which the buckets hold `rank` values.
pub open spec fn bucket_at(counts: Seq<u64>, rank: nat, b: int) -> int
    decreases counts.len() - b,
{
    if b < 0 || b >= counts.len() {
        counts.len() as int
    } else if held(counts, b + 1) >= rank {
        b
    } else {
        bucket_at(counts, rank, b + 1)
    }
}

/// The rank of a percentile among `n` values: at least that share of them, and
/// at least one.
pub open spec fn rank_of(n: nat, percent: nat) -> nat {
    (n * percent + 99) / 100
}

/// Timings of one kind of work.
#[derive(Debug)]
pub struct Latency {
    pub count: u64,
    pub total_ns: u64,
    pub max_ns: u64,
    pub counts: Vec<u64>,
}

/// The upper bound of the bucket that a percentile falls into; zero where
/// nothing was timed.
pub open spec fn percentile(counts: Seq<u64>, percent: nat) -> nat {
    let rank = rank_of(held(counts, counts.len() as int), percent);
    if rank == 0 {
        0
    } else {
        bucket_upper(bucket_at(counts, rank, 0) as nat)
    }
}

proof fn lemma_held(counts: Seq<u64>, i: int, n: int)
    requires
        0 <= i <= n,
    ensures
        held(counts, i) <= held(counts, n),
    decreases n - i,
{
    if i < n {
        lemma_held(counts, i, n - 1);
    }
}

impl Latency {
    /// The counts stand for every bucket.
    pub open spec fn wf(&self) -> bool {
        self.counts@.len() == BUCKETS
    }

    /// Nothing timed yet.
    pub fn new() -> (r: Latency)
        ensures
            r.wf(),
            r.count == 0 && r.total_ns == 0 && r.max_ns == 0,
            forall|b: int| 0 <= b < BUCKETS ==> r.counts@[b] == 0,
    {
        let mut counts: Vec<u64> = Vec::new();
        while counts.len() < BUCKETS
            invariant
                counts@.len() <= BUCKETS,
                forall|b: int| 0 <= b < counts@.len() ==> counts@[b] == 0,
            decreases BUCKETS - counts@.len(),
        {
            counts.push(0);
        }
        Latency { count: 0, total_ns: 0, max_ns: 0, counts }
    }

    /// Records one timing.
    pub fn record(&mut self, elapsed_ns: u64)
        requires
            old(self).wf(),
        ensures
            final(self).wf(),
            final(self).count == old(self).count.wrapping_add(1),
            final(self).total_ns == old(self).total_ns.wrapping_add(elapsed_ns),
            final(self).max_ns == (if elapsed_ns > old(self).max_ns {
                elapsed_ns
            } else {
                old(self).max_ns
            }),
            final(self).counts@ == old(self).counts@.update(
                bucket(elapsed_ns as nat) as int,
                old(self).counts@[bucket(elapsed_ns as nat) as int].wrapping_add(1),
            ),
    {
        let b = find_bucket(elapsed_ns);
        self.count = self.count.wrapping_add(1);
        self.total_ns = self.total_ns.wrapping_add(elapsed_ns);
        if elapsed_ns > self.max_ns {
            self.max_ns = elapsed_ns;
        }
        let n = self.counts[b].wrapping_add(1);
        self.counts[b] = n;
    }

    /// Counts an event without timing it.
    pub fn count_only(&mut self)
        requires
            old(self).wf(),
        ensures
            *final(self) == (Latency { count: old(self).count.wrapping_add(1), ..*old(self) }),
    {
        self.count = self.count.wrapping_add(1);
    }

    /// The mean of what was counted; zero where nothing was.
    pub fn mean_ns(&self) -> (r: u64)
        ensures
            r == (if self.count == 0 {
                0
            } else {
                (self.total_ns / self.count) as int
            }),
    {
        if self.count == 0 {
            0
        } else {
            self.total_ns / self.count
        }
    }

    /// The upper bound of the bucket that a percentile falls into.
    pub fn percentile_ns(&self, percent: u64) -> (r: u64)
        requires
            self.wf(),
            percent <= 100,
        ensures
            r == percentile(self.counts@, percent as nat),
    {
        let mut timed: u128 = 0;
        let mut i: usize = 0;
        while i < BUCKETS
            invariant
                i <= BUCKETS,
                self.wf(),
                timed == held(self.counts@, i as int),
                timed <= i * 0xffff_ffff_ffff_ffff,
            decreases BUCKETS - i,
        {
            timed = timed + self.counts[i] as u128;
            i += 1;
        }
        assert(timed * percent <= 976 * 0xffff_ffff_ffff_ffff * 100) by (nonlinear_arith)
            requires
                timed <= 976 * 0xffff_ffff_ffff_ffff,
                percent <= 100,
        ;
        let rank: u128 = (timed * percent as u128 + 99) / 100;
        assert(rank == rank_of(held(self.counts@, self.counts@.len() as int), percent as nat));
        if rank == 0 {
            return 0;
        }
        proof {
            lemma_held(self.counts@, 0, self.counts@.len() as int);
            assert(rank <= timed) by (nonlinear_arith)
                requires
                    rank == (timed * percent as u128 + 99) / 100,
                    percent <= 100,
                    timed >= 0,
            ;
        }
        let mut sum: u128 = 0;
        let mut b: usize = 0;
        while b < BUCKETS
            invariant
                b <= BUCKETS,
                self.wf(),
                0 < rank <= timed == held(self.counts@, BUCKETS as int),
                sum == held(self.counts@, b as int),
                sum < rank,
                sum <= b * 0xffff_ffff_ffff_ffff,
                bucket_at(self.counts@, rank as nat, b as int) == bucket_at(
                    self.counts@,
                    rank as nat,
                    0,
                ),
                rank == rank_of(held(self.counts@, self.counts@.len() as int), percent as nat),
            decreases BUCKETS - b,
        {
            sum = sum + self.counts[b] as u128;
            if sum >= rank {
                return upper_bound(b);
            }
            b += 1;
        }
        0
    }
}

/// Values below 32 have a bucket each, and from there on doubling a value moves
/// it sixteen buckets up.
pub proof fn law_bucket_places(v: nat)
    ensures
        v < 32 ==> bucket(v) == v,
        v >= 16 ==> bucket(2 * v) == bucket(v) + 16 && bucket(2 * v + 1) == bucket(v) + 16,
{
    reveal_with_fuel(halvings, 2);
    reveal_with_fuel(remnant, 2);
    assert((2 * v) / 2 == v && (2 * v + 1) / 2 == v);
}

/// The rank of a percentile is the least whole number that covers its share.
pub proof fn law_ranks_cover_their_share(n: nat, percent: nat)
    ensures
        100 * rank_of(n, percent) >= n * percent,
        rank_of(n, percent) > 0 ==> 100 * (rank_of(n, percent) - 1) < n * percent,
        rank_of(n, percent) == 0 ==> n * percent == 0,
{
}

/// A percentile is the upper end of the bucket at which as many values as its
/// rank have been counted, and below which fewer have; of nothing it is zero.
pub proof fn law_where_a_percentile_lies(counts: Seq<u64>, percent: nat)
    requires
        percent <= 100,
    ensures
        ({
            let n = held(counts, counts.len() as int);
            let rank = rank_of(n, percent);
            &&& rank == 0 ==> percentile(counts, percent) == 0
            &&& rank > 0 ==> exists|b: int|
                0 <= b < counts.len() && #[trigger] held(counts, b) < rank && held(counts, b + 1)
                    >= rank && percentile(counts, percent) == bucket_upper(b as nat)
        }),
        held(counts, 0) == 0,
        forall|b: int| 0 <= b < counts.len() ==> held(counts, b + 1) == #[trigger] held(counts, b)
            + counts[b],
{
    let n = held(counts, counts.len() as int);
    let rank = rank_of(n, percent);
    assert(rank <= n) by (nonlinear_arith)
        requires
            rank == (n * percent + 99) / 100,
            percent <= 100,
    ;
    if rank > 0 {
        lemma_bucket_found(counts, rank, 0);
        let b = bucket_at(counts, rank, 0);
        assert(held(counts, b) < rank);
    }
}

proof fn lemma_bucket_found(counts: Seq<u64>, rank: nat, from: int)
    requires
        0 <= from <= counts.len(),
        held(counts, from) < rank,
        held(counts, counts.len() as int) >= rank,
    ensures
        ({
            let b = bucket_at(counts, rank, from);
            from <= b < counts.len() && held(counts, b) < rank && held(counts, b + 1) >= rank
        }),
    decreases counts.len() - from,
{
    if from < counts.len() && held(counts, from + 1) < rank {
        lemma_bucket_found(counts, rank, from + 1);
    }
}

} // verus!
