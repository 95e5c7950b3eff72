//! The integer side of BF16 k-means clustering: the random choice of the
//! first centroid, copying points into the centroid table, picking the
//! nearest centroid from the squared distances, counting cluster members,
//! and the iteration rule (stop when an assignment repeats or the
//! iteration budget is spent).
//!
//! Squared distances are single-precision values handed over as their bit
//! patterns and compared as IEEE-754 compares their values.

use vstd::prelude::*;
use rand::Rng;
use crate::bf16::Bf16;
use crate::float_bits::{f32_is_nan, f32_less, f32_lt, f32_order_key, F32_MAX_BITS};

verus! {

/// K-means clustering with `k` clusters and at most `max_iters` assignment
/// rounds.
pub struct Bf16Kmeans {
    pub k: usize,
    pub max_iters: usize,
}

/// A uniformly random index below `n`, drawn from the thread-local
/// generator of `rand`.
///
/// Calls `rand::thread_rng().gen_range(0..n)`; claims only that the result
/// lies in `0..n` (as `gen_range` documents for a non-empty range). Not
/// stated: `thread_rng` panics when the system cannot seed it.
#[verifier::external_body]
fn random_index_below(n: usize) -> (r: usize)
    requires
        n > 0,
    ensures
        r < n,
{
    rand::thread_rng().gen_range(0..n)
}

/// Point `p` of a row-major table of points of `dim` coordinates.
pub open spec fn point_of(data: Seq<Bf16>, p: int, dim: int) -> Seq<Bf16> {
    data.subrange(p * dim, p * dim + dim)
}

/// A candidate squared distance: one that beats the starting bound
/// `f32::MAX` (NaN, infinity and `f32::MAX` itself never do).
pub open spec fn beats_bound(d: u32) -> bool {
    f32_lt(d, F32_MAX_BITS)
}

/// `c` is the nearest centroid for the distances `dists`: the first among
/// the smallest candidates, and `0` when there is no candidate.
pub open spec fn is_nearest(dists: Seq<u32>, c: int) -> bool {
    if exists|i: int| 0 <= i < dists.len() && beats_bound(#[trigger] dists[i]) {
        &&& 0 <= c < dists.len()
        &&& beats_bound(dists[c])
        &&& forall|i: int|
            0 <= i < dists.len() && beats_bound(#[trigger] dists[i]) ==> f32_order_key(dists[c])
                <= f32_order_key(dists[i])
        &&& forall|i: int|
            0 <= i < c && beats_bound(#[trigger] dists[i]) ==> f32_order_key(dists[c])
                < f32_order_key(dists[i])
    } else {
        c == 0
    }
}

/// How many entries of `a` equal `c`.
pub open spec fn count_of(a: Seq<usize>, c: int) -> nat
    decreases a.len(),
{
    if a.len() == 0 {
        0
    } else {
        count_of(a.drop_last(), c) + if a.last() == c {
            1nat
        } else {
            0nat
        }
    }
}

/// The number of entries of `a` below `k`, counted cluster by cluster.
pub open spec fn total_count(a: Seq<usize>, k: int) -> nat
    decreases k,
{
    if k <= 0 {
        0
    } else {
        total_count(a, k - 1) + count_of(a, k - 1)
    }
}

impl Bf16Kmeans {
    /// A clustering with `k` clusters and at most `max_iters` rounds.
    pub fn new(k: usize, max_iters: usize) -> (r: Self)
        ensures
            r.k == k,
            r.max_iters == max_iters,
    {
        Bf16Kmeans { k, max_iters }
    }

    /// Whether `data_len` entries hold `n` points of `dim` coordinates.
    pub fn input_fits(data_len: usize, n: usize, dim: usize) -> (r: bool)
        ensures
            r == (data_len == n * dim),
    {
        match n.checked_mul(dim) {
            Some(need) => need == data_len,
            None => false,
        }
    }

    /// The first centroid: a point of `data` chosen uniformly at random.
    pub fn first_centroid(data: &[Bf16], n: usize, dim: usize) -> (r: Vec<Bf16>)
        requires
            n > 0,
            data.len() == n * dim,
        ensures
            exists|p: int| 0 <= p < n && r@ == point_of(data@, p, dim as int),
    {
        let p: usize = random_index_below(n);
        assert(p * dim + dim <= n * dim) by (nonlinear_arith)
            requires
                p < n,
        ;
        let mut centroids: Vec<Bf16> = Vec::new();
        Self::push_point(&mut centroids, data, p, dim);
        assert(centroids@ =~= point_of(data@, p as int, dim as int));
        centroids
    }

    /// Appends point `p` of `data` to the centroid table.
    pub fn push_point(centroids: &mut Vec<Bf16>, data: &[Bf16], p: usize, dim: usize)
        requires
            p * dim + dim <= data.len(),
        ensures
            final(centroids)@ == old(centroids)@ + point_of(data@, p as int, dim as int),
    {
        let ghost start = centroids@;
        let base: usize = p * dim;
        let mut d: usize = 0;
        while d < dim
            invariant
                base == p * dim,
                base + dim <= data.len(),
                d <= dim,
                centroids@ == start + data@.subrange(base as int, base + d),
            decreases dim - d,
        {
            centroids.push(data[base + d]);
            assert(data@.subrange(base as int, base + d + 1) =~= data@.subrange(
                base as int,
                base + d,
            ).push(data@[base + d]));
            d = d + 1;
        }
    }

    /// The nearest centroid and its squared distance, from the squared
    /// distances (as `f32` bit patterns) of one point to each centroid in
    /// turn: starting from index 0 at distance `f32::MAX`, a centroid
    /// replaces the current one when its distance is smaller. The distance
    /// returned is the smallest candidate, or `f32::MAX` when none beats it.
    pub fn nearest_centroid(dists: &[u32]) -> (r: (usize, u32))
        ensures
            is_nearest(dists@, r.0 as int),
            r.1 == if exists|i: int| 0 <= i < dists.len() && beats_bound(#[trigger] dists@[i]) {
                dists@[r.0 as int]
            } else {
                F32_MAX_BITS
            },
            forall|i: int|
                0 <= i < dists.len() && !f32_is_nan(#[trigger] dists@[i]) && f32_order_key(dists@[i])
                    < 0x7f7f_ffff ==> {
                    &&& r.0 < dists.len()
                    &&& r.1 == dists@[r.0 as int]
                    &&& !f32_is_nan(dists@[r.0 as int])
                    &&& f32_order_key(dists@[r.0 as int]) <= f32_order_key(dists@[i])
                },
            forall|i: int|
                0 <= i < r.0 && i < dists.len() && !f32_is_nan(#[trigger] dists@[i])
                    && f32_order_key(dists@[i]) < 0x7f7f_ffff ==> f32_order_key(r.1)
                    < f32_order_key(dists@[i]),
            (forall|i: int|
                0 <= i < dists.len() ==> f32_is_nan(#[trigger] dists@[i]) || f32_order_key(dists@[i])
                    >= 0x7f7f_ffff) ==> r.0 == 0 && r.1 == F32_MAX_BITS,
    {
        let mut best: usize = 0;
        let mut best_dist: u32 = F32_MAX_BITS;
        let mut c: usize = 0;
        while c < dists.len()
            invariant
                c <= dists.len(),
                (exists|i: int| 0 <= i < c && beats_bound(#[trigger] dists@[i])) ==> {
                    &&& best < c
                    &&& best_dist == dists@[best as int]
                    &&& beats_bound(dists@[best as int])
                },
                !(exists|i: int| 0 <= i < c && beats_bound(#[trigger] dists@[i])) ==> best == 0
                    && best_dist == F32_MAX_BITS,
                forall|i: int|
                    0 <= i < c && beats_bound(#[trigger] dists@[i]) ==> f32_order_key(best_dist)
                        <= f32_order_key(dists@[i]),
                forall|i: int|
                    0 <= i < best && beats_bound(#[trigger] dists@[i]) ==> f32_order_key(
                        best_dist,
                    ) < f32_order_key(dists@[i]),
            decreases dists.len() - c,
        {
            let dist: u32 = dists[c];
            if f32_less(dist, best_dist) {
                assert(beats_bound(dists@[c as int]));
                best = c;
                best_dist = dist;
            }
            assert(beats_bound(dists@[c as int]) ==> f32_order_key(best_dist) <= f32_order_key(
                dists@[c as int],
            ));
            c = c + 1;
        }
        proof {
            lemma_nearest_is_first_minimum(dists@, best as int);
        }
        (best, best_dist)
    }

    /// The number of points assigned to each of the `k` clusters.
    pub fn cluster_counts(assignments: &[usize], k: usize) -> (r: Vec<usize>)
        requires
            forall|i: int| 0 <= i < assignments.len() ==> #[trigger] assignments@[i] < k,
        ensures
            r.len() == k,
            forall|c: int| 0 <= c < k ==> #[trigger] r@[c] == count_of(assignments@, c),
    {
        let mut counts: Vec<usize> = Vec::new();
        let mut c: usize = 0;
        while c < k
            invariant
                c <= k,
                counts.len() == c,
                forall|t: int| 0 <= t < c ==> #[trigger] counts@[t] == 0,
            decreases k - c,
        {
            counts.push(0);
            c = c + 1;
        }
        let mut i: usize = 0;
        while i < assignments.len()
            invariant
                i <= assignments.len(),
                counts.len() == k,
                forall|t: int| 0 <= t < assignments.len() ==> #[trigger] assignments@[t] < k,
                forall|t: int|
                    0 <= t < k ==> #[trigger] counts@[t] == count_of(
                        assignments@.take(i as int),
                        t,
                    ),
                forall|t: int| 0 <= t < k ==> #[trigger] counts@[t] <= i,
            decreases assignments.len() - i,
        {
            let a: usize = assignments[i];
            assert(assignments@.take(i + 1).drop_last() =~= assignments@.take(i as int));
            let cur: usize = counts[a];
            counts.set(a, cur + 1);
            i = i + 1;
        }
        assert(assignments@.take(assignments.len() as int) =~= assignments@);
        counts
    }
}

/// One k-means run: how many assignment rounds it has done, whether the
/// last round repeated the assignment before it, and the current
/// assignment (the cluster of each point).
pub struct KmeansRun {
    pub k: usize,
    pub max_iters: usize,
    pub rounds: usize,
    pub converged: bool,
    pub assignments: Vec<usize>,
}

impl Bf16Kmeans {
    /// A run over `n` points: no round done yet, every point in cluster 0.
    pub fn start(&self, n: usize) -> (r: KmeansRun)
        ensures
            r.k == self.k,
            r.max_iters == self.max_iters,
            r.rounds == 0,
            !r.converged,
            r.assignments.len() == n,
            forall|i: int| 0 <= i < n ==> #[trigger] r.assignments@[i] == 0,
    {
        let mut assignments: Vec<usize> = Vec::new();
        let mut i: usize = 0;
        while i < n
            invariant
                i <= n,
                assignments.len() == i,
                forall|t: int| 0 <= t < i ==> #[trigger] assignments@[t] == 0,
            decreases n - i,
        {
            assignments.push(0);
            i = i + 1;
        }
        KmeansRun { k: self.k, max_iters: self.max_iters, rounds: 0, converged: false, assignments }
    }

    /// Whether two assignments put every point in the same cluster.
    pub fn same_assignment(a: &[usize], b: &[usize]) -> (r: bool)
        ensures
            r == (a@ == b@),
    {
        if a.len() != b.len() {
            return false;
        }
        let mut i: usize = 0;
        while i < a.len()
            invariant
                i <= a.len(),
                a.len() == b.len(),
                forall|t: int| 0 <= t < i ==> a@[t] == b@[t],
            decreases a.len() - i,
        {
            if a[i] != b[i] {
                return false;
            }
            i = i + 1;
        }
        assert(a@ =~= b@);
        true
    }
}

impl KmeansRun {
    /// The run is over: the last round repeated its assignment, or the
    /// budget of rounds is spent.
    pub open spec fn is_done(&self) -> bool {
        self.converged || self.rounds >= self.max_iters
    }

    /// Whether another assignment round is due.
    pub fn needs_round(&self) -> (r: bool)
        ensures
            r == !self.is_done(),
            r == (!self.converged && self.rounds < self.max_iters),
    {
        !self.converged && self.rounds < self.max_iters
    }

    /// Takes the assignment that a round computed. If it repeats the
    /// current one, the run has converged and keeps its assignment, and
    /// `None` comes back. Otherwise it becomes the current assignment and
    /// the member count of each cluster comes back, for the centroid
    /// update. Either way the round is counted.
    pub fn observe(&mut self, next: Vec<usize>) -> (r: Option<Vec<usize>>)
        requires
            !old(self).is_done(),
            next.len() == old(self).assignments.len(),
            next@ == old(self).assignments@ || forall|i: int|
                0 <= i < next.len() ==> #[trigger] next@[i] < old(self).k,
        ensures
            final(self).k == old(self).k,
            final(self).max_iters == old(self).max_iters,
            final(self).rounds == old(self).rounds + 1,
            final(self).rounds <= final(self).max_iters,
            next@ == old(self).assignments@ ==> {
                &&& final(self).converged
                &&& final(self).assignments@ == old(self).assignments@
                &&& r is None
            },
            next@ != old(self).assignments@ ==> {
                &&& !final(self).converged
                &&& final(self).assignments@ == next@
                &&& r matches Some(counts) && counts.len() == old(self).k && forall|c: int|
                    0 <= c < old(self).k ==> #[trigger] counts@[c] == count_of(next@, c)
            },
    {
        self.rounds = self.rounds + 1;
        if Bf16Kmeans::same_assignment(&next, &self.assignments) {
            self.converged = true;
            None
        } else {
            let counts = Bf16Kmeans::cluster_counts(&next, self.k);
            self.assignments = next;
            Some(counts)
        }
    }
}

/// Adding one entry to a sequence raises the count of its cluster by one
/// and leaves the others.
proof fn lemma_count_of_push(a: Seq<usize>, e: usize, c: int)
    ensures
        count_of(a.push(e), c) == count_of(a, c) + if e == c {
            1nat
        } else {
            0nat
        },
{
    assert(a.push(e).drop_last() =~= a);
}

proof fn lemma_total_count_push(a: Seq<usize>, e: usize, k: int)
    ensures
        total_count(a.push(e), k) == total_count(a, k) + if 0 <= e < k {
            1nat
        } else {
            0nat
        },
    decreases k,
{
    if k > 0 {
        lemma_total_count_push(a, e, k - 1);
        lemma_count_of_push(a, e, k - 1);
    }
}

/// Every point is counted in exactly one cluster: when all assignments are
/// below `k`, the member counts of the `k` clusters add up to the number of
/// points.
pub proof fn lemma_counts_cover_all_points(a: Seq<usize>, k: int)
    requires
        forall|i: int| 0 <= i < a.len() ==> #[trigger] a[i] < k,
    ensures
        total_count(a, k) == a.len(),
    decreases a.len(),
{
    if a.len() == 0 {
        lemma_total_count_empty(a, k);
    } else {
        let front = a.drop_last();
        assert(front.push(a.last()) =~= a);
        assert forall|i: int| 0 <= i < front.len() implies #[trigger] front[i] < k by {
            assert(front[i] == a[i]);
        }
        lemma_counts_cover_all_points(front, k);
        lemma_total_count_push(front, a.last(), k);
    }
}

proof fn lemma_total_count_empty(a: Seq<usize>, k: int)
    requires
        a.len() == 0,
    ensures
        total_count(a, k) == 0,
    decreases k,
{
    if k > 0 {
        lemma_total_count_empty(a, k - 1);
    }
}

/// The candidates for nearest centroid are exactly the distances that are
/// numbers strictly below `f32::MAX`: zero (of either sign) and every other
/// finite non-negative distance below `f32::MAX` count; NaN, infinity and
/// `f32::MAX` itself do not.
pub proof fn lemma_candidates(d: u32)
    ensures
        beats_bound(d) == (!f32_is_nan(d) && f32_order_key(d) < 0x7f7f_ffff),
        beats_bound(0u32),
        beats_bound(0x8000_0000u32),
{
}

/// The nearest centroid is the first index, over the whole range of
/// centroids from index 0 on, whose distance is a smallest candidate; with
/// no candidate it is index 0.
pub proof fn lemma_nearest_is_first_minimum(dists: Seq<u32>, c: int)
    requires
        is_nearest(dists, c),
    ensures
        forall|i: int|
            0 <= i < dists.len() && !f32_is_nan(#[trigger] dists[i]) && f32_order_key(dists[i])
                < 0x7f7f_ffff ==> {
                &&& 0 <= c < dists.len()
                &&& !f32_is_nan(dists[c])
                &&& f32_order_key(dists[c]) < 0x7f7f_ffff
                &&& f32_order_key(dists[c]) <= f32_order_key(dists[i])
            },
        forall|i: int|
            0 <= i < c && i < dists.len() && !f32_is_nan(#[trigger] dists[i]) && f32_order_key(
                dists[i],
            ) < 0x7f7f_ffff ==> f32_order_key(dists[c]) < f32_order_key(dists[i]),
        (forall|i: int|
            0 <= i < dists.len() ==> f32_is_nan(#[trigger] dists[i]) || f32_order_key(dists[i])
                >= 0x7f7f_ffff) ==> c == 0,
{
    assert forall|i: int| 0 <= i < dists.len() implies #[trigger] beats_bound(dists[i]) == (
    !f32_is_nan(dists[i]) && f32_order_key(dists[i]) < 0x7f7f_ffff) by {
        lemma_candidates(dists[i]);
    }
}

/// When the distance to centroid 0 is a candidate strictly smaller than
/// every other candidate, centroid 0 is the nearest.
pub proof fn lemma_strictly_nearest_first(dists: Seq<u32>, c: int)
    requires
        is_nearest(dists, c),
        dists.len() > 0,
        !f32_is_nan(dists[0]),
        f32_order_key(dists[0]) < 0x7f7f_ffff,
        forall|i: int|
            1 <= i < dists.len() && !f32_is_nan(#[trigger] dists[i]) && f32_order_key(dists[i])
                < 0x7f7f_ffff ==> f32_order_key(dists[0]) < f32_order_key(dists[i]),
    ensures
        c == 0,
{
    lemma_nearest_is_first_minimum(dists, c);
    if c != 0 {
        assert(!f32_is_nan(dists[0]) && f32_order_key(dists[0]) < 0x7f7f_ffff);
        assert(f32_order_key(dists[c]) <= f32_order_key(dists[0]));
    }
}

/// A run is over exactly when its last round repeated the assignment or
/// all `max_iters` rounds are done: a run that has not converged takes a
/// round while fewer than `max_iters` are done, so a fresh run takes one
/// when `max_iters > 0` and a run whose assignment never repeats takes
/// exactly `max_iters` rounds.
pub proof fn lemma_round_due(run: KmeansRun)
    ensures
        run.is_done() == (run.converged || run.rounds >= run.max_iters),
        !run.converged && run.rounds < run.max_iters ==> !run.is_done(),
        !run.converged && run.rounds == 0 ==> (run.is_done() == (run.max_iters == 0)),
{
}

} // verus!
