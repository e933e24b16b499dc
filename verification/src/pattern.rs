//! Pattern memory: clusters of query embeddings, found again by squared
//! Euclidean distance.
//!
//! An embedding joins the nearest pattern when it lies within the cluster
//! radius of its centroid, and founds a new pattern otherwise.  When the
//! memory is full, the new pattern takes the place of the one with the
//! lowest aggregate quality, the oldest among equals.

use vstd::prelude::*;
use crate::config::{MAX_PATTERNS, RADIUS_LIMIT};
use crate::error::SonaError;
use crate::fixed::{
    check_within, copy_vector, dist_sq, div_trunc_exec, is_score, is_vector, lemma_dist_sq_self,
    lemma_dist_sq_within, lemma_div_trunc_shrinks, lemma_running_mean_between, mul_wide,
    running_mean, within, MAX_DIM, SCALE, VALUE_LIMIT,
};

verus! {

/// A cluster of embeddings.
#[derive(Clone, Debug, PartialEq, Eq)]
pub struct Pattern {
    pub id: u64,
    /// Running mean of the member embeddings.
    pub centroid: Vec<i64>,
    pub member_count: u64,
    /// Running mean of the member scores, fixed-point.
    pub aggregate_quality: i64,
}

/// What a pattern holds.
pub struct PatternView {
    pub id: nat,
    pub centroid: Seq<i64>,
    pub member_count: nat,
    pub aggregate_quality: int,
}

impl View for Pattern {
    type V = PatternView;

    open spec fn view(&self) -> PatternView {
        PatternView {
            id: self.id as nat,
            centroid: self.centroid@,
            member_count: self.member_count as nat,
            aggregate_quality: self.aggregate_quality as int,
        }
    }
}

impl PatternView {
    /// The centroid is a vector of `dim` components, the pattern has a
    /// member, and its quality is a score.
    pub open spec fn wf(&self, dim: int) -> bool {
        &&& is_vector(self.centroid, dim)
        &&& self.member_count >= 1
        &&& is_score(self.aggregate_quality)
    }

    /// Squared Euclidean distance from `x` to the centroid.
    pub open spec fn distance_sq(&self, x: Seq<i64>) -> int {
        dist_sq(x, self.centroid, x.len())
    }

    /// The pattern that `x` founds.
    pub open spec fn fresh(id: nat, x: Seq<i64>, score: int) -> PatternView {
        PatternView { id, centroid: x, member_count: 1, aggregate_quality: score }
    }

    /// This pattern after `x` joined it.
    pub open spec fn merged(&self, x: Seq<i64>, score: int) -> PatternView {
        PatternView {
            id: self.id,
            centroid: Seq::new(
                self.centroid.len(),
                |k: int| running_mean(self.centroid[k] as int, x[k] as int, self.member_count) as i64,
            ),
            member_count: self.member_count + 1,
            aggregate_quality: running_mean(self.aggregate_quality, score, self.member_count),
        }
    }

    /// The order of a similarity search for `x`: nearer first, among
    /// equally near ones the larger, among equally large ones the older.
    pub open spec fn ranks_before(&self, other: PatternView, x: Seq<i64>) -> bool {
        let d1 = self.distance_sq(x);
        let d2 = other.distance_sq(x);
        d1 < d2 || (d1 == d2 && (self.member_count > other.member_count || (self.member_count
            == other.member_count && self.id < other.id)))
    }
}

/// The views of a sequence of patterns.
pub open spec fn pattern_views(s: Seq<Pattern>) -> Seq<PatternView> {
    Seq::new(s.len(), |i: int| s[i]@)
}

/// Index of the pattern nearest to `x` among the first `n`, the first of
/// them among equally near ones.
pub open spec fn nearest(ps: Seq<PatternView>, x: Seq<i64>, n: nat) -> int
    decreases n,
{
    if n <= 1 {
        0
    } else {
        let best = nearest(ps, x, (n - 1) as nat);
        if ps[n - 1].distance_sq(x) < ps[best].distance_sq(x) {
            n - 1
        } else {
            best
        }
    }
}

/// Index of the pattern of lowest quality among the first `n`, the first
/// of them among equals.
pub open spec fn weakest(ps: Seq<PatternView>, n: nat) -> int
    decreases n,
{
    if n <= 1 {
        0
    } else {
        let worst = weakest(ps, (n - 1) as nat);
        if ps[n - 1].aggregate_quality < ps[worst].aggregate_quality {
            n - 1
        } else {
            worst
        }
    }
}

/// The nearest pattern is the one that none is nearer than and that no
/// earlier one is as near as.
pub proof fn lemma_nearest(ps: Seq<PatternView>, x: Seq<i64>, n: nat)
    requires
        1 <= n <= ps.len(),
    ensures
        0 <= nearest(ps, x, n) < n,
        forall|i: int|
            0 <= i < n ==> ps[nearest(ps, x, n)].distance_sq(x) <= (#[trigger] ps[i]).distance_sq(x),
        forall|i: int|
            0 <= i < nearest(ps, x, n) ==> ps[nearest(ps, x, n)].distance_sq(x) < (
            #[trigger] ps[i]).distance_sq(x),
    decreases n,
{
    if n > 1 {
        lemma_nearest(ps, x, (n - 1) as nat);
    }
}

/// The weakest pattern is the one that none is weaker than and that no
/// earlier one is as weak as.
pub proof fn lemma_weakest(ps: Seq<PatternView>, n: nat)
    requires
        1 <= n <= ps.len(),
    ensures
        0 <= weakest(ps, n) < n,
        forall|i: int|
            0 <= i < n ==> ps[weakest(ps, n)].aggregate_quality <= (#[trigger] ps[i]).aggregate_quality,
        forall|i: int|
            0 <= i < weakest(ps, n) ==> ps[weakest(ps, n)].aggregate_quality < (
            #[trigger] ps[i]).aggregate_quality,
    decreases n,
{
    if n > 1 {
        lemma_weakest(ps, (n - 1) as nat);
    }
}

/// What a pattern memory holds.
pub struct MemoryView {
    pub dim: nat,
    pub capacity: nat,
    pub radius: int,
    pub next_id: nat,
    pub inserted: nat,
    pub patterns: Seq<PatternView>,
}

impl MemoryView {
    /// At most `capacity` patterns, each well-formed; ids ascend and stay
    /// below `next_id`; no pattern has more members than embeddings came
    /// in.
    pub open spec fn wf(&self) -> bool {
        &&& 0 < self.dim <= MAX_DIM
        &&& 0 < self.capacity <= MAX_PATTERNS
        &&& 0 <= self.radius <= RADIUS_LIMIT
        &&& self.patterns.len() <= self.capacity
        &&& self.next_id <= self.inserted
        &&& forall|i: int|
            0 <= i < self.patterns.len() ==> {
                &&& (#[trigger] self.patterns[i]).wf(self.dim as int)
                &&& self.patterns[i].id < self.next_id
                &&& self.patterns[i].member_count <= self.inserted
            }
        &&& forall|i: int, j: int|
            0 <= i < j < self.patterns.len() ==> (#[trigger] self.patterns[i]).id < (
            #[trigger] self.patterns[j]).id
    }

    /// Whether `x` lies within the radius of its nearest pattern.
    pub open spec fn joins(&self, x: Seq<i64>) -> bool {
        self.patterns.len() > 0 && self.patterns[nearest(
            self.patterns,
            x,
            self.patterns.len(),
        )].distance_sq(x) <= self.radius * self.radius
    }

    /// The patterns after `x` came in with `score`.
    pub open spec fn patterns_after(&self, x: Seq<i64>, score: int) -> Seq<PatternView> {
        let ps = self.patterns;
        if self.joins(x) {
            let b = nearest(ps, x, ps.len());
            ps.update(b, ps[b].merged(x, score))
        } else if ps.len() < self.capacity {
            ps.push(PatternView::fresh(self.next_id, x, score))
        } else {
            ps.remove(weakest(ps, ps.len())).push(PatternView::fresh(self.next_id, x, score))
        }
    }

    /// The memory after `x` came in with `score`.
    pub open spec fn after_insert(&self, x: Seq<i64>, score: int) -> MemoryView {
        MemoryView {
            next_id: if self.joins(x) {
                self.next_id
            } else {
                self.next_id + 1
            },
            inserted: self.inserted + 1,
            patterns: self.patterns_after(x, score),
            ..*self
        }
    }

    /// The id of the pattern that takes `x` in.
    pub open spec fn target(&self, x: Seq<i64>) -> nat {
        if self.joins(x) {
            self.patterns[nearest(self.patterns, x, self.patterns.len())].id
        } else {
            self.next_id
        }
    }

    /// The memory after `x` came in `n` times with `score`.
    pub open spec fn after_inserts(&self, x: Seq<i64>, score: int, n: nat) -> MemoryView
        decreases n,
    {
        if n == 0 {
            *self
        } else {
            self.after_inserts(x, score, (n - 1) as nat).after_insert(x, score)
        }
    }

    /// Insertion keeps the memory well-formed.
    pub proof fn lemma_after_insert_wf(&self, x: Seq<i64>, score: int)
        requires
            self.wf(),
            is_vector(x, self.dim as int),
            is_score(score),
        ensures
            self.after_insert(x, score).wf(),
    {
        let ps = self.patterns;
        let after = self.after_insert(x, score);
        if self.joins(x) {
            lemma_nearest(ps, x, ps.len());
            let b = nearest(ps, x, ps.len());
            let m = ps[b].merged(x, score);
            assert(m.wf(self.dim as int)) by {
                lemma_running_mean_between(ps[b].aggregate_quality, score, ps[b].member_count);
                assert forall|k: int| 0 <= k < m.centroid.len() implies within(
                    #[trigger] m.centroid[k] as int,
                    VALUE_LIMIT as int,
                ) by {
                    lemma_running_mean_between(
                        ps[b].centroid[k] as int,
                        x[k] as int,
                        ps[b].member_count,
                    );
                }
            }
            assert forall|i: int| 0 <= i < after.patterns.len() implies {
                &&& (#[trigger] after.patterns[i]).wf(self.dim as int)
                &&& after.patterns[i].id < after.next_id
                &&& after.patterns[i].member_count <= after.inserted
                &&& after.patterns[i].id == ps[i].id
            } by {
                if i != b {
                    assert(after.patterns[i] == ps[i]);
                }
            }
        } else if ps.len() < self.capacity {
            assert forall|i: int| 0 <= i < after.patterns.len() implies {
                &&& (#[trigger] after.patterns[i]).wf(self.dim as int)
                &&& after.patterns[i].id < after.next_id
                &&& after.patterns[i].member_count <= after.inserted
            } by {
                if i < ps.len() {
                    assert(after.patterns[i] == ps[i]);
                }
            }
        } else {
            lemma_weakest(ps, ps.len());
            let w = weakest(ps, ps.len());
            let kept = ps.remove(w);
            assert forall|i: int| 0 <= i < kept.len() implies {
                &&& (#[trigger] kept[i]).wf(self.dim as int)
                &&& kept[i].id < self.next_id
                &&& kept[i].member_count <= self.inserted
            } by {
                if i < w {
                    assert(kept[i] == ps[i]);
                } else {
                    assert(kept[i] == ps[i + 1]);
                }
            }
            assert forall|i: int, j: int| 0 <= i < j < kept.len() implies (#[trigger] kept[i]).id < (
            #[trigger] kept[j]).id by {
                let si = if i < w { i } else { i + 1 };
                let sj = if j < w { j } else { j + 1 };
                assert(kept[i] == ps[si]);
                assert(kept[j] == ps[sj]);
            }
            assert forall|i: int| 0 <= i < after.patterns.len() implies {
                &&& (#[trigger] after.patterns[i]).wf(self.dim as int)
                &&& after.patterns[i].id < after.next_id
                &&& after.patterns[i].member_count <= after.inserted
            } by {
                if i < kept.len() {
                    assert(after.patterns[i] == kept[i]);
                }
            }
            assert forall|i: int, j: int| 0 <= i < j < after.patterns.len() implies (
            #[trigger] after.patterns[i]).id < (#[trigger] after.patterns[j]).id by {
                assert(after.patterns[i] == kept[i]);
                if j < kept.len() {
                    assert(after.patterns[j] == kept[j]);
                }
            }
        }
    }
}

/// An embedding that comes into an empty memory `n` times founds one
/// pattern and joins it every time after: the memory then holds exactly
/// one pattern, with `n` members, the embedding as its centroid and the
/// score as its quality.
pub proof fn lemma_same_embedding_one_pattern(m: MemoryView, x: Seq<i64>, score: int, n: nat)
    requires
        m.wf(),
        m.patterns.len() == 0,
        is_vector(x, m.dim as int),
        is_score(score),
        n >= 1,
    ensures
        m.after_inserts(x, score, n).wf(),
        m.after_inserts(x, score, n).patterns.len() == 1,
        m.after_inserts(x, score, n).patterns[0].member_count == n,
        m.after_inserts(x, score, n).patterns[0].centroid == x,
        m.after_inserts(x, score, n).patterns[0].aggregate_quality == score,
    decreases n,
{
    if n == 1 {
        assert(m.after_inserts(x, score, 0) == m);
        m.lemma_after_insert_wf(x, score);
    } else {
        lemma_same_embedding_one_pattern(m, x, score, (n - 1) as nat);
        let prev = m.after_inserts(x, score, (n - 1) as nat);
        prev.lemma_after_insert_wf(x, score);
        let p = prev.patterns[0];
        assert(nearest(prev.patterns, x, 1) == 0);
        lemma_dist_sq_self(x, x.len());
        assert(0 <= prev.radius * prev.radius) by (nonlinear_arith);
        assert(prev.joins(x));
        let q = p.merged(x, score);
        lemma_div_trunc_shrinks(0, (p.member_count + 1) as int);
        assert(q.centroid =~= x);
        assert(prev.after_insert(x, score).patterns[0] == q);
    }
}

/// Two embeddings that are farther apart than the cluster radius found
/// two patterns in an empty memory that has room for two.
pub proof fn lemma_distant_embeddings_two_patterns(
    m: MemoryView,
    x: Seq<i64>,
    y: Seq<i64>,
    s1: int,
    s2: int,
)
    requires
        m.wf(),
        m.patterns.len() == 0,
        m.capacity >= 2,
        is_vector(x, m.dim as int),
        is_vector(y, m.dim as int),
        is_score(s1),
        is_score(s2),
        dist_sq(y, x, m.dim) > m.radius * m.radius,
    ensures
        m.after_insert(x, s1).after_insert(y, s2).patterns.len() == 2,
        m.after_insert(x, s1).after_insert(y, s2).patterns[0].centroid == x,
        m.after_insert(x, s1).after_insert(y, s2).patterns[1].centroid == y,
        m.after_insert(x, s1).after_insert(y, s2).patterns[0].id != m.after_insert(
            x,
            s1,
        ).after_insert(y, s2).patterns[1].id,
{
    let first = m.after_insert(x, s1);
    assert(nearest(first.patterns, y, 1) == 0);
    assert(!first.joins(y));
}

/// Squared Euclidean distance between two vectors.
pub fn distance_sq_exec(x: &Vec<i64>, c: &Vec<i64>) -> (d: i128)
    requires
        x@.len() == c@.len(),
        is_vector(x@, x@.len() as int),
        is_vector(c@, x@.len() as int),
        x@.len() <= MAX_DIM,
    ensures
        d == dist_sq(x@, c@, x@.len()),
        0 <= d <= x@.len() * (4 * (VALUE_LIMIT * VALUE_LIMIT)),
{
    let n: usize = x.len();
    let mut d: i128 = 0;
    let mut k: usize = 0;
    while k < n
        invariant
            k <= n,
            n == x@.len(),
            n == c@.len(),
            n <= MAX_DIM,
            is_vector(x@, n as int),
            is_vector(c@, n as int),
            d == dist_sq(x@, c@, k as nat),
            0 <= d <= k * (4 * (VALUE_LIMIT * VALUE_LIMIT)),
        decreases n - k,
    {
        proof {
            lemma_dist_sq_within(x@, c@, (k + 1) as nat, VALUE_LIMIT as int);
            assert((k + 1) * (4 * (VALUE_LIMIT * VALUE_LIMIT)) <= MAX_DIM * (4 * (VALUE_LIMIT
                * VALUE_LIMIT))) by (nonlinear_arith)
                requires
                    k + 1 <= MAX_DIM,
            ;
        }
        let diff: i64 = x[k] - c[k];
        let sq: i128 = mul_wide(diff, diff);
        d = d + sq;
        k += 1;
    }
    proof {
        lemma_dist_sq_within(x@, c@, n as nat, VALUE_LIMIT as int);
    }
    d
}

/// The clusters of the embeddings seen so far.
pub struct PatternMemory {
    /// Dimension of the embeddings.
    pub dim: usize,
    pub capacity: usize,
    /// Cluster radius, fixed-point.
    pub radius: i64,
    /// The id that the next pattern gets.
    pub next_id: u64,
    /// Number of embeddings that came in.
    pub inserted: u64,
    /// The patterns, oldest first.
    pub patterns: Vec<Pattern>,
}

impl View for PatternMemory {
    type V = MemoryView;

    open spec fn view(&self) -> MemoryView {
        MemoryView {
            dim: self.dim as nat,
            capacity: self.capacity as nat,
            radius: self.radius as int,
            next_id: self.next_id as nat,
            inserted: self.inserted as nat,
            patterns: pattern_views(self.patterns@),
        }
    }
}

impl PatternMemory {
    /// What the memory holds is well-formed.
    pub open spec fn wf(&self) -> bool {
        self@.wf()
    }

    /// The error that an insertion of `x` with `score` meets, if any.
    pub open spec fn refusal(&self, x: Seq<i64>, score: i64) -> Option<SonaError> {
        if !is_vector(x, self.dim as int) || !is_score(score as int) {
            Some(SonaError::InvalidInput)
        } else if self.inserted == u64::MAX {
            Some(SonaError::InvalidState)
        } else {
            None
        }
    }

    /// An empty memory.
    pub fn new(dim: usize, capacity: usize, radius: i64) -> (m: PatternMemory)
        requires
            0 < dim <= MAX_DIM,
            0 < capacity <= MAX_PATTERNS,
            0 <= radius <= RADIUS_LIMIT,
        ensures
            m.wf(),
            m.dim == dim,
            m.capacity == capacity,
            m.radius == radius,
            m.next_id == 0,
            m.inserted == 0,
            m.patterns@.len() == 0,
    {
        PatternMemory { dim, capacity, radius, next_id: 0, inserted: 0, patterns: Vec::new() }
    }

    /// Number of patterns.
    pub fn len(&self) -> (n: usize)
        ensures
            n == self@.patterns.len(),
    {
        self.patterns.len()
    }

    /// Index of the pattern nearest to `x`, and its squared distance.
    pub fn nearest_to(&self, x: &Vec<i64>) -> (r: (usize, i128))
        requires
            self.wf(),
            is_vector(x@, self.dim as int),
            self.patterns@.len() > 0,
        ensures
            r.0 == nearest(self@.patterns, x@, self@.patterns.len()),
            r.0 < self.patterns@.len(),
            r.1 == self@.patterns[r.0 as int].distance_sq(x@),
            0 <= r.1 <= self.dim * (4 * (VALUE_LIMIT * VALUE_LIMIT)),
    {
        let ghost ps = self@.patterns;
        assert(ps[0] == self.patterns@[0]@);
        let mut best: usize = 0;
        let mut best_d: i128 = distance_sq_exec(x, &self.patterns[0].centroid);
        let mut i: usize = 1;
        while i < self.patterns.len()
            invariant
                self.wf(),
                is_vector(x@, self.dim as int),
                ps == self@.patterns,
                1 <= i <= self.patterns@.len(),
                best == nearest(ps, x@, i as nat),
                best < i,
                best_d == ps[best as int].distance_sq(x@),
                0 <= best_d <= self.dim * (4 * (VALUE_LIMIT * VALUE_LIMIT)),
            decreases self.patterns@.len() - i,
        {
            assert(ps[i as int] == self.patterns@[i as int]@);
            let d: i128 = distance_sq_exec(x, &self.patterns[i].centroid);
            if d < best_d {
                best = i;
                best_d = d;
            }
            i += 1;
        }
        (best, best_d)
    }

    /// Index of the pattern of lowest quality.
    pub fn weakest_index(&self) -> (w: usize)
        requires
            self.wf(),
            self.patterns@.len() > 0,
        ensures
            w == weakest(self@.patterns, self@.patterns.len()),
            w < self.patterns@.len(),
    {
        let ghost ps = self@.patterns;
        let mut worst: usize = 0;
        let mut i: usize = 1;
        while i < self.patterns.len()
            invariant
                ps == self@.patterns,
                1 <= i <= self.patterns@.len(),
                worst == weakest(ps, i as nat),
                worst < i,
            decreases self.patterns@.len() - i,
        {
            assert(ps[i as int] == self.patterns@[i as int]@);
            assert(ps[worst as int] == self.patterns@[worst as int]@);
            if self.patterns[i].aggregate_quality < self.patterns[worst].aggregate_quality {
                worst = i;
            }
            i += 1;
        }
        worst
    }

    /// Whether `x` lies within the radius of its nearest pattern.
    pub fn joins_nearest(&self, x: &Vec<i64>) -> (r: Option<usize>)
        requires
            self.wf(),
            is_vector(x@, self.dim as int),
        ensures
            r is Some <==> self@.joins(x@),
            r matches Some(b) ==> b == nearest(self@.patterns, x@, self@.patterns.len()) && b
                < self.patterns@.len(),
    {
        if self.patterns.len() == 0 {
            return None;
        }
        let (b, d) = self.nearest_to(x);
        let r2: i128 = mul_wide(self.radius, self.radius);
        if d <= r2 {
            Some(b)
        } else {
            None
        }
    }

    /// Takes the embedding `x` of a trajectory that ended with `score` in,
    /// and returns the id of the pattern that it joined or founded.
    pub fn insert(&mut self, x: &Vec<i64>, score: i64) -> (r: Result<u64, SonaError>)
        requires
            old(self).wf(),
        ensures
            final(self).wf(),
            match old(self).refusal(x@, score) {
                Some(e) => r == Err::<u64, SonaError>(e) && *final(self) == *old(self),
                None => {
                    &&& r is Ok
                    &&& r->Ok_0 == old(self)@.target(x@)
                    &&& final(self)@ == old(self)@.after_insert(x@, score as int)
                },
            },
    {
        if x.len() != self.dim || !check_within(x, VALUE_LIMIT) || score < 0 || score > SCALE {
            return Err(SonaError::InvalidInput);
        }
        if self.inserted == u64::MAX {
            return Err(SonaError::InvalidState);
        }
        let ghost before = self@;
        proof {
            before.lemma_after_insert_wf(x@, score as int);
        }
        match self.joins_nearest(x) {
            Some(b) => {
                let ghost old_p = self.patterns@[b as int]@;
                assert(old_p == before.patterns[b as int]);
                let count: u64 = self.patterns[b].member_count;
                let divisor: i128 = count as i128 + 1;
                let mut centroid: Vec<i64> = Vec::new();
                let mut k: usize = 0;
                while k < self.dim
                    invariant
                        self@ == before,
                        before.wf(),
                        is_vector(x@, self.dim as int),
                        b < self.patterns@.len(),
                        old_p == self.patterns@[b as int]@,
                        old_p.wf(self.dim as int),
                        divisor == old_p.member_count + 1,
                        k <= self.dim,
                        centroid@.len() == k,
                        forall|t: int|
                            0 <= t < k ==> #[trigger] centroid@[t] == old_p.merged(
                                x@,
                                score as int,
                            ).centroid[t],
                    decreases self.dim - k,
                {
                    let c: i64 = self.patterns[b].centroid[k];
                    proof {
                        lemma_running_mean_between(c as int, x@[k as int] as int, old_p.member_count);
                    }
                    let step: i128 = div_trunc_exec(x[k] as i128 - c as i128, divisor);
                    centroid.push((c as i128 + step) as i64);
                    k += 1;
                }
                let q: i64 = self.patterns[b].aggregate_quality;
                proof {
                    lemma_running_mean_between(q as int, score as int, old_p.member_count);
                }
                let qstep: i128 = div_trunc_exec(score as i128 - q as i128, divisor);
                let id: u64 = self.patterns[b].id;
                let merged = Pattern {
                    id,
                    centroid,
                    member_count: count + 1,
                    aggregate_quality: (q as i128 + qstep) as i64,
                };
                proof {
                    assert(merged@.centroid =~= old_p.merged(x@, score as int).centroid);
                    assert(merged@ == old_p.merged(x@, score as int));
                }
                self.patterns[b] = merged;
                self.inserted = self.inserted + 1;
                proof {
                    assert(self@.patterns =~= before.patterns_after(x@, score as int));
                }
                Ok(id)
            },
            None => {
                if self.patterns.len() == self.capacity {
                    let w: usize = self.weakest_index();
                    let _ = self.patterns.remove(w);
                    proof {
                        assert(pattern_views(self.patterns@) =~= before.patterns.remove(w as int));
                    }
                }
                let id: u64 = self.next_id;
                let mut centroid: Vec<i64> = Vec::new();
                let mut k: usize = 0;
                while k < x.len()
                    invariant
                        k <= x@.len(),
                        centroid@.len() == k,
                        forall|t: int| 0 <= t < k ==> #[trigger] centroid@[t] == x@[t],
                    decreases x@.len() - k,
                {
                    centroid.push(x[k]);
                    k += 1;
                }
                proof {
                    assert(centroid@ =~= x@);
                }
                let fresh = Pattern { id, centroid, member_count: 1, aggregate_quality: score };
                self.patterns.push(fresh);
                self.next_id = id + 1;
                self.inserted = self.inserted + 1;
                proof {
                    assert(self@.patterns =~= before.patterns_after(x@, score as int));
                }
                Ok(id)
            },
        }
    }
}

/// One result of a similarity search.
#[derive(Clone, Debug, PartialEq, Eq)]
pub struct PatternMatch {
    pub pattern: Pattern,
    /// Squared Euclidean distance from the query to the centroid, in
    /// squared raw units.
    pub distance_sq: i128,
}

/// `m` is a pattern of `ps` with its distance from `x`.
pub open spec fn is_match(ps: Seq<PatternView>, x: Seq<i64>, m: PatternMatch) -> bool {
    exists|i: int|
        0 <= i < ps.len() && m.pattern@ == #[trigger] ps[i] && m.distance_sq == ps[i].distance_sq(x)
}

/// `p` is among the patterns of `out`.
pub open spec fn is_listed(out: Seq<PatternMatch>, p: PatternView) -> bool {
    exists|t: int| 0 <= t < out.len() && (#[trigger] out[t]).pattern@ == p
}

/// Every pattern of `out` ranks before `p` in a search for `x`.
pub open spec fn is_outranked(out: Seq<PatternMatch>, p: PatternView, x: Seq<i64>) -> bool {
    forall|t: int| 0 <= t < out.len() ==> (#[trigger] out[t]).pattern@.ranks_before(p, x)
}

/// `out` is the answer to a search for the `k` patterns of `ps` most
/// similar to `x`: the first `k` of them (all, if there are fewer) in
/// the order of `ranks_before`, each with its distance.
pub open spec fn is_ranking(ps: Seq<PatternView>, x: Seq<i64>, k: nat, out: Seq<PatternMatch>) -> bool {
    &&& out.len() == if k <= ps.len() {
        k
    } else {
        ps.len()
    }
    &&& forall|t: int| 0 <= t < out.len() ==> is_match(ps, x, #[trigger] out[t])
    &&& forall|s: int, t: int|
        0 <= s < t < out.len() ==> (#[trigger] out[s]).pattern@.ranks_before(
            (#[trigger] out[t]).pattern@,
            x,
        )
    &&& forall|i: int|
        0 <= i < ps.len() ==> is_listed(out, #[trigger] ps[i]) || is_outranked(out, ps[i], x)
}

/// Two answers to the same search agree on their first `n` patterns.
pub proof fn lemma_rankings_agree(
    m: MemoryView,
    x: Seq<i64>,
    k: nat,
    a: Seq<PatternMatch>,
    b: Seq<PatternMatch>,
    n: nat,
)
    requires
        m.wf(),
        is_ranking(m.patterns, x, k, a),
        is_ranking(m.patterns, x, k, b),
        n <= a.len(),
    ensures
        forall|t: int| 0 <= t < n ==> (#[trigger] a[t]).pattern@ == b[t].pattern@,
    decreases n,
{
    if n > 0 {
        lemma_rankings_agree(m, x, k, a, b, (n - 1) as nat);
        let ps = m.patterns;
        let t = n - 1;
        let p = a[t].pattern@;
        let q = b[t].pattern@;
        assert(is_match(ps, x, a[t]));
        assert(is_match(ps, x, b[t]));
        let ip = choose|i: int|
            0 <= i < ps.len() && a[t].pattern@ == #[trigger] ps[i] && a[t].distance_sq
                == ps[i].distance_sq(x);
        let iq = choose|i: int|
            0 <= i < ps.len() && b[t].pattern@ == #[trigger] ps[i] && b[t].distance_sq
                == ps[i].distance_sq(x);
        if ip != iq {
            assert(ps[ip].id != ps[iq].id) by {
                if ip < iq {
                    assert(ps[ip].id < ps[iq].id);
                } else {
                    assert(ps[iq].id < ps[ip].id);
                }
            }
            if p.ranks_before(q, x) {
                // `p` comes before the pattern that `b` has in this place,
                // so `b` must have listed it earlier, where `a` has another.
                assert(is_listed(b, ps[ip]) || is_outranked(b, ps[ip], x));
                if is_listed(b, ps[ip]) {
                    let s = choose|s: int| 0 <= s < b.len() && (#[trigger] b[s]).pattern@ == ps[ip];
                    if s < t {
                        assert(a[s].pattern@ == b[s].pattern@);
                        assert(a[s].pattern@.ranks_before(a[t].pattern@, x));
                    } else if s > t {
                        assert(b[t].pattern@.ranks_before(b[s].pattern@, x));
                    }
                } else {
                    assert(b[t].pattern@.ranks_before(ps[ip], x));
                }
            } else {
                assert(q.ranks_before(p, x));
                assert(is_listed(a, ps[iq]) || is_outranked(a, ps[iq], x));
                if is_listed(a, ps[iq]) {
                    let s = choose|s: int| 0 <= s < a.len() && (#[trigger] a[s]).pattern@ == ps[iq];
                    if s < t {
                        assert(a[s].pattern@ == b[s].pattern@);
                        assert(b[s].pattern@.ranks_before(b[t].pattern@, x));
                    } else if s > t {
                        assert(a[t].pattern@.ranks_before(a[s].pattern@, x));
                    }
                } else {
                    assert(a[t].pattern@.ranks_before(ps[iq], x));
                }
            }
        }
    }
}

/// A search has one answer: two rankings of the same patterns for the
/// same query hold the same patterns at the same distances in the same
/// order.
pub proof fn lemma_ranking_is_unique(
    m: MemoryView,
    x: Seq<i64>,
    k: nat,
    a: Seq<PatternMatch>,
    b: Seq<PatternMatch>,
)
    requires
        m.wf(),
        is_ranking(m.patterns, x, k, a),
        is_ranking(m.patterns, x, k, b),
    ensures
        a.len() == b.len(),
        forall|t: int|
            0 <= t < a.len() ==> (#[trigger] a[t]).pattern@ == b[t].pattern@ && a[t].distance_sq
                == b[t].distance_sq,
{
    lemma_rankings_agree(m, x, k, a, b, a.len());
    assert forall|t: int| 0 <= t < a.len() implies (#[trigger] a[t]).distance_sq
        == b[t].distance_sq by {
        assert(is_match(m.patterns, x, a[t]));
        assert(is_match(m.patterns, x, b[t]));
    }
}

/// Whether the index `i` occurs in `order`.
pub open spec fn occurs(order: Seq<usize>, i: int) -> bool {
    exists|a: int| 0 <= a < order.len() && #[trigger] order[a] == i
}

impl Pattern {
    /// A copy of this pattern.
    pub fn duplicate(&self) -> (p: Pattern)
        ensures
            p@ == self@,
    {
        Pattern {
            id: self.id,
            centroid: copy_vector(&self.centroid),
            member_count: self.member_count,
            aggregate_quality: self.aggregate_quality,
        }
    }
}

impl PatternMemory {
    /// The squared distance from `x` to every centroid.
    pub fn distances(&self, x: &Vec<i64>) -> (ds: Vec<i128>)
        requires
            self.wf(),
            is_vector(x@, self.dim as int),
        ensures
            ds@.len() == self.patterns@.len(),
            forall|i: int|
                0 <= i < ds@.len() ==> #[trigger] ds@[i] == self@.patterns[i].distance_sq(x@),
    {
        let mut ds: Vec<i128> = Vec::new();
        let mut i: usize = 0;
        while i < self.patterns.len()
            invariant
                self.wf(),
                is_vector(x@, self.dim as int),
                i <= self.patterns@.len(),
                ds@.len() == i,
                forall|a: int|
                    0 <= a < i ==> #[trigger] ds@[a] == self@.patterns[a].distance_sq(x@),
            decreases self.patterns@.len() - i,
        {
            assert(self@.patterns[i as int] == self.patterns@[i as int]@);
            let d: i128 = distance_sq_exec(x, &self.patterns[i].centroid);
            ds.push(d);
            i += 1;
        }
        ds
    }

    /// Whether pattern `i` comes before pattern `j` in a search whose
    /// distances are `ds`.
    fn comes_before(&self, ds: &Vec<i128>, i: usize, j: usize, Ghost(x): Ghost<Seq<i64>>) -> (b: bool)
        requires
            i < self.patterns@.len(),
            j < self.patterns@.len(),
            ds@.len() == self.patterns@.len(),
            ds@[i as int] == self@.patterns[i as int].distance_sq(x),
            ds@[j as int] == self@.patterns[j as int].distance_sq(x),
        ensures
            b == self@.patterns[i as int].ranks_before(self@.patterns[j as int], x),
    {
        let p = &self.patterns[i];
        let q = &self.patterns[j];
        assert(self@.patterns[i as int] == p@);
        assert(self@.patterns[j as int] == q@);
        ds[i] < ds[j] || (ds[i] == ds[j] && (p.member_count > q.member_count || (p.member_count
            == q.member_count && p.id < q.id)))
    }

    /// The indices of the patterns in the order of a search for `x`.
    fn search_order(&self, ds: &Vec<i128>, Ghost(x): Ghost<Seq<i64>>) -> (order: Vec<usize>)
        requires
            self.wf(),
            ds@.len() == self.patterns@.len(),
            forall|i: int|
                0 <= i < ds@.len() ==> #[trigger] ds@[i] == self@.patterns[i].distance_sq(x),
        ensures
            order@.len() == self.patterns@.len(),
            forall|a: int| 0 <= a < order@.len() ==> #[trigger] order@[a] < self.patterns@.len(),
            forall|a: int, b: int|
                0 <= a < b < order@.len() ==> self@.patterns[#[trigger] order@[a] as int].ranks_before(
                    self@.patterns[#[trigger] order@[b] as int],
                    x,
                ),
            forall|i: int| 0 <= i < self.patterns@.len() ==> #[trigger] occurs(order@, i),
    {
        let ghost ps = self@.patterns;
        let n: usize = self.patterns.len();
        let mut order: Vec<usize> = Vec::new();
        let mut t: usize = 0;
        while t < n
            invariant
                self.wf(),
                ps == self@.patterns,
                n == self.patterns@.len(),
                ds@.len() == n,
                forall|i: int| 0 <= i < n ==> #[trigger] ds@[i] == ps[i].distance_sq(x),
                t <= n,
                order@.len() == t,
                forall|a: int| 0 <= a < t ==> #[trigger] order@[a] < t,
                forall|a: int, b: int|
                    0 <= a < b < t ==> ps[#[trigger] order@[a] as int].ranks_before(
                        ps[#[trigger] order@[b] as int],
                        x,
                    ),
                forall|i: int| 0 <= i < t ==> #[trigger] occurs(order@, i),
            decreases n - t,
        {
            let mut pos: usize = 0;
            while pos < t && !self.comes_before(ds, t, order[pos], Ghost(x))
                invariant
                    self.wf(),
                    ps == self@.patterns,
                    n == self.patterns@.len(),
                    ds@.len() == n,
                    forall|i: int| 0 <= i < n ==> #[trigger] ds@[i] == ps[i].distance_sq(x),
                    t < n,
                    order@.len() == t,
                    pos <= t,
                    forall|a: int| 0 <= a < t ==> #[trigger] order@[a] < t,
                    forall|a: int|
                        0 <= a < pos ==> ps[#[trigger] order@[a] as int].ranks_before(ps[t as int], x),
                decreases t - pos,
            {
                proof {
                    let o = order@[pos as int] as int;
                    assert(o < t);
                    assert(ps[o].id < ps[t as int].id);
                }
                pos += 1;
            }
            let ghost prev = order@;
            order.insert(pos, t);
            proof {
                assert forall|a: int| 0 <= a < t + 1 implies #[trigger] order@[a] < t + 1 by {
                    if a < pos {
                        assert(order@[a] == prev[a]);
                    } else if a > pos {
                        assert(order@[a] == prev[a - 1]);
                    }
                }
                assert forall|a: int, b: int| 0 <= a < b < t + 1 implies ps[#[trigger] order@[a] as int].ranks_before(
                    ps[#[trigger] order@[b] as int],
                    x,
                ) by {
                    let oa = order@[a] as int;
                    let ob = order@[b] as int;
                    if b < pos {
                        assert(order@[a] == prev[a] && order@[b] == prev[b]);
                    } else if b == pos {
                        assert(order@[a] == prev[a]);
                    } else if a < pos {
                        assert(order@[a] == prev[a] && order@[b] == prev[b - 1]);
                    } else if a == pos {
                        assert(order@[b] == prev[b - 1]);
                        let first = prev[pos as int] as int;
                        assert(ps[t as int].ranks_before(ps[first], x));
                        if b - 1 > pos {
                            assert(ps[first].ranks_before(ps[ob], x));
                        }
                    } else {
                        assert(order@[a] == prev[a - 1] && order@[b] == prev[b - 1]);
                    }
                }
                assert forall|i: int| 0 <= i < t + 1 implies #[trigger] occurs(order@, i) by {
                    if i == t {
                        assert(order@[pos as int] == i);
                    } else {
                        assert(occurs(prev, i));
                        let a0 = choose|a: int| 0 <= a < prev.len() && #[trigger] prev[a] == i;
                        if a0 < pos {
                            assert(order@[a0] == i);
                        } else {
                            assert(order@[a0 + 1] == i);
                        }
                    }
                }
            }
            t += 1;
        }
        order
    }

    /// The `k` patterns most similar to `x`, the most similar first.
    pub fn find_similar(&self, x: &Vec<i64>, k: usize) -> (r: Result<Vec<PatternMatch>, SonaError>)
        requires
            self.wf(),
        ensures
            !is_vector(x@, self.dim as int) ==> r is Err && r->Err_0 == SonaError::InvalidInput,
            is_vector(x@, self.dim as int) ==> r is Ok && is_ranking(
                self@.patterns,
                x@,
                k as nat,
                r->Ok_0@,
            ),
    {
        if x.len() != self.dim || !check_within(x, VALUE_LIMIT) {
            return Err(SonaError::InvalidInput);
        }
        let ghost ps = self@.patterns;
        let ds: Vec<i128> = self.distances(x);
        let order: Vec<usize> = self.search_order(&ds, Ghost(x@));
        let n: usize = self.patterns.len();
        let m: usize = if k <= n {
            k
        } else {
            n
        };
        let mut out: Vec<PatternMatch> = Vec::new();
        let mut t: usize = 0;
        while t < m
            invariant
                ps == self@.patterns,
                n == self.patterns@.len(),
                order@.len() == n,
                ds@.len() == n,
                forall|a: int| 0 <= a < n ==> #[trigger] order@[a] < n,
                forall|a: int, b: int|
                    0 <= a < b < n ==> ps[#[trigger] order@[a] as int].ranks_before(
                        ps[#[trigger] order@[b] as int],
                        x@,
                    ),
                forall|i: int| 0 <= i < n ==> #[trigger] occurs(order@, i),
                forall|i: int| 0 <= i < n ==> #[trigger] ds@[i] == ps[i].distance_sq(x@),
                t <= m <= n,
                m == if k <= n { k } else { n },
                out@.len() == t,
                forall|a: int|
                    0 <= a < t ==> (#[trigger] out@[a]).pattern@ == ps[order@[a] as int]
                        && out@[a].distance_sq == ps[order@[a] as int].distance_sq(x@),
            decreases m - t,
        {
            let i: usize = order[t];
            assert(ps[i as int] == self.patterns@[i as int]@);
            let found = PatternMatch { pattern: self.patterns[i].duplicate(), distance_sq: ds[i] };
            out.push(found);
            t += 1;
        }
        proof {
            assert forall|a: int| 0 <= a < out@.len() implies is_match(ps, x@, #[trigger] out@[a]) by {
                let i = order@[a] as int;
                assert(0 <= i < ps.len() && out@[a].pattern@ == ps[i]);
            }
            assert forall|i: int| 0 <= i < ps.len() implies is_listed(out@, #[trigger] ps[i])
                || is_outranked(out@, ps[i], x@) by {
                assert(occurs(order@, i));
                let a0 = choose|a: int| 0 <= a < order@.len() && #[trigger] order@[a] == i;
                if a0 < m {
                    assert(out@[a0].pattern@ == ps[i]);
                } else {
                    assert forall|t: int| 0 <= t < out@.len() implies (#[trigger] out@[t]).pattern@.ranks_before(
                        ps[i],
                        x@,
                    ) by {
                        assert(ps[order@[t] as int].ranks_before(ps[order@[a0] as int], x@));
                    }
                }
            }
            assert forall|s: int, t: int| 0 <= s < t < out@.len() implies (#[trigger] out@[s]).pattern@.ranks_before(
                (#[trigger] out@[t]).pattern@,
                x@,
            ) by {
                assert(ps[order@[s] as int].ranks_before(ps[order@[t] as int], x@));
            }
        }
        Ok(out)
    }
}

} // verus!
