//! The slow adapter, its anchor, and the consolidation that folds a batch
//! of trajectories into it.
//!
//! What a trajectory asks of the up-weight from hidden unit `j` to output
//! `i` is its signal for `i` times the hidden component that its embedding
//! gives `j`.  The target of a weight is the mean of what the eligible
//! trajectories ask of it, plus what the fast adapter handed over for its
//! output.  Every weight takes its step toward its target; if one of them
//! would leave the range of the weights, none moves.

use vstd::prelude::*;
use vstd::arithmetic::div_mod::lemma_fundamental_div_mod_converse;
use vstd::math::max;
use crate::config::{MAX_CAPACITY, MAX_LAYERS};
use crate::error::SonaError;
use crate::ewc::{lemma_same_layer_same_step, step_layer, AnchorLayer, LayerStep, STEP_LIMIT};
use crate::fixed::{
    all_within, check_within, clamp, clamp_exec, copy_vector, div_trunc, div_trunc_exec, fit,
    fitted, fmul, fmul_exec, is_score, is_vector, lemma_div_trunc_shrinks,
    lemma_div_trunc_within, lemma_fmul_within, within, zeros, HIDDEN_LIMIT, MAX_DIM, MAX_RANK,
    RATE_LIMIT, SCALE, VALUE_LIMIT, WEIGHT_LIMIT,
};
use crate::lora::{lemma_row_bounds, LowRankPair};
use crate::micro::{signal_at, signal_exec};
use crate::trajectory::{views, Trajectory, TrajectoryView};

verus! {

/// Largest magnitude of what one trajectory asks of one weight:
/// `VALUE_LIMIT * HIDDEN_LIMIT / SCALE`.
pub const REQUEST_LIMIT: i64 = 409_600_000_000_000_000;

/// Whether a trajectory drives adaptation: it is closed with a score of
/// at least `threshold`.
pub open spec fn is_eligible(t: TrajectoryView, threshold: int) -> bool {
    t.final_score matches Some(s) && s >= threshold
}

/// Number of eligible trajectories among the first `n`.
pub open spec fn eligible_count(batch: Seq<TrajectoryView>, threshold: int, n: nat) -> nat
    decreases n,
{
    if n == 0 {
        0
    } else if is_eligible(batch[n - 1], threshold) {
        eligible_count(batch, threshold, (n - 1) as nat) + 1
    } else {
        eligible_count(batch, threshold, (n - 1) as nat)
    }
}

/// Sum of the final scores of the first `n` trajectories.
pub open spec fn score_sum(batch: Seq<TrajectoryView>, n: nat) -> int
    decreases n,
{
    if n == 0 {
        0
    } else {
        score_sum(batch, (n - 1) as nat) + match batch[n - 1].final_score {
            Some(s) => s as int,
            None => 0,
        }
    }
}

/// Mean of the final scores of a batch, zero for an empty one.
pub open spec fn mean_score(batch: Seq<TrajectoryView>) -> int {
    if batch.len() == 0 {
        0
    } else {
        div_trunc(score_sum(batch, batch.len()), batch.len() as int)
    }
}

impl LowRankPair {
    /// What the trajectory `t` asks of the up-weight `p`: nothing unless it
    /// is eligible, and else its signal for the output of `p` times the
    /// hidden component that its embedding gives the column of `p`.
    pub open spec fn request_at(&self, t: TrajectoryView, threshold: int, baseline: int, p: int) -> int {
        match t.final_score {
            Some(s) => if s >= threshold {
                fmul(
                    signal_at(s - baseline, t.query_embedding, p / (self.rank as int)),
                    self.hidden(fitted(t.query_embedding, self.dim as nat))[p % (self.rank as int)] as int,
                )
            } else {
                0
            },
            None => 0,
        }
    }

    /// Sum of what the first `n` trajectories ask of the up-weight `p`.
    pub open spec fn request_sum(
        &self,
        batch: Seq<TrajectoryView>,
        threshold: int,
        baseline: int,
        p: int,
        n: nat,
    ) -> int
        decreases n,
    {
        if n == 0 {
            0
        } else {
            self.request_sum(batch, threshold, baseline, p, (n - 1) as nat) + self.request_at(
                batch[n - 1],
                threshold,
                baseline,
                p,
            )
        }
    }

    /// The target of the up-weight `p`: the mean of what the eligible
    /// trajectories ask of it plus what the fast adapter handed over for
    /// its output, saturated at `VALUE_LIMIT`.
    pub open spec fn target_at(
        &self,
        batch: Seq<TrajectoryView>,
        carry: Seq<i64>,
        threshold: int,
        baseline: int,
        p: int,
    ) -> int {
        let n = eligible_count(batch, threshold, batch.len());
        let mean = if n == 0 {
            0
        } else {
            div_trunc(self.request_sum(batch, threshold, baseline, p, batch.len()), n as int)
        };
        clamp(mean + carry[p / (self.rank as int)], VALUE_LIMIT as int)
    }

    /// The targets of the up-weights.
    pub open spec fn target(
        &self,
        batch: Seq<TrajectoryView>,
        carry: Seq<i64>,
        threshold: int,
        baseline: int,
    ) -> Seq<i64> {
        Seq::new(
            self.up@.len(),
            |p: int| self.target_at(batch, carry, threshold, baseline, p) as i64,
        )
    }

    /// What a trajectory asks of a weight is within `REQUEST_LIMIT`.
    pub proof fn lemma_request_within(&self, t: TrajectoryView, threshold: int, baseline: int, p: int)
        requires
            self.wf(),
            0 <= p < self.up@.len(),
            all_within(t.query_embedding, VALUE_LIMIT as int),
            t.final_score matches Some(s) ==> is_score(s as int),
            is_score(baseline),
        ensures
            within(self.request_at(t, threshold, baseline, p), REQUEST_LIMIT as int),
    {
        if let Some(s) = t.final_score {
            if s >= threshold {
                let x = fitted(t.query_embedding, self.dim as nat);
                let j = p % (self.rank as int);
                assert(0 <= j < self.rank) by (nonlinear_arith)
                    requires
                        j == p % (self.rank as int),
                        self.rank > 0,
                ;
                self.lemma_hidden_within(x, j);
                crate::micro::lemma_signal_within(
                    s - baseline,
                    t.query_embedding,
                    p / (self.rank as int),
                );
                lemma_fmul_within(
                    signal_at(s - baseline, t.query_embedding, p / (self.rank as int)),
                    self.hidden(x)[j] as int,
                    VALUE_LIMIT as int,
                    HIDDEN_LIMIT as int,
                    REQUEST_LIMIT as int,
                );
            }
        }
    }
}

/// At most `MAX_CAPACITY` trajectories, each closed with a score, each
/// embedding within `VALUE_LIMIT`.
pub open spec fn is_batch(batch: Seq<Trajectory>) -> bool {
    &&& batch.len() <= MAX_CAPACITY
    &&& forall|t: int|
        0 <= t < batch.len() ==> {
            &&& all_within((#[trigger] batch[t]).query_embedding@, VALUE_LIMIT as int)
            &&& batch[t].final_score matches Some(s) && is_score(s as int)
        }
}

/// How many trajectories of the batch are eligible.
pub fn count_eligible(batch: &Vec<Trajectory>, threshold: i64) -> (n: usize)
    ensures
        n == eligible_count(views(batch@), threshold as int, batch@.len()),
        n <= batch@.len(),
{
    let mut n: usize = 0;
    let mut t: usize = 0;
    while t < batch.len()
        invariant
            t <= batch@.len(),
            n <= t,
            n == eligible_count(views(batch@), threshold as int, t as nat),
        decreases batch@.len() - t,
    {
        assert(views(batch@)[t as int] == batch@[t as int]@);
        match batch[t].final_score {
            Some(s) => {
                if s >= threshold {
                    n += 1;
                }
            },
            None => {},
        }
        t += 1;
    }
    n
}

/// The mean of the final scores of the batch.
pub fn mean_score_exec(batch: &Vec<Trajectory>) -> (m: i64)
    requires
        is_batch(batch@),
    ensures
        m == mean_score(views(batch@)),
        is_score(m as int),
{
    if batch.len() == 0 {
        return 0;
    }
    let mut sum: i128 = 0;
    let mut t: usize = 0;
    while t < batch.len()
        invariant
            is_batch(batch@),
            t <= batch@.len(),
            sum == score_sum(views(batch@), t as nat),
            0 <= sum <= t * SCALE,
        decreases batch@.len() - t,
    {
        assert(views(batch@)[t as int] == batch@[t as int]@);
        match batch[t].final_score {
            Some(s) => {
                sum = sum + s as i128;
            },
            None => {},
        }
        t += 1;
    }
    proof {
        lemma_div_trunc_within(sum as int, batch@.len() as int, SCALE as int);
        lemma_div_trunc_shrinks(sum as int, batch@.len() as int);
    }
    div_trunc_exec(sum, batch.len() as i128) as i64
}

/// The targets of the up-weights of `pair` for a cycle over `batch`.
pub fn layer_target(
    pair: &LowRankPair,
    batch: &Vec<Trajectory>,
    carry: &Vec<i64>,
    threshold: i64,
    baseline: i64,
) -> (g: Vec<i64>)
    requires
        pair.wf(),
        is_batch(batch@),
        is_vector(carry@, pair.dim as int),
        is_score(threshold as int),
        is_score(baseline as int),
    ensures
        g@ == pair.target(views(batch@), carry@, threshold as int, baseline as int),
        g@.len() == pair.up@.len(),
        all_within(g@, VALUE_LIMIT as int),
{
    let ghost vs = views(batch@);
    let ghost thr = threshold as int;
    let ghost bl = baseline as int;
    let count: usize = count_eligible(batch, threshold);
    let total: usize = pair.up.len();
    let mut sums: Vec<i128> = Vec::new();
    let mut q: usize = 0;
    while q < total
        invariant
            q <= total,
            sums@.len() == q,
            forall|p: int| 0 <= p < q ==> #[trigger] sums@[p] == 0,
        decreases total - q,
    {
        sums.push(0);
        q += 1;
    }
    let mut t: usize = 0;
    while t < batch.len()
        invariant
            pair.wf(),
            is_batch(batch@),
            is_score(threshold as int),
            is_score(baseline as int),
            vs == views(batch@),
            thr == threshold as int,
            bl == baseline as int,
            total == pair.up@.len(),
            sums@.len() == total,
            t <= batch@.len(),
            forall|p: int|
                0 <= p < total ==> #[trigger] sums@[p] == pair.request_sum(vs, thr, bl, p, t as nat),
            forall|p: int| 0 <= p < total ==> within(#[trigger] sums@[p] as int, t * REQUEST_LIMIT),
        decreases batch@.len() - t,
    {
        assert(vs[t as int] == batch@[t as int]@);
        let eligible: Option<i64> = match batch[t].final_score {
            Some(s) => if s >= threshold {
                Some(s)
            } else {
                None
            },
            None => None,
        };
        match eligible {
            None => {
                assert forall|p: int| 0 <= p < total implies pair.request_at(vs[t as int], thr, bl, p)
                    == 0 by {}
            },
            Some(s) => {
                let x: &Vec<i64> = &batch[t].query_embedding;
                let fitted_x: Vec<i64> = fit(x, pair.dim);
                let h: Vec<i64> = pair.project(&fitted_x);
                let ghost before = sums@;
                let mut i: usize = 0;
                while i < pair.dim
                    invariant
                        pair.wf(),
                        is_score(baseline as int),
                        is_score(s as int),
                        s >= threshold,
                        vs[t as int].final_score == Some(s),
                        vs[t as int].query_embedding == x@,
                        all_within(x@, VALUE_LIMIT as int),
                        thr == threshold as int,
                        bl == baseline as int,
                        h@ == pair.hidden(fitted(x@, pair.dim as nat)),
                        all_within(h@, HIDDEN_LIMIT as int),
                        total == pair.up@.len(),
                        sums@.len() == total,
                        before.len() == total,
                        t < batch@.len(),
                        batch@.len() <= MAX_CAPACITY,
                        i <= pair.dim,
                        forall|p: int|
                            0 <= p < total ==> within(#[trigger] before[p] as int, t * REQUEST_LIMIT),
                        forall|p: int|
                            0 <= p < i * pair.rank ==> #[trigger] sums@[p] == before[p]
                                + pair.request_at(vs[t as int], thr, bl, p),
                        forall|p: int| i * pair.rank <= p < total ==> #[trigger] sums@[p] == before[p],
                    decreases pair.dim - i,
                {
                    proof {
                        lemma_row_bounds(i as int, pair.dim as int, pair.rank as int);
                    }
                    let signal: i64 = signal_exec(s - baseline, x, i);
                    let mut j: usize = 0;
                    while j < pair.rank
                        invariant
                            pair.wf(),
                            is_score(baseline as int),
                            is_score(s as int),
                            s >= threshold,
                            vs[t as int].final_score == Some(s),
                            vs[t as int].query_embedding == x@,
                            all_within(x@, VALUE_LIMIT as int),
                            thr == threshold as int,
                            bl == baseline as int,
                            h@ == pair.hidden(fitted(x@, pair.dim as nat)),
                            all_within(h@, HIDDEN_LIMIT as int),
                            signal == signal_at(s - baseline, x@, i as int),
                            total == pair.up@.len(),
                            sums@.len() == total,
                            before.len() == total,
                            t < batch@.len(),
                            batch@.len() <= MAX_CAPACITY,
                            i < pair.dim,
                            j <= pair.rank,
                            0 <= i * pair.rank,
                            i * pair.rank + pair.rank <= pair.dim * pair.rank,
                            pair.dim * pair.rank <= MAX_DIM * MAX_DIM,
                            forall|p: int|
                                0 <= p < total ==> within(
                                    #[trigger] before[p] as int,
                                    t * REQUEST_LIMIT,
                                ),
                            forall|p: int|
                                0 <= p < i * pair.rank + j ==> #[trigger] sums@[p] == before[p]
                                    + pair.request_at(vs[t as int], thr, bl, p),
                            forall|p: int|
                                i * pair.rank + j <= p < total ==> #[trigger] sums@[p] == before[p],
                        decreases pair.rank - j,
                    {
                        let p: usize = i * pair.rank + j;
                        proof {
                            lemma_fundamental_div_mod_converse(
                                p as int,
                                pair.rank as int,
                                i as int,
                                j as int,
                            );
                            pair.lemma_request_within(vs[t as int], thr, bl, p as int);
                        }
                        let asked: i128 = fmul_exec(signal, h[j]);
                        assert(asked == pair.request_at(vs[t as int], thr, bl, p as int));
                        let sum: i128 = sums[p] + asked;
                        sums[p] = sum;
                        j += 1;
                    }
                    proof {
                        assert((i + 1) * pair.rank == i * pair.rank + pair.rank) by (nonlinear_arith);
                    }
                    i += 1;
                }
                proof {
                    assert forall|p: int| 0 <= p < total implies within(
                        #[trigger] sums@[p] as int,
                        (t + 1) * REQUEST_LIMIT,
                    ) by {
                        pair.lemma_request_within(vs[t as int], thr, bl, p);
                    }
                }
            },
        }
        t += 1;
    }
    let mut g: Vec<i64> = Vec::new();
    let mut i: usize = 0;
    while i < pair.dim
        invariant
            pair.wf(),
            is_vector(carry@, pair.dim as int),
            vs == views(batch@),
            thr == threshold as int,
            bl == baseline as int,
            count == eligible_count(vs, thr, batch@.len()),
            batch@.len() <= MAX_CAPACITY,
            total == pair.up@.len(),
            sums@.len() == total,
            forall|p: int|
                0 <= p < total ==> #[trigger] sums@[p] == pair.request_sum(
                    vs,
                    thr,
                    bl,
                    p,
                    batch@.len(),
                ),
            forall|p: int|
                0 <= p < total ==> within(#[trigger] sums@[p] as int, batch@.len() * REQUEST_LIMIT),
            i <= pair.dim,
            g@.len() == i * pair.rank,
            forall|p: int|
                0 <= p < i * pair.rank ==> #[trigger] g@[p] == pair.target_at(vs, carry@, thr, bl, p),
            forall|p: int| 0 <= p < g@.len() ==> within(#[trigger] g@[p] as int, VALUE_LIMIT as int),
        decreases pair.dim - i,
    {
        proof {
            lemma_row_bounds(i as int, pair.dim as int, pair.rank as int);
        }
        let mut j: usize = 0;
        while j < pair.rank
            invariant
                pair.wf(),
                is_vector(carry@, pair.dim as int),
                vs == views(batch@),
                thr == threshold as int,
                bl == baseline as int,
                count == eligible_count(vs, thr, batch@.len()),
                batch@.len() <= MAX_CAPACITY,
                total == pair.up@.len(),
                sums@.len() == total,
                forall|p: int|
                    0 <= p < total ==> #[trigger] sums@[p] == pair.request_sum(
                        vs,
                        thr,
                        bl,
                        p,
                        batch@.len(),
                    ),
                forall|p: int|
                    0 <= p < total ==> within(
                        #[trigger] sums@[p] as int,
                        batch@.len() * REQUEST_LIMIT,
                    ),
                i < pair.dim,
                j <= pair.rank,
                0 <= i * pair.rank,
                i * pair.rank + pair.rank <= pair.dim * pair.rank,
                pair.dim * pair.rank <= MAX_DIM * MAX_DIM,
                g@.len() == i * pair.rank + j,
                forall|p: int|
                    0 <= p < i * pair.rank + j ==> #[trigger] g@[p] == pair.target_at(
                        vs,
                        carry@,
                        thr,
                        bl,
                        p,
                    ),
                forall|p: int|
                    0 <= p < g@.len() ==> within(#[trigger] g@[p] as int, VALUE_LIMIT as int),
            decreases pair.rank - j,
        {
            let p: usize = i * pair.rank + j;
            proof {
                lemma_fundamental_div_mod_converse(p as int, pair.rank as int, i as int, j as int);
            }
            let mean: i128 = if count == 0 {
                0
            } else {
                proof {
                    lemma_div_trunc_shrinks(sums@[p as int] as int, count as int);
                }
                div_trunc_exec(sums[p], count as i128)
            };
            let v: i64 = clamp_exec(mean + carry[i] as i128, VALUE_LIMIT);
            g.push(v);
            j += 1;
        }
        proof {
            assert((i + 1) * pair.rank == i * pair.rank + pair.rank) by (nonlinear_arith);
        }
        i += 1;
    }
    proof {
        assert(g@ =~= pair.target(vs, carry@, thr, bl));
    }
    g
}

/// How a cycle ended.
#[derive(Clone, Copy, Debug, PartialEq, Eq, Structural)]
pub enum CycleStatus {
    /// Every weight moved, the anchor was renewed, the batch is consumed.
    Completed,
    /// No trajectory was buffered.
    NothingToLearn,
    /// A weight would have left its range: nothing changed.
    Diverged,
    /// The engine is disabled: nothing changed.
    Disabled,
    /// Another cycle is running: nothing changed.
    Busy,
    /// No cycle is due yet: nothing changed.
    NotDue,
    /// The completion does not belong to the running cycle: nothing
    /// changed.
    Stale,
}

/// What a cycle did.
#[derive(Clone, Copy, Debug, PartialEq, Eq, Structural)]
pub struct CycleReport {
    pub status: CycleStatus,
    /// Number of trajectories in the batch.
    pub batch_size: usize,
    /// Number of those that drove the step.
    pub eligible: usize,
    /// Mean of their final scores, fixed-point.
    pub mean_score: i64,
    /// Largest magnitude of a weight's step, fixed-point.
    pub step_magnitude: i64,
}

impl CycleReport {
    /// The error that the status stands for, if it is one.
    pub open spec fn failure(&self) -> Option<SonaError> {
        match self.status {
            CycleStatus::Diverged => Some(SonaError::Divergence),
            CycleStatus::Disabled => Some(SonaError::Disabled),
            CycleStatus::Busy => Some(SonaError::InvalidState),
            CycleStatus::Stale => Some(SonaError::InvalidState),
            _ => None,
        }
    }

    /// The error that the status stands for, if it is one.
    pub fn error(&self) -> (e: Option<SonaError>)
        ensures
            e == self.failure(),
    {
        match self.status {
            CycleStatus::Diverged => Some(SonaError::Divergence),
            CycleStatus::Disabled => Some(SonaError::Disabled),
            CycleStatus::Busy => Some(SonaError::InvalidState),
            CycleStatus::Stale => Some(SonaError::InvalidState),
            _ => None,
        }
    }
}

/// The slow adapter: one low-rank pair per layer.
pub struct BaseAdapter {
    pub dim: usize,
    pub rank: usize,
    pub layers: Vec<LowRankPair>,
}

/// The state that a cycle holds the weights close to.
pub struct EwcAnchor {
    /// Number of cycles that renewed the anchor.
    pub version: u64,
    pub layers: Vec<AnchorLayer>,
}

impl EwcAnchor {
    /// One anchor layer for each layer of `base`, each fitting its layer.
    pub open spec fn fits(&self, base: &BaseAdapter) -> bool {
        &&& self.layers@.len() == base.layers@.len()
        &&& forall|l: int|
            0 <= l < self.layers@.len() ==> (#[trigger] self.layers@[l]).fits(&base.layers@[l])
    }

    /// Same version, layer by layer the same weights and importances.
    pub open spec fn same_as(&self, other: &EwcAnchor) -> bool {
        &&& self.version == other.version
        &&& self.layers@.len() == other.layers@.len()
        &&& forall|l: int|
            0 <= l < self.layers@.len() ==> (#[trigger] self.layers@[l]).weights@
                == other.layers@[l].weights@ && self.layers@[l].importance@
                == other.layers@[l].importance@
    }

    /// A copy of this anchor.
    pub fn duplicate(&self) -> (a: EwcAnchor)
        ensures
            a.same_as(self),
    {
        let mut layers: Vec<AnchorLayer> = Vec::new();
        let mut l: usize = 0;
        while l < self.layers.len()
            invariant
                l <= self.layers@.len(),
                layers@.len() == l,
                forall|k: int|
                    0 <= k < l ==> (#[trigger] layers@[k]).weights@ == self.layers@[k].weights@
                        && layers@[k].importance@ == self.layers@[k].importance@,
            decreases self.layers@.len() - l,
        {
            layers.push(
                AnchorLayer {
                    weights: copy_vector(&self.layers[l].weights),
                    importance: copy_vector(&self.layers[l].importance),
                },
            );
            l += 1;
        }
        EwcAnchor { version: self.version, layers }
    }

    /// Whether every importance is zero, so that no weight is held.
    pub open spec fn is_unweighted(&self) -> bool {
        forall|l: int, p: int|
            0 <= l < self.layers@.len() && 0 <= p < self.layers@[l].importance@.len() ==> (
            #[trigger] self.layers@[l].importance@[p]) == 0
    }

    /// Whether this anchor holds exactly the weights of `base`.
    pub open spec fn holds(&self, base: &BaseAdapter) -> bool {
        &&& self.layers@.len() == base.layers@.len()
        &&& forall|l: int|
            0 <= l < self.layers@.len() ==> (#[trigger] self.layers@[l]).weights@
                == base.layers@[l].up@
    }
}

impl BaseAdapter {
    /// Between one and `MAX_LAYERS` well-formed layers of one dimension
    /// and rank.
    pub open spec fn wf(&self) -> bool {
        &&& 0 < self.layers@.len() <= MAX_LAYERS
        &&& 0 < self.dim <= MAX_DIM
        &&& 0 < self.rank <= MAX_RANK
        &&& forall|l: int|
            0 <= l < self.layers@.len() ==> {
                &&& (#[trigger] self.layers@[l]).wf()
                &&& self.layers@[l].dim == self.dim
                &&& self.layers@[l].rank == self.rank
            }
    }

    /// The targets of a cycle over `batch`, layer by layer.
    pub open spec fn targets(
        &self,
        batch: Seq<TrajectoryView>,
        carry: Seq<i64>,
        threshold: int,
        baseline: int,
    ) -> Seq<Seq<i64>> {
        Seq::new(
            self.layers@.len(),
            |l: int| self.layers@[l].target(batch, carry, threshold, baseline),
        )
    }

    /// Whether a step toward `targets` takes a weight of one of the first
    /// `n` layers out of its range.
    pub open spec fn diverges(&self, anchor: &EwcAnchor, targets: Seq<Seq<i64>>, rate: int, lambda: int, n: nat) -> bool {
        exists|l: int|
            0 <= l < n && (#[trigger] self.layers@[l]).diverges(
                &anchor.layers@[l],
                targets[l],
                rate,
                lambda,
                self.layers@[l].up@.len(),
            )
    }

    /// The largest magnitude of a step among the first `n` layers.
    pub open spec fn magnitude(&self, anchor: &EwcAnchor, targets: Seq<Seq<i64>>, rate: int, lambda: int, n: nat) -> int
        decreases n,
    {
        if n == 0 {
            0
        } else {
            max(
                self.magnitude(anchor, targets, rate, lambda, (n - 1) as nat),
                self.layers@[n - 1].magnitude(
                    &anchor.layers@[n - 1],
                    targets[n - 1],
                    rate,
                    lambda,
                    self.layers@[n - 1].up@.len(),
                ),
            )
        }
    }

    /// Whether `next` and `renewed` are this adapter and its anchor after
    /// a step toward `targets`: every up-projection moved, everything else
    /// as before, the anchor on the new weights with refreshed
    /// importances and the next version.
    pub open spec fn steps_to(
        &self,
        anchor: &EwcAnchor,
        targets: Seq<Seq<i64>>,
        rate: int,
        lambda: int,
        next: &BaseAdapter,
        renewed: &EwcAnchor,
    ) -> bool {
        &&& next.dim == self.dim
        &&& next.rank == self.rank
        &&& next.layers@.len() == self.layers@.len()
        &&& renewed.layers@.len() == self.layers@.len()
        &&& renewed.version == anchor.version + 1
        &&& forall|l: int|
            0 <= l < self.layers@.len() ==> {
                &&& (#[trigger] next.layers@[l]).dim == self.layers@[l].dim
                &&& next.layers@[l].rank == self.layers@[l].rank
                &&& next.layers@[l].scale == self.layers@[l].scale
                &&& next.layers@[l].down@ == self.layers@[l].down@
                &&& next.layers@[l].up@ == self.layers@[l].moved_up(
                    &anchor.layers@[l],
                    targets[l],
                    rate,
                    lambda,
                )
            }
        &&& forall|l: int|
            0 <= l < self.layers@.len() ==> {
                &&& (#[trigger] renewed.layers@[l]).weights@ == self.layers@[l].moved_up(
                    &anchor.layers@[l],
                    targets[l],
                    rate,
                    lambda,
                )
                &&& renewed.layers@[l].importance@ == self.layers@[l].moved_importance(
                    &anchor.layers@[l],
                    targets[l],
                )
            }
    }

    /// Same dimensions, layer by layer the same pairs.
    pub open spec fn same_as(&self, other: &BaseAdapter) -> bool {
        &&& self.dim == other.dim
        &&& self.rank == other.rank
        &&& self.layers@.len() == other.layers@.len()
        &&& forall|l: int|
            0 <= l < self.layers@.len() ==> (#[trigger] self.layers@[l]).same_as(&other.layers@[l])
    }

    /// A copy of this adapter.
    pub fn duplicate(&self) -> (b: BaseAdapter)
        ensures
            b.same_as(self),
    {
        let mut layers: Vec<LowRankPair> = Vec::new();
        let mut l: usize = 0;
        while l < self.layers.len()
            invariant
                l <= self.layers@.len(),
                layers@.len() == l,
                forall|k: int| 0 <= k < l ==> (#[trigger] layers@[k]).same_as(&self.layers@[k]),
            decreases self.layers@.len() - l,
        {
            layers.push(self.layers[l].duplicate());
            l += 1;
        }
        BaseAdapter { dim: self.dim, rank: self.rank, layers }
    }

    /// A slow adapter of `count` layers that adds nothing yet.
    pub fn new(dim: usize, rank: usize, count: usize) -> (b: BaseAdapter)
        requires
            0 < dim <= MAX_DIM,
            0 < rank <= MAX_RANK,
            0 < count <= MAX_LAYERS,
        ensures
            b.wf(),
            b.dim == dim,
            b.rank == rank,
            b.layers@.len() == count,
            forall|l: int|
                0 <= l < count ==> (#[trigger] b.layers@[l]).is_initial(l % (rank as int)),
    {
        let mut layers: Vec<LowRankPair> = Vec::new();
        let mut l: usize = 0;
        while l < count
            invariant
                0 < dim <= MAX_DIM,
                0 < rank <= MAX_RANK,
                l <= count,
                layers@.len() == l,
                forall|k: int|
                    0 <= k < l ==> {
                        &&& (#[trigger] layers@[k]).wf()
                        &&& layers@[k].dim == dim
                        &&& layers@[k].rank == rank
                    },
                forall|k: int| 0 <= k < l ==> (#[trigger] layers@[k]).is_initial(k % (rank as int)),
            decreases count - l,
        {
            layers.push(LowRankPair::new(dim, rank, l % rank));
            l += 1;
        }
        BaseAdapter { dim, rank, layers }
    }

    /// The forward pass of layer `layer` on `x`.
    pub fn apply(&self, layer: usize, x: &Vec<i64>) -> (r: Result<Vec<i64>, SonaError>)
        requires
            self.wf(),
        ensures
            layer >= self.layers@.len() ==> r is Err && r->Err_0 == SonaError::OutOfRange,
            layer < self.layers@.len() && !is_vector(x@, self.dim as int) ==> r is Err && r->Err_0
                == SonaError::InvalidInput,
            layer < self.layers@.len() && is_vector(x@, self.dim as int) ==> r is Ok && r->Ok_0@
                == self.layers@[layer as int].forward(x@),
    {
        if layer >= self.layers.len() {
            return Err(SonaError::OutOfRange);
        }
        if x.len() != self.dim || !check_within(x, VALUE_LIMIT) {
            return Err(SonaError::InvalidInput);
        }
        Ok(self.layers[layer].apply(x))
    }

    /// The first anchor: the weights as they are, every importance zero.
    pub fn snapshot(&self) -> (a: EwcAnchor)
        requires
            self.wf(),
        ensures
            a.fits(self),
            a.holds(self),
            a.version == 0,
            a.is_unweighted(),
    {
        let mut layers: Vec<AnchorLayer> = Vec::new();
        let mut l: usize = 0;
        while l < self.layers.len()
            invariant
                self.wf(),
                l <= self.layers@.len(),
                layers@.len() == l,
                forall|k: int|
                    0 <= k < l ==> (#[trigger] layers@[k]).fits(&self.layers@[k]) && layers@[k].weights@
                        == self.layers@[k].up@,
                forall|k: int, p: int|
                    0 <= k < l && 0 <= p < layers@[k].importance@.len() ==> (
                    #[trigger] layers@[k].importance@[p]) == 0,
            decreases self.layers@.len() - l,
        {
            let weights: Vec<i64> = copy_vector(&self.layers[l].up);
            let importance: Vec<i64> = zeros(self.layers[l].up.len());
            layers.push(AnchorLayer { weights, importance });
            l += 1;
        }
        EwcAnchor { version: 0, layers }
    }
}

/// What the trajectories ask of a pair depends only on what the pair
/// holds.
pub proof fn lemma_same_pair_same_requests(
    p1: &LowRankPair,
    p2: &LowRankPair,
    batch: Seq<TrajectoryView>,
    threshold: int,
    baseline: int,
    p: int,
    n: nat,
)
    requires
        p1.same_as(p2),
    ensures
        p1.request_sum(batch, threshold, baseline, p, n) == p2.request_sum(
            batch,
            threshold,
            baseline,
            p,
            n,
        ),
    decreases n,
{
    if n > 0 {
        lemma_same_pair_same_requests(p1, p2, batch, threshold, baseline, p, (n - 1) as nat);
        let x = fitted(batch[n - 1].query_embedding, p1.dim as nat);
        assert(p1.hidden(x) =~= p2.hidden(x));
    }
}

/// The targets of an adapter depend only on what it holds.
pub proof fn lemma_same_adapter_same_targets(
    b1: &BaseAdapter,
    b2: &BaseAdapter,
    batch: Seq<TrajectoryView>,
    carry: Seq<i64>,
    threshold: int,
    baseline: int,
)
    requires
        b1.same_as(b2),
    ensures
        b1.targets(batch, carry, threshold, baseline) == b2.targets(
            batch,
            carry,
            threshold,
            baseline,
        ),
{
    assert forall|l: int| 0 <= l < b1.layers@.len() implies b1.layers@[l].target(
        batch,
        carry,
        threshold,
        baseline,
    ) == b2.layers@[l].target(batch, carry, threshold, baseline) by {
        let p1 = b1.layers@[l];
        let p2 = b2.layers@[l];
        assert(p1.same_as(&p2));
        assert forall|p: int| 0 <= p < p1.up@.len() implies p1.target_at(
            batch,
            carry,
            threshold,
            baseline,
            p,
        ) == p2.target_at(batch, carry, threshold, baseline, p) by {
            lemma_same_pair_same_requests(&p1, &p2, batch, threshold, baseline, p, batch.len());
        }
        assert(p1.target(batch, carry, threshold, baseline) =~= p2.target(
            batch,
            carry,
            threshold,
            baseline,
        ));
    }
    assert(b1.targets(batch, carry, threshold, baseline) =~= b2.targets(
        batch,
        carry,
        threshold,
        baseline,
    ));
}

/// The magnitude of the step of an adapter depends only on what it and
/// its anchor hold.
pub proof fn lemma_same_adapter_same_magnitude(
    b1: &BaseAdapter,
    a1: &EwcAnchor,
    b2: &BaseAdapter,
    a2: &EwcAnchor,
    targets: Seq<Seq<i64>>,
    rate: int,
    lambda: int,
    n: nat,
)
    requires
        b1.same_as(b2),
        a1.same_as(a2),
        a1.layers@.len() == b1.layers@.len(),
        n <= b1.layers@.len(),
    ensures
        b1.magnitude(a1, targets, rate, lambda, n) == b2.magnitude(a2, targets, rate, lambda, n),
    decreases n,
{
    if n > 0 {
        lemma_same_adapter_same_magnitude(b1, a1, b2, a2, targets, rate, lambda, (n - 1) as nat);
        lemma_same_layer_same_step(
            &b1.layers@[n - 1],
            &a1.layers@[n - 1],
            &b2.layers@[n - 1],
            &a2.layers@[n - 1],
            targets[n - 1],
            rate,
            lambda,
            b1.layers@[n - 1].up@.len(),
        );
    }
}

/// The step of an adapter depends only on what it and its anchor hold:
/// copies diverge together, have steps of the same magnitude, and step to
/// the same adapters.
pub proof fn lemma_same_adapter_same_step(
    b1: &BaseAdapter,
    a1: &EwcAnchor,
    b2: &BaseAdapter,
    a2: &EwcAnchor,
    targets: Seq<Seq<i64>>,
    rate: int,
    lambda: int,
)
    requires
        b1.same_as(b2),
        a1.same_as(a2),
        a1.layers@.len() == b1.layers@.len(),
    ensures
        b1.diverges(a1, targets, rate, lambda, b1.layers@.len()) == b2.diverges(
            a2,
            targets,
            rate,
            lambda,
            b2.layers@.len(),
        ),
        b1.magnitude(a1, targets, rate, lambda, b1.layers@.len()) == b2.magnitude(
            a2,
            targets,
            rate,
            lambda,
            b2.layers@.len(),
        ),
        forall|next: &BaseAdapter, renewed: &EwcAnchor|
            #[trigger] b1.steps_to(a1, targets, rate, lambda, next, renewed) ==> b2.steps_to(
                a2,
                targets,
                rate,
                lambda,
                next,
                renewed,
            ),
{
    let count = b1.layers@.len();
    assert forall|l: int| 0 <= l < count implies {
        &&& (#[trigger] b1.layers@[l]).moved_up(&a1.layers@[l], targets[l], rate, lambda)
            == b2.layers@[l].moved_up(&a2.layers@[l], targets[l], rate, lambda)
        &&& b1.layers@[l].moved_importance(&a1.layers@[l], targets[l])
            == b2.layers@[l].moved_importance(&a2.layers@[l], targets[l])
        &&& b1.layers@[l].diverges(
            &a1.layers@[l],
            targets[l],
            rate,
            lambda,
            b1.layers@[l].up@.len(),
        ) == b2.layers@[l].diverges(
            &a2.layers@[l],
            targets[l],
            rate,
            lambda,
            b2.layers@[l].up@.len(),
        )
    } by {
        lemma_same_layer_same_step(
            &b1.layers@[l],
            &a1.layers@[l],
            &b2.layers@[l],
            &a2.layers@[l],
            targets[l],
            rate,
            lambda,
            b1.layers@[l].up@.len(),
        );
    }
    lemma_same_adapter_same_magnitude(b1, a1, b2, a2, targets, rate, lambda, count);
    if b1.diverges(a1, targets, rate, lambda, count) {
        let l = choose|l: int|
            0 <= l < count && (#[trigger] b1.layers@[l]).diverges(
                &a1.layers@[l],
                targets[l],
                rate,
                lambda,
                b1.layers@[l].up@.len(),
            );
        assert(b2.layers@[l].diverges(
            &a2.layers@[l],
            targets[l],
            rate,
            lambda,
            b2.layers@[l].up@.len(),
        ));
    }
    if b2.diverges(a2, targets, rate, lambda, count) {
        let l = choose|l: int|
            0 <= l < count && (#[trigger] b2.layers@[l]).diverges(
                &a2.layers@[l],
                targets[l],
                rate,
                lambda,
                b2.layers@[l].up@.len(),
            );
        assert(b1.layers@[l].diverges(
            &a1.layers@[l],
            targets[l],
            rate,
            lambda,
            b1.layers@[l].up@.len(),
        ));
    }
    assert forall|next: &BaseAdapter, renewed: &EwcAnchor| #[trigger]
        b1.steps_to(a1, targets, rate, lambda, next, renewed) implies b2.steps_to(
        a2,
        targets,
        rate,
        lambda,
        next,
        renewed,
    ) by {
        assert forall|l: int| 0 <= l < count implies {
            &&& (#[trigger] next.layers@[l]).dim == b2.layers@[l].dim
            &&& next.layers@[l].rank == b2.layers@[l].rank
            &&& next.layers@[l].scale == b2.layers@[l].scale
            &&& next.layers@[l].down@ == b2.layers@[l].down@
            &&& next.layers@[l].up@ == b2.layers@[l].moved_up(
                &a2.layers@[l],
                targets[l],
                rate,
                lambda,
            )
        } by {
            assert(b1.layers@[l].same_as(&b2.layers@[l]));
        }
        assert forall|l: int| 0 <= l < count implies {
            &&& (#[trigger] renewed.layers@[l]).weights@ == b2.layers@[l].moved_up(
                &a2.layers@[l],
                targets[l],
                rate,
                lambda,
            )
            &&& renewed.layers@[l].importance@ == b2.layers@[l].moved_importance(
                &a2.layers@[l],
                targets[l],
            )
        } by {
            assert(b1.layers@[l].same_as(&b2.layers@[l]));
        }
    }
}

/// What a consolidation made.
pub struct Consolidation {
    pub report: CycleReport,
    /// The adapter and its anchor after the step, unless it diverged.
    pub next: Option<(BaseAdapter, EwcAnchor)>,
}

/// Whether `c` is the consolidation of `base`, held by `anchor`, over
/// `batch`: the report tells of the batch and of the step toward its
/// target; if the step diverges there is no new adapter, and otherwise
/// the new adapter and anchor are what the step makes.
pub open spec fn is_consolidation(
    base: &BaseAdapter,
    anchor: &EwcAnchor,
    batch: Seq<TrajectoryView>,
    carry: Seq<i64>,
    baseline: int,
    threshold: int,
    rate: int,
    lambda: int,
    c: &Consolidation,
) -> bool {
    let g = base.targets(batch, carry, threshold, baseline);
    let diverged = base.diverges(anchor, g, rate, lambda, base.layers@.len());
    &&& c.report.status == if diverged {
        CycleStatus::Diverged
    } else {
        CycleStatus::Completed
    }
    &&& c.report.batch_size == batch.len()
    &&& c.report.eligible == eligible_count(batch, threshold, batch.len())
    &&& c.report.mean_score == mean_score(batch)
    &&& c.report.step_magnitude == base.magnitude(anchor, g, rate, lambda, base.layers@.len())
    &&& c.next is Some <==> !diverged
    &&& c.next matches Some((next, renewed)) ==> {
        &&& next.wf()
        &&& renewed.fits(&next)
        &&& renewed.holds(&next)
        &&& base.steps_to(anchor, g, rate, lambda, &next, &renewed)
    }
}

/// One consolidation of `base` over `batch`: every up-weight takes its
/// step toward its target, held by `anchor`.  If one of them would leave
/// the range of the weights, the step is refused as a whole.
pub fn consolidate(
    base: &BaseAdapter,
    anchor: &EwcAnchor,
    batch: &Vec<Trajectory>,
    carry: &Vec<i64>,
    baseline: i64,
    threshold: i64,
    rate: i64,
    lambda: i64,
) -> (c: Consolidation)
    requires
        base.wf(),
        anchor.fits(base),
        anchor.version < u64::MAX,
        is_batch(batch@),
        is_vector(carry@, base.dim as int),
        is_score(baseline as int),
        is_score(threshold as int),
        0 <= rate <= RATE_LIMIT,
        0 <= lambda <= RATE_LIMIT,
    ensures
        is_consolidation(
            base,
            anchor,
            views(batch@),
            carry@,
            baseline as int,
            threshold as int,
            rate as int,
            lambda as int,
            &c,
        ),
{
    let ghost g = base.targets(views(batch@), carry@, threshold as int, baseline as int);
    let eligible: usize = count_eligible(batch, threshold);
    let mean: i64 = mean_score_exec(batch);
    let mut layers: Vec<LowRankPair> = Vec::new();
    let mut held: Vec<AnchorLayer> = Vec::new();
    let mut diverged: bool = false;
    let mut magnitude: i64 = 0;
    let mut l: usize = 0;
    while l < base.layers.len()
        invariant
            base.wf(),
            anchor.fits(base),
            is_batch(batch@),
            is_vector(carry@, base.dim as int),
            is_score(baseline as int),
            is_score(threshold as int),
            eligible == eligible_count(views(batch@), threshold as int, batch@.len()),
            g == base.targets(views(batch@), carry@, threshold as int, baseline as int),
            0 <= rate <= RATE_LIMIT,
            0 <= lambda <= RATE_LIMIT,
            l <= base.layers@.len(),
            layers@.len() == l,
            held@.len() == l,
            diverged == base.diverges(anchor, g, rate as int, lambda as int, l as nat),
            magnitude == base.magnitude(anchor, g, rate as int, lambda as int, l as nat),
            0 <= magnitude <= STEP_LIMIT,
            forall|k: int|
                0 <= k < l ==> {
                    &&& (#[trigger] layers@[k]).dim == base.layers@[k].dim
                    &&& layers@[k].rank == base.layers@[k].rank
                    &&& layers@[k].scale == base.layers@[k].scale
                    &&& layers@[k].down@ == base.layers@[k].down@
                    &&& layers@[k].up@ == base.layers@[k].moved_up(
                        &anchor.layers@[k],
                        g[k],
                        rate as int,
                        lambda as int,
                    )
                },
            forall|k: int|
                0 <= k < l ==> {
                    &&& (#[trigger] held@[k]).weights@ == base.layers@[k].moved_up(
                        &anchor.layers@[k],
                        g[k],
                        rate as int,
                        lambda as int,
                    )
                    &&& held@[k].importance@ == base.layers@[k].moved_importance(
                        &anchor.layers@[k],
                        g[k],
                    )
                    &&& forall|p: int|
                        0 <= p < held@[k].importance@.len() ==> is_score(
                            #[trigger] held@[k].importance@[p] as int,
                        )
                },
            !diverged ==> forall|k: int|
                0 <= k < l ==> all_within((#[trigger] layers@[k]).up@, WEIGHT_LIMIT as int),
        decreases base.layers@.len() - l,
    {
        let pair: &LowRankPair = &base.layers[l];
        let ghost before = base.diverges(anchor, g, rate as int, lambda as int, l as nat);
        let target: Vec<i64> = layer_target(pair, batch, carry, threshold, baseline);
        assert(target@ == g[l as int]);
        let out: LayerStep = step_layer(pair, &anchor.layers[l], &target, rate, lambda);
        if out.diverged {
            diverged = true;
        }
        if out.magnitude > magnitude {
            magnitude = out.magnitude;
        }
        let weights: Vec<i64> = copy_vector(&out.up);
        layers.push(
            LowRankPair {
                dim: pair.dim,
                rank: pair.rank,
                scale: pair.scale,
                down: copy_vector(&pair.down),
                up: out.up,
            },
        );
        held.push(AnchorLayer { weights, importance: out.importance });
        proof {
            assert(diverged == base.diverges(anchor, g, rate as int, lambda as int, (l + 1) as nat)) by {
                if before {
                    let k = choose|k: int|
                        0 <= k < l && (#[trigger] base.layers@[k]).diverges(
                            &anchor.layers@[k],
                            g[k],
                            rate as int,
                            lambda as int,
                            base.layers@[k].up@.len(),
                        );
                    assert(0 <= k < l + 1);
                }
            }
        }
        l += 1;
    }
    let status: CycleStatus = if diverged {
        CycleStatus::Diverged
    } else {
        CycleStatus::Completed
    };
    let report = CycleReport {
        status,
        batch_size: batch.len(),
        eligible,
        mean_score: mean,
        step_magnitude: magnitude,
    };
    if diverged {
        Consolidation { report, next: None }
    } else {
        let next = BaseAdapter { dim: base.dim, rank: base.rank, layers };
        let renewed = EwcAnchor { version: anchor.version + 1, layers: held };
        Consolidation { report, next: Some((next, renewed)) }
    }
}

} // verus!
