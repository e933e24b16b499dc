//! The fast adapter: one low-rank pair that every accepted trajectory
//! moves at once.
//!
//! A trajectory that did better than expected by `advantage` asks output
//! `i` to grow by its signal, `advantage * x[i]`.  The update moves the
//! weight from hidden unit `j` to output `i` by `rate * signal[i] * h[j]`,
//! where `h` is what the down-projection makes of the embedding: for that
//! embedding the adapter's output then grows along the signal.  The sum
//! of the steps `rate * signal` since the last flush is the drift.

use vstd::prelude::*;
use crate::fixed::{
    all_within, clamp, clamp_exec, fit, fitted, fmul, fmul_exec, is_vector, lemma_fmul_unit,
    lemma_fmul_within, within, zeros, MAX_DIM, MAX_RANK, RATE_LIMIT, SCALE, VALUE_LIMIT,
};
use crate::lora::{LowRankPair, STEP_BOUND};

verus! {

/// Component `i` of the adjustment that an embedding `x` asks for when
/// its trajectory did better than expected by `advantage`: the embedding
/// scaled by the advantage, read as zero beyond its length.
pub open spec fn signal_at(advantage: int, x: Seq<i64>, i: int) -> int {
    if 0 <= i < x.len() {
        fmul(advantage, x[i] as int)
    } else {
        0
    }
}

/// The steps of a fast update, one for each output: the signal scaled by
/// the learning rate.
pub open spec fn increment(rate: int, advantage: int, x: Seq<i64>, dim: nat) -> Seq<i64> {
    Seq::new(dim, |i: int| fmul(rate, signal_at(advantage, x, i)) as i64)
}

/// The component-wise sum of `a` and `b`, saturated at `VALUE_LIMIT`.
pub open spec fn accumulated(a: Seq<i64>, b: Seq<i64>) -> Seq<i64> {
    Seq::new(a.len(), |i: int| clamp(a[i] + b[i], VALUE_LIMIT as int) as i64)
}

/// A signal is no larger than the embedding it comes from.
pub proof fn lemma_signal_within(advantage: int, x: Seq<i64>, i: int)
    requires
        within(advantage, SCALE as int),
        all_within(x, VALUE_LIMIT as int),
    ensures
        within(signal_at(advantage, x, i), VALUE_LIMIT as int),
{
    if 0 <= i < x.len() {
        lemma_fmul_unit(advantage, x[i] as int, VALUE_LIMIT as int);
    }
}

/// A step is within `STEP_BOUND`.
pub proof fn lemma_increment_within(rate: int, advantage: int, x: Seq<i64>, i: int)
    requires
        0 <= rate <= RATE_LIMIT,
        within(advantage, SCALE as int),
        all_within(x, VALUE_LIMIT as int),
    ensures
        within(fmul(rate, signal_at(advantage, x, i)), STEP_BOUND as int),
{
    lemma_signal_within(advantage, x, i);
    lemma_fmul_within(
        rate,
        signal_at(advantage, x, i),
        RATE_LIMIT as int,
        VALUE_LIMIT as int,
        STEP_BOUND as int,
    );
}

/// Component `i` of the signal.
pub fn signal_exec(advantage: i64, x: &Vec<i64>, i: usize) -> (g: i64)
    requires
        within(advantage as int, SCALE as int),
        all_within(x@, VALUE_LIMIT as int),
    ensures
        g == signal_at(advantage as int, x@, i as int),
        within(g as int, VALUE_LIMIT as int),
{
    proof {
        lemma_signal_within(advantage as int, x@, i as int);
    }
    if i < x.len() {
        fmul_exec(advantage, x[i]) as i64
    } else {
        0
    }
}

/// The component-wise saturated sum of two vectors.
pub fn accumulate(a: &Vec<i64>, b: &Vec<i64>) -> (r: Vec<i64>)
    requires
        a@.len() == b@.len(),
    ensures
        r@ == accumulated(a@, b@),
        all_within(r@, VALUE_LIMIT as int),
{
    let mut r: Vec<i64> = Vec::new();
    let mut i: usize = 0;
    while i < a.len()
        invariant
            a@.len() == b@.len(),
            i <= a@.len(),
            r@.len() == i,
            forall|t: int| 0 <= t < i ==> #[trigger] r@[t] == accumulated(a@, b@)[t],
            forall|t: int| 0 <= t < i ==> within(#[trigger] r@[t] as int, VALUE_LIMIT as int),
        decreases a@.len() - i,
    {
        let v: i64 = clamp_exec(a[i] as i128 + b[i] as i128, VALUE_LIMIT);
        r.push(v);
        i += 1;
    }
    proof {
        assert(r@ =~= accumulated(a@, b@));
    }
    r
}

/// The fast adapter.
pub struct MicroAdapter {
    pub pair: LowRankPair,
    /// Sum of the increments since the last flush, saturated.
    pub drift: Vec<i64>,
}

impl MicroAdapter {
    /// The pair is well-formed and the drift is a vector of its dimension.
    pub open spec fn wf(&self) -> bool {
        &&& self.pair.wf()
        &&& is_vector(self.drift@, self.pair.dim as int)
    }

    /// The up-projection after a trajectory with the embedding `x` did
    /// better than expected by `advantage`: every weight moves by the step
    /// of its output times the hidden component that `x` gives its
    /// column.
    pub open spec fn learned(&self, x: Seq<i64>, advantage: int, rate: int) -> Seq<i64> {
        self.pair.reinforced(
            increment(rate, advantage, x, self.pair.dim as nat),
            self.pair.hidden(fitted(x, self.pair.dim as nat)),
        )
    }

    /// Whether such a trajectory changes a weight.
    pub open spec fn learns(&self, x: Seq<i64>, advantage: int, rate: int) -> bool {
        self.pair.moves(
            increment(rate, advantage, x, self.pair.dim as nat),
            self.pair.hidden(fitted(x, self.pair.dim as nat)),
        )
    }

    /// A fast adapter that adds nothing yet.
    pub fn new(dim: usize, rank: usize) -> (m: MicroAdapter)
        requires
            0 < dim <= MAX_DIM,
            0 < rank <= MAX_RANK,
        ensures
            m.wf(),
            m.pair.dim == dim,
            m.pair.rank == rank,
            m.pair.is_initial(0),
            forall|i: int| 0 <= i < dim ==> m.drift@[i] == 0,
    {
        MicroAdapter { pair: LowRankPair::new(dim, rank, 0), drift: zeros(dim) }
    }

    /// The forward pass on `x`.
    pub fn apply(&self, x: &Vec<i64>) -> (out: Vec<i64>)
        requires
            self.wf(),
            is_vector(x@, self.pair.dim as int),
        ensures
            out@ == self.pair.forward(x@),
            is_vector(out@, self.pair.dim as int),
    {
        self.pair.apply(x)
    }

    /// Moves the up-projection as the embedding `x` asks for, and adds the
    /// steps to the drift.
    pub fn update(&mut self, x: &Vec<i64>, advantage: i64, rate: i64)
        requires
            old(self).wf(),
            all_within(x@, VALUE_LIMIT as int),
            within(advantage as int, SCALE as int),
            0 <= rate <= RATE_LIMIT,
        ensures
            final(self).wf(),
            final(self).pair.dim == old(self).pair.dim,
            final(self).pair.rank == old(self).pair.rank,
            final(self).pair.scale == old(self).pair.scale,
            final(self).pair.down == old(self).pair.down,
            final(self).pair.up@ == old(self).learned(x@, advantage as int, rate as int),
            final(self).drift@ == accumulated(
                old(self).drift@,
                increment(rate as int, advantage as int, x@, old(self).pair.dim as nat),
            ),
    {
        let ghost inc_spec = increment(rate as int, advantage as int, x@, self.pair.dim as nat);
        let mut inc: Vec<i64> = Vec::new();
        let mut i: usize = 0;
        while i < self.pair.dim
            invariant
                self.wf(),
                all_within(x@, VALUE_LIMIT as int),
                within(advantage as int, SCALE as int),
                0 <= rate <= RATE_LIMIT,
                inc_spec == increment(rate as int, advantage as int, x@, self.pair.dim as nat),
                i <= self.pair.dim,
                inc@.len() == i,
                forall|t: int| 0 <= t < i ==> #[trigger] inc@[t] == inc_spec[t],
                forall|t: int| 0 <= t < i ==> within(#[trigger] inc@[t] as int, STEP_BOUND as int),
            decreases self.pair.dim - i,
        {
            let g: i64 = signal_exec(advantage, x, i);
            proof {
                lemma_increment_within(rate as int, advantage as int, x@, i as int);
            }
            let v: i128 = fmul_exec(rate, g);
            inc.push(v as i64);
            i += 1;
        }
        proof {
            assert(inc@ =~= inc_spec);
        }
        let fitted_x: Vec<i64> = fit(x, self.pair.dim);
        let h: Vec<i64> = self.pair.project(&fitted_x);
        self.pair.reinforce(&inc, &h);
        self.drift = accumulate(&self.drift, &inc);
    }

    /// Hands the drift out, resets it, and halves the up-projection.
    pub fn flush(&mut self) -> (pending: Vec<i64>)
        requires
            old(self).wf(),
        ensures
            final(self).wf(),
            pending@ == old(self).drift@,
            final(self).pair.dim == old(self).pair.dim,
            final(self).pair.rank == old(self).pair.rank,
            final(self).pair.scale == old(self).pair.scale,
            final(self).pair.down == old(self).pair.down,
            final(self).pair.up@ == old(self).pair.dampened(),
            forall|i: int| 0 <= i < final(self).drift@.len() ==> final(self).drift@[i] == 0,
    {
        let mut pending: Vec<i64> = zeros(self.pair.dim);
        std::mem::swap(&mut self.drift, &mut pending);
        self.pair.dampen();
        pending
    }
}

} // verus!
