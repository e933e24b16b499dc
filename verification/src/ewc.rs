//! The step that a consolidation makes of one weight, and of one layer.
//!
//! A step moves a weight toward its target, and the anchor holds it
//! back: for a weight `w` with anchor value `a` and importance `f`, the
//! stiffness is `c = lambda * f`, the gradient `target - 2 * c * (w - a)`,
//! which is the target minus the slope of the penalty `c * (w - a)^2`, and
//! the step `rate * gradient / (1 + c)`.  The more important a weight, the
//! shorter its step.

use vstd::prelude::*;
use vstd::math::{abs, max};
use crate::fixed::{
    all_within, div_trunc, div_trunc_exec, fmul, fmul_exec, is_score, lemma_div_trunc_shrinks,
    lemma_div_trunc_within, lemma_fmul_nonnegative, lemma_fmul_unit, lemma_fmul_within, mul_wide,
    within, RATE_LIMIT, SCALE, VALUE_LIMIT, WEIGHT_LIMIT,
};
use crate::lora::LowRankPair;

verus! {

/// Largest magnitude of one consolidation step.
pub const STEP_LIMIT: i64 = 50_000_000_000_000_000;

/// How strongly a weight of the given importance is held: `lambda`
/// times the importance.
pub open spec fn stiffness(lambda: int, importance: int) -> int {
    fmul(importance, lambda)
}

/// The step of one weight `w` whose anchor value is `anchor`.
pub open spec fn ewc_step(rate: int, lambda: int, target: int, w: int, anchor: int, importance: int) -> int {
    let c = stiffness(lambda, importance);
    let gradient = target - 2 * fmul(c, w - anchor);
    div_trunc(fmul(rate, gradient) * SCALE, SCALE + c)
}

/// The importance of a weight after a cycle whose target for it was
/// `target`: the mean of the old importance and the squared target, at
/// most one.
pub open spec fn refreshed_importance(importance: int, target: int) -> int {
    let v = div_trunc(importance + fmul(target, target), 2);
    if v > SCALE {
        SCALE as int
    } else {
        v
    }
}

/// Every quantity of a step stays within bounds that an `i64` holds.
pub proof fn lemma_ewc_step_within(rate: int, lambda: int, target: int, w: int, anchor: int, importance: int)
    requires
        0 <= rate <= RATE_LIMIT,
        0 <= lambda <= RATE_LIMIT,
        within(target, VALUE_LIMIT as int),
        within(w, WEIGHT_LIMIT as int),
        within(anchor, WEIGHT_LIMIT as int),
        is_score(importance),
    ensures
        0 <= stiffness(lambda, importance) <= RATE_LIMIT,
        within(fmul(stiffness(lambda, importance), w - anchor), 2_000_000_000_000),
        within(
            fmul(rate, target - 2 * fmul(stiffness(lambda, importance), w - anchor)),
            STEP_LIMIT as int,
        ),
        within(ewc_step(rate, lambda, target, w, anchor, importance), STEP_LIMIT as int),
{
    let c = stiffness(lambda, importance);
    lemma_fmul_unit(importance, lambda, RATE_LIMIT as int);
    lemma_fmul_nonnegative(importance, lambda);
    lemma_fmul_within(c, w - anchor, RATE_LIMIT as int, 2 * WEIGHT_LIMIT, 2_000_000_000_000);
    let gradient = target - 2 * fmul(c, w - anchor);
    lemma_fmul_within(rate, gradient, RATE_LIMIT as int, 5_000_000_000_000, STEP_LIMIT as int);
    let raw = fmul(rate, gradient);
    assert(within(raw * SCALE, STEP_LIMIT * (SCALE + c))) by (nonlinear_arith)
        requires
            within(raw, STEP_LIMIT as int),
            c >= 0,
    ;
    lemma_div_trunc_within(raw * SCALE, SCALE + c, STEP_LIMIT as int);
}

/// A refreshed importance is a score again.
pub proof fn lemma_refreshed_importance(importance: int, target: int)
    requires
        is_score(importance),
        within(target, VALUE_LIMIT as int),
    ensures
        is_score(refreshed_importance(importance, target)),
        0 <= fmul(target, target) <= 1_000_000_000_000,
{
    lemma_fmul_within(
        target,
        target,
        VALUE_LIMIT as int,
        VALUE_LIMIT as int,
        1_000_000_000_000,
    );
    assert(target * target >= 0) by (nonlinear_arith);
    lemma_div_trunc_shrinks(target * target, SCALE as int);
    lemma_div_trunc_shrinks(importance + fmul(target, target), 2);
}

/// The step of one weight.
pub fn ewc_step_exec(rate: i64, lambda: i64, target: i64, w: i64, anchor: i64, importance: i64) -> (step: i64)
    requires
        0 <= rate <= RATE_LIMIT,
        0 <= lambda <= RATE_LIMIT,
        within(target as int, VALUE_LIMIT as int),
        within(w as int, WEIGHT_LIMIT as int),
        within(anchor as int, WEIGHT_LIMIT as int),
        is_score(importance as int),
    ensures
        step == ewc_step(
            rate as int,
            lambda as int,
            target as int,
            w as int,
            anchor as int,
            importance as int,
        ),
        within(step as int, STEP_LIMIT as int),
{
    proof {
        lemma_ewc_step_within(
            rate as int,
            lambda as int,
            target as int,
            w as int,
            anchor as int,
            importance as int,
        );
    }
    let c: i64 = fmul_exec(importance, lambda) as i64;
    let pull: i64 = fmul_exec(c, w - anchor) as i64;
    let gradient: i64 = target - 2 * pull;
    let raw: i64 = fmul_exec(rate, gradient) as i64;
    let scaled: i128 = mul_wide(raw, SCALE);
    div_trunc_exec(scaled, SCALE as i128 + c as i128) as i64
}

/// The importance of a weight after a cycle.
pub fn refreshed_importance_exec(importance: i64, target: i64) -> (r: i64)
    requires
        is_score(importance as int),
        within(target as int, VALUE_LIMIT as int),
    ensures
        r == refreshed_importance(importance as int, target as int),
        is_score(r as int),
{
    proof {
        lemma_refreshed_importance(importance as int, target as int);
    }
    let sq: i128 = fmul_exec(target, target);
    let v: i128 = div_trunc_exec(importance as i128 + sq, 2);
    if v > SCALE as i128 {
        SCALE
    } else {
        v as i64
    }
}

/// What the anchor holds of one layer.
pub struct AnchorLayer {
    /// The up-projection as it was after the last cycle.
    pub weights: Vec<i64>,
    /// The importance of each of its weights, a score.
    pub importance: Vec<i64>,
}

impl AnchorLayer {
    /// As many weights and importances as `pair` has up-weights, each in
    /// its range.
    pub open spec fn fits(&self, pair: &LowRankPair) -> bool {
        &&& self.weights@.len() == pair.up@.len()
        &&& self.importance@.len() == pair.up@.len()
        &&& all_within(self.weights@, WEIGHT_LIMIT as int)
        &&& forall|p: int|
            0 <= p < self.importance@.len() ==> is_score(#[trigger] self.importance@[p] as int)
    }
}

impl LowRankPair {
    /// The step of the up-weight `p` toward `target[p]`, held by `anchor`.
    pub open spec fn step_at(&self, anchor: &AnchorLayer, target: Seq<i64>, rate: int, lambda: int, p: int) -> int {
        ewc_step(
            rate,
            lambda,
            target[p] as int,
            self.up@[p] as int,
            anchor.weights@[p] as int,
            anchor.importance@[p] as int,
        )
    }

    /// The up-projection after the step.
    pub open spec fn moved_up(&self, anchor: &AnchorLayer, target: Seq<i64>, rate: int, lambda: int) -> Seq<i64> {
        Seq::new(
            self.up@.len(),
            |p: int| (self.up@[p] + self.step_at(anchor, target, rate, lambda, p)) as i64,
        )
    }

    /// The importances after the step.
    pub open spec fn moved_importance(&self, anchor: &AnchorLayer, target: Seq<i64>) -> Seq<i64> {
        Seq::new(
            self.up@.len(),
            |p: int| refreshed_importance(anchor.importance@[p] as int, target[p] as int) as i64,
        )
    }

    /// Whether the step takes one of the first `n` up-weights out of the
    /// range of the weights.
    pub open spec fn diverges(&self, anchor: &AnchorLayer, target: Seq<i64>, rate: int, lambda: int, n: nat) -> bool {
        exists|p: int|
            0 <= p < n && !within(
                self.up@[p] + #[trigger] self.step_at(anchor, target, rate, lambda, p),
                WEIGHT_LIMIT as int,
            )
    }

    /// The largest magnitude of a step among the first `n` up-weights.
    pub open spec fn magnitude(&self, anchor: &AnchorLayer, target: Seq<i64>, rate: int, lambda: int, n: nat) -> int
        decreases n,
    {
        if n == 0 {
            0
        } else {
            max(
                self.magnitude(anchor, target, rate, lambda, (n - 1) as nat),
                abs(self.step_at(anchor, target, rate, lambda, n - 1)) as int,
            )
        }
    }
}

/// What a step makes of one layer.
pub struct LayerStep {
    pub up: Vec<i64>,
    pub importance: Vec<i64>,
    pub diverged: bool,
    pub magnitude: i64,
}

/// The step of one layer toward `target`, which holds one target for each
/// up-weight.
pub fn step_layer(pair: &LowRankPair, anchor: &AnchorLayer, target: &Vec<i64>, rate: i64, lambda: i64) -> (out: LayerStep)
    requires
        pair.wf(),
        anchor.fits(pair),
        target@.len() == pair.up@.len(),
        all_within(target@, VALUE_LIMIT as int),
        0 <= rate <= RATE_LIMIT,
        0 <= lambda <= RATE_LIMIT,
    ensures
        out.up@ == pair.moved_up(anchor, target@, rate as int, lambda as int),
        out.importance@ == pair.moved_importance(anchor, target@),
        out.diverged == pair.diverges(anchor, target@, rate as int, lambda as int, pair.up@.len()),
        out.magnitude == pair.magnitude(anchor, target@, rate as int, lambda as int, pair.up@.len()),
        0 <= out.magnitude <= STEP_LIMIT,
        !out.diverged ==> all_within(out.up@, WEIGHT_LIMIT as int),
        forall|p: int| 0 <= p < out.importance@.len() ==> is_score(#[trigger] out.importance@[p] as int),
{
    let mut up: Vec<i64> = Vec::new();
    let mut importance: Vec<i64> = Vec::new();
    let mut diverged: bool = false;
    let mut magnitude: i64 = 0;
    let mut p: usize = 0;
    while p < pair.up.len()
        invariant
            pair.wf(),
            anchor.fits(pair),
            target@.len() == pair.up@.len(),
            all_within(target@, VALUE_LIMIT as int),
            0 <= rate <= RATE_LIMIT,
            0 <= lambda <= RATE_LIMIT,
            p <= pair.up@.len(),
            up@.len() == p,
            importance@.len() == p,
            forall|q: int|
                0 <= q < p ==> #[trigger] up@[q] == pair.moved_up(
                    anchor,
                    target@,
                    rate as int,
                    lambda as int,
                )[q],
            forall|q: int|
                0 <= q < p ==> #[trigger] importance@[q] == pair.moved_importance(anchor, target@)[q],
            forall|q: int| 0 <= q < p ==> is_score(#[trigger] importance@[q] as int),
            diverged == pair.diverges(anchor, target@, rate as int, lambda as int, p as nat),
            magnitude == pair.magnitude(anchor, target@, rate as int, lambda as int, p as nat),
            0 <= magnitude <= STEP_LIMIT,
            !diverged ==> all_within(up@, WEIGHT_LIMIT as int),
        decreases pair.up@.len() - p,
    {
        let step: i64 = ewc_step_exec(
            rate,
            lambda,
            target[p],
            pair.up[p],
            anchor.weights[p],
            anchor.importance[p],
        );
        let ghost before = pair.diverges(anchor, target@, rate as int, lambda as int, p as nat);
        assert(step == pair.step_at(anchor, target@, rate as int, lambda as int, p as int));
        let moved: i64 = pair.up[p] + step;
        if moved > WEIGHT_LIMIT || moved < -WEIGHT_LIMIT {
            diverged = true;
        }
        let size: i64 = if step < 0 {
            -step
        } else {
            step
        };
        if size > magnitude {
            magnitude = size;
        }
        up.push(moved);
        importance.push(refreshed_importance_exec(anchor.importance[p], target[p]));
        proof {
            assert(diverged == pair.diverges(
                anchor,
                target@,
                rate as int,
                lambda as int,
                (p + 1) as nat,
            )) by {
                if before {
                    let q = choose|q: int|
                        0 <= q < p && !within(
                            pair.up@[q] + #[trigger] pair.step_at(
                                anchor,
                                target@,
                                rate as int,
                                lambda as int,
                                q,
                            ),
                            WEIGHT_LIMIT as int,
                        );
                    assert(0 <= q < p + 1);
                }
            }
        }
        p += 1;
    }
    proof {
        assert(up@ =~= pair.moved_up(anchor, target@, rate as int, lambda as int));
        assert(importance@ =~= pair.moved_importance(anchor, target@));
    }
    LayerStep { up, importance, diverged, magnitude }
}

/// The step of a layer depends only on what the pair and its anchor
/// layer hold.
pub proof fn lemma_same_layer_same_step(
    p1: &LowRankPair,
    l1: &AnchorLayer,
    p2: &LowRankPair,
    l2: &AnchorLayer,
    target: Seq<i64>,
    rate: int,
    lambda: int,
    n: nat,
)
    requires
        p1.same_as(p2),
        l1.weights@ == l2.weights@,
        l1.importance@ == l2.importance@,
    ensures
        p1.moved_up(l1, target, rate, lambda) == p2.moved_up(l2, target, rate, lambda),
        p1.moved_importance(l1, target) == p2.moved_importance(l2, target),
        p1.diverges(l1, target, rate, lambda, n) == p2.diverges(l2, target, rate, lambda, n),
        p1.magnitude(l1, target, rate, lambda, n) == p2.magnitude(l2, target, rate, lambda, n),
    decreases n,
{
    assert forall|p: int|
        p1.step_at(l1, target, rate, lambda, p) == p2.step_at(l2, target, rate, lambda, p) by {}
    assert(p1.moved_up(l1, target, rate, lambda) =~= p2.moved_up(l2, target, rate, lambda));
    assert(p1.moved_importance(l1, target) =~= p2.moved_importance(l2, target));
    if p1.diverges(l1, target, rate, lambda, n) {
        let p = choose|p: int|
            0 <= p < n && !within(
                p1.up@[p] + #[trigger] p1.step_at(l1, target, rate, lambda, p),
                WEIGHT_LIMIT as int,
            );
        assert(!within(p2.up@[p] + p2.step_at(l2, target, rate, lambda, p), WEIGHT_LIMIT as int));
    }
    if p2.diverges(l2, target, rate, lambda, n) {
        let p = choose|p: int|
            0 <= p < n && !within(
                p2.up@[p] + #[trigger] p2.step_at(l2, target, rate, lambda, p),
                WEIGHT_LIMIT as int,
            );
        assert(!within(p1.up@[p] + p1.step_at(l1, target, rate, lambda, p), WEIGHT_LIMIT as int));
    }
    if n > 0 {
        lemma_same_layer_same_step(p1, l1, p2, l2, target, rate, lambda, (n - 1) as nat);
    }
}

} // verus!
