//! Low-rank adapters: a pair of factors whose product is added to the
//! input on every forward pass.

use vstd::prelude::*;
use vstd::arithmetic::div_mod::lemma_fundamental_div_mod_converse;
use crate::fixed::{
    all_within, clamp, clamp_exec, copy_vector, div_trunc, div_trunc_exec, dot, fmul, fmul_exec,
    is_vector, lemma_div_trunc_shrinks, lemma_div_trunc_within, lemma_dot_within,
    lemma_dot_zero, lemma_fmul_unit, lemma_fmul_within, row_dot, within, HIDDEN_LIMIT, MAX_DIM,
    MAX_RANK, SCALE, VALUE_LIMIT, WEIGHT_LIMIT,
};

verus! {

/// Largest magnitude of the step of a row (10000000.0).
pub const STEP_BOUND: i64 = 10_000_000_000_000;

/// Index arithmetic of a row-major matrix.
pub proof fn lemma_row_bounds(i: int, rows: int, cols: int)
    by (nonlinear_arith)
    requires
        0 <= i < rows <= MAX_DIM,
        0 <= cols <= MAX_DIM,
    ensures
        0 <= i * cols,
        i * cols + cols <= rows * cols,
        rows * cols <= MAX_DIM * MAX_DIM,
{
}

/// Entry `k` of the banded down-projection with `rank` rows of `dim`
/// entries: input coordinate `c` feeds hidden unit `(c + shift) % rank`
/// with weight one.
pub open spec fn banded_entry(dim: int, rank: int, shift: int, k: int) -> i64 {
    if ((k % dim) + shift) % rank == k / dim {
        SCALE
    } else {
        0
    }
}

/// A pair of low-rank factors.  `down` maps a vector of `dim` components
/// to `rank` hidden components; `up` maps those back.  Both are stored
/// row by row.
#[derive(Clone, Debug, PartialEq, Eq)]
pub struct LowRankPair {
    pub dim: usize,
    pub rank: usize,
    /// Factor applied to the product of the two projections.
    pub scale: i64,
    /// `rank` rows of `dim` weights.
    pub down: Vec<i64>,
    /// `dim` rows of `rank` weights.
    pub up: Vec<i64>,
}

impl LowRankPair {
    /// Dimensions within the limits, both factors of the right size, every
    /// weight within `WEIGHT_LIMIT`.
    pub open spec fn wf(&self) -> bool {
        &&& 0 < self.dim <= MAX_DIM
        &&& 0 < self.rank <= MAX_RANK
        &&& 0 <= self.scale <= SCALE
        &&& self.down@.len() == self.rank * self.dim
        &&& self.up@.len() == self.dim * self.rank
        &&& all_within(self.down@, WEIGHT_LIMIT as int)
        &&& all_within(self.up@, WEIGHT_LIMIT as int)
    }

    /// Row `j` of the down-projection.
    pub open spec fn down_row(&self, j: int) -> Seq<i64> {
        self.down@.subrange(j * self.dim, j * self.dim + self.dim)
    }

    /// Row `i` of the up-projection.
    pub open spec fn up_row(&self, i: int) -> Seq<i64> {
        self.up@.subrange(i * self.rank, i * self.rank + self.rank)
    }

    /// Hidden component `j` for input `x`.
    pub open spec fn hidden_at(&self, x: Seq<i64>, j: int) -> int {
        div_trunc(dot(self.down_row(j), x, self.dim as nat), SCALE as int)
    }

    /// The down-projected input.
    pub open spec fn hidden(&self, x: Seq<i64>) -> Seq<i64> {
        Seq::new(self.rank as nat, |j: int| self.hidden_at(x, j) as i64)
    }

    /// Component `i` of the delta that the pair adds to `x`.
    pub open spec fn delta_at(&self, x: Seq<i64>, i: int) -> int {
        fmul(
            self.scale as int,
            div_trunc(dot(self.up_row(i), self.hidden(x), self.rank as nat), SCALE as int),
        )
    }

    /// The forward pass: the input plus the scaled low-rank delta, each
    /// component saturated at `VALUE_LIMIT`.
    pub open spec fn forward(&self, x: Seq<i64>) -> Seq<i64> {
        Seq::new(
            self.dim as nat,
            |i: int| clamp(x[i] + self.delta_at(x, i), VALUE_LIMIT as int) as i64,
        )
    }

    /// The move of the up-weight `p` when output `i` is to grow by
    /// `step[i]` for an input whose hidden components are `h`: the step of
    /// its row times the hidden component of its column.
    pub open spec fn move_at(&self, step: Seq<i64>, h: Seq<i64>, p: int) -> int {
        fmul(step[p / (self.rank as int)] as int, h[p % (self.rank as int)] as int)
    }

    /// The up-projection after every weight has made its move, saturated
    /// at `WEIGHT_LIMIT`.
    pub open spec fn reinforced(&self, step: Seq<i64>, h: Seq<i64>) -> Seq<i64> {
        Seq::new(
            self.up@.len(),
            |p: int| clamp(self.up@[p] + self.move_at(step, h, p), WEIGHT_LIMIT as int) as i64,
        )
    }

    /// The up-projection with every weight halved toward zero.
    pub open spec fn dampened(&self) -> Seq<i64> {
        Seq::new(self.up@.len(), |p: int| div_trunc(self.up@[p] as int, 2) as i64)
    }

    /// Whether the moves change a weight: some weight that is not at the
    /// limit has a move that is not zero.
    pub open spec fn moves(&self, step: Seq<i64>, h: Seq<i64>) -> bool {
        exists|p: int|
            0 <= p < self.up@.len() && -WEIGHT_LIMIT < #[trigger] self.up@[p] < WEIGHT_LIMIT
                && self.move_at(step, h, p) != 0
    }

    /// Moves that change a weight leave another up-projection.
    pub proof fn lemma_reinforce_moves(&self, step: Seq<i64>, h: Seq<i64>)
        requires
            self.moves(step, h),
        ensures
            self.reinforced(step, h) != self.up@,
    {
        let p = choose|p: int|
            0 <= p < self.up@.len() && -WEIGHT_LIMIT < #[trigger] self.up@[p] < WEIGHT_LIMIT
                && self.move_at(step, h, p) != 0;
        assert(self.reinforced(step, h)[p] != self.up@[p]);
    }

    /// A hidden component of a vector is within `HIDDEN_LIMIT`.
    pub proof fn lemma_hidden_within(&self, x: Seq<i64>, j: int)
        requires
            self.wf(),
            is_vector(x, self.dim as int),
            0 <= j < self.rank,
        ensures
            within(self.hidden_at(x, j), HIDDEN_LIMIT as int),
            self.hidden(x)[j] == self.hidden_at(x, j),
    {
        let row = self.down_row(j);
        lemma_row_bounds(j, self.rank as int, self.dim as int);
        assert forall|k: int| 0 <= k < self.dim implies within(
            #[trigger] row[k] as int,
            WEIGHT_LIMIT as int,
        ) by {
            assert(row[k] == self.down@[j * self.dim + k]);
        }
        lemma_dot_within(row, x, self.dim as nat, WEIGHT_LIMIT as int, VALUE_LIMIT as int);
        assert(self.dim * (WEIGHT_LIMIT * VALUE_LIMIT) <= HIDDEN_LIMIT * SCALE) by (nonlinear_arith)
            requires
                0 < self.dim <= MAX_DIM,
        ;
        lemma_div_trunc_within(
            dot(row, x, self.dim as nat),
            SCALE as int,
            HIDDEN_LIMIT as int,
        );
    }

    /// A pair whose up-projection is zero adds nothing.
    pub proof fn lemma_zero_up_is_identity(&self, x: Seq<i64>)
        requires
            self.wf(),
            is_vector(x, self.dim as int),
            forall|p: int| 0 <= p < self.up@.len() ==> self.up@[p] == 0,
        ensures
            self.forward(x) == x,
    {
        assert forall|i: int| 0 <= i < self.dim implies self.forward(x)[i] == x[i] by {
            lemma_row_bounds(i, self.dim as int, self.rank as int);
            let row = self.up_row(i);
            assert forall|k: int| 0 <= k < self.rank implies #[trigger] row[k] == 0 by {
                assert(row[k] == self.up@[i * self.rank + k]);
            }
            lemma_dot_zero(row, self.hidden(x), self.rank as nat);
            assert(self.delta_at(x, i) == 0) by {
                assert(self.scale * 0 == 0);
            }
        }
        assert(self.forward(x) =~= x);
    }

    /// Whether this is the pair that `new` makes: the scale is one over the
    /// rank, the down-projection is banded with the given shift, and the
    /// up-projection is zero.
    pub open spec fn is_initial(&self, shift: int) -> bool {
        &&& self.scale == SCALE / (self.rank as i64)
        &&& self.down@.len() == self.rank * self.dim
        &&& self.up@.len() == self.dim * self.rank
        &&& forall|k: int|
            0 <= k < self.down@.len() ==> #[trigger] self.down@[k] == banded_entry(
                self.dim as int,
                self.rank as int,
                shift,
                k,
            )
        &&& forall|p: int| 0 <= p < self.up@.len() ==> self.up@[p] == 0
    }

    /// A pair with the banded down-projection shifted by `shift` and a zero
    /// up-projection, so that it starts as the identity.
    pub fn new(dim: usize, rank: usize, shift: usize) -> (pair: LowRankPair)
        requires
            0 < dim <= MAX_DIM,
            0 < rank <= MAX_RANK,
            shift < rank,
        ensures
            pair.wf(),
            pair.dim == dim,
            pair.rank == rank,
            pair.is_initial(shift as int),
    {
        let mut down: Vec<i64> = Vec::new();
        let mut j: usize = 0;
        while j < rank
            invariant
                0 < dim <= MAX_DIM,
                0 < rank <= MAX_RANK,
                shift < rank,
                j <= rank,
                down@.len() == j * dim,
                forall|k: int|
                    0 <= k < j * dim ==> #[trigger] down@[k] == banded_entry(
                        dim as int,
                        rank as int,
                        shift as int,
                        k,
                    ),
            decreases rank - j,
        {
            let mut c: usize = 0;
            while c < dim
                invariant
                    0 < dim <= MAX_DIM,
                    0 < rank <= MAX_RANK,
                    shift < rank,
                    j < rank,
                    c <= dim,
                    down@.len() == j * dim + c,
                    forall|k: int|
                        0 <= k < j * dim + c ==> #[trigger] down@[k] == banded_entry(
                            dim as int,
                            rank as int,
                            shift as int,
                            k,
                        ),
                decreases dim - c,
            {
                let w: i64 = if (c + shift) % rank == j {
                    SCALE
                } else {
                    0
                };
                proof {
                    lemma_fundamental_div_mod_converse(j * dim + c, dim as int, j as int, c as int);
                }
                down.push(w);
                c += 1;
            }
            proof {
                assert((j + 1) * dim == j * dim + dim) by (nonlinear_arith);
            }
            j += 1;
        }
        let mut up: Vec<i64> = Vec::new();
        let mut p: usize = 0;
        proof {
            lemma_row_bounds(0, dim as int, rank as int);
            assert(dim * rank <= MAX_DIM * MAX_RANK) by (nonlinear_arith)
                requires
                    0 < dim <= MAX_DIM,
                    0 < rank <= MAX_RANK,
            ;
        }
        let total: usize = dim * rank;
        while p < total
            invariant
                p <= total,
                up@.len() == p,
                forall|q: int| 0 <= q < p ==> up@[q] == 0,
            decreases total - p,
        {
            up.push(0);
            p += 1;
        }
        LowRankPair { dim, rank, scale: SCALE / (rank as i64), down, up }
    }

    /// Same dimensions, same scale, same weights.
    pub open spec fn same_as(&self, other: &LowRankPair) -> bool {
        &&& self.dim == other.dim
        &&& self.rank == other.rank
        &&& self.scale == other.scale
        &&& self.down@ == other.down@
        &&& self.up@ == other.up@
    }

    /// A copy of this pair.
    pub fn duplicate(&self) -> (pair: LowRankPair)
        ensures
            pair.same_as(self),
    {
        LowRankPair {
            dim: self.dim,
            rank: self.rank,
            scale: self.scale,
            down: copy_vector(&self.down),
            up: copy_vector(&self.up),
        }
    }

    /// The down-projection of `x`.
    pub fn project(&self, x: &Vec<i64>) -> (h: Vec<i64>)
        requires
            self.wf(),
            is_vector(x@, self.dim as int),
        ensures
            h@ == self.hidden(x@),
            all_within(h@, HIDDEN_LIMIT as int),
    {
        let mut h: Vec<i64> = Vec::new();
        let mut j: usize = 0;
        while j < self.rank
            invariant
                self.wf(),
                is_vector(x@, self.dim as int),
                j <= self.rank,
                h@.len() == j,
                forall|t: int| 0 <= t < j ==> #[trigger] h@[t] == self.hidden_at(x@, t),
                forall|t: int| 0 <= t < j ==> within(#[trigger] h@[t] as int, HIDDEN_LIMIT as int),
            decreases self.rank - j,
        {
            proof {
                lemma_row_bounds(j as int, self.rank as int, self.dim as int);
                self.lemma_hidden_within(x@, j as int);
            }
            let acc: i128 = row_dot(
                &self.down,
                j * self.dim,
                x,
                Ghost(WEIGHT_LIMIT as int),
                Ghost(VALUE_LIMIT as int),
            );
            let q: i128 = div_trunc_exec(acc, SCALE as i128);
            h.push(q as i64);
            j += 1;
        }
        proof {
            assert(h@ =~= self.hidden(x@)) by {
                assert forall|t: int| 0 <= t < self.rank implies h@[t] == self.hidden(x@)[t] by {
                    self.lemma_hidden_within(x@, t);
                }
            }
        }
        h
    }

    /// The forward pass on `x`.
    pub fn apply(&self, x: &Vec<i64>) -> (out: Vec<i64>)
        requires
            self.wf(),
            is_vector(x@, self.dim as int),
        ensures
            out@ == self.forward(x@),
            is_vector(out@, self.dim as int),
    {
        let h: Vec<i64> = self.project(x);
        let mut out: Vec<i64> = Vec::new();
        let mut i: usize = 0;
        while i < self.dim
            invariant
                self.wf(),
                is_vector(x@, self.dim as int),
                h@ == self.hidden(x@),
                all_within(h@, HIDDEN_LIMIT as int),
                i <= self.dim,
                out@.len() == i,
                forall|t: int| 0 <= t < i ==> #[trigger] out@[t] == self.forward(x@)[t],
                forall|t: int| 0 <= t < i ==> within(#[trigger] out@[t] as int, VALUE_LIMIT as int),
            decreases self.dim - i,
        {
            proof {
                lemma_row_bounds(i as int, self.dim as int, self.rank as int);
                assert(self.rank * (WEIGHT_LIMIT * HIDDEN_LIMIT) <= 2_621_440_000_000_000_000
                    * SCALE) by (nonlinear_arith)
                    requires
                        0 < self.rank <= MAX_RANK,
                ;
            }
            let acc: i128 = row_dot(
                &self.up,
                i * self.rank,
                &h,
                Ghost(WEIGHT_LIMIT as int),
                Ghost(HIDDEN_LIMIT as int),
            );
            proof {
                lemma_div_trunc_within(acc as int, SCALE as int, 2_621_440_000_000_000_000);
            }
            let q: i128 = div_trunc_exec(acc, SCALE as i128);
            let d: i128 = fmul_exec(self.scale, q as i64);
            proof {
                lemma_fmul_unit(self.scale as int, q as int, 2_621_440_000_000_000_000);
            }
            let v: i64 = clamp_exec(x[i] as i128 + d, VALUE_LIMIT);
            out.push(v);
            i += 1;
        }
        proof {
            assert(out@ =~= self.forward(x@));
        }
        out
    }

    /// Moves every up-weight by the step of its row times the hidden
    /// component of its column.
    pub fn reinforce(&mut self, step: &Vec<i64>, h: &Vec<i64>)
        requires
            old(self).wf(),
            step@.len() == old(self).dim,
            h@.len() == old(self).rank,
            all_within(step@, STEP_BOUND as int),
            all_within(h@, HIDDEN_LIMIT as int),
        ensures
            final(self).wf(),
            final(self).dim == old(self).dim,
            final(self).rank == old(self).rank,
            final(self).scale == old(self).scale,
            final(self).down == old(self).down,
            final(self).up@ == old(self).reinforced(step@, h@),
    {
        let ghost before = *self;
        let mut i: usize = 0;
        while i < self.dim
            invariant
                before.wf(),
                self.wf(),
                self.dim == before.dim,
                self.rank == before.rank,
                self.scale == before.scale,
                self.down == before.down,
                step@.len() == before.dim,
                h@.len() == before.rank,
                all_within(step@, STEP_BOUND as int),
                all_within(h@, HIDDEN_LIMIT as int),
                i <= self.dim,
                forall|p: int|
                    0 <= p < i * self.rank ==> #[trigger] self.up@[p] == before.reinforced(
                        step@,
                        h@,
                    )[p],
                forall|p: int|
                    i * self.rank <= p < self.up@.len() ==> #[trigger] self.up@[p] == before.up@[p],
            decreases self.dim - i,
        {
            let mut j: usize = 0;
            proof {
                lemma_row_bounds(i as int, self.dim as int, self.rank as int);
            }
            while j < self.rank
                invariant
                    before.wf(),
                    self.wf(),
                    self.dim == before.dim,
                    self.rank == before.rank,
                    self.scale == before.scale,
                    self.down == before.down,
                    step@.len() == before.dim,
                    h@.len() == before.rank,
                    all_within(step@, STEP_BOUND as int),
                    all_within(h@, HIDDEN_LIMIT as int),
                    i < self.dim,
                    j <= self.rank,
                    0 <= i * self.rank,
                    i * self.rank + self.rank <= self.dim * self.rank,
                    self.dim * self.rank <= MAX_DIM * MAX_DIM,
                    forall|p: int|
                        0 <= p < i * self.rank + j ==> #[trigger] self.up@[p] == before.reinforced(
                            step@,
                            h@,
                        )[p],
                    forall|p: int|
                        i * self.rank + j <= p < self.up@.len() ==> #[trigger] self.up@[p]
                            == before.up@[p],
                decreases self.rank - j,
            {
                let p: usize = i * self.rank + j;
                proof {
                    lemma_fundamental_div_mod_converse(
                        p as int,
                        self.rank as int,
                        i as int,
                        j as int,
                    );
                }
                proof {
                    lemma_fmul_within(
                        step@[i as int] as int,
                        h@[j as int] as int,
                        STEP_BOUND as int,
                        HIDDEN_LIMIT as int,
                        4_096_000_000_000_000_000_000,
                    );
                }
                let m: i128 = fmul_exec(step[i], h[j]);
                let v: i64 = clamp_exec(self.up[p] as i128 + m, WEIGHT_LIMIT);
                self.up[p] = v;
                j += 1;
            }
            proof {
                assert((i + 1) * self.rank == i * self.rank + self.rank) by (nonlinear_arith);
            }
            i += 1;
        }
        proof {
            assert(self.up@ =~= before.reinforced(step@, h@));
        }
    }

    /// Halves every weight of the up-projection toward zero.
    pub fn dampen(&mut self)
        requires
            old(self).wf(),
        ensures
            final(self).wf(),
            final(self).dim == old(self).dim,
            final(self).rank == old(self).rank,
            final(self).scale == old(self).scale,
            final(self).down == old(self).down,
            final(self).up@ == old(self).dampened(),
    {
        let ghost before = *self;
        let mut p: usize = 0;
        while p < self.up.len()
            invariant
                before.wf(),
                self.wf(),
                self.dim == before.dim,
                self.rank == before.rank,
                self.scale == before.scale,
                self.down == before.down,
                self.up@.len() == before.up@.len(),
                p <= self.up@.len(),
                forall|q: int| 0 <= q < p ==> #[trigger] self.up@[q] == before.dampened()[q],
                forall|q: int| p <= q < self.up@.len() ==> #[trigger] self.up@[q] == before.up@[q],
            decreases self.up@.len() - p,
        {
            proof {
                lemma_div_trunc_shrinks(self.up@[p as int] as int, 2);
            }
            let v: i128 = div_trunc_exec(self.up[p] as i128, 2);
            self.up[p] = v as i64;
            p += 1;
        }
        proof {
            assert(self.up@ =~= before.dampened());
        }
    }
}

} // verus!
