//! Fixed-point numbers: every real quantity of the engine is an integer
//! count of millionths, and every product is rescaled by truncation
//! toward zero.  Intermediate sums are held in `i128`; the bounds below
//! are chosen so that none of them can overflow.

use vstd::prelude::*;

verus! {

/// One unit (1.0) in raw fixed-point representation.
pub const SCALE: i64 = 1_000_000;

/// Largest magnitude of a vector component (1000.0).
pub const VALUE_LIMIT: i64 = 1_000_000_000;

/// Largest magnitude of an adapter weight (100.0).
pub const WEIGHT_LIMIT: i64 = 100_000_000;

/// Largest learning rate or regularisation strength (10000.0).
pub const RATE_LIMIT: i64 = 10_000_000_000;

/// Largest vector dimension.
pub const MAX_DIM: usize = 4096;

/// Largest adapter rank.
pub const MAX_RANK: usize = 64;

/// Largest magnitude of a down-projected component:
/// `MAX_DIM * WEIGHT_LIMIT * VALUE_LIMIT / SCALE`.
pub const HIDDEN_LIMIT: i64 = 409_600_000_000_000;

/// Quotient of `a` by `d` rounded toward zero.
pub open spec fn div_trunc(a: int, d: int) -> int
    recommends
        d > 0,
{
    if a >= 0 {
        a / d
    } else {
        -((-a) / d)
    }
}

/// Product of two fixed-point numbers, rescaled.
pub open spec fn fmul(a: int, b: int) -> int {
    div_trunc(a * b, SCALE as int)
}

/// `v` forced into `[-limit, limit]`.
pub open spec fn clamp(v: int, limit: int) -> int
    recommends
        limit >= 0,
{
    if v > limit {
        limit
    } else if v < -limit {
        -limit
    } else {
        v
    }
}

/// `|v| <= limit`.
pub open spec fn within(v: int, limit: int) -> bool {
    -limit <= v <= limit
}

/// Every component of `s` has magnitude at most `limit`.
pub open spec fn all_within(s: Seq<i64>, limit: int) -> bool {
    forall|i: int| 0 <= i < s.len() ==> within(#[trigger] s[i] as int, limit)
}

/// A score: a fixed-point number in `[0, 1]`.
pub open spec fn is_score(v: int) -> bool {
    0 <= v <= SCALE
}

/// A well-formed vector of the engine: `dim` components, each within
/// `VALUE_LIMIT`.
pub open spec fn is_vector(s: Seq<i64>, dim: int) -> bool {
    s.len() == dim && all_within(s, VALUE_LIMIT as int)
}

/// The vector `x` cut or filled with zeros to `dim` components.
pub open spec fn fitted(x: Seq<i64>, dim: nat) -> Seq<i64> {
    Seq::new(
        dim,
        |i: int|
            if i < x.len() {
                x[i]
            } else {
                0
            },
    )
}

/// A running mean `mean` of `count` values after `value` came in.
pub open spec fn running_mean(mean: int, value: int, count: nat) -> int {
    mean + div_trunc(value - mean, (count + 1) as int)
}

/// Sum of the products of the first `n` components of `a` and `b`.
pub open spec fn dot(a: Seq<i64>, b: Seq<i64>, n: nat) -> int
    decreases n,
{
    if n == 0 {
        0
    } else {
        dot(a, b, (n - 1) as nat) + a[n - 1] * b[n - 1]
    }
}

/// Sum of the squared differences of the first `n` components.
pub open spec fn dist_sq(a: Seq<i64>, b: Seq<i64>, n: nat) -> int
    decreases n,
{
    if n == 0 {
        0
    } else {
        dist_sq(a, b, (n - 1) as nat) + (a[n - 1] - b[n - 1]) * (a[n - 1] - b[n - 1])
    }
}

/// The magnitude of a product is at most the product of the bounds.
pub proof fn lemma_mul_within(a: int, b: int, m: int, n: int)
    by (nonlinear_arith)
    requires
        within(a, m),
        within(b, n),
    ensures
        within(a * b, m * n),
{
}

/// A quotient of a dividend within `m * d` is within `m`.
pub proof fn lemma_div_trunc_within(a: int, d: int, m: int)
    by (nonlinear_arith)
    requires
        d > 0,
        m >= 0,
        within(a, m * d),
    ensures
        within(div_trunc(a, d), m),
{
}

/// Truncation never grows a magnitude and never flips a sign.
pub proof fn lemma_div_trunc_shrinks(a: int, d: int)
    by (nonlinear_arith)
    requires
        d > 0,
    ensures
        a >= 0 ==> 0 <= div_trunc(a, d) <= a,
        a <= 0 ==> a <= div_trunc(a, d) <= 0,
{
}

/// A running mean lies between the old mean and the new value.
pub proof fn lemma_running_mean_between(mean: int, value: int, count: nat)
    ensures
        mean <= value ==> mean <= running_mean(mean, value, count) <= value,
        value <= mean ==> value <= running_mean(mean, value, count) <= mean,
{
    lemma_div_trunc_shrinks(value - mean, (count + 1) as int);
}

/// Multiplying by a factor of magnitude at most one does not grow a
/// magnitude.
pub proof fn lemma_fmul_unit(a: int, b: int, m: int)
    requires
        within(a, SCALE as int),
        within(b, m),
        m >= 0,
    ensures
        within(fmul(a, b), m),
{
    lemma_mul_within(b, a, m, SCALE as int);
    lemma_div_trunc_within(b * a, SCALE as int, m);
    assert(a * b == b * a) by (nonlinear_arith);
}

/// A product of non-negative factors is non-negative.
pub proof fn lemma_fmul_nonnegative(a: int, b: int)
    requires
        a >= 0,
        b >= 0,
    ensures
        fmul(a, b) >= 0,
{
    assert(a * b >= 0) by (nonlinear_arith)
        requires
            a >= 0,
            b >= 0,
    ;
    lemma_div_trunc_shrinks(a * b, SCALE as int);
}

/// A product of factors within `m` and `n` is within `q` if `m * n` is
/// within `q` units.
pub proof fn lemma_fmul_within(a: int, b: int, m: int, n: int, q: int)
    requires
        within(a, m),
        within(b, n),
        q >= 0,
        m * n <= q * SCALE,
    ensures
        within(fmul(a, b), q),
{
    lemma_mul_within(a, b, m, n);
    lemma_div_trunc_within(a * b, SCALE as int, q);
}

/// A dot product of `n` terms is within `n` times the product of the
/// bounds of its factors.
pub proof fn lemma_dot_within(a: Seq<i64>, b: Seq<i64>, n: nat, m: int, k: int)
    requires
        n <= a.len(),
        n <= b.len(),
        m >= 0,
        k >= 0,
        forall|i: int| 0 <= i < n ==> within(#[trigger] a[i] as int, m),
        forall|i: int| 0 <= i < n ==> within(#[trigger] b[i] as int, k),
    ensures
        within(dot(a, b, n), n * (m * k)),
    decreases n,
{
    if n > 0 {
        lemma_dot_within(a, b, (n - 1) as nat, m, k);
        lemma_mul_within(a[n - 1] as int, b[n - 1] as int, m, k);
        assert(n * (m * k) == (n - 1) * (m * k) + m * k) by (nonlinear_arith);
    } else {
        assert(0 * (m * k) == 0);
    }
}

/// A dot product with a zero vector is zero.
pub proof fn lemma_dot_zero(a: Seq<i64>, b: Seq<i64>, n: nat)
    requires
        forall|i: int| 0 <= i < n ==> #[trigger] a[i] == 0,
    ensures
        dot(a, b, n) == 0,
    decreases n,
{
    if n > 0 {
        lemma_dot_zero(a, b, (n - 1) as nat);
        assert(a[n - 1] == 0);
        assert(a[n - 1] * b[n - 1] == 0) by (nonlinear_arith)
            requires
                a[n - 1] == 0,
        ;
    }
}

/// A squared distance is not negative, and at most `n` times the square of
/// the largest difference.
pub proof fn lemma_dist_sq_within(a: Seq<i64>, b: Seq<i64>, n: nat, m: int)
    requires
        n <= a.len(),
        n <= b.len(),
        m >= 0,
        forall|i: int| 0 <= i < n ==> within(#[trigger] a[i] as int, m),
        forall|i: int| 0 <= i < n ==> within(#[trigger] b[i] as int, m),
    ensures
        0 <= dist_sq(a, b, n) <= n * (4 * (m * m)),
    decreases n,
{
    if n > 0 {
        lemma_dist_sq_within(a, b, (n - 1) as nat, m);
        let d = a[n - 1] - b[n - 1];
        assert(0 <= d * d <= 4 * (m * m)) by (nonlinear_arith)
            requires
                -2 * m <= d <= 2 * m,
        ;
        assert(n * (4 * (m * m)) == (n - 1) * (4 * (m * m)) + 4 * (m * m)) by (nonlinear_arith);
    } else {
        assert(0 * (4 * (m * m)) == 0);
    }
}

/// A vector is at distance zero from itself.
pub proof fn lemma_dist_sq_self(a: Seq<i64>, n: nat)
    ensures
        dist_sq(a, a, n) == 0,
    decreases n,
{
    if n > 0 {
        lemma_dist_sq_self(a, (n - 1) as nat);
    }
}

/// Exact product of two machine integers.
pub fn mul_wide(a: i64, b: i64) -> (p: i128)
    ensures
        p == a * b,
        -0x4000_0000_0000_0000_0000_0000_0000_0000 <= p <= 0x4000_0000_0000_0000_0000_0000_0000_0000,
{
    assert(-0x4000_0000_0000_0000_0000_0000_0000_0000 <= a * b
        <= 0x4000_0000_0000_0000_0000_0000_0000_0000) by (nonlinear_arith)
        requires
            -0x8000_0000_0000_0000 <= a <= 0x8000_0000_0000_0000,
            -0x8000_0000_0000_0000 <= b <= 0x8000_0000_0000_0000,
    ;
    (a as i128) * (b as i128)
}

/// Division rounded toward zero.
pub fn div_trunc_exec(a: i128, d: i128) -> (q: i128)
    requires
        d > 0,
        a > i128::MIN,
    ensures
        q == div_trunc(a as int, d as int),
{
    if a >= 0 {
        a / d
    } else {
        -((-a) / d)
    }
}

/// Fixed-point product.
pub fn fmul_exec(a: i64, b: i64) -> (r: i128)
    ensures
        r == fmul(a as int, b as int),
{
    let p: i128 = mul_wide(a, b);
    div_trunc_exec(p, SCALE as i128)
}

/// Saturation into `[-limit, limit]`.
pub fn clamp_exec(v: i128, limit: i64) -> (r: i64)
    requires
        limit >= 0,
    ensures
        r == clamp(v as int, limit as int),
{
    if v > limit as i128 {
        limit
    } else if v < -(limit as i128) {
        -limit
    } else {
        v as i64
    }
}

/// Whether every component of `v` has magnitude at most `limit`.
pub fn check_within(v: &Vec<i64>, limit: i64) -> (ok: bool)
    requires
        limit >= 0,
    ensures
        ok == all_within(v@, limit as int),
{
    let mut i: usize = 0;
    while i < v.len()
        invariant
            i <= v.len(),
            limit >= 0,
            forall|k: int| 0 <= k < i ==> within(#[trigger] v@[k] as int, limit as int),
        decreases v.len() - i,
    {
        if v[i] > limit || v[i] < -limit {
            return false;
        }
        i += 1;
    }
    true
}

/// Dot product of `x` with the `x.len()` entries of `m` that start at
/// `start`.
pub(crate) fn row_dot(m: &Vec<i64>, start: usize, x: &Vec<i64>, Ghost(wb): Ghost<int>, Ghost(xb): Ghost<
    int,
>) -> (acc: i128)
    requires
        start + x.len() <= m.len(),
        x.len() <= MAX_DIM,
        0 <= wb <= VALUE_LIMIT,
        0 <= xb <= HIDDEN_LIMIT,
        forall|k: int| 0 <= k < x.len() ==> within(#[trigger] m[start + k] as int, wb),
        all_within(x@, xb),
    ensures
        acc == dot(m@.subrange(start as int, start + x.len()), x@, x.len() as nat),
        within(acc as int, x.len() * (wb * xb)),
{
    let n: usize = x.len();
    let ghost row = m@.subrange(start as int, start + n);
    let mut acc: i128 = 0;
    let mut k: usize = 0;
    proof {
        assert(0 * (wb * xb) == 0);
        assert(0 <= wb * xb <= VALUE_LIMIT * HIDDEN_LIMIT) by (nonlinear_arith)
            requires
                0 <= wb <= VALUE_LIMIT,
                0 <= xb <= HIDDEN_LIMIT,
        ;
    }
    while k < n
        invariant
            k <= n,
            n == x.len(),
            n <= MAX_DIM,
            start + n <= m.len(),
            row == m@.subrange(start as int, start + n),
            0 <= wb * xb <= VALUE_LIMIT * HIDDEN_LIMIT,
            forall|t: int| 0 <= t < n ==> within(#[trigger] m[start + t] as int, wb),
            all_within(x@, xb),
            acc == dot(row, x@, k as nat),
            within(acc as int, k * (wb * xb)),
        decreases n - k,
    {
        let p: i128 = mul_wide(m[start + k], x[k]);
        proof {
            assert(row[k as int] == m[start + k]);
            lemma_mul_within(m[start + k] as int, x[k as int] as int, wb, xb);
            assert((k + 1) * (wb * xb) == k * (wb * xb) + wb * xb) by (nonlinear_arith);
            assert((k + 1) * (wb * xb) <= MAX_DIM * (VALUE_LIMIT * HIDDEN_LIMIT))
                by (nonlinear_arith)
                requires
                    0 <= k + 1 <= MAX_DIM,
                    0 <= wb * xb <= VALUE_LIMIT * HIDDEN_LIMIT,
            ;
        }
        acc = acc + p;
        k += 1;
    }
    acc
}

/// A copy of a vector.
pub fn copy_vector(x: &Vec<i64>) -> (r: Vec<i64>)
    ensures
        r@ == x@,
{
    let mut r: Vec<i64> = Vec::new();
    let mut k: usize = 0;
    while k < x.len()
        invariant
            k <= x@.len(),
            r@.len() == k,
            forall|t: int| 0 <= t < k ==> #[trigger] r@[t] == x@[t],
        decreases x@.len() - k,
    {
        r.push(x[k]);
        k += 1;
    }
    proof {
        assert(r@ =~= x@);
    }
    r
}

/// The vector `x` cut or filled with zeros to `dim` components.
pub fn fit(x: &Vec<i64>, dim: usize) -> (r: Vec<i64>)
    requires
        all_within(x@, VALUE_LIMIT as int),
    ensures
        r@ == fitted(x@, dim as nat),
        is_vector(r@, dim as int),
{
    let mut r: Vec<i64> = Vec::new();
    let mut i: usize = 0;
    while i < dim
        invariant
            all_within(x@, VALUE_LIMIT as int),
            i <= dim,
            r@.len() == i,
            forall|t: int| 0 <= t < i ==> #[trigger] r@[t] == fitted(x@, dim as nat)[t],
            forall|t: int| 0 <= t < i ==> within(#[trigger] r@[t] as int, VALUE_LIMIT as int),
        decreases dim - i,
    {
        let v: i64 = if i < x.len() {
            x[i]
        } else {
            0
        };
        r.push(v);
        i += 1;
    }
    proof {
        assert(r@ =~= fitted(x@, dim as nat));
    }
    r
}

/// A vector of `n` zeros.
pub fn zeros(n: usize) -> (r: Vec<i64>)
    ensures
        r@.len() == n,
        forall|i: int| 0 <= i < n ==> r@[i] == 0,
{
    let mut r: Vec<i64> = Vec::new();
    let mut i: usize = 0;
    while i < n
        invariant
            i <= n,
            r@.len() == i,
            forall|t: int| 0 <= t < i ==> r@[t] == 0,
        decreases n - i,
    {
        r.push(0);
        i += 1;
    }
    r
}

} // verus!
