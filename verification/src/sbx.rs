//! Simulated binary crossover.  The per-coordinate spread factor is handed
//! in by the caller (its derivation takes floating-point powers); whatever
//! non-negative factor arrives, the recombined children provably stay
//! inside the shared box bounds.

use vstd::prelude::*;
use crate::maths::SCALE;

verus! {

/// The magnitude cap on parent values and spread factors accepted by the
/// crossover: far beyond any normalised decision value.
pub const SBX_BOUND: i64 = 1_000_000_000_000;

/// Clamp into the box `[lo, hi]`.
pub open spec fn spec_clamp(x: int, lo: i64, hi: i64) -> i64 {
    if x < lo {
        lo
    } else if x > hi {
        hi
    } else {
        x as i64
    }
}

/// Division truncating toward zero, as the executable code computes it.
pub open spec fn div_trunc(a: int, b: int) -> int {
    if a >= 0 {
        a / b
    } else {
        0 - ((0 - a) / b)
    }
}

/// First SBX child for one coordinate, before clamping:
/// `((1 + beta_q) p1 + (1 - beta_q) p2) / 2` in fixed-point units.
pub open spec fn spec_sbx_child1(p1: i64, p2: i64, beta_q: i64) -> int {
    div_trunc((SCALE + beta_q) * p1 + (SCALE - beta_q) * p2, 2 * SCALE)
}

/// Second SBX child for one coordinate, before clamping.
pub open spec fn spec_sbx_child2(p1: i64, p2: i64, beta_q: i64) -> int {
    div_trunc((SCALE - beta_q) * p1 + (SCALE + beta_q) * p2, 2 * SCALE)
}

/// Recombines one coordinate of two parents with the given spread factor
/// and clamps both children into the box.
pub fn sbx_coordinate(p1: i64, p2: i64, beta_q: i64, lower: i64, upper: i64) -> (r: (i64, i64))
    requires
        lower <= upper,
        0 <= beta_q <= SBX_BOUND,
        -SBX_BOUND <= p1 <= SBX_BOUND,
        -SBX_BOUND <= p2 <= SBX_BOUND,
    ensures
        r.0 == spec_clamp(spec_sbx_child1(p1, p2, beta_q), lower, upper),
        r.1 == spec_clamp(spec_sbx_child2(p1, p2, beta_q), lower, upper),
        lower <= r.0 <= upper,
        lower <= r.1 <= upper,
{
    proof {
        let s = SCALE as int;
        let b = beta_q as int;
        let x1 = p1 as int;
        let x2 = p2 as int;
        assert(-2000000000000000000000000 <= (s + b) * x1 <= 2000000000000000000000000
            && -2000000000000000000000000 <= (s - b) * x1 <= 2000000000000000000000000
            && -2000000000000000000000000 <= (s + b) * x2 <= 2000000000000000000000000
            && -2000000000000000000000000 <= (s - b) * x2 <= 2000000000000000000000000)
            by (nonlinear_arith)
            requires
                0 <= b <= 1000000000000,
                -1000000000000 <= x1 <= 1000000000000,
                -1000000000000 <= x2 <= 1000000000000,
                s == 1000000,
        ;
    }
    let den: i128 = 2 * (SCALE as i128);
    let num1: i128 = ((SCALE as i128) + (beta_q as i128)) * (p1 as i128) + ((SCALE as i128) - (
    beta_q as i128)) * (p2 as i128);
    let num2: i128 = ((SCALE as i128) - (beta_q as i128)) * (p1 as i128) + ((SCALE as i128) + (
    beta_q as i128)) * (p2 as i128);
    let q1: i128 = if num1 >= 0 {
        num1 / den
    } else {
        -((-num1) / den)
    };
    let q2: i128 = if num2 >= 0 {
        num2 / den
    } else {
        -((-num2) / den)
    };
    let c1: i64 = if q1 < lower as i128 {
        lower
    } else if q1 > upper as i128 {
        upper
    } else {
        q1 as i64
    };
    let c2: i64 = if q2 < lower as i128 {
        lower
    } else if q2 > upper as i128 {
        upper
    } else {
        q2 as i64
    };
    (c1, c2)
}

/// Coordinate-wise SBX over whole parent vectors: marked coordinates are
/// recombined with their spread factor, the rest are copied unchanged from
/// the respective parent.  Both children stay inside the box everywhere.
pub fn sbx_crossover(
    p1: &Vec<i64>,
    p2: &Vec<i64>,
    beta_q: &Vec<i64>,
    cross: &Vec<bool>,
    lower: i64,
    upper: i64,
) -> (r: (Vec<i64>, Vec<i64>))
    requires
        p1@.len() == p2@.len(),
        beta_q@.len() == p1@.len(),
        cross@.len() == p1@.len(),
        -SBX_BOUND <= lower <= upper <= SBX_BOUND,
        forall|j: int| 0 <= j < p1@.len() ==> lower <= #[trigger] p1@[j] <= upper,
        forall|j: int| 0 <= j < p2@.len() ==> lower <= #[trigger] p2@[j] <= upper,
        forall|j: int| 0 <= j < beta_q@.len() ==> 0 <= #[trigger] beta_q@[j] <= SBX_BOUND,
    ensures
        r.0@.len() == p1@.len(),
        r.1@.len() == p1@.len(),
        forall|j: int|
            0 <= j < p1@.len() && cross@[j] ==> #[trigger] r.0@[j] == spec_clamp(
                spec_sbx_child1(p1@[j], p2@[j], beta_q@[j]),
                lower,
                upper,
            ),
        forall|j: int|
            0 <= j < p1@.len() && cross@[j] ==> #[trigger] r.1@[j] == spec_clamp(
                spec_sbx_child2(p1@[j], p2@[j], beta_q@[j]),
                lower,
                upper,
            ),
        forall|j: int| 0 <= j < p1@.len() && !cross@[j] ==> #[trigger] r.0@[j] == p1@[j],
        forall|j: int| 0 <= j < p1@.len() && !cross@[j] ==> #[trigger] r.1@[j] == p2@[j],
        forall|j: int| 0 <= j < p1@.len() ==> lower <= #[trigger] r.0@[j] <= upper,
        forall|j: int| 0 <= j < p1@.len() ==> lower <= #[trigger] r.1@[j] <= upper,
{
    let n: usize = p1.len();
    let mut c1: Vec<i64> = Vec::new();
    let mut c2: Vec<i64> = Vec::new();
    let mut j: usize = 0;
    while j < n
        invariant
            j <= n,
            n == p1@.len(),
            n == p2@.len(),
            n == beta_q@.len(),
            n == cross@.len(),
            c1@.len() == j,
            c2@.len() == j,
            -SBX_BOUND <= lower <= upper <= SBX_BOUND,
            forall|q: int| 0 <= q < p1@.len() ==> lower <= #[trigger] p1@[q] <= upper,
            forall|q: int| 0 <= q < p2@.len() ==> lower <= #[trigger] p2@[q] <= upper,
            forall|q: int| 0 <= q < beta_q@.len() ==> 0 <= #[trigger] beta_q@[q] <= SBX_BOUND,
            forall|q: int|
                0 <= q < j && cross@[q] ==> #[trigger] c1@[q] == spec_clamp(
                    spec_sbx_child1(p1@[q], p2@[q], beta_q@[q]),
                    lower,
                    upper,
                ),
            forall|q: int|
                0 <= q < j && cross@[q] ==> #[trigger] c2@[q] == spec_clamp(
                    spec_sbx_child2(p1@[q], p2@[q], beta_q@[q]),
                    lower,
                    upper,
                ),
            forall|q: int| 0 <= q < j && !cross@[q] ==> #[trigger] c1@[q] == p1@[q],
            forall|q: int| 0 <= q < j && !cross@[q] ==> #[trigger] c2@[q] == p2@[q],
            forall|q: int| 0 <= q < j ==> lower <= #[trigger] c1@[q] <= upper,
            forall|q: int| 0 <= q < j ==> lower <= #[trigger] c2@[q] <= upper,
        decreases n - j,
    {
        if cross[j] {
            let (a, b): (i64, i64) = sbx_coordinate(p1[j], p2[j], beta_q[j], lower, upper);
            c1.push(a);
            c2.push(b);
        } else {
            c1.push(p1[j]);
            c2.push(p2[j]);
        }
        j += 1;
    }
    (c1, c2)
}

/// Two distinct parent indices drawn from a population of `n`.
pub fn pick_pair(n: usize, rng: &mut rand::rngs::StdRng) -> (r: (usize, usize))
    requires
        2 <= n,
        n <= u64::MAX,
    ensures
        r.0 < n,
        r.1 < n,
        r.0 != r.1,
{
    let i: usize = crate::rng::rand_below(rng, n as u64) as usize;
    let j0: usize = crate::rng::rand_below(rng, (n - 1) as u64) as usize;
    let j: usize = if j0 >= i {
        j0 + 1
    } else {
        j0
    };
    (i, j)
}

/// A per-coordinate crossover decision mask: each coordinate is marked with
/// probability `prob` (fixed point).  Nothing more is promised of a random
/// mask than its length.
pub fn crossover_mask(len: usize, prob: i64, rng: &mut rand::rngs::StdRng) -> (r: Vec<bool>)
    requires
        0 <= prob <= SCALE,
    ensures
        r@.len() == len,
{
    let mut r: Vec<bool> = Vec::new();
    let mut j: usize = 0;
    while j < len
        invariant
            j <= len,
            r@.len() == j,
        decreases len - j,
    {
        let draw: u64 = crate::rng::rand_below(rng, SCALE as u64);
        r.push((draw as i64) < prob);
        j += 1;
    }
    r
}

} // verus!
