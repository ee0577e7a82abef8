//! Shared arithmetic: the fixed-point unit, sums over sequences, factorials
//! and binomial coefficients with the bounds the executable code needs.

use vstd::prelude::*;

verus! {

/// One whole unit in the fixed-point encoding used throughout the crate:
/// the real value `x` is represented by the integer `x * SCALE`.
pub const SCALE: i64 = 1_000_000;

/// Sum of a sequence of fixed-point values, as a mathematical integer.
pub open spec fn sum_seq(s: Seq<i64>) -> int
    decreases s.len(),
{
    if s.len() == 0 {
        0
    } else {
        sum_seq(s.drop_last()) + s.last()
    }
}

/// An element-wise copy of a fixed-point vector.
pub fn copy_vec_i64(v: &Vec<i64>) -> (r: Vec<i64>)
    ensures
        r@ == v@,
{
    let mut r: Vec<i64> = Vec::new();
    let mut i: usize = 0;
    while i < v.len()
        invariant
            i <= v@.len(),
            r@ == v@.take(i as int),
        decreases v@.len() - i,
    {
        r.push(v[i]);
        assert(v@.take(i + 1) =~= v@.take(i as int).push(v@[i as int]));
        i += 1;
    }
    assert(v@.take(v@.len() as int) =~= v@);
    r
}

pub proof fn lemma_sum_push(s: Seq<i64>, x: i64)
    ensures
        sum_seq(s.push(x)) == sum_seq(s) + x,
{
    assert(s.push(x).drop_last() =~= s);
    assert(s.push(x).last() == x);
}

pub proof fn lemma_sum_update(s: Seq<i64>, i: int, v: i64)
    requires
        0 <= i < s.len(),
    ensures
        sum_seq(s.update(i, v)) == sum_seq(s) - s[i] + v,
    decreases s.len(),
{
    if i == s.len() - 1 {
        assert(s.update(i, v).drop_last() =~= s.drop_last());
        assert(s.update(i, v).last() == v);
    } else {
        assert(s.update(i, v).drop_last() =~= s.drop_last().update(i, v));
        assert(s.update(i, v).last() == s.last());
        lemma_sum_update(s.drop_last(), i, v);
    }
}

pub proof fn lemma_sum_nonneg(s: Seq<i64>)
    requires
        forall|i: int| 0 <= i < s.len() ==> s[i] >= 0,
    ensures
        sum_seq(s) >= 0,
    decreases s.len(),
{
    if s.len() > 0 {
        lemma_sum_nonneg(s.drop_last());
    }
}

pub proof fn lemma_elem_le_sum(s: Seq<i64>, i: int)
    requires
        forall|j: int| 0 <= j < s.len() ==> s[j] >= 0,
        0 <= i < s.len(),
    ensures
        s[i] <= sum_seq(s),
    decreases s.len(),
{
    if i == s.len() - 1 {
        lemma_sum_nonneg(s.drop_last());
    } else {
        lemma_elem_le_sum(s.drop_last(), i);
    }
}

/// Scaling every entry scales the sum, as long as no product overflows.
pub proof fn lemma_sum_scale(s: Seq<i64>, c: i64)
    requires
        forall|i: int| 0 <= i < s.len() ==> i64::MIN <= #[trigger] s[i] * c <= i64::MAX,
    ensures
        sum_seq(s.map_values(|x: i64| (x * c) as i64)) == c * sum_seq(s),
    decreases s.len(),
{
    let m = s.map_values(|x: i64| (x * c) as i64);
    if s.len() == 0 {
        assert(m.len() == 0);
    } else {
        assert(forall|i: int|
            0 <= i < s.drop_last().len() ==> i64::MIN <= #[trigger] s.drop_last()[i] * c
                <= i64::MAX);
        lemma_sum_scale(s.drop_last(), c);
        assert(m.drop_last() =~= s.drop_last().map_values(|x: i64| (x * c) as i64));
        assert(i64::MIN <= s[s.len() - 1] * c <= i64::MAX);
        assert(m.last() == (s.last() * c) as i64);
        assert(c * (sum_seq(s.drop_last()) + s.last()) == c * sum_seq(s.drop_last()) + c
            * s.last()) by (nonlinear_arith);
        assert(s.last() * c == c * s.last()) by (nonlinear_arith);
    }
}

/// Mathematical factorial.
pub open spec fn spec_factorial(n: nat) -> nat
    decreases n,
{
    if n == 0 {
        1
    } else {
        n * spec_factorial((n - 1) as nat)
    }
}

/// Binomial coefficient by Pascal's rule.
pub open spec fn binom(n: nat, k: nat) -> nat
    decreases n,
{
    if k == 0 {
        1
    } else if n == 0 {
        0
    } else {
        binom((n - 1) as nat, (k - 1) as nat) + binom((n - 1) as nat, k)
    }
}

/// Powers of two, used to bound binomial coefficients.
pub open spec fn pow2(n: nat) -> nat
    decreases n,
{
    if n == 0 {
        1
    } else {
        2 * pow2((n - 1) as nat)
    }
}

pub proof fn lemma_factorial_pos(n: nat)
    ensures
        spec_factorial(n) >= 1,
    decreases n,
{
    if n > 0 {
        lemma_factorial_pos((n - 1) as nat);
        assert(n * spec_factorial((n - 1) as nat) >= 1) by (nonlinear_arith)
            requires
                n >= 1,
                spec_factorial((n - 1) as nat) >= 1,
        ;
    }
}

pub proof fn lemma_factorial_monotonic(a: nat, b: nat)
    requires
        a <= b,
    ensures
        spec_factorial(a) <= spec_factorial(b),
    decreases b,
{
    if a < b {
        lemma_factorial_monotonic(a, (b - 1) as nat);
        lemma_factorial_pos((b - 1) as nat);
        assert(spec_factorial((b - 1) as nat) <= b * spec_factorial((b - 1) as nat))
            by (nonlinear_arith)
            requires
                b >= 1,
                spec_factorial((b - 1) as nat) >= 1,
        ;
    }
}

pub proof fn lemma_pow2_pos(n: nat)
    ensures
        pow2(n) >= 1,
    decreases n,
{
    if n > 0 {
        lemma_pow2_pos((n - 1) as nat);
    }
}

pub proof fn lemma_pow2_monotonic(a: nat, b: nat)
    requires
        a <= b,
    ensures
        pow2(a) <= pow2(b),
    decreases b,
{
    if a < b {
        lemma_pow2_monotonic(a, (b - 1) as nat);
        lemma_pow2_pos(a);
    }
}

/// The largest factorial the executable counter computes fits in a `u64`.
pub proof fn lemma_factorial_20_fits()
    ensures
        spec_factorial(20) == 2432902008176640000,
{
    reveal_with_fuel(spec_factorial, 21);
}

/// The largest binomial bound the executable counter meets fits in a `u64`.
pub proof fn lemma_pow2_61_fits()
    ensures
        pow2(61) == 0x2000000000000000,
{
    reveal_with_fuel(pow2, 62);
}

/// Every binomial coefficient of row `n` is at most `2^n`.
pub proof fn lemma_binom_le_pow2(n: nat, k: nat)
    ensures
        binom(n, k) <= pow2(n),
    decreases n,
{
    lemma_pow2_pos(n);
    if k == 0 {
    } else if n == 0 {
    } else {
        lemma_binom_le_pow2((n - 1) as nat, (k - 1) as nat);
        lemma_binom_le_pow2((n - 1) as nat, k);
    }
}

/// Above the diagonal the coefficient vanishes.
pub proof fn lemma_binom_above_diagonal(n: nat, k: nat)
    requires
        k > n,
    ensures
        binom(n, k) == 0,
    decreases n,
{
    if n > 0 {
        lemma_binom_above_diagonal((n - 1) as nat, (k - 1) as nat);
        lemma_binom_above_diagonal((n - 1) as nat, k);
    }
}

/// On the diagonal the coefficient is one.
pub proof fn lemma_binom_diagonal(n: nat)
    ensures
        binom(n, n) == 1,
    decreases n,
{
    if n > 0 {
        lemma_binom_diagonal((n - 1) as nat);
        lemma_binom_above_diagonal((n - 1) as nat, n);
    }
}

} // verus!
