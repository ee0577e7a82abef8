//! Reference direction generators: the Das-Dennis simplex lattice and a
//! reduced quasi-uniform variant (boundary lattice points topped up with
//! far-apart random simplex points).
//!
//! Lattice points are returned as integer numerators over the partition
//! count: the vector `v` stands for the direction `v / partitions`, which
//! sums to one.  The reduced generator returns directions in a common
//! integer unit, every row summing to the same total.

use vstd::prelude::*;
use crate::maths::{
    copy_vec_i64,
    binom, lemma_binom_above_diagonal, lemma_binom_diagonal, lemma_binom_le_pow2,
    lemma_factorial_20_fits, lemma_factorial_monotonic, lemma_pow2_61_fits,
    lemma_elem_le_sum, lemma_pow2_monotonic, lemma_sum_push, lemma_sum_scale,
    lemma_sum_update, pow2, spec_factorial, sum_seq,
};

verus! {

/// A Das-Dennis lattice row: `d` numerators over the partition count `p`,
/// non-negative and summing to `p`, so the direction itself sums to one.
pub open spec fn dd_row(row: Seq<i64>, d: int, p: int) -> bool {
    &&& row.len() == d
    &&& sum_seq(row) == p
    &&& (forall|j: int| 0 <= j < row.len() ==> 0 <= #[trigger] row[j] <= p)
}

/// A row that completes the prefix `acc` by distributing `left` over the
/// remaining coordinates.
pub open spec fn completes(row: Seq<i64>, acc: Seq<i64>, d: int, left: i64) -> bool {
    &&& row.len() == d
    &&& row.take(acc.len() as int) == acc
    &&& sum_seq(row) == sum_seq(acc) + left
    &&& (forall|j: int| acc.len() <= j < d ==> 0 <= #[trigger] row[j] <= left)
}

/// Direction rows over a common unit: right dimension, coordinates in
/// `[0, unit]`, and each row summing exactly to `unit`.
pub open spec fn unit_rows(rs: Seq<Vec<i64>>, d: int, unit: i64) -> bool {
    forall|k: int|
        0 <= k < rs.len() ==> ((#[trigger] rs[k])@.len() == d && sum_seq(rs[k]@) == unit && (
        forall|j: int| 0 <= j < rs[k]@.len() ==> 0 <= #[trigger] rs[k]@[j] <= unit))
}

pub struct RefPointGenerator {}

impl RefPointGenerator {
    /// Mathematical factorial, for the lattice point count formula.
    pub fn factorial(n: u64) -> (r: u64)
        requires
            n <= 20,
        ensures
            r == spec_factorial(n as nat),
    {
        proof {
            lemma_factorial_20_fits();
        }
        let mut res: u64 = 1;
        let mut i: u64 = 0;
        while i < n
            invariant
                i <= n,
                n <= 20,
                res == spec_factorial(i as nat),
                spec_factorial(20) == 2432902008176640000,
            decreases n - i,
        {
            proof {
                lemma_factorial_monotonic((i + 1) as nat, 20);
                assert(spec_factorial((i + 1) as nat) == (i + 1) * spec_factorial(i as nat));
                assert(res * (i + 1) == spec_factorial((i + 1) as nat)) by (nonlinear_arith)
                    requires
                        res == spec_factorial(i as nat),
                        spec_factorial((i + 1) as nat) == (i + 1) * spec_factorial(i as nat),
                ;
            }
            i = i + 1;
            res = res * i;
        }
        res
    }

    /// Number of Das-Dennis lattice points: the binomial coefficient
    /// `C(partitions + dimension - 1, dimension - 1)`, computed by Pascal's
    /// triangle.
    pub fn nb_point_das_dennis(dimension: i32, partitions: i32) -> (r: u64)
        requires
            1 <= dimension,
            0 <= partitions,
            dimension + partitions <= 62,
        ensures
            r == binom((dimension + partitions - 1) as nat, (dimension - 1) as nat),
    {
        proof {
            lemma_pow2_61_fits();
        }
        let n: usize = (dimension + partitions - 1) as usize;
        let k: usize = (dimension - 1) as usize;
        let mut row: Vec<u64> = Vec::new();
        row.push(1);
        let mut ri: usize = 0;
        while ri < n
            invariant
                ri <= n,
                n <= 61,
                row@.len() == ri + 1,
                forall|j: int| 0 <= j <= ri ==> #[trigger] row@[j] == binom(ri as nat, j as nat),
                pow2(61) == 0x2000000000000000,
            decreases n - ri,
        {
            let mut new_row: Vec<u64> = Vec::new();
            new_row.push(1);
            let mut j: usize = 1;
            while j <= ri
                invariant
                    1 <= j <= ri + 1,
                    ri < n,
                    n <= 61,
                    row@.len() == ri + 1,
                    forall|j2: int|
                        0 <= j2 <= ri ==> #[trigger] row@[j2] == binom(ri as nat, j2 as nat),
                    new_row@.len() == j,
                    forall|j2: int|
                        0 <= j2 < j ==> #[trigger] new_row@[j2] == binom(
                            (ri + 1) as nat,
                            j2 as nat,
                        ),
                    pow2(61) == 0x2000000000000000,
                decreases ri + 1 - j,
            {
                proof {
                    lemma_binom_le_pow2((ri + 1) as nat, j as nat);
                    lemma_pow2_monotonic((ri + 1) as nat, 61);
                }
                let v: u64 = row[j - 1] + row[j];
                new_row.push(v);
                j += 1;
            }
            proof {
                lemma_binom_diagonal((ri + 1) as nat);
            }
            new_row.push(1);
            row = new_row;
            ri += 1;
        }
        row[k]
    }

    /// One step of the lattice enumeration: appends to `acc_acc` every
    /// completion of the prefix `acc` that distributes `left_partitions`
    /// over the remaining coordinates, each exactly once.
    #[verifier::loop_isolation(false)]
    #[verifier::rlimit(60)]
    fn rec_das_dennis(
        acc_acc: &mut Vec<Vec<i64>>,
        acc: &Vec<i64>,
        nb_dimensions: i32,
        left_partitions: i64,
    )
        requires
            1 <= nb_dimensions <= 64,
            acc@.len() < nb_dimensions,
            0 <= left_partitions <= 1024,
        ensures
            final(acc_acc)@.len() == old(acc_acc)@.len() + binom(
                (left_partitions + (nb_dimensions - acc@.len()) - 1) as nat,
                ((nb_dimensions - acc@.len()) - 1) as nat,
            ),
            final(acc_acc)@.take(old(acc_acc)@.len() as int) == old(acc_acc)@,
            forall|idx: int|
                old(acc_acc)@.len() <= idx < final(acc_acc)@.len() ==> completes(
                    (#[trigger] final(acc_acc)@[idx])@,
                    acc@,
                    nb_dimensions as int,
                    left_partitions,
                ),
            forall|i1: int, i2: int|
                #![trigger final(acc_acc)@[i1], final(acc_acc)@[i2]]
                old(acc_acc)@.len() <= i1 < i2 < final(acc_acc)@.len() ==> final(acc_acc)@[i1]@
                    != final(acc_acc)@[i2]@,
        decreases nb_dimensions - acc@.len(),
    {
        let ghost base = acc_acc@;
        let ghost len0 = acc_acc@.len() as int;
        let ghost d = nb_dimensions as int;
        let ghost l = acc@.len() as int;
        let ghost m = d - l;

        if acc.len() == (nb_dimensions - 1) as usize {
            let mut new_acc: Vec<i64> = copy_vec_i64(acc);
            new_acc.push(left_partitions);
            proof {
                lemma_sum_push(acc@, left_partitions);
                assert(new_acc@.take(l) =~= acc@);
            }
            acc_acc.push(new_acc);
            proof {
                assert(acc_acc@.take(len0) =~= base);
                assert(completes(acc_acc@[len0]@, acc@, d, left_partitions));
            }
            return ;
        }

        let mut i: i64 = 0;
        while i <= left_partitions
            invariant
                0 <= i <= left_partitions + 1,
                len0 <= acc_acc@.len(),
                acc_acc@.len() == len0 + binom(
                    (left_partitions + m - 1) as nat,
                    (m - 1) as nat,
                ) - binom((left_partitions - i + m - 1) as nat, (m - 1) as nat),
                acc_acc@.take(len0) == base,
                forall|idx: int|
                    len0 <= idx < acc_acc@.len() ==> completes(
                        (#[trigger] acc_acc@[idx])@,
                        acc@,
                        d,
                        left_partitions,
                    ),
                forall|idx: int|
                    len0 <= idx < acc_acc@.len() ==> 0 <= (#[trigger] acc_acc@[idx])@[l] < i,
                forall|i1: int, i2: int|
                    #![trigger acc_acc@[i1], acc_acc@[i2]]
                    len0 <= i1 < i2 < acc_acc@.len() ==> acc_acc@[i1]@ != acc_acc@[i2]@,
            decreases left_partitions + 1 - i,
        {
            let mut new_acc: Vec<i64> = copy_vec_i64(acc);
            new_acc.push(i);
            let ghost pre = acc_acc@;
            let ghost lenb = acc_acc@.len() as int;
            Self::rec_das_dennis(acc_acc, &new_acc, nb_dimensions, left_partitions - i);
            proof {
                lemma_sum_push(acc@, i);
                assert(acc_acc@.take(lenb) == pre);
                assert forall|idx: int| 0 <= idx < lenb implies acc_acc@[idx] == pre[idx] by {
                    assert(acc_acc@.take(lenb)[idx] == acc_acc@[idx]);
                }
                assert(acc_acc@.take(len0) =~= pre.take(len0));
                assert(pre.take(len0) == base);
                assert forall|idx: int|
                    lenb <= idx < acc_acc@.len() implies completes(
                    (#[trigger] acc_acc@[idx])@,
                    acc@,
                    d,
                    left_partitions,
                ) && acc_acc@[idx]@[l] == i by {
                    let row = acc_acc@[idx]@;
                    assert(completes(row, new_acc@, d, (left_partitions - i) as i64));
                    assert(row.take(l + 1) == new_acc@);
                    assert forall|q: int| 0 <= q < l implies row[q] == acc@[q] by {
                        assert(row.take(l + 1)[q] == row[q]);
                        assert(new_acc@[q] == acc@[q]);
                    }
                    assert(row.take(l) =~= acc@);
                    assert(row.take(l + 1)[l] == row[l]);
                    assert(row[l] == i);
                    assert(sum_seq(row) == sum_seq(new_acc@) + (left_partitions - i));
                    assert(sum_seq(new_acc@) == sum_seq(acc@) + i);
                    assert forall|j: int| l <= j < d implies 0 <= #[trigger] row[j]
                        <= left_partitions by {
                        if j == l {
                        } else {
                            assert(0 <= row[j] <= left_partitions - i);
                        }
                    }
                }
                assert(binom((left_partitions - i + m - 1) as nat, (m - 1) as nat) == binom(
                    (left_partitions - i + m - 2) as nat,
                    (m - 2) as nat,
                ) + binom((left_partitions - i + m - 2) as nat, (m - 1) as nat));
                assert forall|idx: int|
                    len0 <= idx < acc_acc@.len() implies completes(
                    (#[trigger] acc_acc@[idx])@,
                    acc@,
                    d,
                    left_partitions,
                ) && 0 <= acc_acc@[idx]@[l] < i + 1 by {
                    if idx < lenb {
                        assert(acc_acc@[idx] == pre[idx]);
                        assert(completes(pre[idx]@, acc@, d, left_partitions));
                        assert(0 <= pre[idx]@[l] < i);
                    }
                }
                assert forall|i1: int, i2: int|
                    #![trigger acc_acc@[i1], acc_acc@[i2]]
                    len0 <= i1 < i2 < acc_acc@.len() implies acc_acc@[i1]@ != acc_acc@[i2]@ by {
                    if i2 < lenb {
                        assert(acc_acc@[i1] == pre[i1]);
                        assert(acc_acc@[i2] == pre[i2]);
                        assert(pre[i1]@ != pre[i2]@);
                    } else if i1 < lenb {
                        assert(acc_acc@[i1] == pre[i1]);
                        assert(0 <= pre[i1]@[l] < i);
                        assert(acc_acc@[i2]@[l] == i);
                        assert(acc_acc@[i1]@[l] != acc_acc@[i2]@[l]);
                    }
                }
            }
            i += 1;
        }
        proof {
            lemma_binom_above_diagonal((m - 2) as nat, (m - 1) as nat);
        }
    }

    /// Every lattice point of the unit simplex with coordinates that are
    /// multiples of `1 / nb_partitions`: exactly the binomial-count many
    /// numerator rows, pairwise distinct, each summing to the partition
    /// count.
    pub fn das_dennis(nb_partitions: i32, nb_dimensions: i32) -> (res: Vec<Vec<i64>>)
        requires
            1 <= nb_dimensions <= 64,
            0 <= nb_partitions <= 1024,
        ensures
            res@.len() == binom(
                (nb_partitions + nb_dimensions - 1) as nat,
                (nb_dimensions - 1) as nat,
            ),
            forall|k: int|
                0 <= k < res@.len() ==> dd_row(
                    (#[trigger] res@[k])@,
                    nb_dimensions as int,
                    nb_partitions as int,
                ),
            forall|k1: int, k2: int|
                #![trigger res@[k1], res@[k2]]
                0 <= k1 < k2 < res@.len() ==> res@[k1]@ != res@[k2]@,
    {
        let mut res: Vec<Vec<i64>> = Vec::new();
        let acc: Vec<i64> = Vec::new();
        RefPointGenerator::rec_das_dennis(&mut res, &acc, nb_dimensions, nb_partitions as i64);
        proof {
            assert forall|k: int| 0 <= k < res@.len() implies dd_row(
                (#[trigger] res@[k])@,
                nb_dimensions as int,
                nb_partitions as int,
            ) by {
                assert(completes(res@[k]@, acc@, nb_dimensions as int, nb_partitions as i64));
            }
        }
        res
    }

    /// A pseudo-random point of the integer simplex: non-negative
    /// coordinates summing exactly to `total`, built by scattering random
    /// increments of at most `total / dimension` round-robin over the
    /// coordinates.
    pub fn random_point(dimension: i32, total: i64, rng: &mut rand::rngs::StdRng) -> (res: Vec<
        i64,
    >)
        requires
            1 <= dimension <= 64,
            1 <= total <= 1000000,
        ensures
            res@.len() == dimension,
            forall|j: int| 0 <= j < res@.len() ==> 0 <= #[trigger] res@[j] <= total,
            sum_seq(res@) == total,
    {
        let d: usize = dimension as usize;
        let mut res: Vec<i64> = Vec::new();
        let mut q: usize = 0;
        while q < d
            invariant
                q <= d,
                res@.len() == q,
                forall|j: int| 0 <= j < q ==> #[trigger] res@[j] == 0i64,
                sum_seq(res@) == 0,
            decreases d - q,
        {
            proof {
                lemma_sum_push(res@, 0i64);
            }
            res.push(0);
            q += 1;
        }
        let cap: u64 = (total / dimension as i64) as u64 + 1;
        let mut remainder: i64 = total;
        let mut idx: usize = 0;
        let draw0: u64 = crate::rng::rand_below(rng, cap);
        let mut a: i64 = if draw0 == 0 {
            1
        } else {
            draw0 as i64
        };
        while a < remainder
            invariant
                res@.len() == d,
                1 <= d <= 64,
                idx < d,
                1 <= a,
                1 <= remainder <= total,
                total <= 1000000,
                1 <= cap <= total as u64 + 1,
                sum_seq(res@) + remainder == total,
                forall|j: int| 0 <= j < res@.len() ==> #[trigger] res@[j] >= 0,
            decreases remainder,
        {
            let cur: i64 = res[idx];
            proof {
                lemma_elem_le_sum(res@, idx as int);
                lemma_sum_update(res@, idx as int, (cur + a) as i64);
            }
            res.set(idx, cur + a);
            remainder = remainder - a;
            idx = (idx + 1) % d;
            let draw: u64 = crate::rng::rand_below(rng, cap);
            a = if draw == 0 {
                1
            } else {
                draw as i64
            };
        }
        let cur: i64 = res[idx];
        proof {
            lemma_elem_le_sum(res@, idx as int);
            lemma_sum_update(res@, idx as int, (cur + remainder) as i64);
        }
        res.set(idx, cur + remainder);
        proof {
            assert forall|j: int| 0 <= j < res@.len() implies 0 <= #[trigger] res@[j]
                <= total by {
                lemma_elem_le_sum(res@, j);
            }
        }
        res
    }

    /// Reduced reference set: the boundary points (those with a zero
    /// coordinate) of the smallest Das-Dennis lattice that reaches
    /// `nb_points`, topped up by greedily taking, from a pool of `nb_rand`
    /// random simplex points, whichever lies farthest from the set chosen so
    /// far.  Every returned direction sums to the same unit.
    #[verifier::loop_isolation(false)]
    #[verifier::rlimit(60)]
    pub fn reduction(
        dimension: i32,
        nb_points: i32,
        nb_rand: i32,
        rng: &mut rand::rngs::StdRng,
    ) -> (res: Vec<Vec<i64>>)
        requires
            2 <= dimension <= 64,
            2 <= nb_points,
            1 <= nb_rand,
            exists|p: int|
                0 <= p && p + dimension <= 62 && #[trigger] binom(
                    (p + dimension - 1) as nat,
                    (dimension - 1) as nat,
                ) >= nb_points,
        ensures
            res@.len() == nb_points,
            exists|u: i64| 1024 <= u < 2048 && #[trigger] unit_rows(res@, dimension as int, u),
    {
        let ghost pw = choose|p: int|
            0 <= p && p + dimension <= 62 && #[trigger] binom(
                (p + dimension - 1) as nat,
                (dimension - 1) as nat,
            ) >= nb_points;

        // The smallest partition count whose lattice reaches the target.
        let mut nb_part: i32 = 0;
        while Self::nb_point_das_dennis(dimension, nb_part) < nb_points as u64
            invariant
                0 <= nb_part <= pw,
            decreases pw - nb_part,
        {
            nb_part += 1;
        }
        proof {
            lemma_binom_diagonal((dimension - 1) as nat);
            assert(nb_part >= 1);
        }

        let dd: Vec<Vec<i64>> = Self::das_dennis(nb_part, dimension);
        let p64: i64 = nb_part as i64;
        let kk: i64 = (1023 + p64) / p64;
        proof {
            vstd::arithmetic::div_mod::lemma_fundamental_div_mod(1023 + p64 as int, p64 as int);
            vstd::arithmetic::div_mod::lemma_mod_bound(1023 + p64 as int, p64 as int);
            assert(1 <= kk && kk <= 2047 && 1024 <= p64 * kk && p64 * kk <= 2047) by (nonlinear_arith)
                requires
                    1 <= p64 <= 1024,
                    1023 + p64 == p64 * kk + ((1023 + p64 as int) % (p64 as int)),
                    0 <= ((1023 + p64 as int) % (p64 as int)) < p64,
            ;
        }
        let unit: i64 = p64 * kk;
        proof {
            assert(1024 <= unit < 2048);
        }

        // Boundary lattice points, rescaled to the common unit.
        let mut res: Vec<Vec<i64>> = Vec::new();
        let mut k: usize = 0;
        while k < dd.len() && res.len() < nb_points as usize
            invariant
                k <= dd@.len(),
                res@.len() <= nb_points,
                unit_rows(res@, dimension as int, unit),
            decreases dd@.len() - k,
        {
            let mut has_zero: bool = false;
            let mut j: usize = 0;
            while j < dd[k].len()
                invariant
                    k < dd@.len(),
                    j <= dd@[k as int]@.len(),
                decreases dd@[k as int]@.len() - j,
            {
                if dd[k][j] == 0 {
                    has_zero = true;
                }
                j += 1;
            }
            if has_zero {
                let mut scaled: Vec<i64> = Vec::new();
                let mut j2: usize = 0;
                while j2 < dd[k].len()
                    invariant
                        k < dd@.len(),
                        j2 <= dd@[k as int]@.len(),
                        scaled@ =~= dd@[k as int]@.take(j2 as int).map_values(
                            |x: i64| (x * kk) as i64,
                        ),
                    decreases dd@[k as int]@.len() - j2,
                {
                    proof {
                        let row = dd@[k as int]@;
                        assert(0 <= row[j2 as int] <= p64);
                        assert(0 <= row[j2 as int] * kk <= 2096128) by (nonlinear_arith)
                            requires
                                0 <= row[j2 as int] <= 1024,
                                0 <= kk <= 2047,
                        ;
                        assert(row.take(j2 + 1) =~= row.take(j2 as int).push(row[j2 as int]));
                        assert(row.take(j2 + 1).map_values(|x: i64| (x * kk) as i64) =~= row.take(
                            j2 as int,
                        ).map_values(|x: i64| (x * kk) as i64).push((row[j2 as int] * kk) as i64));
                    }
                    scaled.push(dd[k][j2] * kk);
                    j2 += 1;
                }
                proof {
                    let row = dd@[k as int]@;
                    assert(row.take(row.len() as int) =~= row);
                    assert forall|q: int|
                        0 <= q < row.len() implies i64::MIN <= #[trigger] row[q] * kk
                        <= i64::MAX by {
                        assert(0 <= row[q] <= p64);
                        assert(0 <= row[q] * kk <= 2096128) by (nonlinear_arith)
                            requires
                                0 <= row[q] <= 1024,
                                0 <= kk <= 2047,
                        ;
                    }
                    lemma_sum_scale(row, kk);
                    assert(sum_seq(scaled@) == kk * sum_seq(row));
                    assert(kk * p64 == p64 * kk) by (nonlinear_arith);
                    assert forall|q: int| 0 <= q < scaled@.len() implies 0 <= #[trigger] scaled@[q]
                        <= unit by {
                        assert(scaled@[q] == row[q] * kk);
                        assert(0 <= row[q] <= p64);
                        assert(0 <= row[q] * kk <= p64 * kk) by (nonlinear_arith)
                            requires
                                0 <= row[q] <= p64,
                                0 < kk,
                        ;
                    }
                }
                res.push(scaled);
            }
            k += 1;
        }

        // Top up with far-apart random simplex points.
        if res.len() < nb_points as usize {
            let mut randoms: Vec<Vec<i64>> = Vec::new();
            let mut r: usize = 0;
            while r < nb_rand as usize
                invariant
                    r <= nb_rand,
                    randoms@.len() == r,
                    unit_rows(randoms@, dimension as int, unit),
                decreases nb_rand - r,
            {
                randoms.push(Self::random_point(dimension, unit, rng));
                r += 1;
            }
            while res.len() < nb_points as usize
                invariant
                    res@.len() <= nb_points,
                    randoms@.len() == nb_rand,
                    unit_rows(randoms@, dimension as int, unit),
                    unit_rows(res@, dimension as int, unit),
                decreases nb_points - res@.len(),
            {
                let mut min_dist: Vec<i64> = Vec::new();
                let mut j: usize = 0;
                while j < randoms.len()
                    invariant
                        j <= randoms@.len(),
                        min_dist@.len() == j,
                    decreases randoms@.len() - j,
                {
                    let mut md: i64 = i64::MAX;
                    let mut c: usize = 0;
                    while c < res.len()
                        invariant
                            j < randoms@.len(),
                            c <= res@.len(),
                        decreases res@.len() - c,
                    {
                        let mut dist: i64 = 0;
                        let mut q: usize = 0;
                        while q < randoms[j].len()
                            invariant
                                j < randoms@.len(),
                                c < res@.len(),
                                q <= randoms@[j as int]@.len(),
                                randoms@[j as int]@.len() == dimension,
                                0 <= dist <= q * 16777216,
                            decreases randoms@[j as int]@.len() - q,
                        {
                            proof {
                                assert(0 <= randoms@[j as int]@[q as int] <= unit);
                            }
                            let rv: i64 = randoms[j][q];
                            let cv: i64 = if q < res[c].len() {
                                res[c][q]
                            } else {
                                0
                            };
                            let diff: i64 = rv - cv;
                            proof {
                                assert(-2048 <= diff <= 2048);
                                assert(0 <= diff * diff <= 16777216) by (nonlinear_arith)
                                    requires
                                        -2048 <= diff <= 2048,
                                ;
                            }
                            dist = dist + diff * diff;
                            q += 1;
                        }
                        if dist < md {
                            md = dist;
                        }
                        c += 1;
                    }
                    min_dist.push(md);
                    j += 1;
                }
                let mut best: usize = 0;
                let mut bv: i64 = min_dist[0];
                let mut j3: usize = 1;
                while j3 < min_dist.len()
                    invariant
                        1 <= j3 <= min_dist@.len(),
                        best < min_dist@.len(),
                        min_dist@.len() == randoms@.len(),
                    decreases min_dist@.len() - j3,
                {
                    if min_dist[j3] > bv {
                        bv = min_dist[j3];
                        best = j3;
                    }
                    j3 += 1;
                }
                let chosen: Vec<i64> = copy_vec_i64(&randoms[best]);
                proof {
                    assert(chosen@ == randoms@[best as int]@);
                }
                res.push(chosen);
            }
        }
        proof {
            assert(unit_rows(res@, dimension as int, unit));
        }
        res
    }

    /// Quasi-uniform reference directions: currently the reduced boundary
    /// and farthest-point construction.
    pub fn riesz(
        dimension: i32,
        nb_points: i32,
        nb_rand: i32,
        rng: &mut rand::rngs::StdRng,
    ) -> (res: Vec<Vec<i64>>)
        requires
            2 <= dimension <= 64,
            2 <= nb_points,
            1 <= nb_rand,
            exists|p: int|
                0 <= p && p + dimension <= 62 && #[trigger] binom(
                    (p + dimension - 1) as nat,
                    (dimension - 1) as nat,
                ) >= nb_points,
        ensures
            res@.len() == nb_points,
            exists|u: i64| 1024 <= u < 2048 && #[trigger] unit_rows(res@, dimension as int, u),
    {
        Self::reduction(dimension, nb_points, nb_rand, rng)
    }
}

} // verus!
