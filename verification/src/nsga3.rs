//! The NSGA-III selection state and its generational pipeline: greedy front
//! acceptance, adaptive normalisation, reference-direction association and
//! niching.  The numerical hyperplane fit that may refine the intercepts is
//! the caller's affair; the pipeline takes its result as an optional plane
//! and otherwise falls back to the observed-range intercepts.

use vstd::prelude::*;
use crate::maths::{copy_vec_i64, sum_seq, SCALE};
use crate::problem::Point;
use crate::sorting::pfront_views;

verus! {

/// Cap on the magnitude of any fixed-point objective value the pipeline
/// accepts: one million whole units.
pub const FIT_BOUND: i64 = 1_000_000_000_000;

/// Cap on normalised objective values: about a thousand whole units; the
/// rescaling saturates here instead of overflowing on degenerate planes.
pub const NORM_BOUND: i64 = 1_073_741_824;

/// Exclusive cap on reference direction coordinates.
pub const REF_BOUND: i64 = 4096;

/// Every point has `m` objective values, all within the magnitude cap.
pub open spec fn fitness_ok(ps: Seq<Point>, m: int) -> bool {
    forall|i: int|
        0 <= i < ps.len() ==> ((#[trigger] ps[i]).fitness@.len() == m && (forall|j: int|
            0 <= j < ps[i].fitness@.len() ==> -FIT_BOUND <= #[trigger] ps[i].fitness@[j]
                <= FIT_BOUND))
}

/// Every point has `m` normalised objective values in `[0, NORM_BOUND]`.
pub open spec fn norm_ok(ps: Seq<Point>, m: int) -> bool {
    forall|i: int|
        0 <= i < ps.len() ==> ((#[trigger] ps[i]).norm_fitness@.len() == m && (forall|j: int|
            0 <= j < ps[i].norm_fitness@.len() ==> 0 <= #[trigger] ps[i].norm_fitness@[j]
                <= NORM_BOUND))
}

/// Reference directions of dimension `m`: non-negative bounded coordinates
/// that are not all zero.
pub open spec fn ref_rows_ok(refs: Seq<Vec<i64>>, m: int) -> bool {
    forall|k: int|
        0 <= k < refs.len() ==> ((#[trigger] refs[k])@.len() == m && sum_seq(refs[k]@) > 0 && (
        forall|j: int| 0 <= j < refs[k]@.len() ==> 0 <= #[trigger] refs[k]@[j] < REF_BOUND))
}

/// The selection state: current parents, the fixed reference directions,
/// the target population size and the running ideal point.
pub struct Nsga3 {
    pub parent_pop: Vec<Point>,
    pub ref_points: Vec<Vec<i64>>,
    pub pop_size: usize,
    pub ideal_point: Vec<i64>,
}

/// Column minimum over fitness rows; the neutral element for an empty
/// scope is the largest value, so a running minimum passes through.
pub open spec fn col_min(fs: Seq<Seq<i64>>, j: int) -> i64
    decreases fs.len(),
{
    if fs.len() == 0 {
        i64::MAX
    } else {
        let m = col_min(fs.drop_last(), j);
        if fs.last()[j] < m {
            fs.last()[j]
        } else {
            m
        }
    }
}

/// Column maximum over fitness rows.
pub open spec fn col_max(fs: Seq<Seq<i64>>, j: int) -> i64
    decreases fs.len(),
{
    if fs.len() == 0 {
        i64::MIN
    } else {
        let m = col_max(fs.drop_last(), j);
        if fs.last()[j] > m {
            fs.last()[j]
        } else {
            m
        }
    }
}

pub open spec fn min_i64(a: i64, b: i64) -> i64 {
    if a < b {
        a
    } else {
        b
    }
}

pub proof fn lemma_col_min_le(fs: Seq<Seq<i64>>, i: int, j: int)
    requires
        0 <= i < fs.len(),
    ensures
        col_min(fs, j) <= fs[i][j],
    decreases fs.len(),
{
    if i < fs.len() - 1 {
        lemma_col_min_le(fs.drop_last(), i, j);
    }
}

pub proof fn lemma_col_min_lb(fs: Seq<Seq<i64>>, j: int, b: int)
    requires
        forall|i: int| 0 <= i < fs.len() ==> #[trigger] fs[i][j] >= b,
    ensures
        fs.len() > 0 ==> col_min(fs, j) >= b,
    decreases fs.len(),
{
    if fs.len() > 0 {
        assert forall|i: int|
            0 <= i < fs.drop_last().len() implies #[trigger] fs.drop_last()[i][j] >= b by {
            assert(fs[i][j] >= b);
            assert(fs.drop_last()[i] == fs[i]);
        }
        lemma_col_min_lb(fs.drop_last(), j, b);
        if fs.len() == 1 {
            assert(col_min(fs.drop_last(), j) == i64::MAX);
        }
        assert(fs[fs.len() - 1][j] >= b);
    }
}

pub proof fn lemma_col_max_ub(fs: Seq<Seq<i64>>, j: int, b: int)
    requires
        forall|i: int| 0 <= i < fs.len() ==> #[trigger] fs[i][j] <= b,
    ensures
        fs.len() > 0 ==> col_max(fs, j) <= b,
    decreases fs.len(),
{
    if fs.len() > 0 {
        assert forall|i: int|
            0 <= i < fs.drop_last().len() implies #[trigger] fs.drop_last()[i][j] <= b by {
            assert(fs[i][j] <= b);
            assert(fs.drop_last()[i] == fs[i]);
        }
        lemma_col_max_ub(fs.drop_last(), j, b);
        if fs.len() == 1 {
            assert(col_max(fs.drop_last(), j) == i64::MIN);
        }
        assert(fs[fs.len() - 1][j] <= b);
    }
}

pub proof fn lemma_col_max_ge(fs: Seq<Seq<i64>>, i: int, j: int)
    requires
        0 <= i < fs.len(),
    ensures
        col_max(fs, j) >= fs[i][j],
    decreases fs.len(),
{
    if i < fs.len() - 1 {
        lemma_col_max_ge(fs.drop_last(), i, j);
    }
}

/// One normalised objective value: the objective measured from the ideal
/// point, rescaled by the axis intercept.  A degenerate denominator is
/// treated as one whole unit, and the result saturates at [`NORM_BOUND`].
pub open spec fn norm_value(f: i64, id: i64, ic: i64) -> i64 {
    let den = if ic - id <= 0 {
        SCALE as int
    } else {
        ic - id
    };
    let raw = (f - id) * SCALE / den;
    if raw > NORM_BOUND {
        NORM_BOUND
    } else {
        raw as i64
    }
}

/// The fallback intercepts: ideal point plus the largest observed value on
/// each axis.
pub open spec fn fallback_ics(ideal: Seq<i64>, scope: Seq<Seq<i64>>) -> Seq<i64> {
    Seq::new(ideal.len(), |j: int| (ideal[j] + col_max(scope, j)) as i64)
}

/// `new_ps` is `old_ps` with every normalised objective vector recomputed
/// from the ideal point and the intercepts; nothing else changes.
pub open spec fn normalised_points(
    old_ps: Seq<Point>,
    new_ps: Seq<Point>,
    ideal: Seq<i64>,
    ics: Seq<i64>,
) -> bool {
    &&& new_ps.len() == old_ps.len()
    &&& (forall|i: int|
        0 <= i < new_ps.len() ==> ((#[trigger] new_ps[i]).coord@ == old_ps[i].coord@
            && new_ps[i].fitness@ == old_ps[i].fitness@ && new_ps[i].norm_fitness@.len()
            == ideal.len() && (forall|j: int|
            0 <= j < ideal.len() ==> #[trigger] new_ps[i].norm_fitness@[j] == norm_value(
                old_ps[i].fitness@[j],
                ideal[j],
                ics[j],
            ))))
}

/// The achievement scalarizing term for axis `k`: the axis value itself on
/// axis `k`, and the value divided by a small epsilon (that is, multiplied
/// by one over it) elsewhere, so off-axis values dominate the maximum.
pub open spec fn asf_term(f: Seq<i64>, k: int, j: int) -> int {
    if j == k {
        f[j] as int
    } else {
        f[j] * (SCALE as int)
    }
}

/// Maximum of the first `n` scalarizing terms.
pub open spec fn asf_upto(f: Seq<i64>, k: int, n: int) -> int
    decreases n,
{
    if n <= 1 {
        asf_term(f, k, 0)
    } else {
        let m0 = asf_upto(f, k, n - 1);
        let t = asf_term(f, k, n - 1);
        if t > m0 {
            t
        } else {
            m0
        }
    }
}

/// The achievement scalarizing value of a fitness row for axis `k`.
pub open spec fn spec_asf(f: Seq<i64>, k: int) -> int {
    asf_upto(f, k, f.len() as int)
}

/// First index among the first `n` rows minimising the scalarized value
/// for axis `k`: the extreme point of that axis.
pub open spec fn best_extreme_upto(fs: Seq<Seq<i64>>, k: int, n: int) -> int
    decreases n,
{
    if n <= 1 {
        0
    } else {
        let b = best_extreme_upto(fs, k, n - 1);
        if spec_asf(fs[n - 1], k) < spec_asf(fs[b], k) {
            n - 1
        } else {
            b
        }
    }
}

/// Dot product of two equally long rows.
pub open spec fn dot(v: Seq<i64>, w: Seq<i64>) -> int
    decreases v.len(),
{
    if v.len() == 0 {
        0
    } else {
        dot(v.drop_last(), w.drop_last()) + v.last() * w.last()
    }
}

/// Direction `a` is strictly closer to `v` than direction `b`, by
/// perpendicular distance to the lines through the origin: the squared
/// projection ratio `(v.a)^2 / |a|^2` strictly exceeds `(v.b)^2 / |b|^2`,
/// compared without division.
pub open spec fn proj_better(v: Seq<i64>, a: Seq<i64>, b: Seq<i64>) -> bool {
    dot(v, a) * dot(v, a) * dot(b, b) > dot(v, b) * dot(v, b) * dot(a, a)
}

/// First index among the first `n` directions minimising the perpendicular
/// distance to `v`: a later direction wins only by being strictly closer.
pub open spec fn best_ref_upto(v: Seq<i64>, refs: Seq<Vec<i64>>, n: int) -> int
    decreases n,
{
    if n <= 1 {
        0
    } else {
        let b = best_ref_upto(v, refs, n - 1);
        if proj_better(v, refs[n - 1]@, refs[b]@) {
            n - 1
        } else {
            b
        }
    }
}

/// Re-running association on an unchanged normalised population and
/// reference set yields the identical assignment: the result is a function
/// of the inputs alone.
pub proof fn lemma_association_stable(
    pts: Seq<Point>,
    refs: Seq<Vec<i64>>,
    n: int,
    r1: Seq<usize>,
    r2: Seq<usize>,
)
    requires
        r1.len() == pts.len(),
        r2.len() == pts.len(),
        forall|i: int|
            0 <= i < pts.len() ==> #[trigger] r1[i] as int == best_ref_upto(
                pts[i].norm_fitness@,
                refs,
                n,
            ),
        forall|i: int|
            0 <= i < pts.len() ==> #[trigger] r2[i] as int == best_ref_upto(
                pts[i].norm_fitness@,
                refs,
                n,
            ),
    ensures
        r1 == r2,
{
    assert(r1 =~= r2);
}

/// Dot product over non-negative bounded rows, exactly and with the bound
/// the callers need for their own products.
#[verifier::loop_isolation(false)]
fn dot_i128(v: &Vec<i64>, w: &Vec<i64>, b1: i64, b2: i64) -> (r: i128)
    requires
        v@.len() == w@.len(),
        v@.len() <= 64,
        0 <= b1 <= 2_000_000_000,
        0 <= b2 <= 2_000_000_000,
        forall|j: int| 0 <= j < v@.len() ==> 0 <= #[trigger] v@[j] <= b1,
        forall|j: int| 0 <= j < w@.len() ==> 0 <= #[trigger] w@[j] <= b2,
    ensures
        r == dot(v@, w@),
        0 <= r <= v@.len() * (b1 as int) * (b2 as int),
{
    let n: usize = v.len();
    let mut acc: i128 = 0;
    let mut j: usize = 0;
    while j < n
        invariant
            j <= n,
            acc == dot(v@.take(j as int), w@.take(j as int)),
            0 <= acc <= j * (b1 as int) * (b2 as int),
        decreases n - j,
    {
        proof {
            assert(v@.take(j + 1).drop_last() =~= v@.take(j as int));
            assert(w@.take(j + 1).drop_last() =~= w@.take(j as int));
            assert(0 <= v@[j as int] * w@[j as int] <= (b1 as int) * (b2 as int))
                by (nonlinear_arith)
                requires
                    0 <= v@[j as int] <= b1,
                    0 <= w@[j as int] <= b2,
            ;
            assert((j + 1) * (b1 as int) * (b2 as int) == j * (b1 as int) * (b2 as int) + (
            b1 as int) * (b2 as int)) by (nonlinear_arith);
            assert((j + 1) * (b1 as int) * (b2 as int) <= 64 * 2_000_000_000 * 2_000_000_000)
                by (nonlinear_arith)
                requires
                    0 <= j + 1 <= 64,
                    0 <= b1 <= 2_000_000_000,
                    0 <= b2 <= 2_000_000_000,
            ;
        }
        acc = acc + (v[j] as i128) * (w[j] as i128);
        j += 1;
    }
    proof {
        assert(v@.take(n as int) =~= v@);
        assert(w@.take(n as int) =~= w@);
    }
    acc
}

/// Number of set flags.
pub open spec fn count_true(s: Seq<bool>) -> int
    decreases s.len(),
{
    if s.len() == 0 {
        0
    } else {
        count_true(s.drop_last()) + if s.last() {
            1int
        } else {
            0int
        }
    }
}

pub proof fn lemma_count_true_bounds(s: Seq<bool>)
    ensures
        0 <= count_true(s) <= s.len(),
    decreases s.len(),
{
    if s.len() > 0 {
        lemma_count_true_bounds(s.drop_last());
    }
}

pub proof fn lemma_count_true_update(s: Seq<bool>, i: int, v: bool)
    requires
        0 <= i < s.len(),
    ensures
        count_true(s.update(i, v)) == count_true(s) - (if s[i] {
            1int
        } else {
            0int
        }) + (if v {
            1int
        } else {
            0int
        }),
    decreases s.len(),
{
    if i == s.len() - 1 {
        assert(s.update(i, v).drop_last() =~= s.drop_last());
        assert(s.update(i, v).last() == v);
    } else {
        assert(s.update(i, v).drop_last() =~= s.drop_last().update(i, v));
        assert(s.update(i, v).last() == s.last());
        lemma_count_true_update(s.drop_last(), i, v);
    }
}

pub proof fn lemma_count_true_none(s: Seq<bool>)
    requires
        forall|i: int| 0 <= i < s.len() ==> !(#[trigger] s[i]),
    ensures
        count_true(s) == 0,
    decreases s.len(),
{
    if s.len() > 0 {
        assert forall|i: int|
            0 <= i < s.drop_last().len() implies !(#[trigger] s.drop_last()[i]) by {
            assert(!s[i]);
            assert(s.drop_last()[i] == s[i]);
        }
        lemma_count_true_none(s.drop_last());
        assert(!s[s.len() - 1]);
    }
}

pub proof fn lemma_count_true_all(s: Seq<bool>)
    requires
        forall|i: int| 0 <= i < s.len() ==> #[trigger] s[i],
    ensures
        count_true(s) == s.len(),
    decreases s.len(),
{
    if s.len() > 0 {
        assert forall|i: int| 0 <= i < s.drop_last().len() implies #[trigger] s.drop_last()[i] by {
            assert(s[i]);
            assert(s.drop_last()[i] == s[i]);
        }
        lemma_count_true_all(s.drop_last());
        assert(s[s.len() - 1]);
    }
}

/// The flattening of the first `j` fronts, in order.
pub open spec fn flat_prefix(pf: Seq<Seq<Point>>, j: int) -> Seq<Point>
    decreases j,
{
    if j <= 0 {
        Seq::empty()
    } else {
        flat_prefix(pf, j - 1) + pf[j - 1]
    }
}

/// Rebuilds a set of points with normalised objective vectors computed
/// from the given ideal point and intercepts.
#[verifier::loop_isolation(false)]
fn rescale_points(pts: &Vec<Point>, ideal: &Vec<i64>, ics: &Vec<i64>) -> (r: Vec<Point>)
    requires
        fitness_ok(pts@, ideal@.len() as int),
        ics@.len() == ideal@.len(),
        forall|j: int| 0 <= j < ideal@.len() ==> -FIT_BOUND <= #[trigger] ideal@[j] <= FIT_BOUND,
        forall|j: int|
            0 <= j < ics@.len() ==> -3 * FIT_BOUND <= #[trigger] ics@[j] <= 3 * FIT_BOUND,
        forall|i: int, j: int|
            0 <= i < pts@.len() && 0 <= j < ideal@.len() ==> ideal@[j] <= #[trigger] pts@[i].fitness@[j],
    ensures
        normalised_points(pts@, r@, ideal@, ics@),
        norm_ok(r@, ideal@.len() as int),
{
    let m: usize = ideal.len();
    let mut r: Vec<Point> = Vec::new();
    let mut i: usize = 0;
    while i < pts.len()
        invariant
            i <= pts@.len(),
            r@.len() == i,
            forall|q: int|
                0 <= q < i ==> ((#[trigger] r@[q]).coord@ == pts@[q].coord@ && r@[q].fitness@
                    == pts@[q].fitness@ && r@[q].norm_fitness@.len() == m && (forall|j: int|
                    0 <= j < m ==> #[trigger] r@[q].norm_fitness@[j] == norm_value(
                        pts@[q].fitness@[j],
                        ideal@[j],
                        ics@[j],
                    ))),
            forall|q: int, j: int|
                0 <= q < i && 0 <= j < m ==> 0 <= #[trigger] r@[q].norm_fitness@[j] <= NORM_BOUND,
        decreases pts@.len() - i,
    {
        let mut nf: Vec<i64> = Vec::new();
        let mut j: usize = 0;
        while j < m
            invariant
                i < pts@.len(),
                j <= m,
                nf@.len() == j,
                forall|q: int|
                    0 <= q < j ==> #[trigger] nf@[q] == norm_value(
                        pts@[i as int].fitness@[q],
                        ideal@[q],
                        ics@[q],
                    ),
                forall|q: int| 0 <= q < j ==> 0 <= #[trigger] nf@[q] <= NORM_BOUND,
            decreases m - j,
        {
            let f: i64 = pts[i].fitness[j];
            let id: i64 = ideal[j];
            let d0: i64 = ics[j] - id;
            let den: i64 = if d0 <= 0 {
                SCALE
            } else {
                d0
            };
            let raw: i64 = (f - id) * SCALE / den;
            let v: i64 = if raw > NORM_BOUND {
                NORM_BOUND
            } else {
                raw
            };
            nf.push(v);
            j += 1;
        }
        r.push(
            Point {
                coord: copy_vec_i64(&pts[i].coord),
                fitness: copy_vec_i64(&pts[i].fitness),
                norm_fitness: nf,
            },
        );
        i += 1;
    }
    r
}

impl Nsga3 {
    /// A fresh state with default settings: a target population of one
    /// hundred, five objectives, and the ideal point starting at the
    /// origin.
    pub fn new() -> (r: Nsga3)
        ensures
            r.parent_pop@.len() == 0,
            r.ref_points@.len() == 0,
            r.pop_size == 100,
            r.ideal_point@ =~= seq![0i64, 0i64, 0i64, 0i64, 0i64],
    {
        let mut ideal: Vec<i64> = Vec::new();
        let mut j: usize = 0;
        while j < 5
            invariant
                j <= 5,
                ideal@.len() == j,
                forall|q: int| 0 <= q < j ==> #[trigger] ideal@[q] == 0i64,
            decreases 5 - j,
        {
            ideal.push(0);
            j += 1;
        }
        proof {
            assert(ideal@ =~= seq![0i64, 0i64, 0i64, 0i64, 0i64]);
        }
        Nsga3 { parent_pop: Vec::new(), ref_points: Vec::new(), pop_size: 100, ideal_point: ideal }
    }

    /// A state configured for a run: target size, reference directions and
    /// objective count.
    pub fn with_config(pop_size: usize, ref_points: Vec<Vec<i64>>, nb_obj: usize) -> (r: Nsga3)
        ensures
            r.parent_pop@.len() == 0,
            r.ref_points == ref_points,
            r.pop_size == pop_size,
            r.ideal_point@.len() == nb_obj,
            forall|j: int| 0 <= j < nb_obj ==> #[trigger] r.ideal_point@[j] == 0i64,
    {
        let mut ideal: Vec<i64> = Vec::new();
        let mut j: usize = 0;
        while j < nb_obj
            invariant
                j <= nb_obj,
                ideal@.len() == j,
                forall|q: int| 0 <= q < j ==> #[trigger] ideal@[q] == 0i64,
            decreases nb_obj - j,
        {
            ideal.push(0);
            j += 1;
        }
        Nsga3 { parent_pop: Vec::new(), ref_points, pop_size, ideal_point: ideal }
    }

    /// Accepts whole fronts greedily while they fit into the target size.
    /// Returns the accepted individuals and, when the next front would
    /// overflow the target, that overflow front; `None` means the accepted
    /// set is complete (exactly full, or the fronts ran out first and the
    /// true size is simply smaller).
    pub fn accept_fronts(&self, fronts: Vec<Vec<Point>>) -> (r: (Vec<Point>, Option<Vec<Point>>))
        ensures
            r.0@.len() <= self.pop_size,
            exists|j: int|
                #![trigger flat_prefix(pfront_views(fronts@), j)]
                {
                    &&& 0 <= j <= fronts@.len()
                    &&& r.0@ == flat_prefix(pfront_views(fronts@), j)
                    &&& match r.1 {
                        Option::None => j == fronts@.len() || r.0@.len() == self.pop_size,
                        Option::Some(of) => {
                            &&& j < fronts@.len()
                            &&& of@ == pfront_views(fronts@)[j]
                            &&& r.0@.len() < self.pop_size
                            &&& r.0@.len() + of@.len() > self.pop_size
                        },
                    }
                },
    {
        let ghost pf0 = fronts@;
        let mut fronts = fronts;
        let mut accepted: Vec<Point> = Vec::new();
        let mut k: usize = 0;
        let n_fronts: usize = fronts.len();
        proof {
            assert(pf0.len() == n_fronts as int);
            assert(pf0.skip(0) =~= pf0);
        }
        loop
            invariant
                k <= pf0.len(),
                pf0.len() <= usize::MAX,
                fronts@ == pf0.skip(k as int),
                accepted@ == flat_prefix(pfront_views(pf0), k as int),
                accepted@.len() <= self.pop_size,
            ensures
                k <= pf0.len(),
                fronts@ == pf0.skip(k as int),
                accepted@ == flat_prefix(pfront_views(pf0), k as int),
                accepted@.len() <= self.pop_size,
                k == pf0.len() || accepted@.len() == self.pop_size || accepted@.len()
                    + fronts@[0]@.len() > self.pop_size,
                k < pf0.len() ==> fronts@[0]@ == pfront_views(pf0)[k as int],
            decreases pf0.len() - k,
        {
            if fronts.len() == 0 {
                break ;
            }
            if accepted.len() == self.pop_size {
                break ;
            }
            if fronts[0].len() > self.pop_size - accepted.len() {
                break ;
            }
            let mut front: Vec<Point> = fronts.remove(0);
            proof {
                assert(pf0.skip(k as int)[0] == pf0[k as int]);
                assert(pf0.skip(k as int).subrange(1, pf0.skip(k as int).len() as int) =~= pf0.skip(
                    k as int + 1,
                ));
                assert(pfront_views(pf0)[k as int] == pf0[k as int]@);
            }
            let ghost acc0 = accepted@;
            let ghost fr0 = front@;
            accepted.append(&mut front);
            proof {
                assert(flat_prefix(pfront_views(pf0), k as int + 1) == flat_prefix(
                    pfront_views(pf0),
                    k as int,
                ) + pfront_views(pf0)[k as int]);
                assert(accepted@ == acc0 + fr0);
            }
            k += 1;
        }
        if fronts.len() == 0 {
            proof {
                assert(k == pf0.len());
            }
            return (accepted, Option::None);
        }
        if accepted.len() == self.pop_size {
            return (accepted, Option::None);
        }
        let overflow: Vec<Point> = fronts.remove(0);
        proof {
            assert(pf0.skip(k as int)[0] == pf0[k as int]);
            assert(overflow@ == pfront_views(pf0)[k as int]);
        }
        (accepted, Option::Some(overflow))
    }

    /// Installs a completely accepted set as the next parent population;
    /// its length is the true size the caller reports.
    pub fn finish_generation(&mut self, accepted: Vec<Point>)
        ensures
            final(self).parent_pop == accepted,
            final(self).ref_points == old(self).ref_points,
            final(self).pop_size == old(self).pop_size,
            final(self).ideal_point == old(self).ideal_point,
    {
        self.parent_pop = accepted;
    }

    /// For every objective axis, the index of the individual minimising the
    /// achievement scalarizing value of that axis (ties to the earliest):
    /// the extreme points from which a caller may fit the hyperplane whose
    /// intercepts refine the normalisation.
    #[verifier::loop_isolation(false)]
    pub fn extreme_points(&self, pts: &Vec<Point>) -> (r: Vec<usize>)
        requires
            fitness_ok(pts@, self.ideal_point@.len() as int),
            pts@.len() >= 1,
            self.ideal_point@.len() >= 1,
        ensures
            r@.len() == self.ideal_point@.len(),
            forall|k: int|
                0 <= k < r@.len() ==> #[trigger] r@[k] == best_extreme_upto(
                    crate::sorting::fits_of(pts@),
                    k,
                    pts@.len() as int,
                ),
            forall|k: int| 0 <= k < r@.len() ==> #[trigger] r@[k] < pts@.len(),
    {
        let ghost fs = crate::sorting::fits_of(pts@);
        let m: usize = self.ideal_point.len();
        let mut r: Vec<usize> = Vec::new();
        let mut k: usize = 0;
        while k < m
            invariant
                k <= m,
                r@.len() == k,
                forall|q: int|
                    0 <= q < k ==> #[trigger] r@[q] == best_extreme_upto(
                        fs,
                        q,
                        pts@.len() as int,
                    ),
                forall|q: int| 0 <= q < k ==> #[trigger] r@[q] < pts@.len(),
            decreases m - k,
        {
            let mut best: usize = 0;
            let mut best_val: i64 = Self::asf_value(pts, 0, k, m);
            let mut i: usize = 1;
            while i < pts.len()
                invariant
                    k < m,
                    1 <= i <= pts@.len(),
                    best < i,
                    best as int == best_extreme_upto(fs, k as int, i as int),
                    best_val as int == spec_asf(fs[best as int], k as int),
                decreases pts@.len() - i,
            {
                let v: i64 = Self::asf_value(pts, i, k, m);
                if v < best_val {
                    best = i;
                    best_val = v;
                }
                i += 1;
            }
            r.push(best);
            k += 1;
        }
        r
    }

    /// The achievement scalarizing value of one individual for axis `k`.
    #[verifier::loop_isolation(false)]
    fn asf_value(pts: &Vec<Point>, i: usize, k: usize, m: usize) -> (v: i64)
        requires
            fitness_ok(pts@, m as int),
            i < pts@.len(),
            k < m,
            m >= 1,
        ensures
            v as int == spec_asf(crate::sorting::fits_of(pts@)[i as int], k as int),
    {
        let ghost f = crate::sorting::fits_of(pts@)[i as int];
        let f0: i64 = pts[i].fitness[0];
        let mut acc: i64 = if k == 0 {
            f0
        } else {
            f0 * SCALE
        };
        let mut j: usize = 1;
        while j < m
            invariant
                1 <= j <= m,
                acc as int == asf_upto(f, k as int, j as int),
            decreases m - j,
        {
            let fj: i64 = pts[i].fitness[j];
            let t: i64 = if j == k {
                fj
            } else {
                fj * SCALE
            };
            if t > acc {
                acc = t;
            }
            j += 1;
        }
        acc
    }

    /// Updates the running ideal point from both sets, picks the intercepts
    /// (the supplied plane, or the fallback of ideal plus largest observed
    /// value per axis), and recomputes every normalised objective vector in
    /// both sets.
    #[verifier::loop_isolation(false)]
    pub fn normalise(
        &mut self,
        saturated: &mut Vec<Point>,
        last_front: &mut Vec<Point>,
        plane: Option<&Vec<i64>>,
    )
        requires
            fitness_ok(old(saturated)@, old(self).ideal_point@.len() as int),
            fitness_ok(old(last_front)@, old(self).ideal_point@.len() as int),
            old(saturated)@.len() + old(last_front)@.len() >= 1,
            forall|j: int|
                0 <= j < old(self).ideal_point@.len() ==> -FIT_BOUND <= #[trigger] old(
                    self,
                ).ideal_point@[j] <= FIT_BOUND,
            match plane {
                Option::Some(p) => p@.len() == old(self).ideal_point@.len() && (forall|j: int|
                    0 <= j < p@.len() ==> -FIT_BOUND <= #[trigger] p@[j] <= FIT_BOUND),
                Option::None => true,
            },
        ensures
            final(self).ref_points == old(self).ref_points,
            final(self).pop_size == old(self).pop_size,
            final(self).parent_pop == old(self).parent_pop,
            final(self).ideal_point@.len() == old(self).ideal_point@.len(),
            forall|j: int|
                0 <= j < final(self).ideal_point@.len() ==> #[trigger] final(self).ideal_point@[j]
                    == min_i64(
                    old(self).ideal_point@[j],
                    col_min(
                        crate::sorting::fits_of(old(saturated)@) + crate::sorting::fits_of(
                            old(last_front)@,
                        ),
                        j,
                    ),
                ),
            ({
                let scope = crate::sorting::fits_of(old(saturated)@) + crate::sorting::fits_of(
                    old(last_front)@,
                );
                let ics = match plane {
                    Option::Some(p) => p@,
                    Option::None => fallback_ics(final(self).ideal_point@, scope),
                };
                normalised_points(old(saturated)@, final(saturated)@, final(self).ideal_point@, ics)
                    && normalised_points(
                    old(last_front)@,
                    final(last_front)@,
                    final(self).ideal_point@,
                    ics,
                )
            }),
            norm_ok(final(saturated)@, old(self).ideal_point@.len() as int),
            norm_ok(final(last_front)@, old(self).ideal_point@.len() as int),
    {
        let ghost fs_a = crate::sorting::fits_of(saturated@);
        let ghost fs_b = crate::sorting::fits_of(last_front@);
        let ghost scope = fs_a + fs_b;
        let ghost old_id = self.ideal_point@;
        let m: usize = self.ideal_point.len();
        let na: usize = saturated.len();
        let nb: usize = last_front.len();

        // Column minima and maxima over both sets.
        let mut mins: Vec<i64> = Vec::new();
        let mut maxs: Vec<i64> = Vec::new();
        let mut j: usize = 0;
        while j < m
            invariant
                j <= m,
                mins@.len() == j,
                maxs@.len() == j,
                forall|q: int| 0 <= q < j ==> #[trigger] mins@[q] == col_min(scope, q),
                forall|q: int| 0 <= q < j ==> #[trigger] maxs@[q] == col_max(scope, q),
            decreases m - j,
        {
            let mut mn: i64 = i64::MAX;
            let mut mx: i64 = i64::MIN;
            let mut i: usize = 0;
            while i < na
                invariant
                    j < m,
                    i <= na,
                    mn == col_min(scope.take(i as int), j as int),
                    mx == col_max(scope.take(i as int), j as int),
                decreases na - i,
            {
                proof {
                    assert(scope[i as int] == fs_a[i as int]);
                    assert(fs_a[i as int] == saturated@[i as int].fitness@);
                    assert(scope.take(i + 1) =~= scope.take(i as int).push(scope[i as int]));
                    assert(scope.take(i + 1).drop_last() =~= scope.take(i as int));
                }
                let f: i64 = saturated[i].fitness[j];
                if f < mn {
                    mn = f;
                }
                if f > mx {
                    mx = f;
                }
                i += 1;
            }
            let mut i2: usize = 0;
            while i2 < nb
                invariant
                    j < m,
                    i2 <= nb,
                    mn == col_min(scope.take(na + i2), j as int),
                    mx == col_max(scope.take(na + i2), j as int),
                decreases nb - i2,
            {
                proof {
                    assert(scope[na + i2] == fs_b[i2 as int]);
                    assert(fs_b[i2 as int] == last_front@[i2 as int].fitness@);
                    assert(scope.take(na + i2 + 1) =~= scope.take(na + i2).push(scope[na + i2]));
                    assert(scope.take(na + i2 + 1).drop_last() =~= scope.take(na + i2));
                }
                let f: i64 = last_front[i2].fitness[j];
                if f < mn {
                    mn = f;
                }
                if f > mx {
                    mx = f;
                }
                i2 += 1;
            }
            proof {
                assert(scope.take(na + nb) =~= scope);
            }
            mins.push(mn);
            maxs.push(mx);
            j += 1;
        }

        // Running ideal point.
        let mut new_id: Vec<i64> = Vec::new();
        let mut j2: usize = 0;
        while j2 < m
            invariant
                j2 <= m,
                new_id@.len() == j2,
                forall|q: int|
                    0 <= q < j2 ==> #[trigger] new_id@[q] == min_i64(old_id[q], col_min(scope, q)),
            decreases m - j2,
        {
            let a: i64 = self.ideal_point[j2];
            let b: i64 = mins[j2];
            new_id.push(
                if a < b {
                    a
                } else {
                    b
                },
            );
            j2 += 1;
        }
        self.ideal_point = new_id;

        proof {
            // Ideal point and fallback intercepts stay within bounds, and
            // the ideal never exceeds any observed value.
            assert forall|q: int, i: int|
                0 <= q < m && 0 <= i < scope.len() implies self.ideal_point@[q]
                <= #[trigger] scope[i][q] by {
                lemma_col_min_le(scope, i, q);
            }
            assert forall|q: int| 0 <= q < m implies -FIT_BOUND <= #[trigger] self.ideal_point@[q]
                <= FIT_BOUND by {
                if scope.len() > 0 {
                    assert forall|i: int| 0 <= i < scope.len() implies #[trigger] scope[i][q]
                        >= -FIT_BOUND by {
                        if i < fs_a.len() {
                            assert(scope[i] == saturated@[i].fitness@);
                        } else {
                            assert(scope[i] == last_front@[i - fs_a.len()].fitness@);
                        }
                    }
                    lemma_col_min_lb(scope, q, -(FIT_BOUND as int));
                    lemma_col_min_le(scope, 0, q);
                    assert(scope[0][q] <= FIT_BOUND) by {
                        if 0 < fs_a.len() {
                            assert(scope[0] == saturated@[0].fitness@);
                        } else {
                            assert(scope[0] == last_front@[0].fitness@);
                        }
                    }
                }
            }
        }

        // Intercepts: the supplied plane, or the fallback.
        let mut ics: Vec<i64> = Vec::new();
        match plane {
            Option::Some(p) => {
                ics = copy_vec_i64(p);
            },
            Option::None => {
                proof {
                    assert forall|q: int, i: int|
                        0 <= q < m && 0 <= i < scope.len() implies #[trigger] scope[i][q]
                        <= FIT_BOUND by {
                        if i < fs_a.len() {
                            assert(scope[i] == saturated@[i].fitness@);
                        } else {
                            assert(scope[i] == last_front@[i - fs_a.len()].fitness@);
                        }
                    }
                }
                let mut j3: usize = 0;
                while j3 < m
                    invariant
                        j3 <= m,
                        ics@.len() == j3,
                        forall|q: int|
                            0 <= q < j3 ==> #[trigger] ics@[q] == (self.ideal_point@[q] + col_max(
                                scope,
                                q,
                            )) as i64,
                        forall|q: int|
                            0 <= q < j3 ==> -2 * FIT_BOUND <= #[trigger] ics@[q] <= 2 * FIT_BOUND,
                    decreases m - j3,
                {
                    proof {
                        lemma_col_max_ub(scope, j3 as int, FIT_BOUND as int);
                        lemma_col_max_ge(scope, 0, j3 as int);
                        assert(scope[0][j3 as int] >= -FIT_BOUND);
                    }
                    ics.push(self.ideal_point[j3] + maxs[j3]);
                    j3 += 1;
                }
                proof {
                    assert(ics@ =~= fallback_ics(self.ideal_point@, scope));
                }
            },
        }

        proof {
            assert forall|i: int, q: int|
                0 <= i < saturated@.len() && 0 <= q < m implies self.ideal_point@[q]
                <= #[trigger] saturated@[i].fitness@[q] by {
                assert(scope[i] == fs_a[i]);
                assert(fs_a[i] == saturated@[i].fitness@);
                lemma_col_min_le(scope, i, q);
            }
            assert forall|i: int, q: int|
                0 <= i < last_front@.len() && 0 <= q < m implies self.ideal_point@[q]
                <= #[trigger] last_front@[i].fitness@[q] by {
                assert(scope[na + i] == fs_b[i]);
                assert(fs_b[i] == last_front@[i].fitness@);
                lemma_col_min_le(scope, na + i, q);
            }
        }
        let new_a: Vec<Point> = rescale_points(saturated, &self.ideal_point, &ics);
        let new_b: Vec<Point> = rescale_points(last_front, &self.ideal_point, &ics);
        *saturated = new_a;
        *last_front = new_b;
    }

    /// Assigns every individual to its nearest reference direction by
    /// perpendicular distance in normalised objective space, ties broken by
    /// the earliest direction in enumeration order.
    #[verifier::loop_isolation(false)]
    pub fn associate(&self, pts: &Vec<Point>) -> (r: Vec<usize>)
        requires
            self.ref_points@.len() >= 1,
            ref_rows_ok(self.ref_points@, self.ideal_point@.len() as int),
            norm_ok(pts@, self.ideal_point@.len() as int),
            self.ideal_point@.len() <= 64,
        ensures
            r@.len() == pts@.len(),
            forall|i: int|
                0 <= i < r@.len() ==> #[trigger] r@[i] as int == best_ref_upto(
                    pts@[i].norm_fitness@,
                    self.ref_points@,
                    self.ref_points@.len() as int,
                ),
            forall|i: int| 0 <= i < r@.len() ==> #[trigger] r@[i] < self.ref_points@.len(),
    {
        let ghost refs = self.ref_points@;
        let nref: usize = self.ref_points.len();
        let mut r: Vec<usize> = Vec::new();
        let mut i: usize = 0;
        while i < pts.len()
            invariant
                i <= pts@.len(),
                r@.len() == i,
                forall|q: int|
                    0 <= q < i ==> #[trigger] r@[q] as int == best_ref_upto(
                        pts@[q].norm_fitness@,
                        refs,
                        nref as int,
                    ),
                forall|q: int| 0 <= q < i ==> #[trigger] r@[q] < nref,
            decreases pts@.len() - i,
        {
            let v: &Vec<i64> = &pts[i].norm_fitness;
            let mut best: usize = 0;
            let mut k: usize = 1;
            while k < nref
                invariant
                    i < pts@.len(),
                    1 <= k <= nref,
                    best < k,
                    best as int == best_ref_upto(pts@[i as int].norm_fitness@, refs, k as int),
                decreases nref - k,
            {
                let da: i128 = dot_i128(v, &self.ref_points[k], NORM_BOUND, REF_BOUND);
                let na: i128 = dot_i128(
                    &self.ref_points[k],
                    &self.ref_points[k],
                    REF_BOUND,
                    REF_BOUND,
                );
                let db: i128 = dot_i128(v, &self.ref_points[best], NORM_BOUND, REF_BOUND);
                let nb: i128 = dot_i128(
                    &self.ref_points[best],
                    &self.ref_points[best],
                    REF_BOUND,
                    REF_BOUND,
                );
                proof {
                    assert(0 <= da * da <= 0x1000000000000000000000000) by (nonlinear_arith)
                        requires
                            0 <= da <= 0x1000000000000,
                    ;
                    assert(0 <= db * db <= 0x1000000000000000000000000) by (nonlinear_arith)
                        requires
                            0 <= db <= 0x1000000000000,
                    ;
                    assert(0 <= (da * da) * nb <= 0x40000000000000000000000000000000)
                        by (nonlinear_arith)
                        requires
                            0 <= da * da <= 0x1000000000000000000000000,
                            0 <= nb <= 0x40000000,
                    ;
                    assert(0 <= (db * db) * na <= 0x40000000000000000000000000000000)
                        by (nonlinear_arith)
                        requires
                            0 <= db * db <= 0x1000000000000000000000000,
                            0 <= na <= 0x40000000,
                    ;
                }
                let challenger: i128 = (da * da) * nb;
                let incumbent: i128 = (db * db) * na;
                if challenger > incumbent {
                    best = k;
                }
                k += 1;
            }
            r.push(best);
            i += 1;
        }
        r
    }

    /// Association of the overflow front: the same deterministic rule,
    /// applied to the separately kept set.
    pub fn associate_last_front(&self, last_front: &Vec<Point>) -> (r: Vec<usize>)
        requires
            self.ref_points@.len() >= 1,
            ref_rows_ok(self.ref_points@, self.ideal_point@.len() as int),
            norm_ok(last_front@, self.ideal_point@.len() as int),
            self.ideal_point@.len() <= 64,
        ensures
            r@.len() == last_front@.len(),
            forall|i: int|
                0 <= i < r@.len() ==> #[trigger] r@[i] as int == best_ref_upto(
                    last_front@[i].norm_fitness@,
                    self.ref_points@,
                    self.ref_points@.len() as int,
                ),
            forall|i: int| 0 <= i < r@.len() ==> #[trigger] r@[i] < self.ref_points@.len(),
    {
        self.associate(last_front)
    }

    /// Fills the remaining population slots from the overflow front:
    /// repeatedly picks the least-occupied surviving reference niche,
    /// permanently drops a niche with no remaining candidates, and
    /// otherwise draws one of its candidates uniformly at random.  Exactly
    /// `missing` distinct members of the overflow front join the parents.
    #[verifier::loop_isolation(false)]
    #[verifier::rlimit(60)]
    pub fn niching(
        &mut self,
        associated: &Vec<usize>,
        associated_last_front: &Vec<usize>,
        missing: usize,
        last_front: &Vec<Point>,
        rng: &mut rand::rngs::StdRng,
    ) -> (chosen: Vec<usize>)
        requires
            missing <= last_front@.len(),
            associated_last_front@.len() == last_front@.len(),
            forall|i: int|
                0 <= i < associated_last_front@.len() ==> #[trigger] associated_last_front@[i]
                    < old(self).ref_points@.len(),
            forall|i: int|
                0 <= i < associated@.len() ==> #[trigger] associated@[i] < old(
                    self,
                ).ref_points@.len(),
            old(self).ref_points@.len() >= 1,
            old(self).parent_pop@.len() + missing <= usize::MAX,
            associated@.len() + missing < u64::MAX,
        ensures
            chosen@.len() == missing,
            forall|t: int| 0 <= t < chosen@.len() ==> #[trigger] chosen@[t] < last_front@.len(),
            forall|t1: int, t2: int|
                #![trigger chosen@[t1], chosen@[t2]]
                0 <= t1 < t2 < chosen@.len() ==> chosen@[t1] != chosen@[t2],
            final(self).parent_pop@.len() == old(self).parent_pop@.len() + missing,
            final(self).parent_pop@.take(old(self).parent_pop@.len() as int) == old(
                self,
            ).parent_pop@,
            forall|t: int|
                0 <= t < missing ==> (#[trigger] final(self).parent_pop@[old(
                    self,
                ).parent_pop@.len() + t]).view3() == last_front@[chosen@[t] as int].view3(),
            final(self).ref_points == old(self).ref_points,
            final(self).pop_size == old(self).pop_size,
            final(self).ideal_point == old(self).ideal_point,
    {
        let nref: usize = self.ref_points.len();
        let nf: usize = last_front.len();

        // Occupancy of each niche among the already accepted individuals.
        let mut niche_count: Vec<u64> = Vec::new();
        let mut k0: usize = 0;
        while k0 < nref
            invariant
                k0 <= nref,
                niche_count@.len() == k0,
                forall|k: int| 0 <= k < k0 ==> #[trigger] niche_count@[k] == 0u64,
            decreases nref - k0,
        {
            niche_count.push(0);
            k0 += 1;
        }
        let mut i0: usize = 0;
        while i0 < associated.len()
            invariant
                i0 <= associated@.len(),
                niche_count@.len() == nref,
                forall|k: int| 0 <= k < nref ==> #[trigger] niche_count@[k] <= i0,
            decreases associated@.len() - i0,
        {
            let r0: usize = associated[i0];
            let c0: u64 = niche_count[r0];
            niche_count.set(r0, c0 + 1);
            i0 += 1;
        }

        let mut active: Vec<bool> = Vec::new();
        let mut k1: usize = 0;
        while k1 < nref
            invariant
                k1 <= nref,
                active@.len() == k1,
                forall|k: int| 0 <= k < k1 ==> #[trigger] active@[k],
            decreases nref - k1,
        {
            active.push(true);
            k1 += 1;
        }
        let mut chosen_flags: Vec<bool> = Vec::new();
        let mut i1: usize = 0;
        while i1 < nf
            invariant
                i1 <= nf,
                chosen_flags@.len() == i1,
                forall|i: int| 0 <= i < i1 ==> !(#[trigger] chosen_flags@[i]),
            decreases nf - i1,
        {
            chosen_flags.push(false);
            i1 += 1;
        }
        let mut chosen: Vec<usize> = Vec::new();
        proof {
            lemma_count_true_bounds(active@);
            lemma_count_true_none(chosen_flags@);
        }

        while chosen.len() < missing
            invariant
                chosen@.len() <= missing,
                chosen_flags@.len() == nf,
                active@.len() == nref,
                niche_count@.len() == nref,
                count_true(chosen_flags@) == chosen@.len(),
                forall|kq: int|
                    0 <= kq < nref ==> #[trigger] niche_count@[kq] <= associated@.len()
                        + chosen@.len(),
                0 <= count_true(active@),
                forall|t: int| 0 <= t < chosen@.len() ==> #[trigger] chosen@[t] < nf,
                forall|t: int|
                    0 <= t < chosen@.len() ==> #[trigger] chosen_flags@[chosen@[t] as int],
                forall|t1: int, t2: int|
                    #![trigger chosen@[t1], chosen@[t2]]
                    0 <= t1 < t2 < chosen@.len() ==> chosen@[t1] != chosen@[t2],
                forall|i: int|
                    0 <= i < nf && !(#[trigger] chosen_flags@[i]) ==> active@[associated_last_front@[i] as int],
            decreases missing - chosen@.len(), count_true(active@),
        {
            // The least occupied niche still in play, earliest index first.
            let mut found: bool = false;
            let mut best_r: usize = 0;
            let mut best_c: u64 = 0;
            let mut k: usize = 0;
            while k < nref
                invariant
                    k <= nref,
                    found == (exists|k2: int| 0 <= k2 < k && #[trigger] active@[k2]),
                    found ==> best_r < k && active@[best_r as int],
                decreases nref - k,
            {
                if active[k] {
                    if !found || niche_count[k] < best_c {
                        found = true;
                        best_r = k;
                        best_c = niche_count[k];
                    }
                }
                k += 1;
            }
            proof {
                if !found {
                    lemma_count_true_bounds(chosen_flags@);
                    if forall|i: int| 0 <= i < nf ==> #[trigger] chosen_flags@[i] {
                        lemma_count_true_all(chosen_flags@);
                        assert(chosen@.len() == nf);
                        assert(false);
                    }
                    let i0w: int = choose|i0w: int|
                        0 <= i0w < nf && !(#[trigger] chosen_flags@[i0w]);
                    assert(active@[associated_last_front@[i0w] as int]);
                    assert(false);
                }
            }

            // Candidates of that niche among the unchosen overflow members.
            let mut cands: Vec<usize> = Vec::new();
            let mut i2: usize = 0;
            while i2 < nf
                invariant
                    i2 <= nf,
                    best_r < nref,
                    forall|c: int|
                        0 <= c < cands@.len() ==> #[trigger] cands@[c] < nf
                            && associated_last_front@[cands@[c] as int] == best_r && !chosen_flags@[cands@[c] as int],
                    forall|i: int|
                        0 <= i < i2 && associated_last_front@[i] == best_r && !(
                        #[trigger] chosen_flags@[i]) ==> crate::sorting::contains_ix(cands@, i),
                decreases nf - i2,
            {
                if associated_last_front[i2] == best_r && !chosen_flags[i2] {
                    let ghost cb = cands@;
                    cands.push(i2);
                    proof {
                        assert forall|i: int|
                            0 <= i < i2 + 1 && associated_last_front@[i] == best_r && !(
                            #[trigger] chosen_flags@[i]) implies crate::sorting::contains_ix(
                            cands@,
                            i,
                        ) by {
                            if i < i2 {
                                let t0: int = choose|t0: int|
                                    0 <= t0 < cb.len() && cb[t0] == i;
                                assert(cands@[t0] == i);
                            } else {
                                assert(cands@[cb.len() as int] == i);
                            }
                        }
                    }
                }
                i2 += 1;
            }

            if cands.len() == 0 {
                proof {
                    lemma_count_true_update(active@, best_r as int, false);
                    lemma_count_true_bounds(active@.update(best_r as int, false));
                }
                active.set(best_r, false);
                proof {
                    assert forall|i: int|
                        0 <= i < nf && !(#[trigger] chosen_flags@[i]) implies active@[associated_last_front@[i] as int] by {
                        if associated_last_front@[i] as int == best_r as int {
                            assert(crate::sorting::contains_ix(cands@, i));
                            assert(false);
                        }
                    }
                }
            } else {
                let pick_ix: usize = crate::rng::rand_below(rng, cands.len() as u64) as usize;
                let pick: usize = cands[pick_ix];
                proof {
                    lemma_count_true_update(chosen_flags@, pick as int, true);
                }
                chosen_flags.set(pick, true);
                chosen.push(pick);
                let c1: u64 = niche_count[best_r];
                proof {
                    lemma_count_true_bounds(chosen_flags@);
                }
                niche_count.set(best_r, c1 + 1);
            }
        }

        // Move the chosen members into the parent population.
        let ghost pp0 = self.parent_pop@;
        let mut t: usize = 0;
        while t < chosen.len()
            invariant
                t <= chosen@.len(),
                self.ref_points == old(self).ref_points,
                self.pop_size == old(self).pop_size,
                self.ideal_point == old(self).ideal_point,
                self.parent_pop@.len() == pp0.len() + t,
                self.parent_pop@.take(pp0.len() as int) == pp0,
                forall|q: int|
                    0 <= q < t ==> (#[trigger] self.parent_pop@[pp0.len() + q]).view3()
                        == last_front@[chosen@[q] as int].view3(),
            decreases chosen@.len() - t,
        {
            let idx: usize = chosen[t];
            let ghost ppb = self.parent_pop@;
            self.parent_pop.push(last_front[idx].duplicate());
            proof {
                assert(self.parent_pop@.take(pp0.len() as int) =~= ppb.take(pp0.len() as int));
            }
            t += 1;
        }
        chosen
    }
}

} // verus!
