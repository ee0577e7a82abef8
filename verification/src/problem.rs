//! The problem capability, individuals (points) and the Pareto dominance
//! relation.
//!
//! A problem exposes its dimensionality, box bounds and feasibility test over
//! fixed-point coordinates; objective evaluation itself is numerical work the
//! caller performs, handing the resulting fixed-point objective vector to
//! [`Point::new_from`].

pub mod dtzl1;
pub mod dtzl3;
pub mod dtzl6;
pub mod dtzl7;

use vstd::prelude::*;
use crate::maths::copy_vec_i64;

verus! {

#[derive(Clone, Copy, Debug, PartialEq, Eq, Structural)]
pub enum Domination {
    Dominates,
    Equivalent,
    Dominated,
}

/// `a` Pareto-dominates `b` under the "larger is better" convention:
/// at least as good everywhere and strictly better somewhere.
pub open spec fn dominates(a: Seq<i64>, b: Seq<i64>) -> bool {
    &&& a.len() == b.len()
    &&& (forall|i: int| 0 <= i < a.len() ==> a[i] >= b[i])
    &&& (exists|i: int| 0 <= i < a.len() && a[i] > b[i])
}

/// The three-way outcome of comparing two objective vectors.
pub open spec fn spec_domination(a: Seq<i64>, b: Seq<i64>) -> Domination {
    if dominates(a, b) {
        Domination::Dominates
    } else if dominates(b, a) {
        Domination::Dominated
    } else {
        Domination::Equivalent
    }
}

/// Dominance is irreflexive: no objective vector dominates itself.
pub proof fn lemma_dominates_irreflexive(a: Seq<i64>)
    ensures
        !dominates(a, a),
{
    if dominates(a, a) {
        let i: int = choose|i: int| 0 <= i < a.len() && a[i] > a[i];
        assert(false);
    }
}

/// Dominance is asymmetric: the relation never holds in both directions.
pub proof fn lemma_dominates_asymmetric(a: Seq<i64>, b: Seq<i64>)
    requires
        dominates(a, b),
    ensures
        !dominates(b, a),
{
    let i: int = choose|i: int| 0 <= i < a.len() && a[i] > b[i];
    if dominates(b, a) {
        assert(b[i] >= a[i]);
    }
}

/// Dominance is transitive.
pub proof fn lemma_dominates_transitive(a: Seq<i64>, b: Seq<i64>, c: Seq<i64>)
    requires
        dominates(a, b),
        dominates(b, c),
    ensures
        dominates(a, c),
{
    let i: int = choose|i: int| 0 <= i < a.len() && a[i] > b[i];
    assert(b[i] >= c[i]);
    assert(0 <= i < a.len() && a[i] > c[i]);
}

/// For any ordered pair of equally long vectors, exactly one of the three
/// outcomes holds, and which one is fixed by the dominance relation alone.
pub proof fn lemma_domination_trichotomy(a: Seq<i64>, b: Seq<i64>)
    requires
        a.len() == b.len(),
    ensures
        (spec_domination(a, b) == Domination::Dominates) == dominates(a, b),
        (spec_domination(a, b) == Domination::Dominated) == dominates(b, a),
        (spec_domination(a, b) == Domination::Equivalent) == (!dominates(a, b) && !dominates(
            b,
            a,
        )),
{
    if dominates(a, b) {
        lemma_dominates_asymmetric(a, b);
    }
}

/// A coordinate vector of the right dimension whose entries all lie in the
/// problem's box bounds.
pub open spec fn valid_coord(c: Seq<i64>, dim: int, lo: i64, hi: i64) -> bool {
    &&& c.len() == dim
    &&& (forall|i: int| 0 <= i < c.len() ==> lo <= #[trigger] c[i] <= hi)
}

/// What the selection core needs from an optimisation problem: its two
/// dimensionalities, shared scalar box bounds, a feasibility test and a
/// random feasible coordinate generator.  Objective evaluation is numerical
/// work outside this capability.
pub trait Problem: Sized {
    /// Number of decision variables.
    spec fn spec_decision_dim(&self) -> int;

    /// Number of objectives.
    spec fn spec_objective_dim(&self) -> int;

    /// Lower box bound, shared by every decision variable.
    spec fn spec_lower(&self) -> i64;

    /// Upper box bound, shared by every decision variable.
    spec fn spec_upper(&self) -> i64;

    /// The bounds of any problem form a non-empty box.
    proof fn bounds_consistent(&self)
        ensures
            self.spec_lower() <= self.spec_upper(),
    ;

    fn decision_dim(&self) -> (r: usize)
        ensures
            r as int == self.spec_decision_dim(),
    ;

    fn objective_dim(&self) -> (r: usize)
        ensures
            r as int == self.spec_objective_dim(),
    ;

    fn get_bounds(&self) -> (r: (i64, i64))
        ensures
            r.0 == self.spec_lower(),
            r.1 == self.spec_upper(),
    ;

    fn is_coord_allow(&self, coord: &Vec<i64>) -> (r: bool)
        ensures
            r == valid_coord(
                coord@,
                self.spec_decision_dim(),
                self.spec_lower(),
                self.spec_upper(),
            ),
    ;

    fn generate_random_coord(&self, rng: &mut rand::rngs::StdRng) -> (r: Vec<i64>)
        ensures
            valid_coord(r@, self.spec_decision_dim(), self.spec_lower(), self.spec_upper()),
    ;
}

/// Shared implementation of the box-bounds feasibility test.
pub fn coord_in_box(coord: &Vec<i64>, dim: usize, lo: i64, hi: i64) -> (r: bool)
    ensures
        r == valid_coord(coord@, dim as int, lo, hi),
{
    if coord.len() != dim {
        return false;
    }
    let mut i: usize = 0;
    while i < coord.len()
        invariant
            i <= coord@.len(),
            forall|j: int| 0 <= j < i ==> lo <= #[trigger] coord@[j] <= hi,
        decreases coord@.len() - i,
    {
        if coord[i] < lo || coord[i] > hi {
            return false;
        }
        i += 1;
    }
    true
}

/// Shared implementation of uniform sampling inside the box.
pub fn random_coord_in_box(dim: usize, lo: i64, hi: i64, rng: &mut rand::rngs::StdRng) -> (r: Vec<
    i64,
>)
    requires
        lo <= hi,
        hi - lo < u64::MAX,
        hi - lo <= i64::MAX,
    ensures
        valid_coord(r@, dim as int, lo, hi),
{
    let span: u64 = (hi - lo) as u64;
    let mut r: Vec<i64> = Vec::new();
    let mut i: usize = 0;
    while i < dim
        invariant
            i <= dim,
            r@.len() == i,
            lo <= hi,
            hi - lo <= i64::MAX,
            span == hi - lo,
            forall|j: int| 0 <= j < i ==> lo <= #[trigger] r@[j] <= hi,
        decreases dim - i,
    {
        let draw: u64 = crate::rng::rand_below(rng, span + 1);
        let c: i64 = lo + draw as i64;
        r.push(c);
        i += 1;
    }
    r
}

/// An individual: a decision vector, its fixed-point objective vector, and a
/// normalised objective vector that is filled in by the normaliser.
#[derive(Debug)]
pub struct Point {
    pub coord: Vec<i64>,
    pub fitness: Vec<i64>,
    pub norm_fitness: Vec<i64>,
}

#[derive(Clone, Copy, Debug, PartialEq, Eq, Structural)]
pub enum PointError {
    /// The supplied coordinate vector fails the problem's feasibility test.
    InvalidCoord,
}

impl Point {
    /// The three vectors of a point, as one mathematical value.
    pub open spec fn view3(self) -> (Seq<i64>, Seq<i64>, Seq<i64>) {
        (self.coord@, self.fitness@, self.norm_fitness@)
    }

    /// An exact copy; cloning never shares or alters the vectors.
    pub fn duplicate(&self) -> (r: Point)
        ensures
            r.view3() == self.view3(),
    {
        Point {
            coord: copy_vec_i64(&self.coord),
            fitness: copy_vec_i64(&self.fitness),
            norm_fitness: copy_vec_i64(&self.norm_fitness),
        }
    }

    /// Builds a point from an externally supplied coordinate vector and its
    /// evaluated objective vector, rejecting infeasible coordinates.
    ///
    /// The objective vector must come from the problem's evaluator, so its
    /// dimension is a construction-site obligation, not a runtime condition.
    pub fn new_from<P: Problem>(coord: Vec<i64>, fitness: Vec<i64>, problem: &P) -> (r: Result<
        Point,
        PointError,
    >)
        requires
            fitness@.len() == problem.spec_objective_dim(),
        ensures
            match r {
                Ok(p) => {
                    &&& valid_coord(
                        coord@,
                        problem.spec_decision_dim(),
                        problem.spec_lower(),
                        problem.spec_upper(),
                    )
                    &&& p.coord@ == coord@
                    &&& p.fitness@ == fitness@
                    &&& p.norm_fitness@.len() == 0
                },
                Err(e) => {
                    &&& e == PointError::InvalidCoord
                    &&& !valid_coord(
                        coord@,
                        problem.spec_decision_dim(),
                        problem.spec_lower(),
                        problem.spec_upper(),
                    )
                },
            },
    {
        if problem.is_coord_allow(&coord) {
            Ok(Point { coord, fitness, norm_fitness: Vec::new() })
        } else {
            Err(PointError::InvalidCoord)
        }
    }

    /// Three-way Pareto comparison of the two fitness vectors.
    pub fn domination(&self, other: &Point) -> (r: Domination)
        requires
            self.fitness@.len() == other.fitness@.len(),
        ensures
            r == spec_domination(self.fitness@, other.fitness@),
    {
        let n: usize = self.fitness.len();
        let mut all_ge: bool = true;
        let mut any_gt: bool = false;
        let mut all_le: bool = true;
        let mut any_lt: bool = false;
        let mut i: usize = 0;
        while i < n
            invariant
                i <= n,
                n == self.fitness@.len(),
                n == other.fitness@.len(),
                all_ge == (forall|j: int| 0 <= j < i ==> self.fitness@[j] >= other.fitness@[j]),
                any_gt == (exists|j: int| 0 <= j < i && self.fitness@[j] > other.fitness@[j]),
                all_le == (forall|j: int| 0 <= j < i ==> self.fitness@[j] <= other.fitness@[j]),
                any_lt == (exists|j: int| 0 <= j < i && self.fitness@[j] < other.fitness@[j]),
            decreases n - i,
        {
            let a: i64 = self.fitness[i];
            let b: i64 = other.fitness[i];
            if a < b {
                all_ge = false;
                any_lt = true;
            } else if a > b {
                all_le = false;
                any_gt = true;
            }
            i += 1;
        }
        if all_ge && any_gt {
            Domination::Dominates
        } else if all_le && any_lt {
            Domination::Dominated
        } else {
            Domination::Equivalent
        }
    }
}

} // verus!
