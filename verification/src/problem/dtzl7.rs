//! The DTZL7 benchmark problem: dimensionality, box bounds and feasibility.
//! Its objective formulas are transcendental floating-point work that the
//! caller evaluates; the selection core only depends on the data below.

use vstd::prelude::*;
use crate::maths::SCALE;
use crate::problem::{coord_in_box, random_coord_in_box, Problem};

verus! {

#[derive(Clone, Copy, Debug)]
pub struct DTZL7 {
    dim_point: usize,
    dim_objective: usize,
}

impl DTZL7 {
    /// The decision space must be strictly larger than the objective space.
    pub fn new(dim_point: usize, dim_objective: usize) -> (r: DTZL7)
        requires
            dim_point > dim_objective,
        ensures
            r.spec_decision_dim() == dim_point as int,
            r.spec_objective_dim() == dim_objective as int,
            r.spec_lower() == 0i64,
            r.spec_upper() == SCALE,
    {
        DTZL7 { dim_point, dim_objective }
    }
}

impl Problem for DTZL7 {
    closed spec fn spec_decision_dim(&self) -> int {
        self.dim_point as int
    }

    closed spec fn spec_objective_dim(&self) -> int {
        self.dim_objective as int
    }

    closed spec fn spec_lower(&self) -> i64 {
        0i64
    }

    closed spec fn spec_upper(&self) -> i64 {
        SCALE
    }

    proof fn bounds_consistent(&self) {
    }

    fn decision_dim(&self) -> usize {
        self.dim_point
    }

    fn objective_dim(&self) -> usize {
        self.dim_objective
    }

    fn get_bounds(&self) -> (i64, i64) {
        (0i64, SCALE)
    }

    fn is_coord_allow(&self, coord: &Vec<i64>) -> bool {
        coord_in_box(coord, self.dim_point, 0i64, SCALE)
    }

    fn generate_random_coord(&self, rng: &mut rand::rngs::StdRng) -> Vec<i64> {
        random_coord_in_box(self.dim_point, 0i64, SCALE, rng)
    }
}

} // verus!
