//! Selection core of the NSGA-III many-objective evolutionary algorithm.
//!
//! Objective values, decision variables and reference directions are held as
//! fixed-point integers (see [`maths::SCALE`]); all ranking, normalisation,
//! association and niching decisions are verified over that representation.

pub mod maths;
pub mod nsga3;
pub mod problem;
pub mod ref_point_generator;
pub mod rng;
pub mod sbx;
pub mod sorting;
