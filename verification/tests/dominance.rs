use nsga3::maths::SCALE;
use nsga3::problem::dtzl1::DTZL1;
use nsga3::problem::dtzl3::DTZL3;
use nsga3::problem::dtzl6::DTZL6;
use nsga3::problem::dtzl7::DTZL7;
use nsga3::problem::{Domination, Point, PointError, Problem};

fn point(fitness: Vec<i64>) -> Point {
    Point { coord: Vec::new(), fitness, norm_fitness: Vec::new() }
}

#[test]
fn dominates_when_better_everywhere_and_somewhere_strict() {
    let a = point(vec![1, 1]);
    let b = point(vec![1, 0]);
    assert!(matches!(a.domination(&b), Domination::Dominates));
    assert!(matches!(b.domination(&a), Domination::Dominated));
}

#[test]
fn equivalent_when_mutually_nondominating() {
    let a = point(vec![2, 0]);
    let b = point(vec![0, 2]);
    assert!(matches!(a.domination(&b), Domination::Equivalent));
    assert!(matches!(b.domination(&a), Domination::Equivalent));
}

#[test]
fn irreflexive_on_equal_vectors() {
    let a = point(vec![3, 5, 7]);
    let b = point(vec![3, 5, 7]);
    assert!(matches!(a.domination(&b), Domination::Equivalent));
}

#[test]
fn exactly_one_outcome_for_random_pairs() {
    // A small deterministic sweep: for every ordered pair exactly one of
    // the three relations holds, and the reverse pair mirrors it.
    let vals: Vec<Vec<i64>> = vec![
        vec![0, 0],
        vec![1, 0],
        vec![0, 1],
        vec![1, 1],
        vec![2, 1],
        vec![-1, 3],
    ];
    for x in &vals {
        for y in &vals {
            let p = point(x.clone());
            let q = point(y.clone());
            let d1 = p.domination(&q);
            let d2 = q.domination(&p);
            match d1 {
                Domination::Dominates => assert!(matches!(d2, Domination::Dominated)),
                Domination::Dominated => assert!(matches!(d2, Domination::Dominates)),
                Domination::Equivalent => assert!(matches!(d2, Domination::Equivalent)),
            }
        }
    }
}

#[test]
fn point_construction_validates_coordinates() {
    let problem = DTZL1::new(3, 2);
    let ok = Point::new_from(vec![0, SCALE / 2, SCALE], vec![10, 20], &problem);
    match ok {
        Ok(p) => {
            assert_eq!(p.coord, vec![0, SCALE / 2, SCALE]);
            assert_eq!(p.fitness, vec![10, 20]);
            assert!(p.norm_fitness.is_empty());
        }
        Err(_) => panic!("valid coordinates rejected"),
    }

    let out_of_bounds = Point::new_from(vec![0, SCALE + 1, 0], vec![10, 20], &problem);
    assert_eq!(out_of_bounds.unwrap_err(), PointError::InvalidCoord);

    let wrong_dim = Point::new_from(vec![0, 0], vec![10, 20], &problem);
    assert_eq!(wrong_dim.unwrap_err(), PointError::InvalidCoord);
}

#[test]
fn problem_capability_reports_its_configuration() {
    let problem = DTZL1::new(9, 5);
    assert_eq!(problem.decision_dim(), 9);
    assert_eq!(problem.objective_dim(), 5);
    assert_eq!(problem.get_bounds(), (0, SCALE));
    assert!(problem.is_coord_allow(&vec![0; 9]));
    assert!(!problem.is_coord_allow(&vec![0; 8]));
    assert!(!problem.is_coord_allow(&vec![-1, 0, 0, 0, 0, 0, 0, 0, 0]));
}

#[test]
fn all_benchmark_variants_share_the_unit_box() {
    let p3 = DTZL3::new(5, 2);
    let p6 = DTZL6::new(5, 2);
    let p7 = DTZL7::new(5, 2);
    assert_eq!(p3.get_bounds(), (0, SCALE));
    assert_eq!(p6.get_bounds(), (0, SCALE));
    assert_eq!(p7.get_bounds(), (0, SCALE));
    assert_eq!(p3.decision_dim(), 5);
    assert_eq!(p6.objective_dim(), 2);
    assert!(p7.is_coord_allow(&vec![SCALE; 5]));
    assert!(!p7.is_coord_allow(&vec![SCALE + 1; 5]));
}

#[test]
fn random_coordinates_are_feasible() {
    let problem = DTZL1::new(7, 3);
    let mut rng = nsga3::rng::rng_from_seed(7);
    for _ in 0..20 {
        let c = problem.generate_random_coord(&mut rng);
        assert!(problem.is_coord_allow(&c));
    }
}
