use nsga3::maths::SCALE;
use nsga3::nsga3::Nsga3;
use nsga3::problem::Point;
use nsga3::rng::rng_from_seed;
use nsga3::sorting::non_dominated_sort;

fn point(fitness: Vec<i64>) -> Point {
    Point { coord: Vec::new(), fitness, norm_fitness: Vec::new() }
}

#[test]
fn new_uses_the_default_configuration() {
    let n = Nsga3::new();
    assert_eq!(n.pop_size, 100);
    assert_eq!(n.ideal_point, vec![0; 5]);
    assert!(n.parent_pop.is_empty());
    assert!(n.ref_points.is_empty());
}

#[test]
fn extreme_points_normalise_to_their_own_axis() {
    // A well-conditioned set whose extremes are axis-aligned: each extreme
    // point normalises to one on its axis and zero elsewhere.
    let mut n = Nsga3::with_config(4, Vec::new(), 2);
    let mut accepted = vec![point(vec![SCALE, 0]), point(vec![0, SCALE])];
    let mut overflow: Vec<Point> = Vec::new();

    let extremes = n.extreme_points(&accepted);
    assert_eq!(extremes, vec![0, 1]);

    n.normalise(&mut accepted, &mut overflow, Some(&vec![SCALE, SCALE]));
    assert_eq!(n.ideal_point, vec![0, 0]);
    assert_eq!(accepted[0].norm_fitness, vec![SCALE, 0]);
    assert_eq!(accepted[1].norm_fitness, vec![0, SCALE]);
}

#[test]
fn normalise_falls_back_to_observed_ranges() {
    // Without a plane, the intercept for each axis is ideal plus the
    // largest observed value, so values rescale against the observed range.
    let mut n = Nsga3::with_config(4, Vec::new(), 2);
    let mut accepted = vec![point(vec![2 * SCALE, 0]), point(vec![0, 2 * SCALE])];
    let mut overflow: Vec<Point> = Vec::new();
    n.normalise(&mut accepted, &mut overflow, None);
    // ideal = (0, 0); intercepts = (2, 2); values normalise to one and zero
    assert_eq!(n.ideal_point, vec![0, 0]);
    assert_eq!(accepted[0].norm_fitness, vec![SCALE, 0]);
    assert_eq!(accepted[1].norm_fitness, vec![0, SCALE]);
}

#[test]
fn ideal_point_is_a_running_minimum() {
    let mut n = Nsga3::with_config(4, Vec::new(), 2);
    let mut a = vec![point(vec![-SCALE, 5]), point(vec![3, -7])];
    let mut b: Vec<Point> = Vec::new();
    n.normalise(&mut a, &mut b, None);
    assert_eq!(n.ideal_point, vec![-SCALE, -7]);
}

#[test]
fn association_is_stable_and_deterministic() {
    // Two reference directions; points near each axis associate to it, and
    // re-running association yields the identical assignment.
    let refs = vec![vec![4, 0], vec![0, 4], vec![2, 2]];
    let mut n = Nsga3::with_config(4, refs, 2);
    let pts = vec![
        Point { coord: Vec::new(), fitness: Vec::new(), norm_fitness: vec![SCALE, 10] },
        Point { coord: Vec::new(), fitness: Vec::new(), norm_fitness: vec![10, SCALE] },
        Point { coord: Vec::new(), fitness: Vec::new(), norm_fitness: vec![SCALE, SCALE] },
    ];
    let a1 = n.associate(&pts);
    assert_eq!(a1, vec![0, 1, 2]);
    let a2 = n.associate(&pts);
    assert_eq!(a1, a2);
    let a3 = n.associate_last_front(&pts);
    assert_eq!(a1, a3);
    // an unrelated state field does not enter the assignment
    n.pop_size = 9;
    assert_eq!(n.associate(&pts), a1);
}

#[test]
fn accept_fronts_takes_whole_fronts_greedily() {
    let n = Nsga3::with_config(3, Vec::new(), 2);
    let fronts = vec![
        vec![point(vec![3, 3]), point(vec![4, 2])],
        vec![point(vec![2, 2])],
        vec![point(vec![1, 1])],
    ];
    let (accepted, overflow) = n.accept_fronts(fronts);
    // the first two fronts fill the target exactly
    assert_eq!(accepted.len(), 3);
    assert!(overflow.is_none());
}

#[test]
fn accept_fronts_reports_the_overflow_front() {
    let n = Nsga3::with_config(2, Vec::new(), 2);
    let fronts = vec![
        vec![point(vec![3, 3])],
        vec![point(vec![2, 2]), point(vec![2, 3])],
    ];
    let (accepted, overflow) = n.accept_fronts(fronts);
    assert_eq!(accepted.len(), 1);
    let of = overflow.expect("the second front must overflow");
    assert_eq!(of.len(), 2);
}

#[test]
fn exhausted_fronts_report_the_true_size() {
    let mut n = Nsga3::with_config(10, Vec::new(), 2);
    let fronts = non_dominated_sort(vec![point(vec![1, 1]), point(vec![2, 0])]);
    let (accepted, overflow) = n.accept_fronts(fronts);
    assert!(overflow.is_none());
    assert_eq!(accepted.len(), 2);
    n.finish_generation(accepted);
    assert_eq!(n.parent_pop.len(), 2);
}

#[test]
fn niching_fills_the_population_exactly() {
    // Three niches; the accepted set occupies niche zero twice, so the
    // least-occupied niches are replenished first, and the parent
    // population ends at exactly the target size.
    let refs = vec![vec![4, 0], vec![0, 4], vec![2, 2]];
    let mut n = Nsga3::with_config(5, refs, 2);
    n.parent_pop = vec![point(vec![9, 9]), point(vec![8, 8]), point(vec![7, 7])];
    let accepted_assoc = vec![0, 0, 1];
    let last_front = vec![
        point(vec![1, 1]),
        point(vec![1, 2]),
        point(vec![2, 1]),
        point(vec![3, 1]),
    ];
    let front_assoc = vec![2, 2, 1, 0];
    let missing = 2;
    let mut rng = rng_from_seed(17);
    let chosen = n.niching(&accepted_assoc, &front_assoc, missing, &last_front, &mut rng);
    assert_eq!(chosen.len(), missing);
    assert_eq!(n.parent_pop.len(), 5);
    // chosen members are distinct members of the overflow front
    assert!(chosen.iter().all(|&i| i < last_front.len()));
    assert_ne!(chosen[0], chosen[1]);
    // the appended parents carry the chosen members' fitness
    assert_eq!(n.parent_pop[3].fitness, last_front[chosen[0]].fitness);
    assert_eq!(n.parent_pop[4].fitness, last_front[chosen[1]].fitness);
}

#[test]
fn niching_handles_a_first_front_larger_than_the_population() {
    // Degenerate case: the first front alone exceeds the target size, so
    // nothing is accepted up front and niching fills every slot.
    let refs = vec![vec![4, 0], vec![0, 4]];
    let pop_size = 3;
    let mut n = Nsga3::with_config(pop_size, refs, 2);
    let front = vec![
        point(vec![4, 0]),
        point(vec![3, 1]),
        point(vec![2, 2]),
        point(vec![1, 3]),
        point(vec![0, 4]),
    ];
    let front_assoc = vec![0, 0, 0, 1, 1];
    let mut rng = rng_from_seed(23);
    let chosen = n.niching(&Vec::new(), &front_assoc, pop_size, &front, &mut rng);
    assert_eq!(chosen.len(), pop_size);
    assert_eq!(n.parent_pop.len(), pop_size);
}

#[test]
fn niching_drops_empty_niches_and_continues() {
    // One niche has no candidates at all: it is dropped, never an error.
    let refs = vec![vec![4, 0], vec![0, 4]];
    let mut n = Nsga3::with_config(1, refs, 2);
    let front = vec![point(vec![1, 1])];
    let front_assoc = vec![1];
    // the accepted set crowds niche one, niche zero is empty in the front
    let accepted_assoc = vec![1, 1];
    let mut rng = rng_from_seed(29);
    let chosen = n.niching(&accepted_assoc, &front_assoc, 1, &front, &mut rng);
    assert_eq!(chosen, vec![0]);
    assert_eq!(n.parent_pop.len(), 1);
}
