use nsga3::maths::SCALE;
use nsga3::rng::rng_from_seed;
use nsga3::sbx::{crossover_mask, pick_pair, sbx_coordinate, sbx_crossover};

#[test]
fn children_average_and_spread_exactly() {
    // With a spread factor of one the children reproduce the parents.
    let (c1, c2) = sbx_coordinate(0, SCALE, SCALE, 0, SCALE);
    assert_eq!((c1, c2), (0, SCALE));
    // With a zero spread factor both children sit at the parents' mean.
    let (c1, c2) = sbx_coordinate(0, SCALE, 0, 0, SCALE);
    assert_eq!((c1, c2), (SCALE / 2, SCALE / 2));
}

#[test]
fn children_stay_inside_the_box_for_any_spread() {
    let lower: i64 = 0;
    let upper: i64 = SCALE;
    let spreads = vec![0, 1, SCALE / 2, SCALE, 3 * SCALE, 1_000_000_000];
    let pairs = vec![(0, SCALE), (SCALE / 4, SCALE / 3), (SCALE, SCALE), (0, 0)];
    for &(p1, p2) in &pairs {
        for &bq in &spreads {
            let (c1, c2) = sbx_coordinate(p1, p2, bq, lower, upper);
            assert!(lower <= c1 && c1 <= upper);
            assert!(lower <= c2 && c2 <= upper);
        }
    }
}

#[test]
fn unmarked_coordinates_are_copied_from_the_parents() {
    let p1 = vec![0, SCALE / 4, SCALE];
    let p2 = vec![SCALE, SCALE / 2, 0];
    let beta_q = vec![3 * SCALE, 3 * SCALE, 3 * SCALE];
    let cross = vec![false, true, false];
    let (c1, c2) = sbx_crossover(&p1, &p2, &beta_q, &cross, 0, SCALE);
    assert_eq!(c1.len(), 3);
    assert_eq!(c2.len(), 3);
    assert_eq!(c1[0], p1[0]);
    assert_eq!(c2[0], p2[0]);
    assert_eq!(c1[2], p1[2]);
    assert_eq!(c2[2], p2[2]);
    for j in 0..3 {
        assert!(0 <= c1[j] && c1[j] <= SCALE);
        assert!(0 <= c2[j] && c2[j] <= SCALE);
    }
}

#[test]
fn parent_pairs_are_distinct_indices() {
    let mut rng = rng_from_seed(99);
    for _ in 0..50 {
        let (i, j) = pick_pair(7, &mut rng);
        assert!(i < 7 && j < 7);
        assert_ne!(i, j);
    }
    // the two-element case must always give both indices
    let (i, j) = pick_pair(2, &mut rng);
    assert!(i < 2 && j < 2 && i != j);
}

#[test]
fn mask_has_the_requested_length() {
    let mut rng = rng_from_seed(1);
    let mask = crossover_mask(12, SCALE * 3 / 10, &mut rng);
    assert_eq!(mask.len(), 12);
    let all = crossover_mask(5, SCALE, &mut rng);
    assert_eq!(all.len(), 5);
    // probability one marks everything, probability zero nothing
    assert!(all.iter().all(|&b| b));
    let none = crossover_mask(5, 0, &mut rng);
    assert!(none.iter().all(|&b| !b));
}
