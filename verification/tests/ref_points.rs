use nsga3::ref_point_generator::RefPointGenerator;
use nsga3::rng::rng_from_seed;

fn binom_u64(n: u64, k: u64) -> u64 {
    if k > n {
        return 0;
    }
    let mut r: u64 = 1;
    for i in 0..k {
        r = r * (n - i) / (i + 1);
    }
    r
}

#[test]
fn factorial_small_values() {
    assert_eq!(RefPointGenerator::factorial(0), 1);
    assert_eq!(RefPointGenerator::factorial(1), 1);
    assert_eq!(RefPointGenerator::factorial(5), 120);
    assert_eq!(RefPointGenerator::factorial(20), 2432902008176640000);
}

#[test]
fn lattice_point_count_formula() {
    // C(p + d - 1, d - 1)
    assert_eq!(RefPointGenerator::nb_point_das_dennis(3, 4), binom_u64(6, 2));
    assert_eq!(RefPointGenerator::nb_point_das_dennis(2, 12), 13);
    assert_eq!(RefPointGenerator::nb_point_das_dennis(5, 0), 1);
    assert_eq!(RefPointGenerator::nb_point_das_dennis(1, 9), 1);
}

#[test]
fn das_dennis_enumerates_the_simplex_lattice() {
    let p: i64 = 3;
    let d = 3;
    let rows = RefPointGenerator::das_dennis(p as i32, d);
    // exactly C(p + d - 1, d - 1) points
    assert_eq!(rows.len() as u64, binom_u64(5, 2));
    for row in &rows {
        assert_eq!(row.len(), d as usize);
        // each coordinate a nonnegative multiple of 1/p, summing to one
        assert!(row.iter().all(|&c| 0 <= c && c <= p));
        assert_eq!(row.iter().sum::<i64>(), p);
    }
    // pairwise distinct
    let mut sorted = rows.clone();
    sorted.sort();
    sorted.dedup();
    assert_eq!(sorted.len(), rows.len());
}

#[test]
fn das_dennis_single_partition_gives_axis_points() {
    let rows = RefPointGenerator::das_dennis(1, 4);
    assert_eq!(rows.len(), 4);
    for row in &rows {
        assert_eq!(row.iter().sum::<i64>(), 1);
        assert_eq!(row.iter().filter(|&&c| c == 1).count(), 1);
    }
}

#[test]
fn random_point_lies_on_the_integer_simplex() {
    let mut rng = rng_from_seed(11);
    for _ in 0..10 {
        let p = RefPointGenerator::random_point(5, 1024, &mut rng);
        assert_eq!(p.len(), 5);
        assert!(p.iter().all(|&c| 0 <= c && c <= 1024));
        assert_eq!(p.iter().sum::<i64>(), 1024);
    }
}

#[test]
fn reduction_returns_exactly_the_requested_points() {
    let mut rng = rng_from_seed(3);
    let rows = RefPointGenerator::reduction(3, 6, 20, &mut rng);
    assert_eq!(rows.len(), 6);
    let unit: i64 = rows[0].iter().sum();
    assert!(1024 <= unit && unit < 2048);
    for row in &rows {
        assert_eq!(row.len(), 3);
        assert!(row.iter().all(|&c| 0 <= c && c < 4096));
        assert_eq!(row.iter().sum::<i64>(), unit);
    }
}

#[test]
fn riesz_matches_the_reduction_contract() {
    let mut rng = rng_from_seed(5);
    let rows = RefPointGenerator::riesz(4, 8, 16, &mut rng);
    assert_eq!(rows.len(), 8);
    let unit: i64 = rows[0].iter().sum();
    for row in &rows {
        assert_eq!(row.iter().sum::<i64>(), unit);
    }
}
