use nsga3::problem::{Domination, Point};
use nsga3::sorting::non_dominated_sort;

fn point(fitness: Vec<i64>) -> Point {
    Point { coord: Vec::new(), fitness, norm_fitness: Vec::new() }
}

fn front_fitnesses(front: &Vec<Point>) -> Vec<Vec<i64>> {
    let mut v: Vec<Vec<i64>> = front.iter().map(|p| p.fitness.clone()).collect();
    v.sort();
    v
}

#[test]
fn front_zero_of_the_reference_population() {
    // Under the ">= / >" convention, (1,0) is dominated by (1,1) and (2,0);
    // the other three are mutually non-dominating.
    let pop = vec![
        point(vec![1, 1]),
        point(vec![2, 0]),
        point(vec![0, 2]),
        point(vec![1, 0]),
    ];
    let fronts = non_dominated_sort(pop);
    assert_eq!(fronts.len(), 2);
    assert_eq!(fronts[0].len(), 3);
    assert_eq!(fronts[1].len(), 1);
    let f0 = front_fitnesses(&fronts[0]);
    assert_eq!(f0, vec![vec![0, 2], vec![1, 1], vec![2, 0]]);
    assert_eq!(fronts[1][0].fitness, vec![1, 0]);
}

#[test]
fn fronts_partition_the_population() {
    let raw: Vec<Vec<i64>> = vec![
        vec![5, 1, 1],
        vec![1, 5, 1],
        vec![1, 1, 5],
        vec![4, 4, 4],
        vec![3, 3, 3],
        vec![2, 2, 2],
        vec![5, 5, 5],
        vec![0, 0, 0],
        vec![5, 1, 1],
    ];
    let n = raw.len();
    let pop: Vec<Point> = raw.iter().cloned().map(point).collect();
    let fronts = non_dominated_sort(pop);

    // sizes sum exactly to the input size and every individual appears once
    let total: usize = fronts.iter().map(|f| f.len()).sum();
    assert_eq!(total, n);
    let mut seen: Vec<Vec<i64>> = fronts
        .iter()
        .flat_map(|f| f.iter().map(|p| p.fitness.clone()))
        .collect();
    seen.sort();
    let mut expect = raw.clone();
    expect.sort();
    assert_eq!(seen, expect);

    // no member dominates into an earlier or equal front
    for k in 0..fronts.len() {
        assert!(!fronts[k].is_empty());
        for j in 0..=k {
            for p in &fronts[k] {
                for q in &fronts[j] {
                    assert!(!matches!(p.domination(q), Domination::Dominates));
                }
            }
        }
    }

    // every later-front member is dominated by someone one front earlier
    for k in 1..fronts.len() {
        for p in &fronts[k] {
            assert!(fronts[k - 1]
                .iter()
                .any(|q| matches!(q.domination(p), Domination::Dominates)));
        }
    }
}

#[test]
fn single_front_when_all_equivalent() {
    let pop = vec![point(vec![1, 0]), point(vec![0, 1])];
    let fronts = non_dominated_sort(pop);
    assert_eq!(fronts.len(), 1);
    assert_eq!(fronts[0].len(), 2);
}

#[test]
fn empty_population_yields_no_fronts() {
    let fronts = non_dominated_sort(Vec::new());
    assert!(fronts.is_empty());
}

#[test]
fn chain_gives_singleton_fronts() {
    let pop = vec![point(vec![1, 1]), point(vec![2, 2]), point(vec![3, 3])];
    let fronts = non_dominated_sort(pop);
    assert_eq!(fronts.len(), 3);
    assert_eq!(fronts[0][0].fitness, vec![3, 3]);
    assert_eq!(fronts[1][0].fitness, vec![2, 2]);
    assert_eq!(fronts[2][0].fitness, vec![1, 1]);
}
