//! Non-dominated sorting: partitions a population into Pareto fronts of
//! increasing rank.  Front 0 is the non-dominated subset of the whole input;
//! every member of front `k + 1` is dominated by some member of front `k`,
//! and no member ever dominates a member of an earlier or equal front.

use vstd::prelude::*;
use vstd::set_lib::lemma_len_subset;
use crate::problem::{
    dominates, lemma_dominates_irreflexive, lemma_dominates_transitive, Domination, Point,
};

verus! {

/// The fitness rows of a population.
pub open spec fn fits_of(ps: Seq<Point>) -> Seq<Seq<i64>> {
    ps.map_values(|p: Point| p.fitness@)
}

/// Every pair of rows has the same length.
pub open spec fn uniform_lens(fs: Seq<Seq<i64>>) -> bool {
    forall|i: int, j: int|
        #![trigger fs[i], fs[j]]
        0 <= i < fs.len() && 0 <= j < fs.len() ==> fs[i].len() == fs[j].len()
}

/// The index fronts, as mathematical sequences.
pub open spec fn ix_views(fronts: Seq<Vec<usize>>) -> Seq<Seq<usize>> {
    fronts.map_values(|f: Vec<usize>| f@)
}

/// The point fronts, as mathematical sequences.
pub open spec fn pfront_views(fronts: Seq<Vec<Point>>) -> Seq<Seq<Point>> {
    fronts.map_values(|f: Vec<Point>| f@)
}

/// Number of entries over all fronts.
pub open spec fn total_len<A>(s: Seq<Seq<A>>) -> int
    decreases s.len(),
{
    if s.len() == 0 {
        0
    } else {
        total_len(s.drop_last()) + s.last().len()
    }
}

/// Index `i` occurs somewhere in the fronts.
pub open spec fn appears(ixs: Seq<Seq<usize>>, i: int) -> bool {
    exists|k: int, t: int| 0 <= k < ixs.len() && 0 <= t < ixs[k].len() && ixs[k][t] == i
}

/// The fronts hold indices below `n`, pairwise distinct, and every index
/// below `n` occurs: together, a partition of the population's indices.
pub open spec fn fronts_partition(ixs: Seq<Seq<usize>>, n: int) -> bool {
    &&& (forall|k: int, t: int|
        0 <= k < ixs.len() && 0 <= t < ixs[k].len() ==> #[trigger] ixs[k][t] < n)
    &&& (forall|k1: int, t1: int, k2: int, t2: int|
        #![trigger ixs[k1][t1], ixs[k2][t2]]
        0 <= k1 < ixs.len() && 0 <= t1 < ixs[k1].len() && 0 <= k2 < ixs.len() && 0 <= t2
            < ixs[k2].len() && (k1 != k2 || t1 != t2) ==> ixs[k1][t1] != ixs[k2][t2])
    &&& (forall|i: int| 0 <= i < n ==> appears(ixs, i))
}

/// Some entry of `front` dominates row `i`.
pub open spec fn contains_dominator(front: Seq<usize>, fs: Seq<Seq<i64>>, i: int) -> bool {
    exists|u: int|
        #![trigger front[u]]
        0 <= u < front.len() && dominates(fs[front[u] as int], fs[i])
}

/// Every entry of `cur` is dominated by some entry of `prev`.
pub open spec fn supported_by(cur: Seq<usize>, prev: Seq<usize>, fs: Seq<Seq<i64>>) -> bool {
    forall|t: int|
        #![trigger cur[t]]
        0 <= t < cur.len() ==> contains_dominator(prev, fs, cur[t] as int)
}

/// The ranking property of the fronts: no member dominates into an earlier
/// or equal front, and each member of front `k >= 1` is dominated by some
/// member of front `k - 1`.
pub open spec fn fronts_ranked(ixs: Seq<Seq<usize>>, fs: Seq<Seq<i64>>) -> bool {
    &&& (forall|k: int, j: int, t: int, u: int|
        #![trigger ixs[k][t], ixs[j][u]]
        0 <= j <= k < ixs.len() && 0 <= t < ixs[k].len() && 0 <= u < ixs[j].len()
            ==> !dominates(fs[ixs[k][t] as int], fs[ixs[j][u] as int]))
    &&& (forall|k: int|
        #![trigger ixs[k]]
        1 <= k < ixs.len() ==> supported_by(ixs[k], ixs[k - 1], fs))
}

/// Any finite non-empty set of rows has a member that no member of the set
/// dominates: dominance is a strict partial order, so a maximal row exists.
pub proof fn lemma_exists_undominated(fs: Seq<Seq<i64>>, s: Set<int>)
    requires
        s.finite(),
        s.len() > 0,
        forall|i: int| s.contains(i) ==> 0 <= i < fs.len(),
    ensures
        exists|i: int|
            #![trigger s.contains(i)]
            s.contains(i) && (forall|j: int|
                #[trigger] s.contains(j) ==> !dominates(fs[j], fs[i])),
    decreases s.len(),
{
    if forall|x: int| !s.contains(x) {
        assert(s =~= Set::empty());
    }
    let x: int = choose|x: int| s.contains(x);
    let d: Set<int> = Set::new(|j: int| s.contains(j) && dominates(fs[j], fs[x]));
    if exists|j: int| d.contains(j) {
        let j0: int = choose|j: int| d.contains(j);
        lemma_dominates_irreflexive(fs[x]);
        assert(!d.contains(x));
        assert(d.subset_of(s.remove(x)));
        lemma_len_subset(d, s.remove(x));
        assert(d.remove(j0).len() == d.len() - 1);
        lemma_exists_undominated(fs, d);
        let i: int = choose|i: int|
            #![trigger d.contains(i)]
            d.contains(i) && (forall|j: int| d.contains(j) ==> !dominates(fs[j], fs[i]));
        assert forall|j: int| s.contains(j) implies !dominates(fs[j], fs[i]) by {
            if dominates(fs[j], fs[i]) {
                lemma_dominates_transitive(fs[j], fs[i], fs[x]);
                assert(d.contains(j));
            }
        }
        assert(s.contains(i) && (forall|j: int| s.contains(j) ==> !dominates(fs[j], fs[i])));
    } else {
        assert forall|j: int| s.contains(j) implies !dominates(fs[j], fs[x]) by {
            if dominates(fs[j], fs[x]) {
                assert(d.contains(j));
            }
        }
        assert(s.contains(x) && (forall|j: int| s.contains(j) ==> !dominates(fs[j], fs[x])));
    }
}

/// A row dominated by some member of a finite set is dominated by a member
/// that the set itself leaves undominated.
pub proof fn lemma_maximal_dominator(fs: Seq<Seq<i64>>, s: Set<int>, x: int)
    requires
        s.finite(),
        forall|i: int| s.contains(i) ==> 0 <= i < fs.len(),
        0 <= x < fs.len(),
        exists|j: int| #[trigger] s.contains(j) && dominates(fs[j], fs[x]),
    ensures
        exists|i: int|
            #![trigger s.contains(i)]
            s.contains(i) && dominates(fs[i], fs[x]) && (forall|j: int|
                s.contains(j) ==> !dominates(fs[j], fs[i])),
{
    let d: Set<int> = Set::new(|j: int| s.contains(j) && dominates(fs[j], fs[x]));
    let j0: int = choose|j: int| #[trigger] s.contains(j) && dominates(fs[j], fs[x]);
    assert(d.contains(j0));
    assert(d.subset_of(s));
    lemma_len_subset(d, s);
    assert(d.remove(j0).len() == d.len() - 1);
    lemma_exists_undominated(fs, d);
    let i: int = choose|i: int|
        #![trigger d.contains(i)]
        d.contains(i) && (forall|j: int| d.contains(j) ==> !dominates(fs[j], fs[i]));
    assert forall|j: int| s.contains(j) implies !dominates(fs[j], fs[i]) by {
        if dominates(fs[j], fs[i]) {
            lemma_dominates_transitive(fs[j], fs[i], fs[x]);
            assert(d.contains(j));
        }
    }
    assert(s.contains(i) && dominates(fs[i], fs[x]) && (forall|j: int|
        s.contains(j) ==> !dominates(fs[j], fs[i])));
}

/// Indices of the population not yet placed into a front.
pub open spec fn unplaced_set(placed: Seq<bool>) -> Set<int> {
    Set::new(|i: int| 0 <= i < placed.len() && !placed[i])
}

/// `c` holds index `i`.
pub open spec fn contains_ix(c: Seq<usize>, i: int) -> bool {
    exists|t: int| 0 <= t < c.len() && c[t] == i
}

/// No row whose index is still unplaced dominates row `i`.
pub open spec fn undominated_in_unplaced(fs: Seq<Seq<i64>>, placed: Seq<bool>, i: int) -> bool {
    forall|j: int|
        #![trigger dominates(fs[j], fs[i])]
        0 <= j < placed.len() && !placed[j] ==> !dominates(fs[j], fs[i])
}

/// After one peeling round, the marked population and the extended front
/// list satisfy every invariant of the outer sorting loop again.
proof fn establish_after_round(
    fs: Seq<Seq<i64>>,
    ixse: Seq<Seq<usize>>,
    cur: Seq<usize>,
    placede: Seq<bool>,
    placedf: Seq<bool>,
    n: int,
)
    requires
        fs.len() == n,
        placede.len() == n,
        placedf.len() == n,
        unplaced_set(placede).finite(),
        forall|i: int| 0 <= i < n ==> (placede[i] <==> appears(ixse, i)),
        forall|k: int, t: int|
            0 <= k < ixse.len() && 0 <= t < ixse[k].len() ==> #[trigger] ixse[k][t] < n,
        forall|k1: int, t1: int, k2: int, t2: int|
            #![trigger ixse[k1][t1], ixse[k2][t2]]
            0 <= k1 < ixse.len() && 0 <= t1 < ixse[k1].len() && 0 <= k2 < ixse.len() && 0 <= t2
                < ixse[k2].len() && (k1 != k2 || t1 != t2) ==> ixse[k1][t1] != ixse[k2][t2],
        fronts_ranked(ixse, fs),
        forall|k: int, t: int|
            0 <= k < ixse.len() && 0 <= t < ixse[k].len() ==> undominated_in_unplaced(
                fs,
                placede,
                #[trigger] ixse[k][t] as int,
            ),
        ixse.len() > 0 ==> (forall|i: int|
            0 <= i < n && !placede[i] ==> contains_dominator(ixse.last(), fs, i)),
        cur.len() > 0,
        forall|t: int| 0 <= t < cur.len() ==> #[trigger] cur[t] < n,
        forall|t1: int, t2: int| 0 <= t1 < t2 < cur.len() ==> cur[t1] < cur[t2],
        forall|t: int| 0 <= t < cur.len() ==> !placede[#[trigger] cur[t] as int],
        forall|t: int|
            0 <= t < cur.len() ==> undominated_in_unplaced(fs, placede, #[trigger] cur[t] as int),
        forall|i2: int|
            0 <= i2 < n && !placede[i2] && #[trigger] undominated_in_unplaced(fs, placede, i2)
                ==> contains_ix(cur, i2),
        forall|i2: int| 0 <= i2 < n ==> (placedf[i2] <==> (placede[i2] || contains_ix(cur, i2))),
    ensures
        forall|i: int| 0 <= i < n ==> (placedf[i] <==> appears(ixse.push(cur), i)),
        forall|k: int, t: int|
            0 <= k < ixse.push(cur).len() && 0 <= t < ixse.push(cur)[k].len() ==> #[trigger] ixse
                .push(cur)[k][t] < n,
        forall|k1: int, t1: int, k2: int, t2: int|
            #![trigger ixse.push(cur)[k1][t1], ixse.push(cur)[k2][t2]]
            0 <= k1 < ixse.push(cur).len() && 0 <= t1 < ixse.push(cur)[k1].len() && 0 <= k2
                < ixse.push(cur).len() && 0 <= t2 < ixse.push(cur)[k2].len() && (k1 != k2 || t1
                != t2) ==> ixse.push(cur)[k1][t1] != ixse.push(cur)[k2][t2],
        fronts_ranked(ixse.push(cur), fs),
        forall|k: int, t: int|
            0 <= k < ixse.push(cur).len() && 0 <= t < ixse.push(cur)[k].len()
                ==> undominated_in_unplaced(
                fs,
                placedf,
                #[trigger] ixse.push(cur)[k][t] as int,
            ),
        forall|i: int| 0 <= i < n && !placedf[i] ==> contains_dominator(cur, fs, i),
{
    let ixs1 = ixse.push(cur);
    let ke = ixse.len() as int;
    assert(ixs1.len() == ke + 1);
    assert(ixs1[ke] == cur);
    assert(forall|k: int| 0 <= k < ke ==> ixs1[k] == ixse[k]);

    assert forall|i: int| 0 <= i < n implies (placedf[i] <==> appears(ixs1, i)) by {
        if placedf[i] {
            if placede[i] {
                let (k, t): (int, int) = choose|k: int, t: int|
                    0 <= k < ixse.len() && 0 <= t < ixse[k].len() && ixse[k][t] == i;
                assert(ixs1[k][t] == i);
                assert(appears(ixs1, i));
            } else {
                assert(contains_ix(cur, i));
                let t: int = choose|t: int| 0 <= t < cur.len() && cur[t] == i;
                assert(ixs1[ke][t] == i);
                assert(appears(ixs1, i));
            }
        }
        if appears(ixs1, i) {
            let (k, t): (int, int) = choose|k: int, t: int|
                0 <= k < ixs1.len() && 0 <= t < ixs1[k].len() && ixs1[k][t] == i;
            if k < ke {
                assert(ixse[k][t] == i);
                assert(appears(ixse, i));
            } else {
                assert(cur[t] == i);
                assert(contains_ix(cur, i));
            }
            assert(placedf[i]);
        }
    }

    assert forall|k: int, t: int|
        0 <= k < ixs1.len() && 0 <= t < ixs1[k].len() implies #[trigger] ixs1[k][t] < n by {
        if k == ke {
            assert(ixs1[k] == cur);
        }
    }

    assert forall|k1: int, t1: int, k2: int, t2: int|
        0 <= k1 < ixs1.len() && 0 <= t1 < ixs1[k1].len() && 0 <= k2 < ixs1.len() && 0 <= t2
            < ixs1[k2].len() && (k1 != k2 || t1 != t2) implies #[trigger] ixs1[k1][t1]
        != #[trigger] ixs1[k2][t2] by {
        if k1 < ke && k2 < ke {
            assert(ixse[k1][t1] != ixse[k2][t2]);
        } else if k1 == ke && k2 == ke {
            if t1 < t2 {
                assert(cur[t1] < cur[t2]);
            } else {
                assert(cur[t2] < cur[t1]);
            }
        } else if k1 == ke && k2 < ke {
            assert(appears(ixse, ixse[k2][t2] as int));
            assert(placede[ixse[k2][t2] as int]);
            assert(!placede[cur[t1] as int]);
        } else {
            assert(appears(ixse, ixse[k1][t1] as int));
            assert(placede[ixse[k1][t1] as int]);
            assert(!placede[cur[t2] as int]);
        }
    }

    assert forall|k: int, j: int, t: int, u: int|
        0 <= j <= k < ixs1.len() && 0 <= t < ixs1[k].len() && 0 <= u < ixs1[j].len()
            implies !dominates(fs[#[trigger] ixs1[k][t] as int], fs[#[trigger] ixs1[j][u] as int]) by {
        if k < ke && j < ke {
            assert(!dominates(fs[ixse[k][t] as int], fs[ixse[j][u] as int]));
        } else if k == ke && j < ke {
            let x = cur[t] as int;
            let y = ixse[j][u] as int;
            assert(undominated_in_unplaced(fs, placede, y));
            if dominates(fs[x], fs[y]) {
                assert(false);
            }
        } else {
            let x = cur[t] as int;
            let y = cur[u] as int;
            assert(undominated_in_unplaced(fs, placede, y));
            if dominates(fs[x], fs[y]) {
                assert(false);
            }
        }
    }

    assert forall|k: int| 1 <= k < ixs1.len() implies supported_by(
        #[trigger] ixs1[k],
        ixs1[k - 1],
        fs,
    ) by {
        if k < ke {
            assert(supported_by(ixse[k], ixse[k - 1], fs));
            assert(ixs1[k] == ixse[k]);
            assert(ixs1[k - 1] == ixse[k - 1]);
        } else {
            assert(ixs1[k] == cur);
            assert(ixs1[k - 1] == ixse[ke - 1]);
            assert(ixse.last() == ixse[ke - 1]);
            assert forall|t: int| 0 <= t < cur.len() implies contains_dominator(
                ixse[ke - 1],
                fs,
                #[trigger] cur[t] as int,
            ) by {
                assert(!placede[cur[t] as int]);
                assert(contains_dominator(ixse.last(), fs, cur[t] as int));
            }
        }
    }

    assert forall|k: int, t: int|
        0 <= k < ixs1.len() && 0 <= t < ixs1[k].len() implies undominated_in_unplaced(
        fs,
        placedf,
        #[trigger] ixs1[k][t] as int,
    ) by {
        let m = ixs1[k][t] as int;
        assert forall|j: int|
            0 <= j < placedf.len() && !placedf[j] implies !dominates(fs[j], fs[m]) by {
            assert(!placede[j]);
            if k < ke {
                assert(undominated_in_unplaced(fs, placede, m));
                if dominates(fs[j], fs[m]) {
                    assert(false);
                }
            } else {
                assert(ixs1[k] == cur);
                assert(undominated_in_unplaced(fs, placede, m));
                if dominates(fs[j], fs[m]) {
                    assert(false);
                }
            }
        }
    }

    assert forall|i: int| 0 <= i < n && !placedf[i] implies contains_dominator(cur, fs, i) by {
        assert(!placede[i]);
        assert(!contains_ix(cur, i));
        assert(!undominated_in_unplaced(fs, placede, i));
        let j0: int = choose|j0: int|
            0 <= j0 < placede.len() && !placede[j0] && dominates(fs[j0], fs[i]);
        assert(unplaced_set(placede).contains(j0));
        lemma_maximal_dominator(fs, unplaced_set(placede), i);
        let istar: int = choose|istar: int|
            #![trigger unplaced_set(placede).contains(istar)]
            unplaced_set(placede).contains(istar) && dominates(fs[istar], fs[i]) && (forall|
                j: int,
            |
                unplaced_set(placede).contains(j) ==> !dominates(fs[j], fs[istar]));
        assert(undominated_in_unplaced(fs, placede, istar)) by {
            assert forall|j: int|
                0 <= j < placede.len() && !placede[j] implies !dominates(fs[j], fs[istar]) by {
                assert(unplaced_set(placede).contains(j));
            }
        }
        assert(0 <= istar < n && !placede[istar]);
        assert(contains_ix(cur, istar));
        let u: int = choose|u: int| 0 <= u < cur.len() && cur[u] == istar;
        assert(dominates(fs[cur[u] as int], fs[i]));
        assert(contains_dominator(cur, fs, i));
    }
}

/// Peels the population into Pareto fronts of indices: each round takes
/// exactly the members that no still-unplaced member dominates.
#[verifier::loop_isolation(false)]
#[verifier::rlimit(60)]
pub fn non_dominated_sort_indices(pop: &Vec<Point>) -> (fronts: Vec<Vec<usize>>)
    requires
        uniform_lens(fits_of(pop@)),
    ensures
        fronts_partition(ix_views(fronts@), pop@.len() as int),
        fronts_ranked(ix_views(fronts@), fits_of(pop@)),
        total_len(ix_views(fronts@)) == pop@.len(),
        forall|k: int| 0 <= k < fronts@.len() ==> #[trigger] ix_views(fronts@)[k].len() > 0,
{
    let ghost fs = fits_of(pop@);
    let n: usize = pop.len();
    let mut placed: Vec<bool> = Vec::new();
    let mut i0: usize = 0;
    while i0 < n
        invariant
            i0 <= n,
            placed@.len() == i0,
            forall|i: int| 0 <= i < i0 ==> !placed@[i],
        decreases n - i0,
    {
        placed.push(false);
        i0 += 1;
    }

    let mut fronts: Vec<Vec<usize>> = Vec::new();
    let mut placed_count: usize = 0;

    proof {
        vstd::set_lib::lemma_int_range(0, n as int);
        assert(unplaced_set(placed@) =~= vstd::set_lib::set_int_range(0, n as int));
    }

    while placed_count < n
        invariant
            placed@.len() == n,
            placed_count <= n,
            unplaced_set(placed@).finite(),
            unplaced_set(placed@).len() == n - placed_count,
            total_len(ix_views(fronts@)) == placed_count,
            ix_views(fronts@).len() == fronts@.len(),
            forall|i: int| 0 <= i < n ==> (placed@[i] <==> appears(ix_views(fronts@), i)),
            forall|k: int, t: int|
                0 <= k < ix_views(fronts@).len() && 0 <= t < ix_views(fronts@)[k].len()
                    ==> #[trigger] ix_views(fronts@)[k][t] < n,
            forall|k1: int, t1: int, k2: int, t2: int|
                #![trigger ix_views(fronts@)[k1][t1], ix_views(fronts@)[k2][t2]]
                0 <= k1 < ix_views(fronts@).len() && 0 <= t1 < ix_views(fronts@)[k1].len() && 0
                    <= k2 < ix_views(fronts@).len() && 0 <= t2 < ix_views(fronts@)[k2].len() && (k1
                    != k2 || t1 != t2) ==> ix_views(fronts@)[k1][t1] != ix_views(fronts@)[k2][t2],
            forall|k: int| 0 <= k < fronts@.len() ==> #[trigger] ix_views(fronts@)[k].len() > 0,
            fronts_ranked(ix_views(fronts@), fs),
            forall|k: int, t: int|
                0 <= k < ix_views(fronts@).len() && 0 <= t < ix_views(fronts@)[k].len()
                    ==> undominated_in_unplaced(
                    fs,
                    placed@,
                    #[trigger] ix_views(fronts@)[k][t] as int,
                ),
            fronts@.len() > 0 ==> (forall|i: int|
                0 <= i < n && !placed@[i] ==> contains_dominator(
                    ix_views(fronts@).last(),
                    fs,
                    i,
                )),
        decreases n - placed_count,
    {
        let ghost placede = placed@;
        let ghost ixse = ix_views(fronts@);

        // Collect the members that no still-unplaced member dominates.
        let mut current: Vec<usize> = Vec::new();
        let mut i: usize = 0;
        while i < n
            invariant
                i <= n,
                placed@ == placede,
                forall|t: int| 0 <= t < current@.len() ==> #[trigger] current@[t] < i,
                forall|t1: int, t2: int|
                    0 <= t1 < t2 < current@.len() ==> current@[t1] < current@[t2],
                forall|t: int| 0 <= t < current@.len() ==> !placed@[#[trigger] current@[t] as int],
                forall|t: int|
                    0 <= t < current@.len() ==> undominated_in_unplaced(
                        fs,
                        placed@,
                        #[trigger] current@[t] as int,
                    ),
                forall|i2: int|
                    0 <= i2 < i && !placed@[i2] && #[trigger] undominated_in_unplaced(
                        fs,
                        placed@,
                        i2,
                    ) ==> contains_ix(current@, i2),
            decreases n - i,
        {
            if !placed[i] {
                let mut dominated: bool = false;
                let mut j: usize = 0;
                while j < n
                    invariant
                        j <= n,
                        placed@ == placede,
                        i < n,
                        dominated == (exists|j2: int|
                            #![trigger fs[j2]]
                            0 <= j2 < j && !placed@[j2] && dominates(fs[j2], fs[i as int])),
                    decreases n - j,
                {
                    if !placed[j] {
                        proof {
                            assert(fs[j as int] == pop@[j as int].fitness@);
                            assert(fs[i as int] == pop@[i as int].fitness@);
                        }
                        let d: Domination = pop[j].domination(&pop[i]);
                        if d == Domination::Dominates {
                            dominated = true;
                        }
                    }
                    j += 1;
                }
                let ghost cur_before = current@;
                if !dominated {
                    proof {
                        assert forall|j2: int|
                            0 <= j2 < placed@.len() && !placed@[j2] implies !dominates(
                            fs[j2],
                            fs[i as int],
                        ) by {
                            if dominates(fs[j2], fs[i as int]) {
                                assert(exists|j3: int|
                                    #![trigger fs[j3]]
                                    0 <= j3 < n && !placed@[j3] && dominates(
                                        fs[j3],
                                        fs[i as int],
                                    ));
                            }
                        }
                        assert(undominated_in_unplaced(fs, placed@, i as int));
                    }
                    current.push(i);
                }
                proof {
                    assert forall|i2: int|
                        0 <= i2 < i + 1 && !placed@[i2] && #[trigger] undominated_in_unplaced(
                            fs,
                            placed@,
                            i2,
                        ) implies contains_ix(current@, i2) by {
                        if i2 == i as int {
                            if dominated {
                                let j2: int = choose|j2: int|
                                    #![trigger fs[j2]]
                                    0 <= j2 < n && !placed@[j2] && dominates(
                                        fs[j2],
                                        fs[i as int],
                                    );
                                assert(!dominates(fs[j2], fs[i as int]));
                                assert(false);
                            } else {
                                assert(current@[current@.len() - 1] == i);
                                assert(contains_ix(current@, i2));
                            }
                        } else {
                            assert(contains_ix(cur_before, i2));
                            let t2: int = choose|t2: int|
                                0 <= t2 < cur_before.len() && cur_before[t2] == i2;
                            assert(current@[t2] == i2);
                            assert(contains_ix(current@, i2));
                        }
                    }
                }
            }
            i += 1;
        }

        let ghost cur = current@;

        proof {
            // The round is productive: some unplaced member is undominated.
            assert(unplaced_set(placed@).len() > 0);
            lemma_exists_undominated(fs, unplaced_set(placed@));
            let iw: int = choose|iw: int|
                #![trigger unplaced_set(placed@).contains(iw)]
                unplaced_set(placed@).contains(iw) && (forall|j: int|
                    unplaced_set(placed@).contains(j) ==> !dominates(fs[j], fs[iw]));
            assert(undominated_in_unplaced(fs, placed@, iw)) by {
                assert forall|j: int|
                    0 <= j < placed@.len() && !placed@[j] implies !dominates(fs[j], fs[iw]) by {
                    assert(unplaced_set(placed@).contains(j));
                }
            }
            assert(contains_ix(cur, iw));
            assert(cur.len() > 0);
        }

        // Mark the new front as placed.
        let ghost pce = placed_count as int;
        let mut t: usize = 0;
        while t < current.len()
            invariant
                t <= cur.len(),
                current@ == cur,
                placed@.len() == n,
                placed_count == pce + t,
                placed_count <= n,
                unplaced_set(placed@).finite(),
                unplaced_set(placed@).len() == n - placed_count,
                forall|i2: int|
                    0 <= i2 < n ==> (placed@[i2] <==> (placede[i2] || (exists|t2: int|
                        #![trigger cur[t2]]
                        0 <= t2 < t && cur[t2] == i2))),
            decreases cur.len() - t,
        {
            let c: usize = current[t];
            proof {
                assert(!placede[c as int]);
                assert forall|t2: int| 0 <= t2 < t implies cur[t2] != cur[t as int] by {}
                assert(!placed@[c as int]);
                assert(unplaced_set(placed@).contains(c as int));
                assert(unplaced_set(placed@.update(c as int, true)) =~= unplaced_set(
                    placed@,
                ).remove(c as int));
            }
            placed.set(c, true);
            placed_count += 1;
            proof {
                assert forall|i2: int|
                    0 <= i2 < n implies (placed@[i2] <==> (placede[i2] || (exists|t2: int|
                        #![trigger cur[t2]]
                        0 <= t2 < t + 1 && cur[t2] == i2))) by {
                    if placed@[i2] {
                        if !placede[i2] && !(exists|t2: int| 0 <= t2 < t && cur[t2] == i2) {
                            assert(i2 == c as int);
                            assert(cur[t as int] == i2);
                        }
                    } else {
                        if exists|t2: int| 0 <= t2 < t + 1 && cur[t2] == i2 {
                            let t2: int = choose|t2: int| 0 <= t2 < t + 1 && cur[t2] == i2;
                            assert(false);
                        }
                    }
                }
            }
            t += 1;
        }

        let ghost placedf = placed@;

        proof {
            assert(fs.len() == n as int);
            assert forall|i2: int|
                0 <= i2 < n implies (placedf[i2] <==> (placede[i2] || contains_ix(cur, i2))) by {
                if placedf[i2] && !placede[i2] {
                    let t2: int = choose|t2: int|
                        #![trigger cur[t2]]
                        0 <= t2 < cur.len() && cur[t2] == i2;
                    assert(contains_ix(cur, i2));
                }
                if !placedf[i2] && contains_ix(cur, i2) {
                    let t3: int = choose|t3: int| 0 <= t3 < cur.len() && cur[t3] == i2;
                    assert(exists|t2: int|
                        #![trigger cur[t2]]
                        0 <= t2 < cur.len() && cur[t2] == i2);
                    assert(false);
                }
            }
            // Re-establish the outer invariants for the extended front list.
            establish_after_round(fs, ixse, cur, placede, placedf, n as int);
        }

        fronts.push(current);

        proof {
            assert(ix_views(fronts@) =~= ixse.push(cur));
            assert(total_len(ixse.push(cur)) == total_len(ixse) + cur.len()) by {
                assert(ixse.push(cur).drop_last() =~= ixse);
                assert(ixse.push(cur).last() == cur);
            }
        }
    }

    proof {
        assert(unplaced_set(placed@).len() == 0);
        assert forall|i: int| 0 <= i < n implies placed@[i] by {
            if !placed@[i] {
                assert(unplaced_set(placed@).contains(i));
                assert(unplaced_set(placed@).remove(i).len() == unplaced_set(placed@).len() - 1);
            }
        }
        assert forall|i: int| 0 <= i < pop@.len() implies appears(ix_views(fronts@), i) by {
            assert(placed@[i]);
        }
    }

    fronts
}

/// Lengths alone determine the total number of entries.
proof fn lemma_total_len_congruent<A, B>(s1: Seq<Seq<A>>, s2: Seq<Seq<B>>)
    requires
        s1.len() == s2.len(),
        forall|k: int| 0 <= k < s1.len() ==> #[trigger] s1[k].len() == s2[k].len(),
    ensures
        total_len(s1) == total_len(s2),
    decreases s1.len(),
{
    if s1.len() > 0 {
        lemma_total_len_congruent(s1.drop_last(), s2.drop_last());
    }
}

/// No member of any front dominates a member of an earlier or equal front.
pub open spec fn point_fronts_free(pf: Seq<Seq<Point>>) -> bool {
    forall|k: int, j: int, t: int, u: int|
        #![trigger pf[k][t], pf[j][u]]
        0 <= j <= k < pf.len() && 0 <= t < pf[k].len() && 0 <= u < pf[j].len() ==> !dominates(
            pf[k][t].fitness@,
            pf[j][u].fitness@,
        )
}

/// Some member of `prev` dominates `p`.
pub open spec fn point_front_dominator(prev: Seq<Point>, p: Point) -> bool {
    exists|u: int|
        #![trigger prev[u]]
        0 <= u < prev.len() && dominates(prev[u].fitness@, p.fitness@)
}

/// Each member of a front of rank one or more is dominated by some member
/// of the preceding front.
pub open spec fn point_fronts_supported(pf: Seq<Seq<Point>>) -> bool {
    forall|k: int|
        #![trigger pf[k]]
        1 <= k < pf.len() ==> (forall|t: int|
            #![trigger pf[k][t]]
            0 <= t < pf[k].len() ==> point_front_dominator(pf[k - 1], pf[k][t]))
}

/// The point fronts are exactly the population re-indexed by a partition of
/// its indices: every individual appears exactly once over all fronts.
pub open spec fn fronts_are_reindexing(
    pf: Seq<Seq<Point>>,
    pop: Seq<Point>,
    ixs: Seq<Seq<usize>>,
) -> bool {
    &&& fronts_partition(ixs, pop.len() as int)
    &&& pf.len() == ixs.len()
    &&& (forall|k: int| 0 <= k < pf.len() ==> #[trigger] pf[k].len() == ixs[k].len())
    &&& (forall|k: int, t: int|
        0 <= k < pf.len() && 0 <= t < pf[k].len() ==> (#[trigger] pf[k][t]).view3()
            == pop[ixs[k][t] as int].view3())
}

/// Partitions the population into Pareto fronts of increasing rank.  The
/// fronts re-index the input, so their sizes sum to the input size and each
/// individual appears exactly once; front membership follows the dominance
/// relation alone, so the relative order inside a front is not part of the
/// contract.
#[verifier::loop_isolation(false)]
pub fn non_dominated_sort(pop: Vec<Point>) -> (fronts: Vec<Vec<Point>>)
    requires
        uniform_lens(fits_of(pop@)),
    ensures
        total_len(pfront_views(fronts@)) == pop@.len(),
        forall|k: int| 0 <= k < fronts@.len() ==> #[trigger] pfront_views(fronts@)[k].len() > 0,
        point_fronts_free(pfront_views(fronts@)),
        point_fronts_supported(pfront_views(fronts@)),
        exists|ixs: Seq<Seq<usize>>| fronts_are_reindexing(pfront_views(fronts@), pop@, ixs),
{
    let ghost fs = fits_of(pop@);
    let ix_fronts: Vec<Vec<usize>> = non_dominated_sort_indices(&pop);
    let ghost ixs = ix_views(ix_fronts@);
    let mut fronts: Vec<Vec<Point>> = Vec::new();
    let mut k: usize = 0;
    while k < ix_fronts.len()
        invariant
            k <= ix_fronts@.len(),
            fronts@.len() == k,
            forall|k2: int| 0 <= k2 < k ==> #[trigger] fronts@[k2]@.len() == ixs[k2].len(),
            forall|k2: int, t: int|
                0 <= k2 < k && 0 <= t < fronts@[k2]@.len() ==> (#[trigger] fronts@[k2]@[t]).view3()
                    == pop@[ixs[k2][t] as int].view3(),
        decreases ix_fronts@.len() - k,
    {
        let mut fr: Vec<Point> = Vec::new();
        let mut t: usize = 0;
        while t < ix_fronts[k].len()
            invariant
                k < ix_fronts@.len(),
                t <= ixs[k as int].len(),
                fr@.len() == t,
                forall|t2: int|
                    0 <= t2 < t ==> (#[trigger] fr@[t2]).view3() == pop@[ixs[k as int][t2] as int].view3(),
            decreases ixs[k as int].len() - t,
        {
            proof {
                assert(ixs[k as int][t as int] < pop@.len());
            }
            let idx: usize = ix_fronts[k][t];
            fr.push(pop[idx].duplicate());
            t += 1;
        }
        fronts.push(fr);
        k += 1;
    }

    proof {
        let pf = pfront_views(fronts@);
        assert(fronts_are_reindexing(pf, pop@, ixs)) by {
            assert forall|k2: int| 0 <= k2 < pf.len() implies #[trigger] pf[k2].len()
                == ixs[k2].len() by {
                assert(pf[k2] == fronts@[k2]@);
            }
            assert forall|k2: int, t: int|
                0 <= k2 < pf.len() && 0 <= t < pf[k2].len() implies (#[trigger] pf[k2][t]).view3()
                == pop@[ixs[k2][t] as int].view3() by {
                assert(pf[k2] == fronts@[k2]@);
            }
        }
        lemma_total_len_congruent(pf, ixs);
        assert(point_fronts_free(pf)) by {
            assert forall|k2: int, j: int, t: int, u: int|
                0 <= j <= k2 < pf.len() && 0 <= t < pf[k2].len() && 0 <= u < pf[j].len()
                implies !dominates(
                (#[trigger] pf[k2][t]).fitness@,
                (#[trigger] pf[j][u]).fitness@,
            ) by {
                assert(pf[k2][t].view3() == pop@[ixs[k2][t] as int].view3());
                assert(pf[j][u].view3() == pop@[ixs[j][u] as int].view3());
                assert(fs[ixs[k2][t] as int] == pop@[ixs[k2][t] as int].fitness@);
                assert(fs[ixs[j][u] as int] == pop@[ixs[j][u] as int].fitness@);
                assert(!dominates(fs[ixs[k2][t] as int], fs[ixs[j][u] as int]));
            }
        }
        assert(point_fronts_supported(pf)) by {
            assert forall|k2: int| #![trigger pf[k2]] 1 <= k2 < pf.len() implies (forall|t: int|
                #![trigger pf[k2][t]]
                0 <= t < pf[k2].len() ==> point_front_dominator(pf[k2 - 1], pf[k2][t])) by {
                assert(supported_by(ixs[k2], ixs[k2 - 1], fs));
                assert forall|t: int| 0 <= t < pf[k2].len() implies point_front_dominator(
                    pf[k2 - 1],
                    #[trigger] pf[k2][t],
                ) by {
                    assert(contains_dominator(ixs[k2 - 1], fs, ixs[k2][t as int] as int));
                    let u: int = choose|u: int|
                        #![trigger ixs[k2 - 1][u]]
                        0 <= u < ixs[k2 - 1].len() && dominates(
                            fs[ixs[k2 - 1][u] as int],
                            fs[ixs[k2][t as int] as int],
                        );
                    assert(pf[k2 - 1][u].view3() == pop@[ixs[k2 - 1][u] as int].view3());
                    assert(pf[k2][t].view3() == pop@[ixs[k2][t] as int].view3());
                    assert(fs[ixs[k2 - 1][u] as int] == pop@[ixs[k2 - 1][u] as int].fitness@);
                    assert(fs[ixs[k2][t] as int] == pop@[ixs[k2][t] as int].fitness@);
                    assert(dominates(pf[k2 - 1][u].fitness@, pf[k2][t].fitness@));
                }
            }
        }
        assert forall|k2: int| 0 <= k2 < fronts@.len() implies #[trigger] pfront_views(
            fronts@,
        )[k2].len() > 0 by {
            assert(pf[k2].len() == ixs[k2].len());
        }
    }

    fronts
}

} // verus!
