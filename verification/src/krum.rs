use vstd::prelude::*;

verus! {

/// Krum can tolerate `byzantine_bounds` adversaries among `n` submissions
/// only when `n > 2 * byzantine_bounds + 2`.
pub open spec fn krum_can_run(n: int, byzantine_bounds: int) -> bool {
    n > 2 * byzantine_bounds + 2
}

/// Decides whether Krum filtering can run on `n` submissions, and if so how
/// many nearest-neighbour distances make up each submission's score
/// (`n - byzantine_bounds - 2`).  Returns `None` when there are too few
/// submissions to tolerate `byzantine_bounds` adversaries.
pub fn krum_neighbor_count(n: usize, byzantine_bounds: usize) -> (res: Option<usize>)
    requires
        2 * byzantine_bounds + 2 <= usize::MAX,
    ensures
        res is Some <==> krum_can_run(n as int, byzantine_bounds as int),
        res matches Some(k) ==> k == n - byzantine_bounds - 2,
{
    if n <= 2 * byzantine_bounds + 2 {
        None
    } else {
        Some(n - byzantine_bounds - 2)
    }
}

/// Whenever Krum runs, every score sums at least `byzantine_bounds + 1`
/// distances (so at least one), and never more than the `n - 1` distances a
/// submission has to the others.
pub proof fn lemma_krum_neighbors_in_range(n: int, byzantine_bounds: int)
    requires
        byzantine_bounds >= 0,
        krum_can_run(n, byzantine_bounds),
    ensures
        byzantine_bounds + 1 <= n - byzantine_bounds - 2,
        1 <= n - byzantine_bounds - 2 <= n - 1,
{
}

/// The index that a left-to-right scan keeps as "lowest score so far" over
/// the first `i` submissions (`i >= 1`): the scan starts at submission 0 and
/// moves to submission `j` exactly when the current one scores strictly
/// higher (`greater[current][j]`); ties keep the earlier submission.
pub open spec fn first_min_scan(greater: Seq<Seq<bool>>, i: nat) -> nat
    decreases i,
{
    if i <= 1 {
        0
    } else {
        let best = first_min_scan(greater, (i - 1) as nat);
        if greater[best as int][i - 1] {
            (i - 1) as nat
        } else {
            best
        }
    }
}

/// `greater` is an `n` by `n` table.
pub open spec fn is_square(greater: Seq<Seq<bool>>, n: nat) -> bool {
    &&& greater.len() == n
    &&& forall|i: int| 0 <= i < n ==> (#[trigger] greater[i]).len() == n
}

/// Picks the submission Krum keeps: the first one whose score is not beaten,
/// scanning in order and moving on only to a strictly lower score.
/// `greater[i][j]` records whether submission `i` scores strictly higher than
/// submission `j`.  Returns `None` when there is no submission.
pub fn krum_select(greater: &Vec<Vec<bool>>) -> (res: Option<usize>)
    requires
        is_square(greater@.map_values(|row: Vec<bool>| row@), greater@.len()),
    ensures
        greater@.len() == 0 <==> res is None,
        res matches Some(r) ==> r == first_min_scan(
            greater@.map_values(|row: Vec<bool>| row@),
            greater@.len(),
        ) && r < greater@.len(),
{
    let ghost g = greater@.map_values(|row: Vec<bool>| row@);
    let n = greater.len();
    if n == 0 {
        return None;
    }
    let mut best: usize = 0;
    let mut i: usize = 1;
    while i < n
        invariant
            n == greater@.len(),
            g == greater@.map_values(|row: Vec<bool>| row@),
            is_square(g, n as nat),
            1 <= i <= n,
            best < i,
            best == first_min_scan(g, i as nat),
        decreases n - i,
    {
        let row: &Vec<bool> = &greater[best];
        assert(row@ == g[best as int]);
        if row[i] {
            best = i;
        }
        i = i + 1;
    }
    Some(best)
}

/// `greater` is a strict weak order on `0..n`: irreflexive, transitive, and
/// whenever `x` beats `z`, every `y` is beaten by `x` or beats `z`.  Scores
/// compared by value form such an order; NaN scores do not.
pub open spec fn is_strict_weak_order(greater: Seq<Seq<bool>>, n: nat) -> bool {
    &&& forall|x: int| 0 <= x < n ==> !(#[trigger] greater[x][x])
    &&& forall|x: int, y: int, z: int|
        0 <= x < n && 0 <= y < n && 0 <= z < n && #[trigger] greater[x][y] && #[trigger] greater[y][z]
            ==> greater[x][z]
    &&& forall|x: int, y: int, z: int|
        0 <= x < n && 0 <= y < n && 0 <= z < n && #[trigger] greater[x][z] ==> greater[x][y]
            || #[trigger] greater[y][z]
}

/// When scores are compared consistently, Krum keeps the first submission
/// with the lowest score: no submission scores strictly lower, and every
/// earlier submission scores strictly higher.
pub proof fn lemma_krum_select_first_minimum(greater: Seq<Seq<bool>>, n: nat, i: nat)
    requires
        is_square(greater, n),
        is_strict_weak_order(greater, n),
        1 <= i <= n,
    ensures
        first_min_scan(greater, i) < i,
        forall|j: int| 0 <= j < i ==> !greater[first_min_scan(greater, i) as int][j],
        forall|j: int| 0 <= j < first_min_scan(greater, i) ==> greater[j][first_min_scan(greater, i) as int],
    decreases i,
{
    if i > 1 {
        lemma_krum_select_first_minimum(greater, n, (i - 1) as nat);
        let b = first_min_scan(greater, (i - 1) as nat) as int;
        let k = i - 1;
        if greater[b][k] {
            assert forall|j: int| 0 <= j < i implies !greater[k][j] by {
                if greater[k][j] {
                    assert(greater[b][j]);
                }
            }
            assert forall|j: int| 0 <= j < k implies greater[j][k] by {
                assert(greater[b][j] || greater[j][k]);
            }
        }
    }
}

/// `p` rearranges `0..n`: every position holds a distinct index below `n`,
/// and every index below `n` appears.
pub open spec fn is_permutation(p: Seq<int>, n: nat) -> bool {
    &&& p.len() == n
    &&& forall|i: int| 0 <= i < n ==> 0 <= #[trigger] p[i] < n
    &&& forall|i: int, j: int| 0 <= i < n && 0 <= j < n && i != j ==> #[trigger] p[i] != #[trigger] p[j]
    &&& forall|x: int| 0 <= x < n ==> #[trigger] appears_in(p, n, x)
}

/// Index `x` is held by some position of `p` below `n`.
pub open spec fn appears_in(p: Seq<int>, n: nat, x: int) -> bool {
    exists|i: int| 0 <= i < n && p[i] == x
}

/// The comparison table of the same submissions arriving in another order:
/// position `a` of the new order holds submission `p[a]` of the old one.
pub open spec fn permuted_table(greater: Seq<Seq<bool>>, p: Seq<int>) -> Seq<Seq<bool>> {
    Seq::new(p.len(), |a: int| Seq::new(p.len(), |b: int| greater[p[a]][p[b]]))
}

/// Submission `r` scores strictly lower than every other one.
pub open spec fn is_unique_minimum(greater: Seq<Seq<bool>>, n: nat, r: int) -> bool {
    &&& 0 <= r < n
    &&& forall|x: int| 0 <= x < n && x != r ==> #[trigger] greater[x][r]
}

/// When one submission has the lowest score outright, Krum keeps it whatever
/// the order in which the submissions arrive: the shuffle in front of the
/// aggregation cannot change which submission is kept.
pub proof fn lemma_krum_select_order_invariant(greater: Seq<Seq<bool>>, n: nat, p: Seq<int>, r: int)
    requires
        n >= 1,
        is_square(greater, n),
        is_strict_weak_order(greater, n),
        is_permutation(p, n),
        is_unique_minimum(greater, n, r),
    ensures
        first_min_scan(greater, n) == r,
        p[first_min_scan(permuted_table(greater, p), n) as int] == r,
{
    let g2 = permuted_table(greater, p);
    assert forall|i: int| 0 <= i < n implies (#[trigger] g2[i]).len() == n by {}
    assert(is_square(g2, n));
    assert forall|x: int| 0 <= x < n implies !(#[trigger] g2[x][x]) by {
        assert(g2[x][x] == greater[p[x]][p[x]]);
    }
    assert forall|x: int, y: int, z: int|
        0 <= x < n && 0 <= y < n && 0 <= z < n && #[trigger] g2[x][y] && #[trigger] g2[y][z]
            implies g2[x][z] by {
        assert(g2[x][y] == greater[p[x]][p[y]]);
        assert(g2[y][z] == greater[p[y]][p[z]]);
        assert(g2[x][z] == greater[p[x]][p[z]]);
    }
    assert forall|x: int, y: int, z: int|
        0 <= x < n && 0 <= y < n && 0 <= z < n && #[trigger] g2[x][z] implies g2[x][y]
            || #[trigger] g2[y][z] by {
        assert(g2[x][z] == greater[p[x]][p[z]]);
        assert(g2[x][y] == greater[p[x]][p[y]]);
        assert(g2[y][z] == greater[p[y]][p[z]]);
        assert(greater[p[x]][p[y]] || greater[p[y]][p[z]]);
    }
    assert(is_strict_weak_order(g2, n));
    lemma_krum_select_first_minimum(greater, n, n);
    lemma_krum_select_first_minimum(g2, n, n);
    let r1 = first_min_scan(greater, n) as int;
    if r1 != r {
        assert(greater[r1][r]);
        assert(false);
    }
    let r2 = first_min_scan(g2, n) as int;
    assert(appears_in(p, n, r));
    let i = choose|i: int| 0 <= i < n && p[i] == r;
    if p[r2] != r {
        assert(0 <= p[r2] < n);
        assert(greater[p[r2]][r]);
        assert(g2[r2][i] == greater[p[r2]][p[i]]);
        assert(!g2[r2][i]);
        assert(false);
    }
}

} // verus!
