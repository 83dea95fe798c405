use vstd::prelude::*;

use crate::model::Cellule;

verus! {

/// Cell ids are dense and stable (cell `i` sits at position `i`) and every neighbour slot that
/// holds an edge names a cell of the graph.
pub open spec fn cells_wf(cells: Seq<Cellule>) -> bool {
    &&& forall|i: int| 0 <= i < cells.len() ==> #[trigger] cells[i].identifiant == i
    &&& forall|i: int, k: int|
        0 <= i < cells.len() && 0 <= k < 6 && (#[trigger] cells[i].voisins@[k]) is Some
            ==> cells[i].voisins@[k]->0 < cells.len()
}

/// Cell `v` sits in one of the six neighbour slots of cell `u`.
pub open spec fn adjacent(cells: Seq<Cellule>, u: int, v: int) -> bool {
    &&& 0 <= u < cells.len()
    &&& exists|k: int|
        0 <= k < 6 && (#[trigger] cells[u].voisins@[k]) is Some && cells[u].voisins@[k]->0 == v
}

/// Cell `v` can be reached from `origin` in at most `n` hops.
pub open spec fn reachable_within(cells: Seq<Cellule>, origin: int, v: int, n: nat) -> bool
    decreases n,
{
    v == origin || (n > 0 && exists|u: int|
        #[trigger] adjacent(cells, u, v) && reachable_within(cells, origin, u, (n - 1) as nat))
}

/// Cell `v` can be reached from `origin` at all.
pub open spec fn reachable(cells: Seq<Cellule>, origin: int, v: int) -> bool {
    exists|n: nat| #[trigger] reachable_within(cells, origin, v, n)
}

/// The shortest path from `origin` to `v` has exactly `d` hops.
pub open spec fn at_distance(cells: Seq<Cellule>, origin: int, v: int, d: nat) -> bool {
    &&& reachable_within(cells, origin, v, d)
    &&& d > 0 ==> !reachable_within(cells, origin, v, (d - 1) as nat)
}

/// One more hop allowed reaches at least as much.
pub proof fn lemma_within_step(cells: Seq<Cellule>, origin: int, v: int, n: nat)
    requires
        reachable_within(cells, origin, v, n),
    ensures
        reachable_within(cells, origin, v, n + 1),
    decreases n,
{
    if v != origin {
        let u = choose|u: int|
            #[trigger] adjacent(cells, u, v) && reachable_within(cells, origin, u, (n - 1) as nat);
        lemma_within_step(cells, origin, u, (n - 1) as nat);
        assert(adjacent(cells, u, v) && reachable_within(cells, origin, u, n as nat));
    }
}

/// More hops allowed reach at least as much.
pub proof fn lemma_within_monotone(cells: Seq<Cellule>, origin: int, v: int, n: nat, m: nat)
    requires
        reachable_within(cells, origin, v, n),
        n <= m,
    ensures
        reachable_within(cells, origin, v, m),
    decreases m - n,
{
    if n < m {
        lemma_within_step(cells, origin, v, n);
        lemma_within_monotone(cells, origin, v, n + 1, m);
    }
}

/// A neighbour of a cell reached in `n` hops is reached in `n + 1`.
pub proof fn lemma_within_edge(cells: Seq<Cellule>, origin: int, u: int, v: int, n: nat)
    requires
        reachable_within(cells, origin, u, n),
        adjacent(cells, u, v),
    ensures
        reachable_within(cells, origin, v, n + 1),
{
    assert(reachable_within(cells, origin, u, ((n + 1) - 1) as nat));
}

/// Distinct ids below `n` number at most `n`.
pub proof fn lemma_distinct_below(s: Seq<usize>, n: nat)
    requires
        s.no_duplicates(),
        forall|i: int| 0 <= i < s.len() ==> s[i] < n,
    ensures
        s.len() <= n,
    decreases n,
{
    if n == 0 {
        if s.len() > 0 {
            assert(s[0] < 0);
        }
    } else if s.contains((n - 1) as usize) {
        let j = choose|j: int| 0 <= j < s.len() && s[j] == (n - 1) as usize;
        let t = s.remove(j);
        assert forall|i: int| 0 <= i < t.len() implies t[i] < n - 1 by {
            if i < j {
                assert(t[i] == s[i]);
            } else {
                assert(t[i] == s[i + 1]);
            }
        }
        assert forall|a: int, b: int| 0 <= a < t.len() && 0 <= b < t.len() && a != b implies t[a]
            != t[b] by {
            let sa = if a < j { a } else { a + 1 };
            let sb = if b < j { b } else { b + 1 };
            assert(t[a] == s[sa] && t[b] == s[sb]);
        }
        lemma_distinct_below(t, (n - 1) as nat);
    } else {
        assert forall|i: int| 0 <= i < s.len() implies s[i] < n - 1 by {
            assert(s[i] != (n - 1) as usize);
        }
        lemma_distinct_below(s, (n - 1) as nat);
    }
}

/// Tells whether the cells form a well-formed graph: each cell at the position of its id, and
/// every neighbour slot with an edge naming a cell of the graph.
pub fn graph_is_valid(cells: &Vec<Cellule>) -> (r: bool)
    ensures
        r == cells_wf(cells@),
{
    let n = cells.len();
    let mut i: usize = 0;
    while i < n
        invariant
            i <= n,
            n == cells.len(),
            forall|j: int| 0 <= j < i ==> #[trigger] cells@[j].identifiant == j,
            forall|j: int, k: int|
                0 <= j < i && 0 <= k < 6 && (#[trigger] cells@[j].voisins@[k]) is Some
                    ==> cells@[j].voisins@[k]->0 < n,
        decreases n - i,
    {
        if cells[i].identifiant != i {
            return false;
        }
        let mut k: usize = 0;
        while k < 6
            invariant
                i < n,
                n == cells.len(),
                k <= 6,
                forall|kk: int|
                    0 <= kk < k && (#[trigger] cells@[i as int].voisins@[kk]) is Some
                        ==> cells@[i as int].voisins@[kk]->0 < n,
            decreases 6 - k,
        {
            if let Some(v) = cells[i].voisins[k] {
                if v >= n {
                    assert(cells@[i as int].voisins@[k as int] is Some);
                    return false;
                }
            }
            k = k + 1;
        }
        i = i + 1;
    }
    true
}

} // verus!
