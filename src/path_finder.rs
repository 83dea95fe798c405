use vstd::prelude::*;

use crate::graph::{
    adjacent, at_distance, cells_wf, lemma_distinct_below, lemma_within_edge,
    lemma_within_monotone, reachable, reachable_within,
};
use crate::model::{CellKind, Cellule};

verus! {

/// What a search looks for.
#[derive(Clone, Copy, Debug, PartialEq, Eq, Structural)]
pub enum Goal {
    /// A cell of this kind that still holds resources.
    Resource(CellKind),
    /// This very cell.
    Cell(usize),
}

/// The cell is of the given kind and still holds resources.
pub open spec fn holds_resource(c: Cellule, kind: CellKind) -> bool {
    c.kind == kind && c.nombre_de_crystal > 0
}

/// Cell `v` is one that the goal looks for.
pub open spec fn goal_met(cells: Seq<Cellule>, goal: Goal, v: int) -> bool {
    &&& 0 <= v < cells.len()
    &&& match goal {
        Goal::Resource(kind) => holds_resource(cells[v], kind),
        Goal::Cell(target) => v == target,
    }
}

/// Cell `v` is one that a search for `goal`, if any, looks for.
pub open spec fn sought(cells: Seq<Cellule>, goal: Option<Goal>, v: int) -> bool {
    goal matches Some(g) && goal_met(cells, g, v)
}

/// `r` is the answer to a nearest search from `origin`: the matching cell with the fewest hops,
/// the lowest id among those, with its hop count; or `None` when no matching cell is reachable.
pub open spec fn is_nearest(cells: Seq<Cellule>, origin: int, goal: Goal, r: Option<(usize, usize)>) -> bool {
    match r {
        Some((id, d)) => {
            &&& goal_met(cells, goal, id as int)
            &&& reachable_within(cells, origin, id as int, d as nat)
            &&& forall|v: int|
                #[trigger] goal_met(cells, goal, v) && reachable_within(cells, origin, v, d as nat)
                    ==> id <= v
            &&& forall|v: int|
                d > 0 && #[trigger] goal_met(cells, goal, v) ==> !reachable_within(
                    cells,
                    origin,
                    v,
                    (d - 1) as nat,
                )
        },
        None => forall|v: int, n: nat|
            goal_met(cells, goal, v) ==> !(#[trigger] reachable_within(cells, origin, v, n)),
    }
}

/// The answer to a nearest search, which `is_nearest` pins down uniquely.
pub open spec fn nearest(cells: Seq<Cellule>, origin: int, goal: Goal) -> Option<(usize, usize)> {
    choose|r: Option<(usize, usize)>| is_nearest(cells, origin, goal, r)
}

/// At most one answer meets `is_nearest`: the search result is determined, ties included.
pub proof fn lemma_nearest_unique(
    cells: Seq<Cellule>,
    origin: int,
    goal: Goal,
    r1: Option<(usize, usize)>,
    r2: Option<(usize, usize)>,
)
    requires
        is_nearest(cells, origin, goal, r1),
        is_nearest(cells, origin, goal, r2),
    ensures
        r1 == r2,
{
    match (r1, r2) {
        (Some((i1, d1)), Some((i2, d2))) => {
            if d1 < d2 {
                lemma_within_monotone(cells, origin, i1 as int, d1 as nat, (d2 - 1) as nat);
                assert(goal_met(cells, goal, i1 as int));
            } else if d2 < d1 {
                lemma_within_monotone(cells, origin, i2 as int, d2 as nat, (d1 - 1) as nat);
                assert(goal_met(cells, goal, i2 as int));
            }
            assert(goal_met(cells, goal, i1 as int) && goal_met(cells, goal, i2 as int));
        },
        (Some((i1, d1)), None) => {
            assert(reachable_within(cells, origin, i1 as int, d1 as nat));
        },
        (None, Some((i2, d2))) => {
            assert(reachable_within(cells, origin, i2 as int, d2 as nat));
        },
        (None, None) => {},
    }
}

/// A result that meets `is_nearest` is `nearest`.
pub proof fn lemma_nearest_is_the_answer(
    cells: Seq<Cellule>,
    origin: int,
    goal: Goal,
    r: Option<(usize, usize)>,
)
    requires
        is_nearest(cells, origin, goal, r),
    ensures
        nearest(cells, origin, goal) == r,
{
    lemma_nearest_unique(cells, origin, goal, nearest(cells, origin, goal), r);
}

/// What one breadth-first exploration found: the hop distance of each visited cell, the cells
/// in the order they were visited, and the nearest sought cell with its distance, if any.
pub struct Exploration {
    pub distances: Vec<Option<usize>>,
    pub order: Vec<usize>,
    pub found: Option<(usize, usize)>,
}

/// `e` is a correct exploration from `origin` for `goal`: every visited cell carries its true hop
/// distance and is visited exactly once; it stops at the first level that holds a sought cell,
/// having visited every cell within that many hops, or else visits every reachable cell.
pub open spec fn explored(cells: Seq<Cellule>, origin: int, goal: Option<Goal>, e: Exploration) -> bool {
    let n = cells.len();
    &&& e.distances@.len() == n
    &&& forall|v: int|
        0 <= v < n && (#[trigger] e.distances@[v]) is Some ==> at_distance(
            cells,
            origin,
            v,
            e.distances@[v]->0 as nat,
        )
    &&& e.order@.no_duplicates()
    &&& forall|j: int|
        0 <= j < e.order@.len() ==> (#[trigger] e.order@[j]) < n && e.distances@[e.order@[j] as int] is Some
    &&& forall|v: int| 0 <= v < n && (#[trigger] e.distances@[v]) is Some ==> e.order@.contains(v as usize)
    &&& match goal {
        Some(g) => is_nearest(cells, origin, g, e.found),
        None => e.found is None,
    }
    &&& match e.found {
        Some((_, d)) => forall|v: int|
            0 <= v < n && (#[trigger] e.distances@[v]) is None ==> !reachable_within(cells, origin, v, d as nat),
        None => forall|v: int, m: nat|
            0 <= v < n && e.distances@[v] is None ==> !(#[trigger] reachable_within(cells, origin, v, m)),
    }
}

/// Once no visited cell is at the last level, every cell reachable at all has been visited.
proof fn lemma_exhausted(cells: Seq<Cellule>, origin: int, dist: Seq<Option<usize>>, level: nat, v: int, m: nat)
    requires
        dist.len() == cells.len(),
        forall|w: int|
            0 <= w < cells.len() && (#[trigger] dist[w]) is Some ==> dist[w]->0 < level && at_distance(
                cells,
                origin,
                w,
                dist[w]->0 as nat,
            ),
        forall|w: int|
            0 <= w < cells.len() && reachable_within(cells, origin, w, level) ==> (#[trigger] dist[w]) is Some,
        0 <= v < cells.len(),
        reachable_within(cells, origin, v, m),
    ensures
        dist[v] is Some,
    decreases m,
{
    if m <= level {
        lemma_within_monotone(cells, origin, v, m, level);
    } else if v == origin {
        assert(reachable_within(cells, origin, v, level));
    } else {
        let u = choose|u: int|
            #[trigger] adjacent(cells, u, v) && reachable_within(cells, origin, u, (m - 1) as nat);
        lemma_exhausted(cells, origin, dist, level, u, (m - 1) as nat);
        let du = dist[u]->0 as nat;
        lemma_within_edge(cells, origin, u, v, du);
        lemma_within_monotone(cells, origin, v, du + 1, level);
    }
}

/// Tells whether cell `v` is sought.
fn is_sought(cellules: &Vec<Cellule>, goal: Option<Goal>, v: usize) -> (r: bool)
    requires
        v < cellules.len(),
    ensures
        r == sought(cellules@, goal, v as int),
{
    match goal {
        Some(Goal::Resource(kind)) => cellules[v].kind == kind && cellules[v].nombre_de_crystal > 0,
        Some(Goal::Cell(target)) => v == target,
        None => false,
    }
}

/// Breadth-first search over the cell graph.
pub struct BrutalPathFinder;

impl BrutalPathFinder {
    pub fn new() -> Self {
        BrutalPathFinder
    }

    /// Explores the graph from `origin` level by level with one visited table for the whole
    /// search, and stops at the first level that holds a cell that `goal` looks for.
    #[verifier::loop_isolation(false)]
    pub fn explore(&self, origin: usize, cellules: &Vec<Cellule>, goal: Option<Goal>) -> (e:
        Exploration)
        requires
            cells_wf(cellules@),
            origin < cellules.len(),
        ensures
            explored(cellules@, origin as int, goal, e),
    {
        let ghost cells = cellules@;
        let ghost o = origin as int;
        let n = cellules.len();
        let mut dist: Vec<Option<usize>> = Vec::new();
        let mut i: usize = 0;
        while i < n
            invariant
                i <= n,
                dist.len() == i,
                forall|j: int| 0 <= j < i ==> (#[trigger] dist@[j]) is None,
            decreases n - i,
        {
            dist.push(None);
            i = i + 1;
        }
        dist[origin] = Some(0);
        let mut order: Vec<usize> = Vec::new();
        order.push(origin);
        assert(at_distance(cells, o, o, 0));
        if is_sought(cellules, goal, origin) {
            let e = Exploration { distances: dist, order, found: Some((origin, 0)) };
            assert(order@[0] == origin);
            return e;
        }
        let mut frontier: Vec<usize> = Vec::new();
        frontier.push(origin);
        let mut level: usize = 0;
        assert(frontier@[0] == origin);
        while frontier.len() > 0
            invariant
                dist.len() == n,
                forall|v: int|
                    0 <= v < n && (#[trigger] dist@[v]) is Some ==> dist@[v]->0 <= level && at_distance(
                        cells,
                        o,
                        v,
                        dist@[v]->0 as nat,
                    ) && !sought(cells, goal, v),
                forall|v: int|
                    0 <= v < n && reachable_within(cells, o, v, level as nat) ==> (#[trigger] dist@[v]) is Some,
                forall|v: int|
                    0 <= v < n ==> ((#[trigger] dist@[v]) == Some(level) <==> frontier@.contains(
                        v as usize,
                    )),
                forall|j: int| 0 <= j < frontier.len() ==> (#[trigger] frontier@[j]) < n,
                order@.no_duplicates(),
                forall|j: int|
                    0 <= j < order.len() ==> (#[trigger] order@[j]) < n && dist@[order@[j] as int] is Some,
                forall|v: int| 0 <= v < n && (#[trigger] dist@[v]) is Some ==> order@.contains(v as usize),
                order.len() >= level + frontier.len(),
                order.len() <= n,
            decreases n - order.len() + frontier.len(),
        {
            let ghost order0 = order@;
            let mut next: Vec<usize> = Vec::new();
            let mut i: usize = 0;
            while i < frontier.len()
                invariant
                    i <= frontier.len(),
                    dist.len() == n,
                    forall|v: int|
                        0 <= v < n && (#[trigger] dist@[v]) is Some ==> dist@[v]->0 <= level + 1
                            && at_distance(cells, o, v, dist@[v]->0 as nat),
                    forall|v: int|
                        0 <= v < n && (#[trigger] dist@[v]) is Some && dist@[v]->0 <= level ==> !sought(
                            cells,
                            goal,
                            v,
                        ),
                    forall|v: int|
                        0 <= v < n && reachable_within(cells, o, v, level as nat) ==> (#[trigger] dist@[v]) is Some,
                    forall|v: int|
                        0 <= v < n ==> ((#[trigger] dist@[v]) == Some(level) <==> frontier@.contains(
                            v as usize,
                        )),
                    forall|v: int|
                        0 <= v < n ==> ((#[trigger] dist@[v]) == Some((level + 1) as usize)
                            <==> next@.contains(v as usize)),
                    forall|j: int| 0 <= j < next.len() ==> (#[trigger] next@[j]) < n,
                    forall|j: int, k: int|
                        0 <= j < i && 0 <= k < 6 && (#[trigger] cells[frontier@[j] as int].voisins@[k]) is Some
                            ==> dist@[cells[frontier@[j] as int].voisins@[k]->0 as int] is Some,
                    order@.no_duplicates(),
                    forall|j: int|
                        0 <= j < order.len() ==> (#[trigger] order@[j]) < n && dist@[order@[j] as int] is Some,
                    forall|v: int| 0 <= v < n && (#[trigger] dist@[v]) is Some ==> order@.contains(v as usize),
                    order.len() == order0.len() + next.len(),
                decreases frontier.len() - i,
            {
                let u = frontier[i];
                assert(frontier@.contains(u));
                assert(dist@[u as int] == Some(level));
                let mut k: usize = 0;
                while k < 6
                    invariant
                        k <= 6,
                        u == frontier@[i as int],
                        dist.len() == n,
                        forall|v: int|
                            0 <= v < n && (#[trigger] dist@[v]) is Some ==> dist@[v]->0 <= level + 1
                                && at_distance(cells, o, v, dist@[v]->0 as nat),
                        forall|v: int|
                            0 <= v < n && (#[trigger] dist@[v]) is Some && dist@[v]->0 <= level ==> !sought(
                                cells,
                                goal,
                                v,
                            ),
                        forall|v: int|
                            0 <= v < n && reachable_within(cells, o, v, level as nat) ==> (#[trigger] dist@[v]) is Some,
                        forall|v: int|
                            0 <= v < n ==> ((#[trigger] dist@[v]) == Some(level) <==> frontier@.contains(
                                v as usize,
                            )),
                        forall|v: int|
                            0 <= v < n ==> ((#[trigger] dist@[v]) == Some((level + 1) as usize)
                                <==> next@.contains(v as usize)),
                        forall|j: int| 0 <= j < next.len() ==> (#[trigger] next@[j]) < n,
                        forall|j: int, kk: int|
                            0 <= j < i && 0 <= kk < 6 && (#[trigger] cells[frontier@[j] as int].voisins@[kk]) is Some
                                ==> dist@[cells[frontier@[j] as int].voisins@[kk]->0 as int] is Some,
                        forall|kk: int|
                            0 <= kk < k && (#[trigger] cells[u as int].voisins@[kk]) is Some
                                ==> dist@[cells[u as int].voisins@[kk]->0 as int] is Some,
                        order@.no_duplicates(),
                        forall|j: int|
                            0 <= j < order.len() ==> (#[trigger] order@[j]) < n && dist@[order@[j] as int] is Some,
                        forall|v: int| 0 <= v < n && (#[trigger] dist@[v]) is Some ==> order@.contains(v as usize),
                        order.len() == order0.len() + next.len(),
                    decreases 6 - k,
                {
                    if let Some(v) = cellules[u].voisins[k] {
                        assert(cells[u as int].voisins@[k as int] == Some(v));
                        if dist[v].is_none() {
                            proof {
                                assert(adjacent(cells, u as int, v as int));
                                lemma_within_edge(cells, o, u as int, v as int, level as nat);
                                if reachable_within(cells, o, v as int, level as nat) {
                                    assert(dist@[v as int] is Some);
                                }
                                assert(!order@.contains(v));
                            }
                            let ghost dist1 = dist@;
                            let ghost order1 = order@;
                            let ghost next1 = next@;
                            dist[v] = Some(level + 1);
                            order.push(v);
                            next.push(v);
                            proof {
                                assert forall|w: int| 0 <= w < n && (#[trigger] dist@[w]) is Some implies order@.contains(
                                    w as usize,
                                ) by {
                                    if w != v as int {
                                        assert(dist1[w] is Some);
                                        let j = choose|j: int| 0 <= j < order1.len() && order1[j] == w as usize;
                                        assert(order@[j] == w as usize);
                                    } else {
                                        assert(order@[order@.len() - 1] == v);
                                    }
                                }
                                assert forall|w: int|
                                    0 <= w < n implies ((#[trigger] dist@[w]) == Some((level + 1) as usize)
                                    <==> next@.contains(w as usize)) by {
                                    if w == v as int {
                                        assert(next@[next@.len() - 1] == v);
                                    } else if next@.contains(w as usize) {
                                        let j = choose|j: int| 0 <= j < next@.len() && next@[j] == w as usize;
                                        assert(j < next@.len() - 1);
                                        assert(next1[j] == w as usize);
                                    } else if dist@[w] == Some((level + 1) as usize) {
                                        assert(dist1[w] == Some((level + 1) as usize));
                                        let j = choose|j: int| 0 <= j < next1.len() && next1[j] == w as usize;
                                        assert(next@[j] == w as usize);
                                    }
                                }
                            }
                        }
                    }
                    k = k + 1;
                }
                i = i + 1;
            }
            proof {
                lemma_distinct_below(order@, n as nat);
                // Every cell within one more hop is now visited.
                assert forall|v: int|
                    0 <= v < n && reachable_within(cells, o, v, (level + 1) as nat) implies (#[trigger] dist@[v]) is Some by {
                    if v != o {
                        let u = choose|u: int|
                            #[trigger] adjacent(cells, u, v) && reachable_within(cells, o, u, level as nat);
                        assert(dist@[u] is Some);
                        let du = dist@[u]->0;
                        if du < level {
                            lemma_within_edge(cells, o, u, v, du as nat);
                            lemma_within_monotone(cells, o, v, (du + 1) as nat, level as nat);
                        } else {
                            assert(frontier@.contains(u as usize));
                            let j = choose|j: int| 0 <= j < frontier@.len() && frontier@[j] == u as usize;
                            let k = choose|k: int|
                                0 <= k < 6 && (#[trigger] cells[u].voisins@[k]) is Some && cells[u].voisins@[k]->0 == v;
                            assert(cells[frontier@[j] as int].voisins@[k] is Some);
                        }
                    } else {
                        assert(reachable_within(cells, o, v, level as nat));
                    }
                }
            }
            let mut best: Option<usize> = None;
            let mut j: usize = 0;
            while j < next.len()
                invariant
                    j <= next.len(),
                    best matches Some(b) ==> b < n && sought(cells, goal, b as int) && dist@[b as int] == Some(
                        (level + 1) as usize,
                    ) && forall|jj: int| 0 <= jj < j && sought(cells, goal, #[trigger] next@[jj] as int) ==> b <= next@[jj],
                    best is None ==> forall|jj: int| 0 <= jj < j ==> !sought(cells, goal, #[trigger] next@[jj] as int),
                decreases next.len() - j,
            {
                let v = next[j];
                assert(next@.contains(v));
                if is_sought(cellules, goal, v) {
                    match best {
                        Some(b) => {
                            if v < b {
                                best = Some(v);
                            }
                        },
                        None => {
                            best = Some(v);
                        },
                    }
                }
                j = j + 1;
            }
            level = level + 1;
            if let Some(b) = best {
                proof {
                    let g = goal->0;
                    assert forall|v: int|
                        #[trigger] goal_met(cells, g, v) && reachable_within(cells, o, v, level as nat) implies b <= v by {
                        assert(dist@[v] is Some);
                        assert(dist@[v] == Some(level)) by {
                            if dist@[v]->0 < level {
                                assert(!sought(cells, goal, v));
                            }
                        }
                        let jj = choose|jj: int| 0 <= jj < next@.len() && next@[jj] == v as usize;
                        assert(sought(cells, goal, next@[jj] as int));
                    }
                    assert forall|v: int| level > 0 && #[trigger] goal_met(cells, g, v) implies !reachable_within(
                        cells,
                        o,
                        v,
                        (level - 1) as nat,
                    ) by {
                        if reachable_within(cells, o, v, (level - 1) as nat) {
                            assert(dist@[v] is Some);
                            assert(!sought(cells, goal, v));
                        }
                    }
                    assert forall|v: int| 0 <= v < n && (#[trigger] dist@[v]) is Some implies order@.contains(
                        v as usize,
                    ) by {}
                }
                return Exploration { distances: dist, order, found: Some((b, level)) };
            }
            proof {
                assert forall|v: int| 0 <= v < n && (#[trigger] dist@[v]) is Some implies !sought(cells, goal, v) by {
                    if dist@[v] == Some(level) {
                        let jj = choose|jj: int| 0 <= jj < next@.len() && next@[jj] == v as usize;
                        assert(!sought(cells, goal, next@[jj] as int));
                    }
                }
            }
            frontier = next;
        }
        proof {
            assert forall|v: int, m: nat| 0 <= v < n && dist@[v] is None implies !(#[trigger] reachable_within(
                cells,
                o,
                v,
                m,
            )) by {
                if reachable_within(cells, o, v, m) {
                    assert forall|w: int| 0 <= w < n && (#[trigger] dist@[w]) is Some implies dist@[w]->0 < level by {
                        if dist@[w]->0 == level {
                            assert(frontier@.contains(w as usize));
                        }
                    }
                    lemma_exhausted(cells, o, dist@, level as nat, v, m);
                }
            }
        }
        Exploration { distances: dist, order, found: None }
    }

    /// The nearest cell of `kind` that still holds resources, seen from `base_index`, with its
    /// hop count: fewest hops first, then the lowest id; `None` when none is reachable.
    pub fn nearest_element(&self, base_index: usize, cellules: &Vec<Cellule>, kind: CellKind) -> (r:
        Option<(usize, usize)>)
        requires
            cells_wf(cellules@),
            base_index < cellules.len(),
        ensures
            is_nearest(cellules@, base_index as int, Goal::Resource(kind), r),
            r == nearest(cellules@, base_index as int, Goal::Resource(kind)),
    {
        let e = self.explore(base_index, cellules, Some(Goal::Resource(kind)));
        proof {
            lemma_nearest_is_the_answer(cellules@, base_index as int, Goal::Resource(kind), e.found);
        }
        e.found
    }

    /// The hop distance from `origin` to `target`, or `None` when `target` cannot be reached.
    pub fn distance_to(&self, origin: usize, target: usize, cellules: &Vec<Cellule>) -> (r: Option<
        usize,
    >)
        requires
            cells_wf(cellules@),
            origin < cellules.len(),
            target < cellules.len(),
        ensures
            r matches Some(d) ==> at_distance(cellules@, origin as int, target as int, d as nat),
            r is None ==> !reachable(cellules@, origin as int, target as int),
    {
        let e = self.explore(origin, cellules, Some(Goal::Cell(target)));
        match e.found {
            Some((t, d)) => {
                proof {
                    assert(goal_met(cellules@, Goal::Cell(target), target as int));
                }
                Some(d)
            },
            None => {
                proof {
                    assert(goal_met(cellules@, Goal::Cell(target), target as int));
                    assert forall|m: nat| !(#[trigger] reachable_within(cellules@, origin as int, target as int, m)) by {}
                }
                None
            },
        }
    }

    /// The hop distance from `origin` to every cell, `None` for the cells it cannot reach;
    /// computed once per base, as the graph never changes during a match.
    pub fn distances_from(&self, origin: usize, cellules: &Vec<Cellule>) -> (r: Vec<Option<usize>>)
        requires
            cells_wf(cellules@),
            origin < cellules.len(),
        ensures
            r.len() == cellules.len(),
            forall|v: int|
                0 <= v < r.len() ==> match #[trigger] r@[v] {
                    Some(d) => at_distance(cellules@, origin as int, v, d as nat),
                    None => !reachable(cellules@, origin as int, v),
                },
    {
        let e = self.explore(origin, cellules, None);
        proof {
            assert forall|v: int| 0 <= v < e.distances.len() && (#[trigger] e.distances@[v]) is None implies !reachable(
                cellules@,
                origin as int,
                v,
            ) by {
                assert forall|m: nat| !(#[trigger] reachable_within(cellules@, origin as int, v, m)) by {}
            }
        }
        e.distances
    }
}

/// Finds the nearest cells that the strategies aim at.
pub trait CanGiveBestTarget {
    /// The nearest egg cell that still holds eggs, with its hop count.
    fn nearest_eggs(&self, base_index: usize, cellules: &Vec<Cellule>) -> (r: Option<(usize, usize)>)
        requires
            cells_wf(cellules@),
            base_index < cellules.len(),
        ensures
            r == nearest(cellules@, base_index as int, Goal::Resource(CellKind::Egg)),
    ;

    /// The nearest crystal cell that still holds crystals, with its hop count.
    fn nearest_crystals(&self, base_index: usize, cellules: &Vec<Cellule>) -> (r: Option<
        (usize, usize),
    >)
        requires
            cells_wf(cellules@),
            base_index < cellules.len(),
        ensures
            r == nearest(cellules@, base_index as int, Goal::Resource(CellKind::Crystal)),
    ;
}

impl CanGiveBestTarget for BrutalPathFinder {
    fn nearest_eggs(&self, base_index: usize, cellules: &Vec<Cellule>) -> (r: Option<(usize, usize)>) {
        self.nearest_element(base_index, cellules, CellKind::Egg)
    }

    fn nearest_crystals(&self, base_index: usize, cellules: &Vec<Cellule>) -> (r: Option<
        (usize, usize),
    >) {
        self.nearest_element(base_index, cellules, CellKind::Crystal)
    }
}

} // verus!
