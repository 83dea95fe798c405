use vstd::prelude::*;

use crate::graph::cells_wf;
use crate::model::{CellKind, Cellule};

verus! {

/// Cell `a` comes before cell `b` by resource amount: the larger amount first and, between equal
/// amounts, the larger id first.
pub open spec fn ranks_before(a: Cellule, b: Cellule) -> bool {
    a.nombre_de_crystal > b.nombre_de_crystal || (a.nombre_de_crystal == b.nombre_de_crystal
        && a.identifiant > b.identifiant)
}

/// No cell of `s` comes before a cell to its left.
pub open spec fn sorted_by_amount(s: Seq<Cellule>) -> bool {
    forall|i: int, j: int| 0 <= i < j < s.len() ==> !ranks_before(#[trigger] s[j], #[trigger] s[i])
}

/// Cell `c` still holds resources and, where a kind is wanted, is of that kind.
pub open spec fn is_candidate(c: Cellule, want: Option<CellKind>) -> bool {
    c.nombre_de_crystal > 0 && (want matches Some(k) ==> c.kind == k)
}

/// `rs` lists each candidate cell once, by resource amount from the largest (the larger id
/// first between equal amounts).
pub open spec fn ranked(cells: Seq<Cellule>, want: Option<CellKind>, rs: Seq<Cellule>) -> bool {
    &&& forall|j: int|
        0 <= j < rs.len() ==> (#[trigger] rs[j]).identifiant < cells.len() && rs[j] == cells[rs[j].identifiant as int]
    &&& forall|v: int|
        0 <= v < cells.len() ==> (is_candidate(#[trigger] cells[v], want) <==> rs.contains(cells[v]))
    &&& forall|i: int, j: int| 0 <= i < j < rs.len() ==> ranks_before(#[trigger] rs[i], #[trigger] rs[j])
}

/// The candidate cells by resource amount, which `ranked` pins down uniquely.
pub open spec fn ranking(cells: Seq<Cellule>, want: Option<CellKind>) -> Seq<Cellule> {
    choose|rs: Seq<Cellule>| ranked(cells, want, rs)
}

/// Two sequences strictly ordered by `ranks_before` that hold the same cells are equal.
proof fn lemma_strictly_ranked_equal(a: Seq<Cellule>, b: Seq<Cellule>)
    requires
        forall|i: int, j: int| 0 <= i < j < a.len() ==> ranks_before(#[trigger] a[i], #[trigger] a[j]),
        forall|i: int, j: int| 0 <= i < j < b.len() ==> ranks_before(#[trigger] b[i], #[trigger] b[j]),
        forall|x: Cellule| a.contains(x) <==> b.contains(x),
    ensures
        a == b,
    decreases a.len(),
{
    if a.len() == 0 {
        if b.len() > 0 {
            assert(b.contains(b[0]));
        }
        assert(a =~= b);
    } else if b.len() == 0 {
        assert(a.contains(a[0]));
    } else {
        assert(a.contains(a[0]));
        assert(b.contains(b[0]));
        let k = choose|k: int| 0 <= k < b.len() && b[k] == a[0];
        let m = choose|m: int| 0 <= m < a.len() && a[m] == b[0];
        if k > 0 {
            assert(ranks_before(b[0], b[k]));
            if m > 0 {
                assert(ranks_before(a[0], a[m]));
            }
        }
        let a1 = a.drop_first();
        let b1 = b.drop_first();
        assert forall|x: Cellule| a1.contains(x) <==> b1.contains(x) by {
            if a1.contains(x) {
                let i = choose|i: int| 0 <= i < a1.len() && a1[i] == x;
                assert(a[i + 1] == x);
                assert(ranks_before(a[0], a[i + 1]));
                assert(b.contains(x));
                let j = choose|j: int| 0 <= j < b.len() && b[j] == x;
                assert(j != 0);
                assert(b1[j - 1] == x);
            }
            if b1.contains(x) {
                let i = choose|i: int| 0 <= i < b1.len() && b1[i] == x;
                assert(b[i + 1] == x);
                assert(ranks_before(b[0], b[i + 1]));
                assert(a.contains(x));
                let j = choose|j: int| 0 <= j < a.len() && a[j] == x;
                assert(j != 0);
                assert(a1[j - 1] == x);
            }
        }
        assert forall|i: int, j: int| 0 <= i < j < a1.len() implies ranks_before(#[trigger] a1[i], #[trigger] a1[j]) by {
            assert(a1[i] == a[i + 1] && a1[j] == a[j + 1]);
        }
        assert forall|i: int, j: int| 0 <= i < j < b1.len() implies ranks_before(#[trigger] b1[i], #[trigger] b1[j]) by {
            assert(b1[i] == b[i + 1] && b1[j] == b[j + 1]);
        }
        lemma_strictly_ranked_equal(a1, b1);
        assert(a =~= b) by {
            assert forall|i: int| 0 <= i < a.len() implies a[i] == b[i] by {
                if i > 0 {
                    assert(a[i] == a1[i - 1] && b[i] == b1[i - 1]);
                }
            }
        }
    }
}

/// At most one sequence meets `ranked`: the order of the candidates is determined.
pub proof fn lemma_ranked_unique(cells: Seq<Cellule>, want: Option<CellKind>, a: Seq<Cellule>, b: Seq<Cellule>)
    requires
        ranked(cells, want, a),
        ranked(cells, want, b),
    ensures
        a == b,
{
    assert forall|x: Cellule| a.contains(x) <==> b.contains(x) by {
        if a.contains(x) {
            let i = choose|i: int| 0 <= i < a.len() && a[i] == x;
            let v = x.identifiant as int;
            assert(a[i].identifiant < cells.len() && a[i] == cells[v]);
        }
        if b.contains(x) {
            let i = choose|i: int| 0 <= i < b.len() && b[i] == x;
            let v = x.identifiant as int;
            assert(b[i].identifiant < cells.len() && b[i] == cells[v]);
        }
    }
    lemma_strictly_ranked_equal(a, b);
}

/// Sorting into a new value; the receiver is left as it was.
pub trait CanSort<T> {
    fn sort_immut(&self) -> T;
}

impl CanSort<Vec<Cellule>> for Vec<Cellule> {
    /// A copy of the cells sorted by resource amount, the largest first; between equal amounts
    /// the larger id first.
    fn sort_immut(&self) -> (r: Vec<Cellule>)
        ensures
            r@.to_multiset() == self@.to_multiset(),
            sorted_by_amount(r@),
    {
        broadcast use vstd::seq_lib::group_to_multiset_ensures;

        let mut sorted: Vec<Cellule> = Vec::new();
        let mut i: usize = 0;
        while i < self.len()
            invariant
                i <= self.len(),
                sorted@.to_multiset() == self@.take(i as int).to_multiset(),
                sorted_by_amount(sorted@),
            decreases self.len() - i,
        {
            let x = self[i];
            let mut p: usize = 0;
            while p < sorted.len() && !(x.nombre_de_crystal > sorted[p].nombre_de_crystal
                || (x.nombre_de_crystal == sorted[p].nombre_de_crystal && x.identifiant
                > sorted[p].identifiant))
                invariant
                    p <= sorted.len(),
                    forall|q: int| 0 <= q < p ==> !ranks_before(x, #[trigger] sorted@[q]),
                decreases sorted.len() - p,
            {
                p = p + 1;
            }
            let ghost before = sorted@;
            sorted.insert(p, x);
            proof {
                vstd::seq_lib::to_multiset_insert(before, p as int, x);
                let ghost pre = self@.take(i as int);
                assert(self@.take(i + 1) == pre.push(x));
                vstd::seq_lib::to_multiset_build(pre, x);
                assert(sorted@.to_multiset() =~= self@.take(i + 1).to_multiset());
                assert forall|a: int, b: int| 0 <= a < b < sorted@.len() implies !ranks_before(
                    #[trigger] sorted@[b],
                    #[trigger] sorted@[a],
                ) by {
                    if b < p {
                        assert(sorted@[a] == before[a] && sorted@[b] == before[b]);
                    } else if b == p {
                        assert(sorted@[a] == before[a]);
                    } else if a == p {
                        assert(sorted@[b] == before[b - 1]);
                        if b - 1 > p {
                            assert(!ranks_before(before[b - 1], before[p as int]));
                        }
                    } else if a < p {
                        assert(sorted@[a] == before[a] && sorted@[b] == before[b - 1]);
                    } else {
                        assert(sorted@[a] == before[a - 1] && sorted@[b] == before[b - 1]);
                    }
                }
            }
            i = i + 1;
        }
        assert(self@.take(self.len() as int) =~= self@);
        sorted
    }
}

/// The candidate cells, by resource amount from the largest (the larger id first between equal
/// amounts).
pub fn ranked_cells(cellules: &Vec<Cellule>, want: Option<CellKind>) -> (r: Vec<Cellule>)
    requires
        cells_wf(cellules@),
    ensures
        ranked(cellules@, want, r@),
        r@ == ranking(cellules@, want),
{
    broadcast use vstd::seq_lib::group_to_multiset_ensures;

    let ghost cells = cellules@;
    let mut eligible: Vec<Cellule> = Vec::new();
    let mut v: usize = 0;
    while v < cellules.len()
        invariant
            v <= cellules.len(),
            cells == cellules@,
            cells_wf(cells),
            forall|j: int|
                0 <= j < eligible.len() ==> (#[trigger] eligible@[j]).identifiant < v && eligible@[j]
                    == cells[eligible@[j].identifiant as int] && is_candidate(eligible@[j], want),
            forall|a: int, b: int|
                0 <= a < b < eligible.len() ==> (#[trigger] eligible@[a]).identifiant
                    < (#[trigger] eligible@[b]).identifiant,
            forall|u: int| 0 <= u < v && is_candidate(#[trigger] cells[u], want) ==> eligible@.contains(cells[u]),
        decreases cellules.len() - v,
    {
        let c = cellules[v];
        let wanted = match want {
            Some(k) => c.kind == k,
            None => true,
        };
        if c.nombre_de_crystal > 0 && wanted {
            let ghost before = eligible@;
            eligible.push(c);
            proof {
                assert(eligible@[eligible.len() - 1] == c);
                assert forall|u: int| 0 <= u < v + 1 && is_candidate(#[trigger] cells[u], want) implies eligible@.contains(
                    cells[u],
                ) by {
                    if u < v {
                        let j = choose|j: int| 0 <= j < before.len() && before[j] == cells[u];
                        assert(eligible@[j] == cells[u]);
                    }
                }
            }
        }
        v = v + 1;
    }
    let sorted = eligible.sort_immut();
    proof {
        assert(eligible@.no_duplicates()) by {
            assert forall|a: int, b: int| 0 <= a < eligible.len() && 0 <= b < eligible.len() && a != b implies eligible@[a]
                != eligible@[b] by {
                if a < b {
                    assert(eligible@[a].identifiant < eligible@[b].identifiant);
                } else {
                    assert(eligible@[b].identifiant < eligible@[a].identifiant);
                }
            }
        }
        eligible@.lemma_multiset_has_no_duplicates();
        sorted@.lemma_multiset_has_no_duplicates_conv();
        assert forall|q: int| 0 <= q < sorted.len() implies (#[trigger] sorted@[q]).identifiant < cells.len()
            && sorted@[q] == cells[sorted@[q].identifiant as int] && is_candidate(sorted@[q], want) by {
            assert(sorted@.contains(sorted@[q]));
            assert(eligible@.to_multiset().count(sorted@[q]) > 0);
            assert(eligible@.contains(sorted@[q]));
        }
        assert forall|w: int| 0 <= w < cells.len() implies (is_candidate(#[trigger] cells[w], want)
            <==> sorted@.contains(cells[w])) by {
            if is_candidate(cells[w], want) {
                assert(eligible@.contains(cells[w]));
                assert(sorted@.to_multiset().count(cells[w]) > 0);
            }
            if sorted@.contains(cells[w]) {
                assert(sorted@.to_multiset().count(cells[w]) > 0);
                assert(eligible@.contains(cells[w]));
                let j = choose|j: int| 0 <= j < eligible.len() && eligible@[j] == cells[w];
                assert(eligible@[j].identifiant == w);
            }
        }
        assert forall|a: int, b: int| 0 <= a < b < sorted.len() implies ranks_before(
            #[trigger] sorted@[a],
            #[trigger] sorted@[b],
        ) by {
            assert(!ranks_before(sorted@[b], sorted@[a]));
            assert(sorted@[a] != sorted@[b]);
            assert(sorted@[a] == cells[sorted@[a].identifiant as int]);
            assert(sorted@[b] == cells[sorted@[b].identifiant as int]);
        }
        assert(ranked(cells, want, sorted@));
        lemma_ranked_unique(cells, want, ranking(cells, want), sorted@);
    }
    sorted
}

} // verus!
