use vstd::prelude::*;

use crate::graph::cells_wf;
use crate::model::{CellKind, Cellule};

verus! {

/// The army of one side on a cell, counted as zero before the first turn.
pub open spec fn army_on(c: Cellule, mine: bool) -> int {
    let count = if mine {
        c.nombre_insectes
    } else {
        c.nombre_insectes_enemy
    };
    match count {
        Some(a) => a as int,
        None => 0,
    }
}

/// The army of one side over all cells.
pub open spec fn army_total(cells: Seq<Cellule>, mine: bool) -> int
    decreases cells.len(),
{
    if cells.len() == 0 {
        0
    } else {
        army_total(cells.drop_last(), mine) + army_on(cells.last(), mine)
    }
}

/// The number of cells of `kind`, whatever they hold.
pub open spec fn count_kind(cells: Seq<Cellule>, kind: CellKind) -> nat
    decreases cells.len(),
{
    if cells.len() == 0 {
        0
    } else {
        count_kind(cells.drop_last(), kind) + if cells.last().kind == kind {
            1nat
        } else {
            0nat
        }
    }
}

/// The number of cells of `kind` that still hold resources.
pub open spec fn count_holding(cells: Seq<Cellule>, kind: CellKind) -> nat
    decreases cells.len(),
{
    if cells.len() == 0 {
        0
    } else {
        count_holding(cells.drop_last(), kind) + if cells.last().kind == kind
            && cells.last().nombre_de_crystal > 0 {
            1nat
        } else {
            0nat
        }
    }
}

/// Two cell lists of one length whose cells agree in kind, position by position.
pub open spec fn same_kinds(a: Seq<Cellule>, b: Seq<Cellule>) -> bool {
    &&& a.len() == b.len()
    &&& forall|i: int| 0 <= i < a.len() ==> #[trigger] a[i].kind == b[i].kind
}

/// The cells still holding resources of a kind are no more than the cells of that kind at the
/// start of the match.
pub proof fn lemma_holding_at_most_initial(initial: Seq<Cellule>, cells: Seq<Cellule>, kind: CellKind)
    requires
        same_kinds(initial, cells),
    ensures
        count_holding(cells, kind) <= count_kind(initial, kind),
    decreases cells.len(),
{
    if cells.len() > 0 {
        let n = cells.len() - 1;
        assert(initial[n].kind == cells[n].kind);
        assert(same_kinds(initial.drop_last(), cells.drop_last())) by {
            assert forall|i: int| 0 <= i < cells.drop_last().len() implies #[trigger] initial.drop_last()[i].kind
                == cells.drop_last()[i].kind by {
                assert(initial[i].kind == cells[i].kind);
            }
        }
        lemma_holding_at_most_initial(initial.drop_last(), cells.drop_last(), kind);
    }
}

/// The army of one side is at most the largest count times the number of cells.
proof fn lemma_army_bound(cells: Seq<Cellule>, mine: bool)
    ensures
        0 <= army_total(cells, mine) <= cells.len() * 0xFFFF_FFFF,
    decreases cells.len(),
{
    if cells.len() > 0 {
        lemma_army_bound(cells.drop_last(), mine);
    }
}

/// The state of one turn: the cells as the map described them at the start, the cells with
/// this turn's live counts, the two bases and the turn number.
pub struct AllData {
    pub initial_cellules: Vec<Cellule>,
    pub cellules: Vec<Cellule>,
    pub my_base_index: usize,
    pub opp_base_index: usize,
    pub tour_actuel: u32,
}

impl AllData {
    /// The graph is well formed, the kinds did not change since the start, and both bases are
    /// cells of the graph; the cell count fits the army totals in 64 bits.
    pub open spec fn wf(&self) -> bool {
        &&& cells_wf(self.cellules@)
        &&& self.cellules.len() <= u32::MAX
        &&& same_kinds(self.initial_cellules@, self.cellules@)
        &&& self.my_base_index < self.cellules.len()
        &&& self.opp_base_index < self.cellules.len()
    }

    /// Tells whether the state is well formed.
    pub fn is_valid(&self) -> (r: bool)
        ensures
            r == self.wf(),
    {
        let n = self.cellules.len();
        if n > u32::MAX as usize || self.initial_cellules.len() != n || self.my_base_index >= n
            || self.opp_base_index >= n {
            return false;
        }
        if !crate::graph::graph_is_valid(&self.cellules) {
            return false;
        }
        let mut i: usize = 0;
        while i < n
            invariant
                i <= n,
                n == self.cellules.len(),
                self.initial_cellules.len() == n,
                forall|j: int| 0 <= j < i ==> #[trigger] self.initial_cellules@[j].kind == self.cellules@[j].kind,
            decreases n - i,
        {
            if self.initial_cellules[i].kind != self.cellules[i].kind {
                return false;
            }
            i = i + 1;
        }
        true
    }

    fn army(&self, mine: bool) -> (r: u64)
        requires
            self.cellules.len() <= u32::MAX,
        ensures
            r == army_total(self.cellules@, mine),
    {
        let mut total: u64 = 0;
        let mut i: usize = 0;
        while i < self.cellules.len()
            invariant
                i <= self.cellules.len() <= u32::MAX,
                total == army_total(self.cellules@.take(i as int), mine),
            decreases self.cellules.len() - i,
        {
            let c = self.cellules[i];
            let count = if mine {
                c.nombre_insectes
            } else {
                c.nombre_insectes_enemy
            };
            let here: u64 = match count {
                Some(a) => a as u64,
                None => 0,
            };
            proof {
                assert(self.cellules@.take(i + 1).drop_last() =~= self.cellules@.take(i as int));
                lemma_army_bound(self.cellules@.take(i + 1), mine);
                assert((i + 1) * 0xFFFF_FFFF <= 0xFFFF_FFFF * 0xFFFF_FFFF) by (nonlinear_arith)
                    requires
                        i + 1 <= 0xFFFF_FFFF,
                ;
            }
            total = total + here;
            i = i + 1;
        }
        assert(self.cellules@.take(self.cellules.len() as int) =~= self.cellules@);
        total
    }

    /// The total of my army over all cells (zero where not yet known).
    pub fn get_my_total_insect(&self) -> (r: u64)
        requires
            self.cellules.len() <= u32::MAX,
        ensures
            r == army_total(self.cellules@, true),
    {
        self.army(true)
    }

    /// The total of the opponent's army over all cells (zero where not yet known).
    pub fn get_enemy_total_insect(&self) -> (r: u64)
        requires
            self.cellules.len() <= u32::MAX,
        ensures
            r == army_total(self.cellules@, false),
    {
        self.army(false)
    }

    fn count_of_kind(cells: &Vec<Cellule>, kind: CellKind, holding: bool) -> (r: usize)
        ensures
            r == if holding {
                count_holding(cells@, kind)
            } else {
                count_kind(cells@, kind)
            },
    {
        let mut count: usize = 0;
        let mut i: usize = 0;
        while i < cells.len()
            invariant
                i <= cells.len(),
                count == if holding {
                    count_holding(cells@.take(i as int), kind)
                } else {
                    count_kind(cells@.take(i as int), kind)
                },
                count <= i,
            decreases cells.len() - i,
        {
            proof {
                assert(cells@.take(i + 1).drop_last() =~= cells@.take(i as int));
            }
            if cells[i].kind == kind && (!holding || cells[i].nombre_de_crystal > 0) {
                count = count + 1;
            }
            i = i + 1;
        }
        assert(cells@.take(cells.len() as int) =~= cells@);
        count
    }

    /// The number of crystal cells at the start of the match.
    pub fn get_nombre_crystal_initial(&self) -> (r: usize)
        ensures
            r == count_kind(self.initial_cellules@, CellKind::Crystal),
    {
        Self::count_of_kind(&self.initial_cellules, CellKind::Crystal, false)
    }

    /// The number of crystal cells that still hold crystals.
    pub fn get_nombre_crystal_actuel(&self) -> (r: usize)
        ensures
            r == count_holding(self.cellules@, CellKind::Crystal),
    {
        Self::count_of_kind(&self.cellules, CellKind::Crystal, true)
    }

    /// The number of egg cells at the start of the match.
    pub fn get_nombre_nid_initial(&self) -> (r: usize)
        ensures
            r == count_kind(self.initial_cellules@, CellKind::Egg),
    {
        Self::count_of_kind(&self.initial_cellules, CellKind::Egg, false)
    }

    /// The number of egg cells that still hold eggs.
    pub fn get_nombre_nid_actuel(&self) -> (r: usize)
        ensures
            r == count_holding(self.cellules@, CellKind::Egg),
    {
        Self::count_of_kind(&self.cellules, CellKind::Egg, true)
    }

    /// The number of egg cells emptied since the start of the match.
    pub fn get_nombre_nid_detruit(&self) -> (r: usize)
        requires
            same_kinds(self.initial_cellules@, self.cellules@),
        ensures
            r == count_kind(self.initial_cellules@, CellKind::Egg) - count_holding(
                self.cellules@,
                CellKind::Egg,
            ),
    {
        proof {
            lemma_holding_at_most_initial(self.initial_cellules@, self.cellules@, CellKind::Egg);
        }
        self.get_nombre_nid_initial() - self.get_nombre_nid_actuel()
    }

    /// The number of crystal cells emptied since the start of the match.
    pub fn get_nombre_crystal_detruit(&self) -> (r: usize)
        requires
            same_kinds(self.initial_cellules@, self.cellules@),
        ensures
            r == count_kind(self.initial_cellules@, CellKind::Crystal) - count_holding(
                self.cellules@,
                CellKind::Crystal,
            ),
    {
        proof {
            lemma_holding_at_most_initial(self.initial_cellules@, self.cellules@, CellKind::Crystal);
        }
        self.get_nombre_crystal_initial() - self.get_nombre_crystal_actuel()
    }
}

} // verus!
