use vstd::prelude::*;

use crate::emitter::{command_line, render_actions};
use crate::graph::cells_wf;
use crate::model::{CellKind, Cellule, Intent};
use crate::path_finder::{nearest, BrutalPathFinder, CanGiveBestTarget, Goal};
use crate::sorting::{is_candidate, ranked, ranked_cells, ranking};
use crate::state::{army_total, count_holding, count_kind, AllData};

verus! {

/// Turns before this one belong to the early tier.
pub const EARLY_TIER_END: u32 = 7;

/// Turns from the early tier's end up to this one belong to the mid tier; later ones to the late
/// tier.
pub const MID_TIER_END: u32 = 12;

/// Below this total army, and with no egg cell emptied yet, the composite policy keeps seeking
/// eggs.
pub const ARMY_GUARD: u64 = 30;

/// Weight of the single line that follows the kept target.
pub const TARGET_WEIGHT: u32 = 1;

/// Weight of each line when every crystal cell is harvested.
pub const HARVEST_WEIGHT: u32 = 20;

/// Weight of the line toward the nearest egg cell when seeking eggs.
pub const NEST_WEIGHT: u32 = 10;

/// Weight of the line toward the richest egg cell in the opening of the eggs-first policy.
pub const OPENING_EGG_WEIGHT: u32 = 1;

/// Weight of each crystal line after the opening of the eggs-first policy.
pub const OPENING_CRYSTAL_WEIGHT: u32 = 2;

/// Weight of the egg line in the early tier.
pub const EARLY_EGG_WEIGHT: u32 = 10;

/// Weight of the egg line in the mid tier.
pub const MID_EGG_WEIGHT: u32 = 4;

/// Weight of the crystal line in the mid tier.
pub const MID_CRYSTAL_WEIGHT: u32 = 10;

/// Weight of the line toward the nearest crystal cell in the late tier.
pub const LATE_NEAREST_WEIGHT: u32 = 10;

/// Weight of the lines toward the other crystal cells in the late tier.
pub const LATE_OTHER_WEIGHT: u32 = 2;

/// One intent toward the cell that a search found, if any.
pub open spec fn toward_found(found: Option<(usize, usize)>, weight: u32) -> Seq<Intent> {
    match found {
        Some((id, _)) => seq![Intent { target: id, weight }],
        None => Seq::empty(),
    }
}

/// One intent toward the target, if any.
pub open spec fn toward_target(target: Option<usize>, weight: u32) -> Seq<Intent> {
    match target {
        Some(id) => seq![Intent { target: id, weight }],
        None => Seq::empty(),
    }
}

/// One intent toward each listed cell, in order, but for the cell `skip`.
pub open spec fn toward_each(rs: Seq<Cellule>, skip: Option<usize>, weight: u32) -> Seq<Intent>
    decreases rs.len(),
{
    if rs.len() == 0 {
        Seq::empty()
    } else if skip == Some(rs.last().identifiant) {
        toward_each(rs.drop_last(), skip, weight)
    } else {
        toward_each(rs.drop_last(), skip, weight).push(Intent { target: rs.last().identifiant, weight })
    }
}

/// The target after a new turn: the current one while the sorted list still holds a cell with
/// its id; else the first cell of the list, if any.
pub open spec fn retarget(current: Option<usize>, sorted: Seq<Cellule>) -> Option<usize> {
    if current matches Some(t) && exists|i: int| 0 <= i < sorted.len() && #[trigger] sorted[i].identifiant == t {
        current
    } else if sorted.len() > 0 {
        Some(sorted[0].identifiant)
    } else {
        None
    }
}

/// Target persistence: over the ranked candidates of a turn, a target is kept exactly while it
/// is still a candidate, and only once it is not is a new one chosen, as if none had been set.
pub proof fn lemma_target_persistence(cells: Seq<Cellule>, want: Option<CellKind>, rs: Seq<Cellule>, t: usize)
    requires
        cells_wf(cells),
        ranked(cells, want, rs),
        t < cells.len(),
    ensures
        retarget(Some(t), rs) == Some(t) <==> is_candidate(cells[t as int], want),
        !is_candidate(cells[t as int], want) ==> retarget(Some(t), rs) == retarget(None, rs),
{
    if is_candidate(cells[t as int], want) {
        assert(rs.contains(cells[t as int]));
        let i = choose|i: int| 0 <= i < rs.len() && rs[i] == cells[t as int];
        assert(rs[i].identifiant == t);
    } else {
        assert forall|i: int| 0 <= i < rs.len() implies #[trigger] rs[i].identifiant != t by {
            if rs[i].identifiant == t {
                assert(rs[i] == cells[t as int]);
                assert(rs.contains(cells[t as int]));
            }
        }
        if rs.len() > 0 {
            assert(rs[0].identifiant != t);
        }
    }
}

/// Appends one intent toward the cell that a search found, if any.
fn push_found(out: &mut Vec<Intent>, found: Option<(usize, usize)>, weight: u32)
    ensures
        final(out)@ == old(out)@ + toward_found(found, weight),
{
    if let Some((id, _)) = found {
        out.push(Intent { target: id, weight });
    }
    assert(out@ =~= old(out)@ + toward_found(found, weight));
}

/// Appends one intent toward each listed cell, in order, but for the cell `skip`.
fn push_each(out: &mut Vec<Intent>, rs: &Vec<Cellule>, skip: Option<usize>, weight: u32)
    ensures
        final(out)@ == old(out)@ + toward_each(rs@, skip, weight),
{
    let ghost start = out@;
    let mut i: usize = 0;
    while i < rs.len()
        invariant
            i <= rs.len(),
            out@ == start + toward_each(rs@.take(i as int), skip, weight),
        decreases rs.len() - i,
    {
        let c = rs[i];
        proof {
            assert(rs@.take(i + 1).drop_last() =~= rs@.take(i as int));
        }
        let skipped = match skip {
            Some(s) => s == c.identifiant,
            None => false,
        };
        if !skipped {
            out.push(Intent { target: c.identifiant, weight });
        }
        assert(out@ =~= start + toward_each(rs@.take(i + 1), skip, weight));
        i = i + 1;
    }
    assert(rs@.take(rs.len() as int) =~= rs@);
}

/// The target after a new turn, from the current one and the sorted candidates.
fn retargeted(current: Option<usize>, sorted: &Vec<Cellule>) -> (r: Option<usize>)
    ensures
        r == retarget(current, sorted@),
{
    if let Some(t) = current {
        let mut i: usize = 0;
        while i < sorted.len()
            invariant
                i <= sorted.len(),
                current == Some(t),
                forall|j: int| 0 <= j < i ==> #[trigger] sorted@[j].identifiant != t,
            decreases sorted.len() - i,
        {
            if sorted[i].identifiant == t {
                assert(sorted@[i as int].identifiant == t);
                return current;
            }
            i = i + 1;
        }
    }
    if sorted.len() > 0 {
        Some(sorted[0].identifiant)
    } else {
        None
    }
}

/// A strategy: what it does with the state of one turn.
pub trait CanBuildActions: Sized {
    /// The intents that the strategy emits for the turn `data`.
    spec fn planned(&self, data: AllData) -> Seq<Intent>;

    /// The strategy's state once it has decided on the turn `data`.
    spec fn after(&self, data: AllData) -> Self;

    /// Decides the intents of one turn.
    fn build_actions(&mut self, all_data: &AllData) -> (r: Vec<Intent>)
        requires
            all_data.wf(),
        ensures
            r@ == old(self).planned(*all_data),
            *final(self) == old(self).after(*all_data),
    ;

    /// Decides one turn and renders its intents as the output line, sent from my base.
    fn execute_actions(&mut self, all_data: &AllData) -> (r: String)
        requires
            all_data.wf(),
        ensures
            r@ == command_line(all_data.my_base_index as nat, old(self).planned(*all_data)),
            *final(self) == old(self).after(*all_data),
    {
        let actions = self.build_actions(all_data);
        render_actions(all_data.my_base_index, &actions)
    }
}

/// Follows one target, the richest cell holding resources, and keeps it while it still holds
/// some.
pub struct BasicIA {
    pub current_target: Option<usize>,
}

impl BasicIA {
    /// Keeps the current target while the sorted list still holds it; else takes the first
    /// cell of the list, if any.
    pub fn update_target(&mut self, cellules_sorted: &Vec<Cellule>)
        ensures
            final(self).current_target == retarget(old(self).current_target, cellules_sorted@),
    {
        self.current_target = retargeted(self.current_target, cellules_sorted);
    }
}

impl CanBuildActions for BasicIA {
    open spec fn planned(&self, data: AllData) -> Seq<Intent> {
        toward_target(self.after(data).current_target, TARGET_WEIGHT)
    }

    open spec fn after(&self, data: AllData) -> Self {
        BasicIA { current_target: retarget(self.current_target, ranking(data.cellules@, None)) }
    }

    fn build_actions(&mut self, all_data: &AllData) -> (r: Vec<Intent>)
        ensures
            old(self).current_target matches Some(t) && t < all_data.cellules.len()
                && is_candidate(all_data.cellules@[t as int], None) ==> final(self).current_target
                == old(self).current_target,
            final(self).current_target != old(self).current_target ==> (
            old(self).current_target matches Some(t) ==> t >= all_data.cellules.len() || !is_candidate(
                all_data.cellules@[t as int],
                None,
            )),
    {
        let sorted = ranked_cells(&all_data.cellules, None);
        self.update_target(&sorted);
        proof {
            if let Some(t) = old(self).current_target {
                if t < all_data.cellules.len() {
                    lemma_target_persistence(all_data.cellules@, None, sorted@, t);
                }
            }
        }
        let mut actions: Vec<Intent> = Vec::new();
        if let Some(t) = self.current_target {
            actions.push(Intent { target: t, weight: TARGET_WEIGHT });
        }
        assert(actions@ =~= toward_target(self.current_target, TARGET_WEIGHT));
        actions
    }
}

/// Harvests every crystal cell that still holds crystals, the richest first, at one high
/// weight.
pub struct BasicIAAttrapeToutCrystaux;

impl BasicIAAttrapeToutCrystaux {
    pub fn new() -> Self {
        BasicIAAttrapeToutCrystaux
    }
}

impl CanBuildActions for BasicIAAttrapeToutCrystaux {
    open spec fn planned(&self, data: AllData) -> Seq<Intent> {
        toward_each(ranking(data.cellules@, Some(CellKind::Crystal)), None, HARVEST_WEIGHT)
    }

    open spec fn after(&self, data: AllData) -> Self {
        *self
    }

    fn build_actions(&mut self, all_data: &AllData) -> (r: Vec<Intent>) {
        let sorted = ranked_cells(&all_data.cellules, Some(CellKind::Crystal));
        let mut actions: Vec<Intent> = Vec::new();
        push_each(&mut actions, &sorted, None, HARVEST_WEIGHT);
        assert(actions@ =~= self.planned(*all_data));
        actions
    }
}

/// Seeks the nearest egg cell that still holds eggs.
pub struct BasicIARechercheNidProche {
    pub path_finder: BrutalPathFinder,
}

impl BasicIARechercheNidProche {
    pub fn new() -> Self {
        BasicIARechercheNidProche { path_finder: BrutalPathFinder::new() }
    }
}

impl CanBuildActions for BasicIARechercheNidProche {
    open spec fn planned(&self, data: AllData) -> Seq<Intent> {
        toward_found(
            nearest(data.cellules@, data.my_base_index as int, Goal::Resource(CellKind::Egg)),
            NEST_WEIGHT,
        )
    }

    open spec fn after(&self, data: AllData) -> Self {
        *self
    }

    fn build_actions(&mut self, all_data: &AllData) -> (r: Vec<Intent>) {
        let found = self.path_finder.nearest_eggs(all_data.my_base_index, &all_data.cellules);
        let mut actions: Vec<Intent> = Vec::new();
        push_found(&mut actions, found, NEST_WEIGHT);
        assert(actions@ =~= self.planned(*all_data));
        actions
    }
}

/// Opens on the richest egg cell, then spreads over every crystal cell.
pub struct BasicIAWithEggsFirst {
    pub current_target: Option<usize>,
}

impl BasicIAWithEggsFirst {
    pub fn new() -> (r: Self)
        ensures
            r.current_target is None,
    {
        BasicIAWithEggsFirst { current_target: None }
    }

    /// Keeps the current target while the sorted list still holds it; else takes the first
    /// cell of the list, if any.
    pub fn update_target(&mut self, cellules_sorted: &Vec<Cellule>)
        ensures
            final(self).current_target == retarget(old(self).current_target, cellules_sorted@),
    {
        self.current_target = retargeted(self.current_target, cellules_sorted);
    }
}

impl CanBuildActions for BasicIAWithEggsFirst {
    open spec fn planned(&self, data: AllData) -> Seq<Intent> {
        if data.tour_actuel < EARLY_TIER_END {
            let eggs = ranking(data.cellules@, Some(CellKind::Egg));
            if eggs.len() > 0 {
                seq![Intent { target: eggs[0].identifiant, weight: OPENING_EGG_WEIGHT }]
            } else {
                Seq::empty()
            }
        } else {
            toward_each(ranking(data.cellules@, Some(CellKind::Crystal)), None, OPENING_CRYSTAL_WEIGHT)
        }
    }

    open spec fn after(&self, data: AllData) -> Self {
        *self
    }

    fn build_actions(&mut self, all_data: &AllData) -> (r: Vec<Intent>) {
        let crystals = ranked_cells(&all_data.cellules, Some(CellKind::Crystal));
        let eggs = ranked_cells(&all_data.cellules, Some(CellKind::Egg));
        let mut actions: Vec<Intent> = Vec::new();
        if all_data.tour_actuel < EARLY_TIER_END {
            if eggs.len() > 0 {
                actions.push(Intent { target: eggs[0].identifiant, weight: OPENING_EGG_WEIGHT });
            }
        } else {
            push_each(&mut actions, &crystals, None, OPENING_CRYSTAL_WEIGHT);
        }
        assert(actions@ =~= self.planned(*all_data));
        actions
    }
}

/// The tiered policy: eggs early, eggs and crystals in the middle, then the nearest crystal
/// cell first and every other one after.
pub struct BasicIAWithPathFinder {
    pub current_target: Option<usize>,
    pub path_finder: BrutalPathFinder,
}

impl BasicIAWithPathFinder {
    pub fn new() -> (r: Self)
        ensures
            r.current_target is None,
    {
        BasicIAWithPathFinder { current_target: None, path_finder: BrutalPathFinder::new() }
    }
}

impl CanBuildActions for BasicIAWithPathFinder {
    open spec fn planned(&self, data: AllData) -> Seq<Intent> {
        let cells = data.cellules@;
        let base = data.my_base_index as int;
        let egg = nearest(cells, base, Goal::Resource(CellKind::Egg));
        let crystal = nearest(cells, base, Goal::Resource(CellKind::Crystal));
        if data.tour_actuel < EARLY_TIER_END {
            toward_found(egg, EARLY_EGG_WEIGHT)
        } else if data.tour_actuel < MID_TIER_END {
            toward_found(egg, MID_EGG_WEIGHT) + toward_found(crystal, MID_CRYSTAL_WEIGHT)
        } else {
            toward_found(crystal, LATE_NEAREST_WEIGHT) + toward_each(
                ranking(cells, Some(CellKind::Crystal)),
                match crystal {
                    Some((id, _)) => Some(id),
                    None => None,
                },
                LATE_OTHER_WEIGHT,
            )
        }
    }

    open spec fn after(&self, data: AllData) -> Self {
        *self
    }

    fn build_actions(&mut self, all_data: &AllData) -> (r: Vec<Intent>) {
        let base = all_data.my_base_index;
        let egg = self.path_finder.nearest_eggs(base, &all_data.cellules);
        let crystal = self.path_finder.nearest_crystals(base, &all_data.cellules);
        let mut actions: Vec<Intent> = Vec::new();
        if all_data.tour_actuel < EARLY_TIER_END {
            push_found(&mut actions, egg, EARLY_EGG_WEIGHT);
        } else if all_data.tour_actuel < MID_TIER_END {
            push_found(&mut actions, egg, MID_EGG_WEIGHT);
            push_found(&mut actions, crystal, MID_CRYSTAL_WEIGHT);
        } else {
            let others = ranked_cells(&all_data.cellules, Some(CellKind::Crystal));
            push_found(&mut actions, crystal, LATE_NEAREST_WEIGHT);
            let skip = match crystal {
                Some((id, _)) => Some(id),
                None => None,
            };
            push_each(&mut actions, &others, skip, LATE_OTHER_WEIGHT);
        }
        assert(actions@ =~= self.planned(*all_data));
        actions
    }
}

/// The composite policy: seek the nearest egg cell while no egg cell has been emptied and the
/// army is small; harvest every crystal cell otherwise.
pub struct BasicIABronze {
    pub path_finder: BrutalPathFinder,
    pub ia_attrape_tout: BasicIAAttrapeToutCrystaux,
    pub ia_first_nid: BasicIARechercheNidProche,
}

/// The composite policy still seeks eggs: no egg cell emptied yet and the army below the guard.
pub open spec fn seeks_eggs(data: AllData) -> bool {
    count_kind(data.initial_cellules@, CellKind::Egg) - count_holding(data.cellules@, CellKind::Egg) < 1
        && army_total(data.cellules@, true) < ARMY_GUARD
}

impl BasicIABronze {
    pub fn new() -> Self {
        BasicIABronze {
            path_finder: BrutalPathFinder::new(),
            ia_attrape_tout: BasicIAAttrapeToutCrystaux::new(),
            ia_first_nid: BasicIARechercheNidProche::new(),
        }
    }
}

impl CanBuildActions for BasicIABronze {
    open spec fn planned(&self, data: AllData) -> Seq<Intent> {
        if seeks_eggs(data) {
            self.ia_first_nid.planned(data)
        } else {
            self.ia_attrape_tout.planned(data)
        }
    }

    open spec fn after(&self, data: AllData) -> Self {
        *self
    }

    fn build_actions(&mut self, all_data: &AllData) -> (r: Vec<Intent>) {
        let nombre_total_insect = all_data.get_my_total_insect();
        if all_data.get_nombre_nid_detruit() < 1 && nombre_total_insect < ARMY_GUARD {
            self.ia_first_nid.build_actions(all_data)
        } else {
            self.ia_attrape_tout.build_actions(all_data)
        }
    }
}

} // verus!
