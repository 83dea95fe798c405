use vstd::prelude::*;

verus! {

/// What a cell holds for the whole match.
#[derive(Clone, Copy, Debug, PartialEq, Eq, Structural)]
pub enum CellKind {
    Empty,
    Egg,
    Crystal,
}

/// The kind that a code of the map description stands for: 0 empty, 1 eggs, 2 crystals.
pub open spec fn kind_of_code(code: int) -> Option<CellKind> {
    if code == 0 {
        Some(CellKind::Empty)
    } else if code == 1 {
        Some(CellKind::Egg)
    } else if code == 2 {
        Some(CellKind::Crystal)
    } else {
        None
    }
}

impl CellKind {
    /// Decodes a kind code of the map description.
    pub fn from_code(code: i32) -> (r: Option<CellKind>)
        ensures
            r == kind_of_code(code as int),
    {
        if code == 0 {
            Some(CellKind::Empty)
        } else if code == 1 {
            Some(CellKind::Egg)
        } else if code == 2 {
            Some(CellKind::Crystal)
        } else {
            None
        }
    }
}

/// One hexagonal cell: its static attributes (id, kind, six neighbour slots) and its live
/// counts. The army counts are `None` until the first turn has been read.
#[derive(Clone, Copy, Debug)]
pub struct Cellule {
    pub kind: CellKind,
    pub identifiant: usize,
    pub nombre_de_crystal: u32,
    pub nombre_insectes: Option<u32>,
    pub nombre_insectes_enemy: Option<u32>,
    pub voisins: [Option<usize>; 6],
}

/// A neighbour code of the map description: -1 is no edge, any other value a cell id.
pub open spec fn slot_of_code(code: int) -> Option<usize> {
    if code == -1 {
        None
    } else {
        Some(code as usize)
    }
}

/// A neighbour code that the map description may hold.
pub open spec fn valid_slot_code(code: int) -> bool {
    -1 <= code
}

/// A resource or army count that a cell may hold.
pub open spec fn valid_count(x: int) -> bool {
    0 <= x
}

/// The cell that a record of the map description describes, before any live count is known.
pub open spec fn cell_of_record(
    identifiant: usize,
    kind: CellKind,
    resources: int,
    neighbours: Seq<i32>,
) -> Cellule {
    Cellule {
        kind,
        identifiant,
        nombre_de_crystal: resources as u32,
        nombre_insectes: None,
        nombre_insectes_enemy: None,
        voisins: [
            slot_of_code(neighbours[0] as int),
            slot_of_code(neighbours[1] as int),
            slot_of_code(neighbours[2] as int),
            slot_of_code(neighbours[3] as int),
            slot_of_code(neighbours[4] as int),
            slot_of_code(neighbours[5] as int),
        ],
    }
}

impl Cellule {
    /// Builds cell `identifiant` from its record of the map description: a kind code, the
    /// initial resource amount and six neighbour codes. Fails on an unknown kind code, a
    /// negative amount, or a neighbour code below -1.
    pub fn from_record(identifiant: usize, kind_code: i32, resources: i32, neighbours: [i32; 6]) -> (r:
        Option<Cellule>)
        ensures
            r is Some <==> (kind_of_code(kind_code as int) is Some && valid_count(resources as int)
                && forall|k: int| 0 <= k < 6 ==> valid_slot_code(#[trigger] neighbours@[k] as int)),
            r matches Some(c) ==> c == cell_of_record(
                identifiant,
                kind_of_code(kind_code as int)->0,
                resources as int,
                neighbours@,
            ),
    {
        let kind = match CellKind::from_code(kind_code) {
            Some(k) => k,
            None => {
                return None;
            },
        };
        if resources < 0 {
            return None;
        }
        let mut voisins: [Option<usize>; 6] = [None; 6];
        let mut k: usize = 0;
        while k < 6
            invariant
                0 <= k <= 6,
                forall|j: int| 0 <= j < k ==> valid_slot_code(#[trigger] neighbours@[j] as int),
                forall|j: int| 0 <= j < k ==> #[trigger] voisins@[j] == slot_of_code(neighbours@[j] as int),
            decreases 6 - k,
        {
            let code = neighbours[k];
            if code < -1 {
                return None;
            }
            voisins[k] = if code == -1 {
                None
            } else {
                Some(code as usize)
            };
            k = k + 1;
        }
        let c = Cellule {
            kind,
            identifiant,
            nombre_de_crystal: resources as u32,
            nombre_insectes: None,
            nombre_insectes_enemy: None,
            voisins,
        };
        assert(c.voisins =~= cell_of_record(identifiant, kind, resources as int, neighbours@).voisins);
        Some(c)
    }

    /// The same cell with the live counts of a new turn: its resource amount and the two
    /// armies on it. Fails where a count is negative.
    pub fn with_live_counts(&self, resources: i32, mine: i32, theirs: i32) -> (r: Option<Cellule>)
        ensures
            r is Some <==> (valid_count(resources as int) && valid_count(mine as int) && valid_count(
                theirs as int,
            )),
            r matches Some(c) ==> c == (Cellule {
                nombre_de_crystal: resources as u32,
                nombre_insectes: Some(mine as u32),
                nombre_insectes_enemy: Some(theirs as u32),
                ..*self
            }),
    {
        if resources < 0 || mine < 0 || theirs < 0 {
            return None;
        }
        Some(
            Cellule {
                nombre_de_crystal: resources as u32,
                nombre_insectes: Some(mine as u32),
                nombre_insectes_enemy: Some(theirs as u32),
                ..*self
            },
        )
    }
}

/// A force-allocation intent: send force from the base toward cell `target` with the relative
/// strength `weight`.
#[derive(Clone, Copy, Debug, PartialEq, Eq, Structural)]
pub struct Intent {
    pub target: usize,
    pub weight: u32,
}

} // verus!
