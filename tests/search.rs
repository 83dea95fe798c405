use colony_bot::graph::graph_is_valid;
use colony_bot::model::{CellKind, Cellule};
use colony_bot::path_finder::{BrutalPathFinder, CanGiveBestTarget, Goal};

fn cell(id: usize, kind: CellKind, amount: u32, neighbours: &[usize]) -> Cellule {
    let mut voisins = [None; 6];
    for (k, n) in neighbours.iter().enumerate() {
        voisins[k] = Some(*n);
    }
    Cellule {
        kind,
        identifiant: id,
        nombre_de_crystal: amount,
        nombre_insectes: None,
        nombre_insectes_enemy: None,
        voisins,
    }
}

fn ring(n: usize) -> Vec<Cellule> {
    (0..n)
        .map(|i| cell(i, CellKind::Empty, 0, &[(i + 1) % n, (i + n - 1) % n]))
        .collect()
}

/// Hop distances from `origin` by relaxing every edge until nothing changes.
fn reference_distances(cells: &[Cellule], origin: usize) -> Vec<Option<usize>> {
    let mut dist = vec![None; cells.len()];
    dist[origin] = Some(0);
    loop {
        let mut changed = false;
        for u in 0..cells.len() {
            if let Some(du) = dist[u] {
                for v in cells[u].voisins.iter().flatten() {
                    if dist[*v].map_or(true, |dv| dv > du + 1) {
                        dist[*v] = Some(du + 1);
                        changed = true;
                    }
                }
            }
        }
        if !changed {
            return dist;
        }
    }
}

fn reference_nearest(cells: &[Cellule], origin: usize, kind: CellKind) -> Option<(usize, usize)> {
    let dist = reference_distances(cells, origin);
    let mut best: Option<(usize, usize)> = None;
    for v in 0..cells.len() {
        if cells[v].kind == kind && cells[v].nombre_de_crystal > 0 {
            if let Some(d) = dist[v] {
                if best.map_or(true, |(_, bd)| d < bd) {
                    best = Some((v, d));
                }
            }
        }
    }
    best
}

/// A small hexagonal patch with cycles, a few resources and one isolated cell.
fn patch() -> Vec<Cellule> {
    vec![
        cell(0, CellKind::Empty, 0, &[1, 2, 3]),
        cell(1, CellKind::Egg, 5, &[0, 2, 4]),
        cell(2, CellKind::Empty, 0, &[0, 1, 3, 4, 5]),
        cell(3, CellKind::Crystal, 9, &[0, 2, 5]),
        cell(4, CellKind::Crystal, 0, &[1, 2, 6]),
        cell(5, CellKind::Egg, 2, &[2, 3, 6]),
        cell(6, CellKind::Crystal, 4, &[4, 5]),
        cell(7, CellKind::Crystal, 30, &[]),
    ]
}

#[test]
fn ring_crystal_three_hops_away() {
    let mut cells = ring(7);
    cells[3] = cell(3, CellKind::Crystal, 12, &[4, 2]);
    let finder = BrutalPathFinder::new();
    assert_eq!(finder.nearest_element(0, &cells, CellKind::Crystal), Some((3, 3)));
    assert_eq!(finder.nearest_crystals(0, &cells), Some((3, 3)));
    assert_eq!(finder.nearest_eggs(0, &cells), None);
}

#[test]
fn isolated_origin_finds_nothing() {
    let mut cells = patch();
    cells.push(cell(8, CellKind::Empty, 0, &[]));
    let finder = BrutalPathFinder::new();
    assert_eq!(finder.nearest_eggs(8, &cells), None);
    assert_eq!(finder.nearest_crystals(8, &cells), None);
    let e = finder.explore(8, &cells, None);
    assert_eq!(e.order, vec![8]);
}

#[test]
fn tie_goes_to_lower_id() {
    // Cells 2 and 5 hold eggs, both two hops from 0 on a ring of 7.
    let mut cells = ring(7);
    cells[2] = cell(2, CellKind::Egg, 1, &[3, 1]);
    cells[5] = cell(5, CellKind::Egg, 50, &[6, 4]);
    let finder = BrutalPathFinder::new();
    assert_eq!(finder.nearest_eggs(0, &cells), Some((2, 2)));
    // The same tie seen from the other side of the ring.
    assert_eq!(finder.nearest_eggs(4, &cells), Some((5, 1)));
    cells[3] = cell(3, CellKind::Egg, 1, &[4, 2]);
    assert_eq!(finder.nearest_eggs(4, &cells), Some((3, 1)));
}

#[test]
fn origin_itself_is_at_distance_zero() {
    let cells = patch();
    let finder = BrutalPathFinder::new();
    assert_eq!(finder.nearest_eggs(1, &cells), Some((1, 0)));
}

#[test]
fn empty_resource_cells_are_skipped() {
    // Cell 4 is a crystal cell with nothing left: from 1 the nearest holding crystals is 3.
    let cells = patch();
    let finder = BrutalPathFinder::new();
    assert_eq!(finder.nearest_crystals(1, &cells), Some((3, 2)));
}

#[test]
fn nearest_matches_reference_search() {
    let cells = patch();
    let finder = BrutalPathFinder::new();
    for origin in 0..cells.len() {
        for kind in [CellKind::Egg, CellKind::Crystal, CellKind::Empty] {
            assert_eq!(
                finder.nearest_element(origin, &cells, kind),
                reference_nearest(&cells, origin, kind),
                "origin {} kind {:?}",
                origin,
                kind
            );
        }
    }
}

#[test]
fn exploration_visits_each_cell_once() {
    let cells = patch();
    let finder = BrutalPathFinder::new();
    let e = finder.explore(0, &cells, None);
    let mut seen = e.order.clone();
    seen.sort();
    seen.dedup();
    assert_eq!(seen.len(), e.order.len());
    assert_eq!(seen, vec![0, 1, 2, 3, 4, 5, 6]);
    assert_eq!(e.found, None);
    assert_eq!(e.distances, reference_distances(&cells, 0));
}

#[test]
fn exploration_stops_at_first_matching_level() {
    let cells = patch();
    let finder = BrutalPathFinder::new();
    let e = finder.explore(0, &cells, Some(Goal::Resource(CellKind::Egg)));
    assert_eq!(e.found, Some((1, 1)));
    // Level two (cells 4, 5) was never reached.
    assert_eq!(e.distances[4], None);
    assert_eq!(e.distances[5], None);
}

#[test]
fn distances_from_base() {
    let cells = patch();
    let finder = BrutalPathFinder::new();
    let d = finder.distances_from(0, &cells);
    assert_eq!(d, vec![Some(0), Some(1), Some(1), Some(1), Some(2), Some(2), Some(3), None]);
}

#[test]
fn distance_to_target() {
    let cells = patch();
    let finder = BrutalPathFinder::new();
    assert_eq!(finder.distance_to(0, 6, &cells), Some(3));
    assert_eq!(finder.distance_to(6, 6, &cells), Some(0));
    assert_eq!(finder.distance_to(0, 7, &cells), None);
}

#[test]
fn ring_distances_wrap_around() {
    let cells = ring(7);
    let finder = BrutalPathFinder::new();
    let d = finder.distances_from(0, &cells);
    assert_eq!(d, vec![Some(0), Some(1), Some(2), Some(3), Some(3), Some(2), Some(1)]);
}

#[test]
fn graph_validation() {
    let cells = patch();
    assert!(graph_is_valid(&cells));
    let mut bad = patch();
    bad[2].voisins[5] = Some(8);
    assert!(!graph_is_valid(&bad));
    let mut misplaced = patch();
    misplaced[3].identifiant = 4;
    assert!(!graph_is_valid(&misplaced));
    assert!(graph_is_valid(&Vec::new()));
}
