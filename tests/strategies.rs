use colony_bot::behaviors::{
    BasicIA, BasicIABronze, BasicIAAttrapeToutCrystaux, BasicIARechercheNidProche,
    BasicIAWithEggsFirst, BasicIAWithPathFinder, CanBuildActions,
};
use colony_bot::emitter::render_actions;
use colony_bot::model::{CellKind, Cellule, Intent};
use colony_bot::sorting::{ranked_cells, CanSort};
use colony_bot::state::AllData;

fn cell(id: usize, kind: CellKind, amount: u32, army: u32, neighbours: &[usize]) -> Cellule {
    let mut voisins = [None; 6];
    for (k, n) in neighbours.iter().enumerate() {
        voisins[k] = Some(*n);
    }
    Cellule {
        kind,
        identifiant: id,
        nombre_de_crystal: amount,
        nombre_insectes: Some(army),
        nombre_insectes_enemy: Some(1),
        voisins,
    }
}

/// A line of cells: base 0, eggs at 2 and 5, crystals at 3 (6 left), 4 (9 left) and 6 (6 left).
fn line_map(my_army_on_base: u32) -> Vec<Cellule> {
    vec![
        cell(0, CellKind::Empty, 0, my_army_on_base, &[1]),
        cell(1, CellKind::Empty, 0, 0, &[0, 2]),
        cell(2, CellKind::Egg, 4, 0, &[1, 3]),
        cell(3, CellKind::Crystal, 6, 0, &[2, 4]),
        cell(4, CellKind::Crystal, 9, 0, &[3, 5]),
        cell(5, CellKind::Egg, 7, 0, &[4, 6]),
        cell(6, CellKind::Crystal, 6, 0, &[5]),
    ]
}

fn state(cells: Vec<Cellule>, turn: u32) -> AllData {
    AllData {
        initial_cellules: cells.clone(),
        cellules: cells,
        my_base_index: 0,
        opp_base_index: 6,
        tour_actuel: turn,
    }
}

#[test]
fn early_turn_with_no_reachable_resource_waits() {
    let mut cells = line_map(5);
    cells[0].voisins = [None; 6];
    cells[1].voisins = [Some(2), None, None, None, None, None];
    let data = state(cells, 1);
    assert!(data.is_valid());
    let mut bot = BasicIAWithPathFinder::new();
    assert_eq!(bot.build_actions(&data), vec![]);
    assert_eq!(bot.execute_actions(&data), "WAIT");
}

#[test]
fn bronze_seeks_nearest_egg_early() {
    let data = state(line_map(10), 5);
    assert_eq!(data.get_nombre_nid_detruit(), 0);
    assert_eq!(data.get_my_total_insect(), 10);
    let mut bot = BasicIABronze::new();
    assert_eq!(bot.execute_actions(&data), "LINE 0 2 10");
}

#[test]
fn late_tier_nearest_crystal_then_others_by_amount() {
    let data = state(line_map(40), 20);
    assert!(data.get_my_total_insect() >= 30);
    let mut bot = BasicIAWithPathFinder::new();
    assert_eq!(
        bot.build_actions(&data),
        vec![
            Intent { target: 3, weight: 10 },
            Intent { target: 4, weight: 2 },
            Intent { target: 6, weight: 2 },
        ]
    );
    assert_eq!(bot.execute_actions(&data), "LINE 0 3 10;LINE 0 4 2;LINE 0 6 2");
}

#[test]
fn mid_tier_egg_and_crystal() {
    let data = state(line_map(40), 9);
    let mut bot = BasicIAWithPathFinder::new();
    assert_eq!(bot.execute_actions(&data), "LINE 0 2 4;LINE 0 3 10");
}

#[test]
fn mid_tier_without_eggs_keeps_crystal_only() {
    let mut cells = line_map(40);
    cells[2].nombre_de_crystal = 0;
    cells[5].nombre_de_crystal = 0;
    let mut data = state(cells, 9);
    data.initial_cellules = line_map(40);
    let mut bot = BasicIAWithPathFinder::new();
    assert_eq!(bot.execute_actions(&data), "LINE 0 3 10");
}

#[test]
fn tier_thresholds() {
    let mut bot = BasicIAWithPathFinder::new();
    assert_eq!(bot.execute_actions(&state(line_map(1), 6)), "LINE 0 2 10");
    assert_eq!(bot.execute_actions(&state(line_map(1), 7)), "LINE 0 2 4;LINE 0 3 10");
    assert_eq!(bot.execute_actions(&state(line_map(1), 11)), "LINE 0 2 4;LINE 0 3 10");
    assert_eq!(
        bot.execute_actions(&state(line_map(1), 12)),
        "LINE 0 3 10;LINE 0 4 2;LINE 0 6 2"
    );
}

#[test]
fn bronze_harvests_once_army_is_large() {
    let data = state(line_map(30), 5);
    let mut bot = BasicIABronze::new();
    assert_eq!(bot.execute_actions(&data), "LINE 0 4 20;LINE 0 6 20;LINE 0 3 20");
}

#[test]
fn bronze_harvests_once_an_egg_cell_is_emptied() {
    let mut cells = line_map(1);
    cells[5].nombre_de_crystal = 0;
    let mut data = state(cells, 3);
    data.initial_cellules = line_map(1);
    assert_eq!(data.get_nombre_nid_initial(), 2);
    assert_eq!(data.get_nombre_nid_actuel(), 1);
    assert_eq!(data.get_nombre_nid_detruit(), 1);
    let mut bot = BasicIABronze::new();
    assert_eq!(bot.execute_actions(&data), "LINE 0 4 20;LINE 0 6 20;LINE 0 3 20");
}

#[test]
fn harvest_all_with_nothing_left_waits() {
    let mut cells = line_map(1);
    for c in cells.iter_mut() {
        if c.kind == CellKind::Crystal {
            c.nombre_de_crystal = 0;
        }
    }
    let data = state(cells, 3);
    let mut bot = BasicIAAttrapeToutCrystaux::new();
    assert_eq!(bot.execute_actions(&data), "WAIT");
}

#[test]
fn nest_seeker_waits_without_eggs() {
    let mut cells = line_map(1);
    cells[2].nombre_de_crystal = 0;
    cells[5].nombre_de_crystal = 0;
    let data = state(cells, 3);
    let mut bot = BasicIARechercheNidProche::new();
    assert_eq!(bot.execute_actions(&data), "WAIT");
}

#[test]
fn eggs_first_opening_then_crystals() {
    let mut bot = BasicIAWithEggsFirst::new();
    assert_eq!(bot.execute_actions(&state(line_map(1), 2)), "LINE 0 5 1");
    assert_eq!(
        bot.execute_actions(&state(line_map(1), 8)),
        "LINE 0 4 2;LINE 0 6 2;LINE 0 3 2"
    );
    assert_eq!(bot.current_target, None);
}

#[test]
fn kept_target_persists_until_emptied() {
    let mut bot = BasicIA { current_target: None };
    let mut cells = line_map(1);
    assert_eq!(bot.execute_actions(&state(cells.clone(), 1)), "LINE 0 4 1");
    assert_eq!(bot.current_target, Some(4));
    // Another cell becomes richer: the target stays.
    cells[5].nombre_de_crystal = 50;
    assert_eq!(bot.execute_actions(&state(cells.clone(), 2)), "LINE 0 4 1");
    // The target is emptied: the richest remaining cell is taken.
    cells[4].nombre_de_crystal = 0;
    assert_eq!(bot.execute_actions(&state(cells.clone(), 3)), "LINE 0 5 1");
    assert_eq!(bot.current_target, Some(5));
    // Nothing left anywhere: no target, no line.
    for c in cells.iter_mut() {
        c.nombre_de_crystal = 0;
    }
    assert_eq!(bot.execute_actions(&state(cells, 4)), "WAIT");
    assert_eq!(bot.current_target, None);
}

#[test]
fn update_target_on_a_sorted_list() {
    let cells = line_map(1);
    let sorted = ranked_cells(&cells, Some(CellKind::Egg));
    let mut bot = BasicIAWithEggsFirst { current_target: Some(2) };
    bot.update_target(&sorted);
    assert_eq!(bot.current_target, Some(2));
    bot.current_target = Some(3);
    bot.update_target(&sorted);
    assert_eq!(bot.current_target, Some(5));
    bot.update_target(&Vec::new());
    assert_eq!(bot.current_target, None);
}

#[test]
fn sort_by_amount_larger_id_first_on_ties() {
    let cells = line_map(1);
    let sorted = cells.sort_immut();
    let ids: Vec<usize> = sorted.iter().map(|c| c.identifiant).collect();
    assert_eq!(ids, vec![4, 5, 6, 3, 2, 1, 0]);
    assert_eq!(cells[0].identifiant, 0);
}

#[test]
fn ranked_cells_filters_by_kind() {
    let cells = line_map(1);
    let crystals: Vec<usize> = ranked_cells(&cells, Some(CellKind::Crystal))
        .iter()
        .map(|c| c.identifiant)
        .collect();
    assert_eq!(crystals, vec![4, 6, 3]);
    let all: Vec<usize> = ranked_cells(&cells, None).iter().map(|c| c.identifiant).collect();
    assert_eq!(all, vec![4, 5, 6, 3, 2]);
}

#[test]
fn army_totals_and_counts() {
    let mut cells = line_map(10);
    cells[3].nombre_insectes = Some(7);
    cells[4].nombre_insectes = None;
    cells[4].nombre_insectes_enemy = None;
    cells[3].nombre_de_crystal = 0;
    let mut data = state(cells, 3);
    data.initial_cellules = line_map(10);
    assert_eq!(data.get_my_total_insect(), 17);
    assert_eq!(data.get_enemy_total_insect(), 6);
    assert_eq!(data.get_nombre_crystal_initial(), 3);
    assert_eq!(data.get_nombre_crystal_actuel(), 2);
    assert_eq!(data.get_nombre_crystal_detruit(), 1);
    assert_eq!(data.get_nombre_nid_initial(), 2);
    assert_eq!(data.get_nombre_nid_actuel(), 2);
    assert_eq!(data.get_nombre_nid_detruit(), 0);
}

#[test]
fn state_validation() {
    let data = state(line_map(1), 1);
    assert!(data.is_valid());
    let mut other_kind = state(line_map(1), 1);
    other_kind.initial_cellules[3].kind = CellKind::Egg;
    assert!(!other_kind.is_valid());
    let mut bad_base = state(line_map(1), 1);
    bad_base.my_base_index = 7;
    assert!(!bad_base.is_valid());
    let mut short = state(line_map(1), 1);
    short.initial_cellules.pop();
    assert!(!short.is_valid());
}

#[test]
fn render_no_intent_is_wait() {
    assert_eq!(render_actions(3, &Vec::new()), "WAIT");
}

#[test]
fn render_commands_joined() {
    let intents = vec![Intent { target: 2, weight: 3 }, Intent { target: 45, weight: 10 }];
    assert_eq!(render_actions(1, &intents), "LINE 1 2 3;LINE 1 45 10");
    assert_eq!(render_actions(0, &vec![Intent { target: 0, weight: 1 }]), "LINE 0 0 1");
}

#[test]
fn render_large_numbers() {
    let intents = vec![Intent { target: 1234567, weight: u32::MAX }];
    assert_eq!(render_actions(908, &intents), "LINE 908 1234567 4294967295");
}
