use colony_bot::model::{CellKind, Cellule};

#[test]
fn kind_codes() {
    assert_eq!(CellKind::from_code(0), Some(CellKind::Empty));
    assert_eq!(CellKind::from_code(1), Some(CellKind::Egg));
    assert_eq!(CellKind::from_code(2), Some(CellKind::Crystal));
    assert_eq!(CellKind::from_code(3), None);
    assert_eq!(CellKind::from_code(-1), None);
}

#[test]
fn record_with_edges_and_gaps() {
    let c = Cellule::from_record(4, 2, 35, [1, -1, 7, -1, -1, 0]).unwrap();
    assert_eq!(c.kind, CellKind::Crystal);
    assert_eq!(c.identifiant, 4);
    assert_eq!(c.nombre_de_crystal, 35);
    assert_eq!(c.nombre_insectes, None);
    assert_eq!(c.nombre_insectes_enemy, None);
    assert_eq!(c.voisins, [Some(1), None, Some(7), None, None, Some(0)]);
}

#[test]
fn record_with_unknown_kind_is_refused() {
    assert!(Cellule::from_record(0, 5, 0, [-1; 6]).is_none());
}

#[test]
fn record_with_negative_amount_is_refused() {
    assert!(Cellule::from_record(0, 1, -3, [-1; 6]).is_none());
}

#[test]
fn record_with_bad_neighbour_is_refused() {
    assert!(Cellule::from_record(0, 0, 0, [1, 2, -2, -1, -1, -1]).is_none());
}

#[test]
fn live_counts_replace_the_amount_and_set_armies() {
    let c = Cellule::from_record(2, 1, 20, [1, 3, -1, -1, -1, -1]).unwrap();
    let t = c.with_live_counts(14, 6, 0).unwrap();
    assert_eq!(t.nombre_de_crystal, 14);
    assert_eq!(t.nombre_insectes, Some(6));
    assert_eq!(t.nombre_insectes_enemy, Some(0));
    assert_eq!(t.kind, CellKind::Egg);
    assert_eq!(t.identifiant, 2);
    assert_eq!(t.voisins, c.voisins);
}

#[test]
fn negative_live_counts_are_refused() {
    let c = Cellule::from_record(0, 0, 0, [-1; 6]).unwrap();
    assert!(c.with_live_counts(-1, 0, 0).is_none());
    assert!(c.with_live_counts(0, -1, 0).is_none());
    assert!(c.with_live_counts(0, 0, -1).is_none());
}
