use territory::engine::{adjacent_squares, apply_click, expand_square};
use territory::posmap::PosMap;
use territory::schemas::{GameConfig, Position, Square, SquareChange};

fn pos(x: u32, y: u32) -> Position {
    Position { x, y }
}

fn lookup(changes: &[(Position, SquareChange)], p: Position) -> Option<SquareChange> {
    changes.iter().find(|e| e.0 == p).map(|e| e.1)
}

#[test]
fn adjacency_in_the_middle_is_west_north_east_south() {
    let config = GameConfig { size: 20, max_number: 4 };
    let r = adjacent_squares(config, pos(5, 7));
    assert_eq!(r, vec![pos(4, 7), pos(5, 6), pos(6, 7), pos(5, 8)]);
}

#[test]
fn adjacency_clips_at_the_origin_corner() {
    let config = GameConfig { size: 20, max_number: 4 };
    let r = adjacent_squares(config, pos(0, 0));
    assert_eq!(r, vec![pos(1, 0), pos(0, 1)]);
}

#[test]
fn adjacency_clips_at_the_far_corner() {
    let config = GameConfig { size: 20, max_number: 4 };
    let r = adjacent_squares(config, pos(19, 19));
    assert_eq!(r, vec![pos(18, 19), pos(19, 18)]);
}

#[test]
fn adjacency_on_a_one_cell_grid_is_empty() {
    let config = GameConfig { size: 1, max_number: 4 };
    let r = adjacent_squares(config, pos(0, 0));
    assert!(r.is_empty());
}

#[test]
fn click_on_unowned_cell_is_ignored() {
    let config = GameConfig { size: 20, max_number: 4 };
    let mut squares: PosMap<Square> = PosMap::empty();
    let mut changes: PosMap<SquareChange> = PosMap::empty();
    apply_click(&mut squares, &mut changes, config, (3, pos(2, 2)));
    assert!(squares.get(pos(2, 2)).is_none());
    assert!(changes.take_entries().is_empty());
}

#[test]
fn click_by_non_owner_changes_nothing() {
    let config = GameConfig { size: 20, max_number: 4 };
    let mut squares: PosMap<Square> = PosMap::empty();
    let mut changes: PosMap<SquareChange> = PosMap::empty();
    squares.insert(pos(2, 2), Square { owner: 3, number: 2 });
    apply_click(&mut squares, &mut changes, config, (4, pos(2, 2)));
    assert_eq!(squares.get(pos(2, 2)), Some(Square { owner: 3, number: 2 }));
    assert!(changes.take_entries().is_empty());
}

#[test]
fn owner_clicks_accumulate_one_per_click() {
    let config = GameConfig { size: 20, max_number: 4 };
    let mut squares: PosMap<Square> = PosMap::empty();
    let mut changes: PosMap<SquareChange> = PosMap::empty();
    squares.insert(pos(0, 0), Square { owner: 3, number: 1 });
    apply_click(&mut squares, &mut changes, config, (3, pos(0, 0)));
    apply_click(&mut squares, &mut changes, config, (3, pos(0, 0)));
    apply_click(&mut squares, &mut changes, config, (3, pos(0, 0)));
    assert_eq!(squares.get(pos(0, 0)), Some(Square { owner: 3, number: 4 }));
    let entries = changes.take_entries();
    assert_eq!(entries.len(), 1);
    assert_eq!(
        lookup(&entries, pos(0, 0)),
        Some(SquareChange { id: Some(3), number: 4 })
    );
}

#[test]
fn expansion_triggers_exactly_above_the_threshold() {
    let config = GameConfig { size: 20, max_number: 4 };
    let mut squares: PosMap<Square> = PosMap::empty();
    let mut changes: PosMap<SquareChange> = PosMap::empty();
    squares.insert(pos(5, 5), Square { owner: 2, number: 3 });
    // 3 -> 4 == max_number: no expansion yet.
    apply_click(&mut squares, &mut changes, config, (2, pos(5, 5)));
    assert_eq!(squares.get(pos(5, 5)), Some(Square { owner: 2, number: 4 }));
    // 4 -> 5 > max_number: the origin explodes.
    apply_click(&mut squares, &mut changes, config, (2, pos(5, 5)));
    assert!(squares.get(pos(5, 5)).is_none());
    for q in [pos(4, 5), pos(5, 4), pos(6, 5), pos(5, 6)] {
        assert_eq!(squares.get(q), Some(Square { owner: 2, number: 1 }));
    }
}

#[test]
fn single_expansion_bumps_existing_neighbours_and_reassigns_them() {
    let config = GameConfig { size: 20, max_number: 4 };
    let mut squares: PosMap<Square> = PosMap::empty();
    let mut changes: PosMap<SquareChange> = PosMap::empty();
    squares.insert(pos(5, 5), Square { owner: 2, number: 5 });
    squares.insert(pos(5, 6), Square { owner: 9, number: 2 });
    expand_square(&mut squares, &mut changes, config, pos(5, 5));
    assert!(squares.get(pos(5, 5)).is_none());
    assert_eq!(squares.get(pos(4, 5)), Some(Square { owner: 2, number: 1 }));
    assert_eq!(squares.get(pos(5, 4)), Some(Square { owner: 2, number: 1 }));
    assert_eq!(squares.get(pos(6, 5)), Some(Square { owner: 2, number: 1 }));
    // The foreign neighbour is taken over and incremented.
    assert_eq!(squares.get(pos(5, 6)), Some(Square { owner: 2, number: 3 }));
    let entries = changes.take_entries();
    assert_eq!(entries.len(), 5);
    assert_eq!(lookup(&entries, pos(5, 5)), Some(SquareChange { id: None, number: 0 }));
    assert_eq!(
        lookup(&entries, pos(5, 6)),
        Some(SquareChange { id: Some(2), number: 3 })
    );
}

#[test]
fn cascade_reports_each_cell_once_with_its_final_state() {
    let config = GameConfig { size: 20, max_number: 4 };
    let mut squares: PosMap<Square> = PosMap::empty();
    let mut changes: PosMap<SquareChange> = PosMap::empty();
    squares.insert(pos(5, 5), Square { owner: 2, number: 4 });
    squares.insert(pos(5, 6), Square { owner: 9, number: 4 });
    apply_click(&mut squares, &mut changes, config, (2, pos(5, 5)));
    // The origin explodes, pushes (5,6) over the threshold, and the second
    // explosion re-creates the origin cell.
    assert_eq!(squares.get(pos(5, 5)), Some(Square { owner: 2, number: 1 }));
    assert!(squares.get(pos(5, 6)).is_none());
    for q in [pos(4, 5), pos(5, 4), pos(6, 5), pos(4, 6), pos(6, 6), pos(5, 7)] {
        assert_eq!(squares.get(q), Some(Square { owner: 2, number: 1 }));
    }
    let entries = changes.take_entries();
    assert_eq!(entries.len(), 8);
    // Each touched cell appears once, with its final post-cascade state.
    assert_eq!(
        lookup(&entries, pos(5, 5)),
        Some(SquareChange { id: Some(2), number: 1 })
    );
    assert_eq!(lookup(&entries, pos(5, 6)), Some(SquareChange { id: None, number: 0 }));
}

#[test]
fn expansion_on_3x3_grid_with_threshold_one_yields_five_diffs() {
    // Grid 3x3, threshold 1: the player owns (1,1) at count 1; clicking it
    // again overflows the counter, removes the origin and hands count-1
    // squares to all four neighbours — exactly five diff entries.
    let config = GameConfig { size: 3, max_number: 1 };
    let mut squares: PosMap<Square> = PosMap::empty();
    let mut changes: PosMap<SquareChange> = PosMap::empty();
    squares.insert(pos(1, 1), Square { owner: 7, number: 1 });
    apply_click(&mut squares, &mut changes, config, (7, pos(1, 1)));
    assert!(squares.get(pos(1, 1)).is_none());
    for q in [pos(0, 1), pos(1, 0), pos(2, 1), pos(1, 2)] {
        assert_eq!(squares.get(q), Some(Square { owner: 7, number: 1 }));
    }
    let entries = changes.take_entries();
    assert_eq!(entries.len(), 5);
    assert_eq!(lookup(&entries, pos(1, 1)), Some(SquareChange { id: None, number: 0 }));
    for q in [pos(0, 1), pos(1, 0), pos(2, 1), pos(1, 2)] {
        assert_eq!(lookup(&entries, q), Some(SquareChange { id: Some(7), number: 1 }));
    }
}

#[test]
fn position_map_insert_get_remove() {
    let mut m: PosMap<Square> = PosMap::empty();
    assert!(!m.contains(pos(1, 2)));
    m.insert(pos(1, 2), Square { owner: 5, number: 1 });
    m.insert(pos(3, 4), Square { owner: 6, number: 2 });
    m.insert(pos(1, 2), Square { owner: 5, number: 3 });
    assert_eq!(m.get(pos(1, 2)), Some(Square { owner: 5, number: 3 }));
    assert_eq!(m.get(pos(3, 4)), Some(Square { owner: 6, number: 2 }));
    assert_eq!(m.remove(pos(1, 2)), Some(Square { owner: 5, number: 3 }));
    assert!(m.get(pos(1, 2)).is_none());
    let entries = m.take_entries();
    assert_eq!(entries, vec![(pos(3, 4), Square { owner: 6, number: 2 })]);
    assert!(m.take_entries().is_empty());
}

#[test]
fn square_change_conversions() {
    let removed = SquareChange::create_removed();
    assert_eq!(removed, SquareChange { id: None, number: 0 });
    let owned: SquareChange = Square { owner: 11, number: 3 }.into();
    assert_eq!(owned, SquareChange { id: Some(11), number: 3 });
}
