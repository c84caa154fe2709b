use minesweeper_rs::cell::{Cell, CellState, CellType, Position};
use minesweeper_rs::get_position;

#[test]
fn new_cell_mine_ignores_count() {
    let c = Cell::new(Position { row: 2, col: 5 }, true, 7);
    assert_eq!(c.cell_type, CellType::Mine);
    assert_eq!(c.cell_state, CellState::Hidden);
    assert_eq!(c.position, Position { row: 2, col: 5 });
}

#[test]
fn new_cell_safe_records_count() {
    let c = Cell::new(Position { row: 0, col: 0 }, false, 3);
    assert_eq!(c.cell_type, CellType::Safe { adjacent_mines: 3 });
    assert_eq!(c.cell_state, CellState::Hidden);
}

#[test]
fn get_position_maps_letter_and_number() {
    assert_eq!(get_position('A', 1), Position { row: 0, col: 0 });
    assert_eq!(get_position('C', 5), Position { row: 4, col: 2 });
    assert_eq!(get_position('J', 10), Position { row: 9, col: 9 });
}
