use vstd::prelude::*;

verus! {

/// A grid coordinate: `row` counts down from the top edge, `col` counts
/// right from the left edge. Plain value type, compared field by field.
#[derive(Debug, PartialEq, Eq, Structural, Clone, Copy, Hash)]
pub struct Position {
    pub row: usize,
    pub col: usize,
}

/// What a cell permanently is: a mine, or a safe cell that carries the
/// number of mines among its in-bounds 8-neighbors.
#[derive(Debug, PartialEq, Eq, Structural, Clone, Copy)]
pub enum CellType {
    Safe { adjacent_mines: usize },
    Mine,
}

/// The visibility of a cell to the player. `Hidden` is the initial state;
/// `Opened` is terminal with respect to flagging.
#[derive(Debug, PartialEq, Eq, Structural, Clone, Copy)]
pub enum CellState {
    Hidden,
    Opened,
    Flagged,
}

/// One grid unit: its coordinate, its fixed type, and its mutable
/// visibility state.
#[derive(Debug, PartialEq, Eq, Structural, Clone, Copy)]
pub struct Cell {
    pub position: Position,
    pub cell_type: CellType,
    pub cell_state: CellState,
}

impl Cell {
    /// Builds a cell at `position`. A mine ignores the supplied adjacency
    /// count; a safe cell records it. Every new cell starts `Hidden`.
    pub fn new(position: Position, is_mine: bool, adjacent_mines: usize) -> (c: Cell)
        ensures
            c.position == position,
            c.cell_state == CellState::Hidden,
            is_mine ==> c.cell_type == CellType::Mine,
            !is_mine ==> c.cell_type == (CellType::Safe { adjacent_mines }),
    {
        Cell {
            position,
            cell_type: if is_mine {
                CellType::Mine
            } else {
                CellType::Safe { adjacent_mines }
            },
            cell_state: CellState::Hidden,
        }
    }
}

} // verus!
