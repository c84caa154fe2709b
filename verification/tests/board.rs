use minesweeper_rs::cell::{CellState, CellType, Position};
use minesweeper_rs::Board;

fn mine_positions(board: &Board) -> Vec<Position> {
    let mut mines = Vec::new();
    for row in 0..board.height() {
        for col in 0..board.width() {
            let cell = board.get_cell(&Position { row, col });
            if cell.cell_type == CellType::Mine {
                mines.push(cell.position);
            }
        }
    }
    mines
}

#[test]
fn basic_board() {
    let mut board = Board::new(10, 10, None);
    board.open_cell(&Position { row: 1, col: 1 });
    board.toggle_flag(&Position { row: 2, col: 2 });
}

#[test]
fn zero_mines_all_safe_zero_adjacency() {
    let board = Board::new(4, 3, Some(0));
    for row in 0..board.height() {
        for col in 0..board.width() {
            let cell = board.get_cell(&Position { row, col });
            assert_eq!(cell.cell_type, CellType::Safe { adjacent_mines: 0 });
        }
    }
}

#[test]
fn mine_count_matches_request() {
    let board = Board::new(5, 5, Some(10));
    let mines = mine_positions(&board);
    assert_eq!(mines.len(), 10);
    for i in 0..mines.len() {
        for j in (i + 1)..mines.len() {
            assert_ne!(mines[i], mines[j]);
        }
    }
}

#[test]
fn default_mine_count_is_quarter_of_grid() {
    let board = Board::new(6, 4, None);
    assert_eq!(mine_positions(&board).len(), 6);
}

#[test]
fn adjacency_counts_match_mine_set() {
    let board = Board::new(7, 6, Some(11));
    let mines = mine_positions(&board);
    for row in 0..board.height() {
        for col in 0..board.width() {
            let mut expected: usize = 0;
            for m in &mines {
                let row_near = m.row + 1 >= row && m.row <= row + 1;
                let col_near = m.col + 1 >= col && m.col <= col + 1;
                let center = m.row == row && m.col == col;
                if row_near && col_near && !center {
                    expected += 1;
                }
            }
            let cell = board.get_cell(&Position { row, col });
            match cell.cell_type {
                CellType::Mine => {}
                CellType::Safe { adjacent_mines } => assert_eq!(adjacent_mines, expected),
            }
        }
    }
}

#[test]
fn cells_record_their_position_and_start_hidden() {
    let board = Board::new(3, 4, Some(5));
    for row in 0..board.height() {
        for col in 0..board.width() {
            let cell = board.get_cell(&Position { row, col });
            assert_eq!(cell.position, Position { row, col });
            assert_eq!(cell.cell_state, CellState::Hidden);
        }
    }
}

#[test]
fn open_is_idempotent() {
    let mut board = Board::new(4, 4, Some(3));
    let p = Position { row: 2, col: 1 };
    let first = *board.open_cell(&p).expect("open of a hidden cell succeeds");
    let before: Vec<Vec<_>> = (0..board.height())
        .map(|r| {
            (0..board.width())
                .map(|c| *board.get_cell(&Position { row: r, col: c }))
                .collect()
        })
        .collect();
    let second = *board.open_cell(&p).expect("reopening an opened cell succeeds");
    assert_eq!(first, second);
    for row in 0..board.height() {
        for col in 0..board.width() {
            assert_eq!(*board.get_cell(&Position { row, col }), before[row][col]);
        }
    }
}

#[test]
fn flag_blocks_open_and_unflag_restores() {
    let mut board = Board::new(5, 5, Some(4));
    let p = Position { row: 3, col: 2 };
    assert_eq!(board.get_cell(&p).cell_state, CellState::Hidden);
    board.toggle_flag(&p);
    assert_eq!(board.get_cell(&p).cell_state, CellState::Flagged);
    assert!(board.open_cell(&p).is_none());
    assert_eq!(board.get_cell(&p).cell_state, CellState::Flagged);
    board.toggle_flag(&p);
    assert_eq!(board.get_cell(&p).cell_state, CellState::Hidden);
    assert!(board.open_cell(&p).is_some());
    assert_eq!(board.get_cell(&p).cell_state, CellState::Opened);
}

#[test]
fn opened_cell_is_flag_immune() {
    let mut board = Board::new(4, 4, Some(2));
    let p = Position { row: 0, col: 3 };
    board.open_cell(&p);
    assert_eq!(board.get_cell(&p).cell_state, CellState::Opened);
    board.toggle_flag(&p);
    assert_eq!(board.get_cell(&p).cell_state, CellState::Opened);
}

#[test]
fn reset_replaces_all_state() {
    let mut board = Board::new(4, 4, Some(4));
    board.open_cell(&Position { row: 0, col: 0 });
    board.toggle_flag(&Position { row: 1, col: 1 });
    board.open_cell(&Position { row: 3, col: 3 });
    board.reset(6, 5, Some(7));
    assert_eq!(board.width(), 6);
    assert_eq!(board.height(), 5);
    for row in 0..board.height() {
        for col in 0..board.width() {
            assert_eq!(
                board.get_cell(&Position { row, col }).cell_state,
                CellState::Hidden
            );
        }
    }
    assert_eq!(mine_positions(&board).len(), 7);
}

#[test]
fn five_by_five_scenario() {
    let mut board = Board::new(5, 5, Some(10));
    assert_eq!(mine_positions(&board).len(), 10);

    let opened = Position { row: 1, col: 3 };
    let t = *board.open_cell(&opened).expect("open of a hidden cell succeeds");
    assert_eq!(board.get_cell(&opened).cell_state, CellState::Opened);
    match t {
        CellType::Mine => {}
        CellType::Safe { adjacent_mines } => assert!(adjacent_mines <= 8),
    }

    let corner = Position { row: 0, col: 0 };
    assert_eq!(board.get_cell(&corner).cell_state, CellState::Hidden);
    board.toggle_flag(&corner);
    assert_eq!(board.get_cell(&corner).cell_state, CellState::Flagged);
    assert!(board.open_cell(&corner).is_none());
    assert_eq!(board.get_cell(&corner).cell_state, CellState::Flagged);
}
