pub mod cell;

use vstd::prelude::*;

use crate::cell::{Cell, CellState, CellType, Position};

verus! {

// ---------------------------------------------------------------------------
// Spec model of the mine mask
//
// Mine placement is generated first, as a rectangular boolean mask (`true`
// marks a mine), and every cell is then built from that one mask.
// ---------------------------------------------------------------------------

/// One where the condition holds, zero where it does not.
pub open spec fn b2n(b: bool) -> nat {
    if b {
        1
    } else {
        0
    }
}

/// Number of set flags in one mask row.
pub open spec fn row_true_count(row: Seq<bool>) -> nat
    decreases row.len(),
{
    if row.len() == 0 {
        0
    } else {
        row_true_count(row.drop_last()) + b2n(row.last())
    }
}

/// Number of set flags in the whole mask.
pub open spec fn mask_true_count(mask: Seq<Vec<bool>>) -> nat
    decreases mask.len(),
{
    if mask.len() == 0 {
        0
    } else {
        mask_true_count(mask.drop_last()) + row_true_count(mask.last()@)
    }
}

/// The mask is a `height` by `width` rectangle.
pub open spec fn mask_wf(mask: Seq<Vec<bool>>, width: nat, height: nat) -> bool {
    &&& mask.len() == height
    &&& forall|r: int| 0 <= r < mask.len() ==> (#[trigger] mask[r])@.len() == width
}

/// Whether `(r, c)` is in bounds and marked as a mine in the mask.
pub open spec fn mask_at(mask: Seq<Vec<bool>>, r: int, c: int) -> bool {
    &&& 0 <= r < mask.len()
    &&& 0 <= c < mask[r]@.len()
    &&& mask[r]@[c]
}

/// Number of mask mines among the up-to-8 neighbors of `(r, c)`; positions
/// outside the mask contribute nothing.
pub open spec fn mask_adjacent_count(mask: Seq<Vec<bool>>, r: int, c: int) -> nat {
    b2n(mask_at(mask, r - 1, c - 1)) + b2n(mask_at(mask, r - 1, c)) + b2n(
        mask_at(mask, r - 1, c + 1),
    ) + b2n(mask_at(mask, r, c - 1)) + b2n(mask_at(mask, r, c + 1)) + b2n(
        mask_at(mask, r + 1, c - 1),
    ) + b2n(mask_at(mask, r + 1, c)) + b2n(mask_at(mask, r + 1, c + 1))
}

/// Row-major order on positions, strict.
spec fn lex_lt(p: Position, q: Position) -> bool {
    p.row < q.row || (p.row == q.row && p.col < q.col)
}

// ---------------------------------------------------------------------------
// Counting lemmas
// ---------------------------------------------------------------------------

proof fn lemma_row_count_push(row: Seq<bool>, b: bool)
    ensures
        row_true_count(row.push(b)) == row_true_count(row) + b2n(b),
{
    assert(row.push(b).drop_last() =~= row);
}

proof fn lemma_mask_count_push(mask: Seq<Vec<bool>>, row: Vec<bool>)
    ensures
        mask_true_count(mask.push(row)) == mask_true_count(mask) + row_true_count(row@),
{
    assert(mask.push(row).drop_last() =~= mask);
}

/// Setting a clear flag raises the row count by one.
proof fn lemma_row_count_update(row: Seq<bool>, c: int)
    requires
        0 <= c < row.len(),
        !row[c],
    ensures
        row_true_count(row.update(c, true)) == row_true_count(row) + 1,
    decreases row.len(),
{
    let updated = row.update(c, true);
    if c == row.len() - 1 {
        assert(updated.drop_last() =~= row.drop_last());
        assert(updated.last());
    } else {
        assert(updated.drop_last() =~= row.drop_last().update(c, true));
        assert(updated.last() == row.last());
        lemma_row_count_update(row.drop_last(), c);
    }
}

/// Replacing one row changes the mask count by that row's difference.
proof fn lemma_mask_count_update(mask: Seq<Vec<bool>>, r: int, row: Vec<bool>)
    requires
        0 <= r < mask.len(),
    ensures
        mask_true_count(mask.update(r, row)) + row_true_count(mask[r]@) == mask_true_count(mask)
            + row_true_count(row@),
    decreases mask.len(),
{
    let updated = mask.update(r, row);
    if r == mask.len() - 1 {
        assert(updated.drop_last() =~= mask.drop_last());
        assert(updated.last() == row);
    } else {
        assert(updated.drop_last() =~= mask.drop_last().update(r, row));
        assert(updated.last() == mask.last());
        lemma_mask_count_update(mask.drop_last(), r, row);
    }
}

// ---------------------------------------------------------------------------
// Spec model of the grid
// ---------------------------------------------------------------------------

/// Whether `(r, c)` lies on the grid.
pub open spec fn in_bounds(grid: Seq<Seq<Cell>>, r: int, c: int) -> bool {
    &&& 0 <= r < grid.len()
    &&& 0 <= c < grid[r].len()
}

/// Whether `(r, c)` lies on the grid and holds a mine.
pub open spec fn is_mine_at(grid: Seq<Seq<Cell>>, r: int, c: int) -> bool {
    &&& in_bounds(grid, r, c)
    &&& grid[r][c].cell_type == CellType::Mine
}

/// Number of mines among the up-to-8 neighbors of `(r, c)`; positions off
/// the grid contribute nothing.
pub open spec fn adjacent_mine_count(grid: Seq<Seq<Cell>>, r: int, c: int) -> nat {
    b2n(is_mine_at(grid, r - 1, c - 1)) + b2n(is_mine_at(grid, r - 1, c)) + b2n(
        is_mine_at(grid, r - 1, c + 1),
    ) + b2n(is_mine_at(grid, r, c - 1)) + b2n(is_mine_at(grid, r, c + 1)) + b2n(
        is_mine_at(grid, r + 1, c - 1),
    ) + b2n(is_mine_at(grid, r + 1, c)) + b2n(is_mine_at(grid, r + 1, c + 1))
}

/// Number of mines in one row of cells.
pub open spec fn row_mine_count(row: Seq<Cell>) -> nat
    decreases row.len(),
{
    if row.len() == 0 {
        0
    } else {
        row_mine_count(row.drop_last()) + b2n(row.last().cell_type == CellType::Mine)
    }
}

/// Number of mines on the whole grid.
pub open spec fn grid_mine_count(grid: Seq<Seq<Cell>>) -> nat
    decreases grid.len(),
{
    if grid.len() == 0 {
        0
    } else {
        grid_mine_count(grid.drop_last()) + row_mine_count(grid.last())
    }
}

/// Every cell is still hidden.
pub open spec fn all_hidden(grid: Seq<Seq<Cell>>) -> bool {
    forall|r: int, c: int|
        in_bounds(grid, r, c) ==> (#[trigger] grid[r][c]).cell_state == CellState::Hidden
}

/// Every cell records its own coordinate, and every safe cell carries the
/// exact number of mines among its in-bounds 8-neighbors on this very grid.
pub open spec fn cells_wf(grid: Seq<Seq<Cell>>) -> bool {
    forall|r: int, c: int|
        in_bounds(grid, r, c) ==> {
            let cell = #[trigger] grid[r][c];
            &&& cell.position == (Position { row: r as usize, col: c as usize })
            &&& match cell.cell_type {
                CellType::Mine => true,
                CellType::Safe { adjacent_mines } => adjacent_mines == adjacent_mine_count(
                    grid,
                    r,
                    c,
                ),
            }
        }
}

// ---------------------------------------------------------------------------
// Grid/mask correspondence lemmas
// ---------------------------------------------------------------------------

proof fn lemma_row_matches_mask_count(row: Seq<Cell>, mrow: Seq<bool>)
    requires
        row.len() == mrow.len(),
        forall|c: int|
            0 <= c < row.len() ==> (((#[trigger] row[c]).cell_type == CellType::Mine) <==> mrow[c]),
    ensures
        row_mine_count(row) == row_true_count(mrow),
    decreases row.len(),
{
    if row.len() > 0 {
        lemma_row_matches_mask_count(row.drop_last(), mrow.drop_last());
    }
}

proof fn lemma_grid_matches_mask_count(grid: Seq<Seq<Cell>>, mask: Seq<Vec<bool>>)
    requires
        grid.len() == mask.len(),
        forall|r: int| 0 <= r < grid.len() ==> (#[trigger] grid[r]).len() == mask[r]@.len(),
        forall|r: int, c: int|
            0 <= r < grid.len() && 0 <= c < grid[r].len() ==> (((#[trigger] grid[r][c]).cell_type
                == CellType::Mine) <==> mask[r]@[c]),
    ensures
        grid_mine_count(grid) == mask_true_count(mask),
    decreases grid.len(),
{
    if grid.len() > 0 {
        lemma_row_matches_mask_count(grid.last(), mask.last()@);
        lemma_grid_matches_mask_count(grid.drop_last(), mask.drop_last());
    }
}

proof fn lemma_adjacent_matches_mask(grid: Seq<Seq<Cell>>, mask: Seq<Vec<bool>>, r: int, c: int)
    requires
        grid.len() == mask.len(),
        forall|i: int| 0 <= i < grid.len() ==> (#[trigger] grid[i]).len() == mask[i]@.len(),
        forall|i: int, j: int|
            0 <= i < grid.len() && 0 <= j < grid[i].len() ==> (((#[trigger] grid[i][j]).cell_type
                == CellType::Mine) <==> mask[i]@[j]),
    ensures
        adjacent_mine_count(grid, r, c) == mask_adjacent_count(mask, r, c),
{
    assert(is_mine_at(grid, r - 1, c - 1) == mask_at(mask, r - 1, c - 1));
    assert(is_mine_at(grid, r - 1, c) == mask_at(mask, r - 1, c));
    assert(is_mine_at(grid, r - 1, c + 1) == mask_at(mask, r - 1, c + 1));
    assert(is_mine_at(grid, r, c - 1) == mask_at(mask, r, c - 1));
    assert(is_mine_at(grid, r, c + 1) == mask_at(mask, r, c + 1));
    assert(is_mine_at(grid, r + 1, c - 1) == mask_at(mask, r + 1, c - 1));
    assert(is_mine_at(grid, r + 1, c) == mask_at(mask, r + 1, c));
    assert(is_mine_at(grid, r + 1, c + 1) == mask_at(mask, r + 1, c + 1));
}

// ---------------------------------------------------------------------------
// Random sampling (the one outside call)
// ---------------------------------------------------------------------------

/// Draws a uniformly random index below `n`.
///
/// Relies on rand's `Rng::gen_range` over the half-open range `0..n`: it
/// returns a value of the range, and panics only when the range is empty,
/// which the precondition rules out. Nothing more is claimed of the value.
#[verifier::external_body]
fn sample_below(n: usize) -> (r: usize)
    requires
        n > 0,
    ensures
        r < n,
{
    rand::Rng::gen_range(&mut rand::thread_rng(), 0..n)
}

// ---------------------------------------------------------------------------
// Board
// ---------------------------------------------------------------------------

/// A rectangular minefield: `height` rows of `width` cells, row-major.
#[derive(Debug)]
pub struct Board {
    grid: Vec<Vec<Cell>>,
    width: usize,
    height: usize,
}

impl View for Board {
    type V = Seq<Seq<Cell>>;

    closed spec fn view(&self) -> Seq<Seq<Cell>> {
        self.grid@.map_values(|row: Vec<Cell>| row@)
    }
}

impl Board {
    /// Number of cells in every row.
    pub closed spec fn spec_width(&self) -> nat {
        self.width as nat
    }

    /// Number of rows.
    pub closed spec fn spec_height(&self) -> nat {
        self.height as nat
    }

    /// The grid is a `height` by `width` rectangle.
    pub open spec fn wf(&self) -> bool {
        &&& self@.len() == self.spec_height()
        &&& forall|r: int| 0 <= r < self@.len() ==> (#[trigger] self@[r]).len() == self.spec_width()
    }
}

/// The number of mines a construction call asks for: the given count, or a
/// quarter of the grid when the caller leaves the choice open.
pub open spec fn effective_mine_count(width: usize, height: usize, num_mines: Option<usize>) -> int {
    match num_mines {
        Some(m) => m as int,
        None => (width as int * height as int) / 4,
    }
}

impl Board {
    /// What construction guarantees: a well-formed `height` by `width` grid
    /// whose cells record their own coordinates and exact adjacency counts,
    /// holding exactly `mines` mines.
    pub open spec fn generated(&self, width: usize, height: usize, mines: int) -> bool {
        &&& self.wf()
        &&& self.spec_width() == width
        &&& self.spec_height() == height
        &&& cells_wf(self@)
        &&& grid_mine_count(self@) == mines
    }
}

impl Board {
    /// Builds a `height` by `width` mask holding exactly `num_mines` set
    /// flags, at positions drawn uniformly at random without replacement.
    fn generate_mine_positions(width: usize, height: usize, num_mines: usize) -> (mask: Vec<
        Vec<bool>,
    >)
        requires
            width * height <= usize::MAX,
            num_mines <= width * height,
        ensures
            mask_wf(mask@, width as nat, height as nat),
            mask_true_count(mask@) == num_mines,
    {
        // Phase one: an all-clear mask and the list of still-free positions.
        let mut mask: Vec<Vec<bool>> = Vec::new();
        let mut free: Vec<Position> = Vec::new();
        for r in 0..height
            invariant
                width * height <= usize::MAX,
                mask@.len() == r,
                forall|i: int| 0 <= i < mask@.len() ==> (#[trigger] mask@[i])@.len() == width,
                forall|i: int, j: int|
                    0 <= i < mask@.len() && 0 <= j < width ==> !(#[trigger] mask@[i]@[j]),
                mask_true_count(mask@) == 0,
                free@.len() == r * width,
                forall|k: int|
                    0 <= k < free@.len() ==> (#[trigger] free@[k]).row < height && free@[k].col
                        < width,
                forall|k: int| 0 <= k < free@.len() ==> (#[trigger] free@[k]).row < r,
                forall|k1: int, k2: int|
                    0 <= k1 < k2 < free@.len() ==> lex_lt(#[trigger] free@[k1], #[trigger] free@[k2]),
        {
            let mut mask_row: Vec<bool> = Vec::new();
            let ghost free_len0 = free@.len();
            for c in 0..width
                invariant
                    width * height <= usize::MAX,
                    r < height,
                    mask_row@.len() == c,
                    forall|j: int| 0 <= j < mask_row@.len() ==> !(#[trigger] mask_row@[j]),
                    row_true_count(mask_row@) == 0,
                    free@.len() == free_len0 + c,
                    free_len0 == r * width,
                    forall|k: int|
                        0 <= k < free@.len() ==> (#[trigger] free@[k]).row < height && free@[k].col
                            < width,
                    forall|k: int|
                        0 <= k < free@.len() ==> lex_lt(
                            #[trigger] free@[k],
                            Position { row: r, col: c },
                        ),
                    forall|k1: int, k2: int|
                        0 <= k1 < k2 < free@.len() ==> lex_lt(
                            #[trigger] free@[k1],
                            #[trigger] free@[k2],
                        ),
            {
                proof {
                    lemma_row_count_push(mask_row@, false);
                    assert(r * width + c < height * width) by (nonlinear_arith)
                        requires
                            r < height,
                            c < width,
                            0 <= r,
                            0 <= c,
                    ;
                }
                mask_row.push(false);
                free.push(Position { row: r, col: c });
            }
            proof {
                lemma_mask_count_push(mask@, mask_row);
                assert(r * width + width == (r + 1) * width) by (nonlinear_arith);
            }
            mask.push(mask_row);
        }

        proof {
            assert(height * width == width * height) by (nonlinear_arith);
        }

        // Phase two: draw `num_mines` distinct positions from the free list.
        let mut placed: usize = 0;
        while placed < num_mines
            invariant
                num_mines <= width * height,
                placed <= num_mines,
                mask_wf(mask@, width as nat, height as nat),
                mask_true_count(mask@) == placed,
                free@.len() + placed == width * height,
                forall|k: int|
                    0 <= k < free@.len() ==> (#[trigger] free@[k]).row < height && free@[k].col
                        < width,
                forall|k: int|
                    0 <= k < free@.len() ==> !mask@[free@[k].row as int]@[free@[k].col as int],
                forall|k1: int, k2: int|
                    0 <= k1 < k2 < free@.len() ==> free@[k1] != free@[k2],
            decreases num_mines - placed,
        {
            let j = sample_below(free.len());
            let p = free.swap_remove(j);
            let ghost old_mask = mask@;
            let ghost old_row = mask@[p.row as int]@;
            mask[p.row][p.col] = true;
            proof {
                assert(mask@[p.row as int]@ == old_row.update(p.col as int, true));
                assert(mask@ == old_mask.update(p.row as int, mask@[p.row as int]));
                lemma_row_count_update(old_row, p.col as int);
                lemma_mask_count_update(old_mask, p.row as int, mask@[p.row as int]);
            }
            placed = placed + 1;
        }
        mask
    }

    /// Counts the mask mines among the in-bounds 8-neighbors of `position`.
    fn calculate_adjacent_mines(
        position: &Position,
        mask: &Vec<Vec<bool>>,
        width: usize,
        height: usize,
    ) -> (n: usize)
        requires
            mask_wf(mask@, width as nat, height as nat),
            position.row < height,
            position.col < width,
        ensures
            n == mask_adjacent_count(mask@, position.row as int, position.col as int),
    {
        let r = position.row;
        let c = position.col;
        let mut n: usize = 0;
        if r > 0 {
            if c > 0 && mask[r - 1][c - 1] {
                n = n + 1;
            }
            if mask[r - 1][c] {
                n = n + 1;
            }
            if c + 1 < width && mask[r - 1][c + 1] {
                n = n + 1;
            }
        }
        if c > 0 && mask[r][c - 1] {
            n = n + 1;
        }
        if c + 1 < width && mask[r][c + 1] {
            n = n + 1;
        }
        if r + 1 < height {
            if c > 0 && mask[r + 1][c - 1] {
                n = n + 1;
            }
            if mask[r + 1][c] {
                n = n + 1;
            }
            if c + 1 < width && mask[r + 1][c + 1] {
                n = n + 1;
            }
        }
        n
    }

    /// Builds a fresh `height` by `width` board holding exactly the asked-for
    /// number of mines, placed uniformly at random without replacement, with
    /// every cell hidden and every safe cell carrying its exact adjacency
    /// count.
    pub fn new(width: usize, height: usize, num_mines: Option<usize>) -> (b: Board)
        requires
            width * height <= usize::MAX,
            effective_mine_count(width, height, num_mines) <= width * height,
        ensures
            b.generated(width, height, effective_mine_count(width, height, num_mines)),
            all_hidden(b@),
    {
        let m: usize = match num_mines {
            Some(m) => m,
            None => width * height / 4,
        };
        let mask = Self::generate_mine_positions(width, height, m);

        let mut grid: Vec<Vec<Cell>> = Vec::new();
        for row in 0..height
            invariant
                width * height <= usize::MAX,
                mask_wf(mask@, width as nat, height as nat),
                mask_true_count(mask@) == m,
                grid@.len() == row,
                forall|i: int| 0 <= i < grid@.len() ==> (#[trigger] grid@[i])@.len() == width,
                forall|i: int, j: int|
                    0 <= i < grid@.len() && 0 <= j < width ==> (#[trigger] grid@[i]@[j]).position
                        == (Position { row: i as usize, col: j as usize }),
                forall|i: int, j: int|
                    0 <= i < grid@.len() && 0 <= j < width ==> (#[trigger] grid@[i]@[j]).cell_state
                        == CellState::Hidden,
                forall|i: int, j: int|
                    0 <= i < grid@.len() && 0 <= j < width ==> (((#[trigger] grid@[i]@[j]).cell_type
                        == CellType::Mine) <==> mask@[i]@[j]),
                forall|i: int, j: int|
                    0 <= i < grid@.len() && 0 <= j < width ==> match (#[trigger] grid@[i]@[j]).cell_type {
                        CellType::Mine => true,
                        CellType::Safe { adjacent_mines } => adjacent_mines
                            == mask_adjacent_count(mask@, i, j),
                    },
        {
            let mut cur_row: Vec<Cell> = Vec::new();
            for col in 0..width
                invariant
                    width * height <= usize::MAX,
                    row < height,
                    mask_wf(mask@, width as nat, height as nat),
                    cur_row@.len() == col,
                    forall|j: int|
                        0 <= j < cur_row@.len() ==> (#[trigger] cur_row@[j]).position == (Position {
                            row: row as usize,
                            col: j as usize,
                        }),
                    forall|j: int|
                        0 <= j < cur_row@.len() ==> (#[trigger] cur_row@[j]).cell_state
                            == CellState::Hidden,
                    forall|j: int|
                        0 <= j < cur_row@.len() ==> (((#[trigger] cur_row@[j]).cell_type
                            == CellType::Mine) <==> mask@[row as int]@[j]),
                    forall|j: int|
                        0 <= j < cur_row@.len() ==> match (#[trigger] cur_row@[j]).cell_type {
                            CellType::Mine => true,
                            CellType::Safe { adjacent_mines } => adjacent_mines
                                == mask_adjacent_count(mask@, row as int, j),
                        },
            {
                let position = Position { row, col };
                let adjacent_mines = Self::calculate_adjacent_mines(&position, &mask, width, height);
                let is_mine = mask[row][col];
                let cell = Cell::new(position, is_mine, adjacent_mines);
                cur_row.push(cell);
            }
            grid.push(cur_row);
        }

        let b = Board { grid, width, height };
        proof {
            assert forall|i: int| 0 <= i < b@.len() implies (#[trigger] b@[i]).len()
                == width as nat by {}
            assert forall|i: int, j: int|
                0 <= i < b@.len() && 0 <= j < b@[i].len() implies (((#[trigger] b@[i][j]).cell_type
                == CellType::Mine) <==> mask@[i]@[j]) by {}
            lemma_grid_matches_mask_count(b@, mask@);
            assert forall|r: int, c: int| in_bounds(b@, r, c) implies adjacent_mine_count(b@, r, c)
                == mask_adjacent_count(mask@, r, c) by {
                lemma_adjacent_matches_mask(b@, mask@, r, c);
            }
        }
        b
    }

    /// Discards the whole prior board and builds a fresh one, exactly as
    /// `new` would: no cell state and no mine placement carries over.
    pub fn reset(&mut self, width: usize, height: usize, num_mines: Option<usize>)
        requires
            width * height <= usize::MAX,
            effective_mine_count(width, height, num_mines) <= width * height,
        ensures
            final(self).generated(width, height, effective_mine_count(width, height, num_mines)),
            all_hidden(final(self)@),
    {
        *self = Self::new(width, height, num_mines);
    }
}

// ---------------------------------------------------------------------------
// Spec model of the state transitions
// ---------------------------------------------------------------------------

/// The cell with its visibility set to `Opened`; type and coordinate stay.
pub open spec fn spec_opened_cell(cell: Cell) -> Cell {
    Cell { position: cell.position, cell_type: cell.cell_type, cell_state: CellState::Opened }
}

/// The grid after opening `(r, c)`: unchanged when that cell is flagged,
/// else the same grid with that one cell opened.
pub open spec fn spec_open_grid(grid: Seq<Seq<Cell>>, r: int, c: int) -> Seq<Seq<Cell>> {
    if grid[r][c].cell_state == CellState::Flagged {
        grid
    } else {
        grid.update(r, grid[r].update(c, spec_opened_cell(grid[r][c])))
    }
}

/// What opening `(r, c)` hands back: the cell's type, or nothing when the
/// cell is flagged and the open is blocked.
pub open spec fn spec_open_result(grid: Seq<Seq<Cell>>, r: int, c: int) -> Option<CellType> {
    if grid[r][c].cell_state == CellState::Flagged {
        None
    } else {
        Some(grid[r][c].cell_type)
    }
}

/// One flag toggle: hidden and flagged swap; an opened cell is immune.
pub open spec fn spec_toggled_state(s: CellState) -> CellState {
    match s {
        CellState::Hidden => CellState::Flagged,
        CellState::Flagged => CellState::Hidden,
        CellState::Opened => CellState::Opened,
    }
}

/// The grid after toggling the flag at `(r, c)`.
pub open spec fn spec_toggle_grid(grid: Seq<Seq<Cell>>, r: int, c: int) -> Seq<Seq<Cell>> {
    grid.update(
        r,
        grid[r].update(
            c,
            Cell {
                position: grid[r][c].position,
                cell_type: grid[r][c].cell_type,
                cell_state: spec_toggled_state(grid[r][c].cell_state),
            },
        ),
    )
}

impl Board {
    /// Opens the cell at `position`. A hidden or already-opened cell becomes
    /// (stays) opened and its type comes back for rendering; a flagged cell
    /// blocks the open, changes nothing, and yields `None`.
    pub fn open_cell(&mut self, position: &Position) -> (r: Option<&CellType>)
        requires
            old(self).wf(),
            position.row < old(self).spec_height(),
            position.col < old(self).spec_width(),
        ensures
            final(self).wf(),
            final(self).spec_width() == old(self).spec_width(),
            final(self).spec_height() == old(self).spec_height(),
            final(self)@ == spec_open_grid(old(self)@, position.row as int, position.col as int),
            (match r {
                Some(t) => spec_open_result(old(self)@, position.row as int, position.col as int)
                    == Some(*t),
                None => spec_open_result(old(self)@, position.row as int, position.col as int)
                    is None,
            }),
    {
        let row = position.row;
        let col = position.col;
        let cell: Cell = self.grid[row][col];
        match cell.cell_state {
            CellState::Flagged => None,
            _ => {
                self.grid[row][col] = Cell {
                    position: cell.position,
                    cell_type: cell.cell_type,
                    cell_state: CellState::Opened,
                };
                proof {
                    assert(self@ =~~= spec_open_grid(old(self)@, row as int, col as int));
                }
                Some(&self.grid[row][col].cell_type)
            },
        }
    }

    /// Toggles the flag at `position`: a hidden cell becomes flagged, a
    /// flagged cell becomes hidden again, an opened cell stays opened.
    pub fn toggle_flag(&mut self, position: &Position)
        requires
            old(self).wf(),
            position.row < old(self).spec_height(),
            position.col < old(self).spec_width(),
        ensures
            final(self).wf(),
            final(self).spec_width() == old(self).spec_width(),
            final(self).spec_height() == old(self).spec_height(),
            final(self)@ == spec_toggle_grid(old(self)@, position.row as int, position.col as int),
    {
        let row = position.row;
        let col = position.col;
        proof {
            assert(self.grid@.len() == self@.len());
            assert(self.grid@[row as int]@ == self@[row as int]);
            assert(self@[row as int].len() == self.spec_width());
        }
        let cell: Cell = self.grid[row][col];
        self.grid[row][col] = Cell {
            position: cell.position,
            cell_type: cell.cell_type,
            cell_state: match cell.cell_state {
                CellState::Hidden => CellState::Flagged,
                CellState::Flagged => CellState::Hidden,
                CellState::Opened => CellState::Opened,
            },
        };
        proof {
            assert(self@ =~~= spec_toggle_grid(old(self)@, row as int, col as int));
        }
    }

    /// Number of cells in every row.
    pub fn width(&self) -> (w: usize)
        ensures
            w == self.spec_width(),
    {
        self.width
    }

    /// Number of rows.
    pub fn height(&self) -> (h: usize)
        ensures
            h == self.spec_height(),
    {
        self.height
    }

    /// Read-only access to one cell, for rendering and inspection.
    pub fn get_cell(&self, position: &Position) -> (c: &Cell)
        requires
            self.wf(),
            position.row < self.spec_height(),
            position.col < self.spec_width(),
        ensures
            *c == self@[position.row as int][position.col as int],
    {
        &self.grid[position.row][position.col]
    }
}

/// Maps a column letter and a one-based row number to a grid coordinate:
/// column `'A'` is 0, row 1 is the top row.
pub fn get_position(col_letter: char, row_number: usize) -> (p: Position)
    requires
        col_letter as u32 >= 'A' as u32,
        row_number >= 1,
    ensures
        p.row == row_number - 1,
        p.col == col_letter as int - 'A' as int,
{
    Position { row: row_number - 1, col: (col_letter as u32 - 'A' as u32) as usize }
}

// ---------------------------------------------------------------------------
// Laws
// ---------------------------------------------------------------------------

proof fn lemma_row_mine_count_at(row: Seq<Cell>, c: int)
    requires
        0 <= c < row.len(),
        row[c].cell_type == CellType::Mine,
    ensures
        row_mine_count(row) >= 1,
    decreases row.len(),
{
    if c < row.len() - 1 {
        lemma_row_mine_count_at(row.drop_last(), c);
    }
}

proof fn lemma_grid_mine_count_at(grid: Seq<Seq<Cell>>, r: int, c: int)
    requires
        in_bounds(grid, r, c),
        grid[r][c].cell_type == CellType::Mine,
    ensures
        grid_mine_count(grid) >= 1,
    decreases grid.len(),
{
    if r == grid.len() - 1 {
        lemma_row_mine_count_at(grid.last(), c);
    } else {
        lemma_grid_mine_count_at(grid.drop_last(), r, c);
    }
}

/// Law: on a board whose cells are consistent and whose mine count is zero,
/// every cell is safe and carries adjacency count zero.
pub proof fn lemma_zero_mines_all_safe(b: Board)
    requires
        b.wf(),
        cells_wf(b@),
        grid_mine_count(b@) == 0,
    ensures
        forall|r: int, c: int|
            in_bounds(b@, r, c) ==> (#[trigger] b@[r][c]).cell_type == (CellType::Safe {
                adjacent_mines: 0,
            }),
{
    assert forall|r: int, c: int|
        in_bounds(b@, r, c) implies (#[trigger] b@[r][c]).cell_type != CellType::Mine by {
        if b@[r][c].cell_type == CellType::Mine {
            lemma_grid_mine_count_at(b@, r, c);
        }
    }
    assert forall|r: int, c: int|
        in_bounds(b@, r, c) implies (#[trigger] b@[r][c]).cell_type == (CellType::Safe {
        adjacent_mines: 0,
    }) by {
        assert(adjacent_mine_count(b@, r, c) == 0);
    }
}

/// Law: two different grid slots of a consistent board hold different
/// positions, so in particular all mine positions are pairwise distinct.
pub proof fn lemma_positions_distinct(b: Board, r1: int, c1: int, r2: int, c2: int)
    requires
        b.wf(),
        cells_wf(b@),
        in_bounds(b@, r1, c1),
        in_bounds(b@, r2, c2),
        !(r1 == r2 && c1 == c2),
    ensures
        b@[r1][c1].position != b@[r2][c2].position,
{
}

/// Law: opening is idempotent — opening a cell that an earlier open left
/// opened changes nothing further and hands back the same type.
pub proof fn lemma_open_idempotent(grid: Seq<Seq<Cell>>, r: int, c: int)
    requires
        0 <= r < grid.len(),
        0 <= c < grid[r].len(),
    ensures
        spec_open_grid(spec_open_grid(grid, r, c), r, c) == spec_open_grid(grid, r, c),
        spec_open_result(spec_open_grid(grid, r, c), r, c) == spec_open_result(grid, r, c),
{
    let g1 = spec_open_grid(grid, r, c);
    if grid[r][c].cell_state != CellState::Flagged {
        assert(g1[r][c] == spec_opened_cell(grid[r][c]));
        assert(g1[r].update(c, spec_opened_cell(g1[r][c])) =~= g1[r]);
        assert(g1.update(r, g1[r].update(c, spec_opened_cell(g1[r][c]))) =~~= g1);
    }
}

/// Law: the flag/open interaction on a hidden cell — one toggle flags it,
/// an open is then blocked and leaves the grid alone, a second toggle
/// restores the whole grid, and an open then succeeds with the cell's type.
pub proof fn lemma_flag_open_interaction(grid: Seq<Seq<Cell>>, r: int, c: int)
    requires
        0 <= r < grid.len(),
        0 <= c < grid[r].len(),
        grid[r][c].cell_state == CellState::Hidden,
    ensures
        spec_toggle_grid(grid, r, c)[r][c].cell_state == CellState::Flagged,
        spec_open_result(spec_toggle_grid(grid, r, c), r, c) is None,
        spec_open_grid(spec_toggle_grid(grid, r, c), r, c) == spec_toggle_grid(grid, r, c),
        spec_toggle_grid(spec_toggle_grid(grid, r, c), r, c) == grid,
        spec_open_result(spec_toggle_grid(spec_toggle_grid(grid, r, c), r, c), r, c) == Some(
            grid[r][c].cell_type,
        ),
{
    let g1 = spec_toggle_grid(grid, r, c);
    assert(g1[r][c].cell_state == CellState::Flagged);
    let g2 = spec_toggle_grid(g1, r, c);
    assert(g1[r].update(
        c,
        Cell {
            position: grid[r][c].position,
            cell_type: grid[r][c].cell_type,
            cell_state: CellState::Hidden,
        },
    ) =~= grid[r]);
    assert(g2 =~~= grid);
}

/// Law: an opened cell is flag-immune — toggling its flag leaves the whole
/// grid unchanged.
pub proof fn lemma_toggle_opened_noop(grid: Seq<Seq<Cell>>, r: int, c: int)
    requires
        0 <= r < grid.len(),
        0 <= c < grid[r].len(),
        grid[r][c].cell_state == CellState::Opened,
    ensures
        spec_toggle_grid(grid, r, c) == grid,
{
    assert(grid[r].update(
        c,
        Cell {
            position: grid[r][c].position,
            cell_type: grid[r][c].cell_type,
            cell_state: CellState::Opened,
        },
    ) =~= grid[r]);
    assert(spec_toggle_grid(grid, r, c) =~~= grid);
}

} // verus!
