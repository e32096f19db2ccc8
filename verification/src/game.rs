//! The board: a 3x3 grid of cells, stored flat in row-major order.
//!
//! A coordinate is a `(row, col)` pair with each component in `[0, 3)`; the
//! cell at `(row, col)` sits at flat index `3 * row + col`. The view of a
//! board is the flat sequence of its nine cells, and every contract below is
//! stated over that view.

use vstd::prelude::*;

verus! {

/// One square of the grid: unoccupied, or marked by one of the two players.
#[derive(Clone, Copy, PartialEq, Eq, Structural, Debug)]
pub enum Cell {
    Empty,
    X,
    O,
}

/// The 3x3 board. Its view is the flat row-major sequence of its nine cells.
pub struct TicTacToe {
    cells: [Cell; 9],
}

impl View for TicTacToe {
    type V = Seq<Cell>;

    closed spec fn view(&self) -> Seq<Cell> {
        self.cells@
    }
}

/// The all-empty starting position.
pub open spec fn empty_board() -> Seq<Cell> {
    Seq::new(9, |i: int| Cell::Empty)
}

/// Both coordinates lie in `[0, 3)`: the move points at a cell of the grid.
pub open spec fn in_bounds(row: int, col: int) -> bool {
    0 <= row < 3 && 0 <= col < 3
}

/// A board is full when no cell is empty.
pub open spec fn spec_is_full(b: Seq<Cell>) -> bool {
    forall|k: int| 0 <= k < 9 ==> b[k] != Cell::Empty
}

/// The three cells at flat indices `a`, `m`, `z` are held by one player.
pub open spec fn line_won(b: Seq<Cell>, a: int, m: int, z: int) -> bool {
    b[a] != Cell::Empty && b[a] == b[m] && b[m] == b[z]
}

/// The occupant of the first fully-homogeneous line, scanning row 0, column 0,
/// row 1, column 1, row 2, column 2, then the two diagonals (top-left to
/// bottom-right first). The scan order is the deterministic tie-break for
/// malformed boards that hold two winning lines at once.
pub open spec fn spec_winner(b: Seq<Cell>) -> Option<Cell> {
    if line_won(b, 0, 1, 2) {
        Some(b[0])
    } else if line_won(b, 0, 3, 6) {
        Some(b[0])
    } else if line_won(b, 3, 4, 5) {
        Some(b[3])
    } else if line_won(b, 1, 4, 7) {
        Some(b[1])
    } else if line_won(b, 6, 7, 8) {
        Some(b[6])
    } else if line_won(b, 2, 5, 8) {
        Some(b[2])
    } else if line_won(b, 0, 4, 8) {
        Some(b[0])
    } else if line_won(b, 2, 4, 6) {
        Some(b[2])
    } else {
        None
    }
}

/// The empty coordinates at flat indices `k..9`, in row-major order.
pub open spec fn empty_cells_from(b: Seq<Cell>, k: int) -> Seq<(usize, usize)>
    decreases 9 - k,
{
    if !(0 <= k < 9) {
        Seq::empty()
    } else if b[k] == Cell::Empty {
        seq![(((k / 3) as usize, (k % 3) as usize))] + empty_cells_from(b, k + 1)
    } else {
        empty_cells_from(b, k + 1)
    }
}

/// All empty coordinates, in row-major order. This order is load-bearing: it
/// fixes the tie-breaks of the search engine.
pub open spec fn spec_empty_cells(b: Seq<Cell>) -> Seq<(usize, usize)> {
    empty_cells_from(b, 0)
}

/// How many of the cells at flat indices `k..9` are empty.
pub open spec fn count_empty_from(b: Seq<Cell>, k: int) -> nat
    decreases 9 - k,
{
    if !(0 <= k < 9) {
        0
    } else if b[k] == Cell::Empty {
        1 + count_empty_from(b, k + 1)
    } else {
        count_empty_from(b, k + 1)
    }
}

/// How many cells of the board are empty.
pub open spec fn count_empty(b: Seq<Cell>) -> nat {
    count_empty_from(b, 0)
}

/// How many of the cells at flat indices `k..9` are occupied.
pub open spec fn count_occupied_from(b: Seq<Cell>, k: int) -> nat
    decreases 9 - k,
{
    if !(0 <= k < 9) {
        0
    } else if b[k] != Cell::Empty {
        1 + count_occupied_from(b, k + 1)
    } else {
        count_occupied_from(b, k + 1)
    }
}

/// How many cells of the board are occupied.
pub open spec fn count_occupied(b: Seq<Cell>) -> nat {
    count_occupied_from(b, 0)
}

impl TicTacToe {
    /// Creates a board with every cell empty.
    pub fn new() -> (game: Self)
        ensures
            game@ =~= empty_board(),
    {
        TicTacToe { cells: [Cell::Empty; 9] }
    }

    /// Marks the cell at `(row, col)` with `player`, but only when the
    /// coordinates are in range and the cell is still empty; any other call
    /// returns `false` and leaves the board exactly as it was.
    pub fn place(&mut self, row: usize, col: usize, player: Cell) -> (ok: bool)
        ensures
            ok == (in_bounds(row as int, col as int) && old(self)@[3 * row + col] == Cell::Empty),
            ok ==> final(self)@ == old(self)@.update(3 * row + col, player),
            !ok ==> final(self)@ == old(self)@,
    {
        if row < 3 && col < 3 && self.cells[3 * row + col] == Cell::Empty {
            self.cells[3 * row + col] = player;
            true
        } else {
            false
        }
    }

    /// Resets the cell at `(row, col)` to empty when the coordinates are in
    /// range; out-of-range coordinates are a no-op, not a failure. The search
    /// engine uses this to backtrack its speculative placements.
    pub fn unplace(&mut self, row: usize, col: usize)
        ensures
            in_bounds(row as int, col as int) ==> final(self)@ == old(self)@.update(
                3 * row + col,
                Cell::Empty,
            ),
            !in_bounds(row as int, col as int) ==> final(self)@ == old(self)@,
    {
        if row < 3 && col < 3 {
            self.cells[3 * row + col] = Cell::Empty;
        }
    }

    /// The cell at `(row, col)`; an out-of-range coordinate reads as empty,
    /// matching the no-op treatment such coordinates get everywhere else.
    pub fn cell(&self, row: usize, col: usize) -> (cell: Cell)
        ensures
            in_bounds(row as int, col as int) ==> cell == self@[3 * row + col],
            !in_bounds(row as int, col as int) ==> cell == Cell::Empty,
    {
        if row < 3 && col < 3 {
            self.cells[3 * row + col]
        } else {
            Cell::Empty
        }
    }

    /// True exactly when every cell is occupied.
    pub fn is_full(&self) -> (full: bool)
        ensures
            full == spec_is_full(self@),
            self@.len() == 9,
    {
        let mut k: usize = 0;
        while k < 9
            invariant
                k <= 9,
                forall|j: int| 0 <= j < k ==> self@[j] != Cell::Empty,
            decreases 9 - k,
        {
            if self.cells[k] == Cell::Empty {
                return false;
            }
            k += 1;
        }
        true
    }

    /// Scans the three rows, three columns and two diagonals, in the order
    /// documented at [`spec_winner`], and returns the occupant of the first
    /// fully-homogeneous line, or `None` when no line is won.
    pub fn check_winner(&self) -> (winner: Option<Cell>)
        ensures
            winner == spec_winner(self@),
            self@.len() == 9,
    {
        let mut i: usize = 0;
        while i < 3
            invariant
                i <= 3,
                1 <= i ==> !line_won(self@, 0, 1, 2) && !line_won(self@, 0, 3, 6),
                2 <= i ==> !line_won(self@, 3, 4, 5) && !line_won(self@, 1, 4, 7),
                3 <= i ==> !line_won(self@, 6, 7, 8) && !line_won(self@, 2, 5, 8),
            decreases 3 - i,
        {
            if self.cells[3 * i] != Cell::Empty && self.cells[3 * i] == self.cells[3 * i + 1]
                && self.cells[3 * i + 1] == self.cells[3 * i + 2] {
                return Some(self.cells[3 * i]);
            }
            if self.cells[i] != Cell::Empty && self.cells[i] == self.cells[i + 3] && self.cells[i
                + 3] == self.cells[i + 6] {
                return Some(self.cells[i]);
            }
            i += 1;
        }
        if self.cells[0] != Cell::Empty && self.cells[0] == self.cells[4] && self.cells[4]
            == self.cells[8] {
            return Some(self.cells[0]);
        }
        if self.cells[2] != Cell::Empty && self.cells[2] == self.cells[4] && self.cells[4]
            == self.cells[6] {
            return Some(self.cells[2]);
        }
        None
    }

    /// All empty coordinates, in row-major order (row 0 left to right, then
    /// row 1, then row 2).
    pub fn get_empty_cells(&self) -> (cells: Vec<(usize, usize)>)
        ensures
            cells@ == spec_empty_cells(self@),
            self@.len() == 9,
    {
        let mut cells: Vec<(usize, usize)> = Vec::new();
        let mut k: usize = 0;
        proof {
            assert(Seq::<(usize, usize)>::empty() + spec_empty_cells(self@) =~= spec_empty_cells(
                self@,
            ));
        }
        while k < 9
            invariant
                k <= 9,
                spec_empty_cells(self@) == cells@ + empty_cells_from(self@, k as int),
            decreases 9 - k,
        {
            if self.cells[k] == Cell::Empty {
                cells.push((k / 3, k % 3));
            }
            proof {
                assert(cells@ + empty_cells_from(self@, k + 1) =~= spec_empty_cells(self@));
            }
            k += 1;
        }
        proof {
            assert(cells@ =~= spec_empty_cells(self@));
        }
        cells
    }
}

/// The one-character display token of a cell: `"."` for an empty cell, and the
/// player's mark otherwise. Consumed only by the display collaborator outside
/// the core.
pub fn render_symbol(cell: Cell) -> (symbol: &'static str)
    ensures
        cell == Cell::Empty ==> symbol@ == "."@,
        cell == Cell::X ==> symbol@ == "X"@,
        cell == Cell::O ==> symbol@ == "O"@,
{
    match cell {
        Cell::Empty => ".",
        Cell::X => "X",
        Cell::O => "O",
    }
}

/// The empty-cell list over `k..9` has exactly one entry per empty cell.
pub proof fn lemma_empty_cells_len(b: Seq<Cell>, k: int)
    requires
        0 <= k <= 9,
    ensures
        empty_cells_from(b, k).len() == count_empty_from(b, k),
        count_empty_from(b, k) <= 9 - k,
    decreases 9 - k,
{
    if k < 9 {
        lemma_empty_cells_len(b, k + 1);
    }
}

/// Every entry of the empty-cell list over `k..9` is an in-range coordinate of
/// an empty cell whose flat index is at least `k`.
pub proof fn lemma_empty_cells_sound(b: Seq<Cell>, k: int)
    requires
        0 <= k <= 9,
    ensures
        forall|i: int|
            0 <= i < empty_cells_from(b, k).len() ==> {
                let m = #[trigger] empty_cells_from(b, k)[i];
                in_bounds(m.0 as int, m.1 as int) && k <= 3 * m.0 + m.1 && b[3 * m.0 + m.1]
                    == Cell::Empty
            },
    decreases 9 - k,
{
    if k < 9 {
        lemma_empty_cells_sound(b, k + 1);
    }
}

/// Every in-range empty cell with flat index at least `k` appears in the
/// empty-cell list over `k..9`.
pub proof fn lemma_empty_cells_complete(b: Seq<Cell>, k: int, row: int, col: int)
    requires
        0 <= k <= 9,
        in_bounds(row, col),
        k <= 3 * row + col,
        b[3 * row + col] == Cell::Empty,
    ensures
        empty_cells_from(b, k).contains(((row as usize, col as usize))),
    decreases 9 - k,
{
    if k == 3 * row + col {
        assert(empty_cells_from(b, k)[0] == ((row as usize, col as usize)));
    } else {
        lemma_empty_cells_complete(b, k + 1, row, col);
        let i = choose|i: int|
            0 <= i < empty_cells_from(b, k + 1).len() && #[trigger] empty_cells_from(b, k + 1)[i]
                == ((row as usize, col as usize));
        if b[k] == Cell::Empty {
            assert(empty_cells_from(b, k)[i + 1] == ((row as usize, col as usize)));
        } else {
            assert(empty_cells_from(b, k)[i] == ((row as usize, col as usize)));
        }
    }
}

/// Marking the empty cell at flat index `j` lowers the empty count over
/// `k..9` by one when `k` covers `j`, and leaves it unchanged otherwise.
pub proof fn lemma_count_empty_update(b: Seq<Cell>, j: int, v: Cell, k: int)
    requires
        b.len() == 9,
        0 <= k <= 9,
        0 <= j < 9,
        b[j] == Cell::Empty,
        v != Cell::Empty,
    ensures
        k <= j ==> count_empty_from(b.update(j, v), k) == count_empty_from(b, k) - 1,
        k > j ==> count_empty_from(b.update(j, v), k) == count_empty_from(b, k),
    decreases 9 - k,
{
    if k < 9 {
        lemma_count_empty_update(b, j, v, k + 1);
    }
}

/// A board is full exactly when its empty count is zero.
pub proof fn lemma_full_iff_no_empty(b: Seq<Cell>)
    ensures
        spec_is_full(b) <==> count_empty(b) == 0,
{
    lemma_no_empty_from(b, 0);
}

proof fn lemma_no_empty_from(b: Seq<Cell>, k: int)
    requires
        0 <= k <= 9,
    ensures
        (count_empty_from(b, k) == 0) <==> (forall|j: int| k <= j < 9 ==> b[j] != Cell::Empty),
    decreases 9 - k,
{
    if k < 9 {
        lemma_no_empty_from(b, k + 1);
    }
}

/// The empty-cell list and the occupied count always partition the nine
/// squares: their sizes sum to nine on every board.
pub proof fn lemma_empty_plus_occupied(b: Seq<Cell>)
    requires
        b.len() == 9,
    ensures
        spec_empty_cells(b).len() + count_occupied(b) == 9,
{
    lemma_empty_cells_len(b, 0);
    lemma_counts_partition(b, 0);
}

proof fn lemma_counts_partition(b: Seq<Cell>, k: int)
    requires
        0 <= k <= 9,
    ensures
        count_empty_from(b, k) + count_occupied_from(b, k) == 9 - k,
    decreases 9 - k,
{
    if k < 9 {
        lemma_counts_partition(b, k + 1);
    }
}

/// Placing a mark on an empty cell and then removing it restores the board,
/// cell for cell, to its state before the placement. The search engine's
/// place-explore-undo discipline rests on exactly this round trip.
pub proof fn lemma_place_unplace_round_trip(b: Seq<Cell>, row: int, col: int, player: Cell)
    requires
        b.len() == 9,
        in_bounds(row, col),
        b[3 * row + col] == Cell::Empty,
    ensures
        b.update(3 * row + col, player).update(3 * row + col, Cell::Empty) =~= b,
{
}

} // verus!
