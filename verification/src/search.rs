//! The search engine: exhaustive minimax over all legal continuations.
//!
//! The automated player is O, the maximizing side; its opponent X minimizes.
//! A position with a winner scores +10 or -10 from O's point of view, any
//! other position scores 0, with no depth discount: a win found deep in the
//! tree scores exactly like an immediate one, so the engine guarantees the
//! best reachable outcome, not the fastest one. The engine explores by
//! placing a mark, recursing, and removing the mark again, and always hands
//! the board back exactly as it found it.

use vstd::prelude::*;

use crate::game::Cell;
use crate::game::TicTacToe;
use crate::game::count_empty;
use crate::game::empty_cells_from;
use crate::game::in_bounds;
use crate::game::lemma_count_empty_update;
use crate::game::lemma_empty_cells_complete;
use crate::game::lemma_empty_cells_len;
use crate::game::lemma_empty_cells_sound;
use crate::game::lemma_full_iff_no_empty;
use crate::game::lemma_place_unplace_round_trip;
use crate::game::spec_empty_cells;
use crate::game::spec_is_full;
use crate::game::spec_winner;

verus! {

/// The mark the side to move places: the maximizing player is O.
pub open spec fn mark_of(maximizing: bool) -> Cell {
    if maximizing {
        Cell::O
    } else {
        Cell::X
    }
}

/// A move that can be played on `b`: both coordinates in range, naming an
/// empty cell of a nine-cell board.
pub open spec fn valid_move(b: Seq<Cell>, m: (usize, usize)) -> bool {
    b.len() == 9 && in_bounds(m.0 as int, m.1 as int) && b[3 * m.0 + m.1] == Cell::Empty
}

/// The static score of a position from the maximizing player's point of view:
/// +10 when O holds a winning line, -10 when X does, 0 otherwise (a draw or a
/// game still open).
pub open spec fn spec_evaluate(b: Seq<Cell>) -> int {
    match spec_winner(b) {
        Some(Cell::O) => 10,
        Some(Cell::X) => -10,
        _ => 0,
    }
}

/// The game-theoretic value of `b` with `maximizing` to move: the static
/// score of a decided position, 0 for a full one, and otherwise the best
/// (greatest for O, least for X) value over every playable continuation.
pub open spec fn spec_minimax(b: Seq<Cell>, maximizing: bool) -> int
    decreases count_empty(b), 10int,
    via spec_minimax_decreases
{
    let score = spec_evaluate(b);
    if score == 10 || score == -10 {
        score
    } else if spec_is_full(b) {
        0
    } else {
        fold_scores(
            b,
            maximizing,
            spec_empty_cells(b),
            if maximizing {
                i32::MIN as int
            } else {
                i32::MAX as int
            },
        )
    }
}

/// Folds the minimax value of each playable entry of `moves` into the running
/// best `acc`, left to right: the maximum when `maximizing`, the minimum
/// otherwise. Entries that are not playable on `b` are passed over.
pub open spec fn fold_scores(
    b: Seq<Cell>,
    maximizing: bool,
    moves: Seq<(usize, usize)>,
    acc: int,
) -> int
    decreases count_empty(b), moves.len(),
    via fold_scores_decreases
{
    if moves.len() == 0 {
        acc
    } else if valid_move(b, moves[0]) {
        let score = spec_minimax(
            b.update(3 * moves[0].0 + moves[0].1, mark_of(maximizing)),
            !maximizing,
        );
        let best = if maximizing {
            if score > acc {
                score
            } else {
                acc
            }
        } else {
            if score < acc {
                score
            } else {
                acc
            }
        };
        fold_scores(b, maximizing, moves.drop_first(), best)
    } else {
        fold_scores(b, maximizing, moves.drop_first(), acc)
    }
}

#[via_fn]
proof fn spec_minimax_decreases(b: Seq<Cell>, maximizing: bool) {
    lemma_empty_cells_len(b, 0);
}

#[via_fn]
proof fn fold_scores_decreases(b: Seq<Cell>, maximizing: bool, moves: Seq<(usize, usize)>, acc: int) {
    if moves.len() > 0 && valid_move(b, moves[0]) {
        lemma_count_empty_update(b, 3 * moves[0].0 + moves[0].1, mark_of(maximizing), 0);
    }
}

/// Walks `moves` left to right and keeps the first entry whose minimax value,
/// after O plays it, strictly beats the running best `best_score`; later
/// entries that merely tie never replace it. Entries that are not playable on
/// `b` are passed over.
pub open spec fn best_move_over(
    b: Seq<Cell>,
    moves: Seq<(usize, usize)>,
    best_score: int,
    best: Option<(usize, usize)>,
) -> Option<(usize, usize)>
    decreases moves.len(),
{
    if moves.len() == 0 {
        best
    } else if valid_move(b, moves[0]) {
        let score = spec_minimax(b.update(3 * moves[0].0 + moves[0].1, Cell::O), false);
        if score > best_score {
            best_move_over(b, moves.drop_first(), score, Some(moves[0]))
        } else {
            best_move_over(b, moves.drop_first(), best_score, best)
        }
    } else {
        best_move_over(b, moves.drop_first(), best_score, best)
    }
}

/// The move the search engine reports on `b`: the first empty cell in
/// row-major order whose minimax value for O is strictly greatest, or `None`
/// on a board with no empty cell.
pub open spec fn spec_best_move(b: Seq<Cell>) -> Option<(usize, usize)> {
    best_move_over(b, spec_empty_cells(b), i32::MIN as int, None)
}

impl TicTacToe {
    /// The static score of the current position: +10 when O holds a winning
    /// line, -10 when X does, 0 otherwise.
    pub fn evaluate(&self) -> (score: i32)
        ensures
            score as int == spec_evaluate(self@),
            self@.len() == 9,
    {
        if let Some(winner) = self.check_winner() {
            match winner {
                Cell::O => 10,
                Cell::X => -10,
                Cell::Empty => 0,
            }
        } else {
            0
        }
    }

    /// The game-theoretic value of the current position with `maximizing` to
    /// move, found by exhaustive search: every empty cell is tried in
    /// row-major order, the opponent's reply is evaluated recursively, and
    /// each speculative mark is removed again, so the board comes back
    /// exactly as it went in.
    #[verifier::loop_isolation(false)]
    pub fn minimax(&mut self, maximizing: bool) -> (score: i32)
        ensures
            final(self)@ == old(self)@,
            score as int == spec_minimax(old(self)@, maximizing),
        decreases count_empty(self@),
    {
        let score = self.evaluate();
        if score == 10 || score == -10 {
            return score;
        }
        if self.is_full() {
            return 0;
        }
        let ghost b0 = self@;
        let cells = self.get_empty_cells();
        proof {
            assert forall|i: int| 0 <= i < cells@.len() implies valid_move(
                b0,
                #[trigger] cells@[i],
            ) by {
                lemma_empty_cells_sound(b0, 0);
                assert(cells@[i] == empty_cells_from(b0, 0)[i]);
            };
            assert(cells@.skip(0) =~= cells@);
        }
        if maximizing {
            let mut best: i32 = i32::MIN;
            let mut idx: usize = 0;
            while idx < cells.len()
                invariant
                    self@ == b0,
                    idx <= cells@.len(),
                    fold_scores(b0, true, cells@.skip(idx as int), best as int) == fold_scores(
                        b0,
                        true,
                        cells@,
                        i32::MIN as int,
                    ),
                decreases cells@.len() - idx,
            {
                let (row, col) = cells[idx];
                let placed = self.place(row, col, Cell::O);
                assert(placed);
                proof {
                    lemma_count_empty_update(b0, 3 * row + col, Cell::O, 0);
                }
                let score = self.minimax(false);
                self.unplace(row, col);
                proof {
                    lemma_place_unplace_round_trip(b0, row as int, col as int, Cell::O);
                    assert(cells@.skip(idx as int).drop_first() =~= cells@.skip(idx as int + 1));
                }
                if score > best {
                    best = score;
                }
                idx += 1;
            }
            proof {
                assert(cells@.skip(cells@.len() as int) =~= Seq::<(usize, usize)>::empty());
            }
            best
        } else {
            let mut best: i32 = i32::MAX;
            let mut idx: usize = 0;
            while idx < cells.len()
                invariant
                    self@ == b0,
                    idx <= cells@.len(),
                    fold_scores(b0, false, cells@.skip(idx as int), best as int) == fold_scores(
                        b0,
                        false,
                        cells@,
                        i32::MAX as int,
                    ),
                decreases cells@.len() - idx,
            {
                let (row, col) = cells[idx];
                let placed = self.place(row, col, Cell::X);
                assert(placed);
                proof {
                    lemma_count_empty_update(b0, 3 * row + col, Cell::X, 0);
                }
                let score = self.minimax(true);
                self.unplace(row, col);
                proof {
                    lemma_place_unplace_round_trip(b0, row as int, col as int, Cell::X);
                    assert(cells@.skip(idx as int).drop_first() =~= cells@.skip(idx as int + 1));
                }
                if score < best {
                    best = score;
                }
                idx += 1;
            }
            proof {
                assert(cells@.skip(cells@.len() as int) =~= Seq::<(usize, usize)>::empty());
            }
            best
        }
    }

    /// The optimal move for O on the current position: the first empty cell
    /// in row-major order whose minimax value is strictly greatest, or `None`
    /// exactly when the board is full. The search explores through
    /// speculative placements that are all undone: the board comes back
    /// exactly as it went in, so repeated calls on an identical board return
    /// the identical coordinate.
    #[verifier::loop_isolation(false)]
    pub fn find_best_move(&mut self) -> (best_move: Option<(usize, usize)>)
        ensures
            final(self)@ == old(self)@,
            best_move == spec_best_move(old(self)@),
            best_move is Some <==> !spec_is_full(old(self)@),
            best_move matches Some(m) ==> valid_move(old(self)@, m),
    {
        let ghost b0 = self@;
        let mut best_score: i32 = i32::MIN;
        let mut best_move: Option<(usize, usize)> = None;
        let cells = self.get_empty_cells();
        proof {
            assert forall|i: int| 0 <= i < cells@.len() implies valid_move(
                b0,
                #[trigger] cells@[i],
            ) by {
                lemma_empty_cells_sound(b0, 0);
                assert(cells@[i] == empty_cells_from(b0, 0)[i]);
            };
            assert(cells@.skip(0) =~= cells@);
        }
        let mut idx: usize = 0;
        while idx < cells.len()
            invariant
                self@ == b0,
                idx <= cells@.len(),
                best_move_over(b0, cells@.skip(idx as int), best_score as int, best_move)
                    == spec_best_move(b0),
            decreases cells@.len() - idx,
        {
            let (row, col) = cells[idx];
            let placed = self.place(row, col, Cell::O);
            assert(placed);
            let score = self.minimax(false);
            self.unplace(row, col);
            proof {
                lemma_place_unplace_round_trip(b0, row as int, col as int, Cell::O);
                assert(cells@.skip(idx as int).drop_first() =~= cells@.skip(idx as int + 1));
            }
            if score > best_score {
                best_score = score;
                best_move = Some((row, col));
            }
            idx += 1;
        }
        proof {
            assert(cells@.skip(cells@.len() as int) =~= Seq::<(usize, usize)>::empty());
            lemma_best_move_some_iff(b0);
            lemma_best_move_valid(b0);
        }
        best_move
    }
}

/// Every minimax value lies between the two static scores: the engine never
/// reports a value outside -10..=10.
pub proof fn lemma_minimax_bounds(b: Seq<Cell>, maximizing: bool)
    requires
        b.len() == 9,
    ensures
        -10 <= spec_minimax(b, maximizing) <= 10,
    decreases count_empty(b), 10int,
{
    let score = spec_evaluate(b);
    if score == 10 || score == -10 || spec_is_full(b) {
    } else {
        lemma_empty_cells_len(b, 0);
        lemma_full_iff_no_empty(b);
        lemma_empty_cells_sound(b, 0);
        let moves = spec_empty_cells(b);
        let pos = 3 * moves[0].0 + moves[0].1;
        let first = b.update(pos, mark_of(maximizing));
        lemma_count_empty_update(b, pos, mark_of(maximizing), 0);
        lemma_minimax_bounds(first, !maximizing);
        let s0 = spec_minimax(first, !maximizing);
        if maximizing {
            lemma_fold_scores_bounds(b, true, moves.drop_first(), s0);
        } else {
            lemma_fold_scores_bounds(b, false, moves.drop_first(), s0);
        }
    }
}

/// Folding scores into `acc` moves it only towards better values for the
/// folding side, and never leaves -10..=10 except by keeping `acc` itself.
proof fn lemma_fold_scores_bounds(b: Seq<Cell>, maximizing: bool, moves: Seq<(usize, usize)>, acc: int)
    requires
        b.len() == 9,
    ensures
        maximizing ==> fold_scores(b, maximizing, moves, acc) >= acc,
        !maximizing ==> fold_scores(b, maximizing, moves, acc) <= acc,
        fold_scores(b, maximizing, moves, acc) == acc || (-10 <= fold_scores(b, maximizing, moves, acc) <= 10),
    decreases count_empty(b), moves.len(),
{
    if moves.len() > 0 {
        if valid_move(b, moves[0]) {
            let pos = 3 * moves[0].0 + moves[0].1;
            lemma_count_empty_update(b, pos, mark_of(maximizing), 0);
            lemma_minimax_bounds(b.update(pos, mark_of(maximizing)), !maximizing);
            let score = spec_minimax(b.update(pos, mark_of(maximizing)), !maximizing);
            let best = if maximizing {
                if score > acc {
                    score
                } else {
                    acc
                }
            } else {
                if score < acc {
                    score
                } else {
                    acc
                }
            };
            lemma_fold_scores_bounds(b, maximizing, moves.drop_first(), best);
        } else {
            lemma_fold_scores_bounds(b, maximizing, moves.drop_first(), acc);
        }
    }
}

/// Once the walk holds a candidate it never lets go of it, and any candidate
/// it reports was playable on the board.
proof fn lemma_best_move_over_props(
    b: Seq<Cell>,
    moves: Seq<(usize, usize)>,
    best_score: int,
    best: Option<(usize, usize)>,
)
    requires
        b.len() == 9,
        best matches Some(m) ==> valid_move(b, m),
    ensures
        best is Some ==> best_move_over(b, moves, best_score, best) is Some,
        best_move_over(b, moves, best_score, best) matches Some(m) ==> valid_move(b, m),
    decreases moves.len(),
{
    if moves.len() > 0 {
        if valid_move(b, moves[0]) {
            let score = spec_minimax(b.update(3 * moves[0].0 + moves[0].1, Cell::O), false);
            if score > best_score {
                lemma_best_move_over_props(b, moves.drop_first(), score, Some(moves[0]));
            } else {
                lemma_best_move_over_props(b, moves.drop_first(), best_score, best);
            }
        } else {
            lemma_best_move_over_props(b, moves.drop_first(), best_score, best);
        }
    }
}

/// The search reports a move exactly when the board has an empty cell: on a
/// full board it reports `None`, on any other board it owes a move.
pub proof fn lemma_best_move_some_iff(b: Seq<Cell>)
    requires
        b.len() == 9,
    ensures
        spec_best_move(b) is Some <==> !spec_is_full(b),
{
    lemma_empty_cells_len(b, 0);
    lemma_full_iff_no_empty(b);
    if !spec_is_full(b) {
        lemma_empty_cells_sound(b, 0);
        let moves = spec_empty_cells(b);
        let pos = 3 * moves[0].0 + moves[0].1;
        lemma_minimax_bounds(b.update(pos, Cell::O), false);
        let s0 = spec_minimax(b.update(pos, Cell::O), false);
        lemma_best_move_over_props(b, moves.drop_first(), s0, Some(moves[0]));
    }
}

/// The reported move, when there is one, names an in-range empty cell of the
/// board it was computed on.
pub proof fn lemma_best_move_valid(b: Seq<Cell>)
    requires
        b.len() == 9,
    ensures
        spec_best_move(b) matches Some(m) ==> valid_move(b, m),
{
    lemma_best_move_over_props(b, spec_empty_cells(b), i32::MIN as int, None);
}

/// Walking the candidates keeps this agreement: whatever candidate comes out
/// carries exactly the score that folding the same entries into the same
/// running best yields.
proof fn lemma_walk_agrees(
    b: Seq<Cell>,
    moves: Seq<(usize, usize)>,
    acc: int,
    best: Option<(usize, usize)>,
)
    requires
        b.len() == 9,
        best matches Some(m) ==> valid_move(b, m) && acc == spec_minimax(
            b.update(3 * m.0 + m.1, Cell::O),
            false,
        ),
        best is None ==> acc == i32::MIN as int,
    ensures
        best_move_over(b, moves, acc, best) matches Some(m2) ==> spec_minimax(
            b.update(3 * m2.0 + m2.1, Cell::O),
            false,
        ) == fold_scores(b, true, moves, acc),
    decreases moves.len(),
{
    if moves.len() > 0 {
        if valid_move(b, moves[0]) {
            let pos = 3 * moves[0].0 + moves[0].1;
            lemma_minimax_bounds(b.update(pos, Cell::O), false);
            let score = spec_minimax(b.update(pos, Cell::O), false);
            if score > acc {
                lemma_walk_agrees(b, moves.drop_first(), score, Some(moves[0]));
            } else {
                lemma_walk_agrees(b, moves.drop_first(), acc, best);
            }
        } else {
            lemma_walk_agrees(b, moves.drop_first(), acc, best);
        }
    }
}

/// The fold is an upper bound on the score of every playable entry it saw.
proof fn lemma_fold_ge_each(b: Seq<Cell>, moves: Seq<(usize, usize)>, acc: int)
    requires
        b.len() == 9,
    ensures
        forall|i: int|
            0 <= i < moves.len() && valid_move(b, #[trigger] moves[i]) ==> fold_scores(
                b,
                true,
                moves,
                acc,
            ) >= spec_minimax(b.update(3 * moves[i].0 + moves[i].1, Cell::O), false),
    decreases moves.len(),
{
    if moves.len() > 0 {
        let rest = moves.drop_first();
        if valid_move(b, moves[0]) {
            let pos = 3 * moves[0].0 + moves[0].1;
            let score = spec_minimax(b.update(pos, Cell::O), false);
            let acc2 = if score > acc {
                score
            } else {
                acc
            };
            lemma_fold_ge_each(b, rest, acc2);
            lemma_fold_scores_bounds(b, true, rest, acc2);
        } else {
            lemma_fold_ge_each(b, rest, acc);
        }
        assert forall|i: int|
            1 <= i < moves.len() && valid_move(b, #[trigger] moves[i]) implies fold_scores(
            b,
            true,
            moves,
            acc,
        ) >= spec_minimax(b.update(3 * moves[i].0 + moves[i].1, Cell::O), false) by {
            assert(rest[i - 1] == moves[i]);
        };
    }
}

/// The engine's choice is game-theoretically optimal: on an undecided,
/// non-full board the reported move achieves the minimax value of the
/// position itself, and no playable move achieves a strictly greater one.
pub proof fn lemma_best_move_optimal(b: Seq<Cell>)
    requires
        b.len() == 9,
        spec_winner(b) is None,
        !spec_is_full(b),
    ensures
        spec_best_move(b) matches Some(m) ==> spec_minimax(b, true) == spec_minimax(
            b.update(3 * m.0 + m.1, Cell::O),
            false,
        ),
        forall|pos: int|
            0 <= pos < 9 && b[pos] == Cell::Empty ==> #[trigger] spec_minimax(
                b.update(pos, Cell::O),
                false,
            ) <= spec_minimax(b, true),
{
    let moves = spec_empty_cells(b);
    lemma_walk_agrees(b, moves, i32::MIN as int, None);
    lemma_fold_ge_each(b, moves, i32::MIN as int);
    assert(spec_evaluate(b) == 0);
    assert forall|pos: int|
        0 <= pos < 9 && b[pos] == Cell::Empty implies #[trigger] spec_minimax(
        b.update(pos, Cell::O),
        false,
    ) <= spec_minimax(b, true) by {
        let row = pos / 3;
        let col = pos % 3;
        assert(3 * row + col == pos);
        lemma_empty_cells_complete(b, 0, row, col);
        let i = choose|i: int|
            0 <= i < moves.len() && #[trigger] moves[i] == ((row as usize, col as usize));
        assert(valid_move(b, moves[i]));
        assert(3 * moves[i].0 + moves[i].1 == pos);
    };
}

/// On a board with exactly one empty cell, the search reports that cell.
pub proof fn lemma_single_empty_cell_best_move(b: Seq<Cell>, row: usize, col: usize)
    requires
        b.len() == 9,
        in_bounds(row as int, col as int),
        b[3 * row + col] == Cell::Empty,
        count_empty(b) == 1,
    ensures
        spec_best_move(b) == Some((row, col)),
{
    lemma_empty_cells_len(b, 0);
    lemma_empty_cells_complete(b, 0, row as int, col as int);
    let moves = spec_empty_cells(b);
    assert(moves.len() == 1);
    assert(moves.contains(((row, col))));
    assert(moves[0] == ((row, col))) by {
        let i = choose|i: int| 0 <= i < moves.len() && #[trigger] moves[i] == ((row, col));
        assert(i == 0);
    };
    lemma_empty_cells_sound(b, 0);
    assert(valid_move(b, moves[0]));
    let pos = 3 * row + col;
    let after = b.update(pos as int, Cell::O);
    lemma_minimax_bounds(after, false);
    let s0 = spec_minimax(after, false);
    assert(s0 > i32::MIN as int);
    assert(moves.drop_first().len() == 0);
    assert(best_move_over(b, moves.drop_first(), s0, Some(moves[0])) == Some(((row, col))));
    assert(best_move_over(b, moves, i32::MIN as int, None) == Some(((row, col))));
}

} // verus!
