use tic_tac_toe::game::Cell;
use tic_tac_toe::game::TicTacToe;

fn snapshot(game: &TicTacToe) -> Vec<Cell> {
    let mut cells = Vec::new();
    for row in 0..3 {
        for col in 0..3 {
            cells.push(game.cell(row, col));
        }
    }
    cells
}

#[test]
fn evaluate_scores_each_outcome() {
    let mut game = TicTacToe::new();
    assert_eq!(game.evaluate(), 0);
    assert!(game.place(1, 0, Cell::O));
    assert!(game.place(1, 1, Cell::O));
    assert!(game.place(1, 2, Cell::O));
    assert_eq!(game.evaluate(), 10);

    let mut game = TicTacToe::new();
    assert!(game.place(0, 2, Cell::X));
    assert!(game.place(1, 1, Cell::X));
    assert!(game.place(2, 0, Cell::X));
    assert_eq!(game.evaluate(), -10);
}

#[test]
fn optimal_play_from_the_empty_board_is_a_draw() {
    // The game value of the empty board is 0 for either side to move: the
    // engine never loses from the start, and optimal-vs-optimal play draws.
    let mut game = TicTacToe::new();
    assert_eq!(game.minimax(true), 0);
    assert_eq!(game.minimax(false), 0);
    assert_eq!(snapshot(&game), vec![Cell::Empty; 9]);
}

#[test]
fn best_move_on_the_empty_board_keeps_a_draw_in_hand() {
    let mut game = TicTacToe::new();
    let best = game.find_best_move().expect("the empty board has moves");
    assert_eq!(best, (0, 0));
    assert!(game.place(best.0, best.1, Cell::O));
    // After the chosen move the opponent, playing optimally, still cannot
    // do better than a draw: the achieved score is not below 0.
    assert!(game.minimax(false) >= 0);
}

#[test]
fn best_move_blocks_the_losing_row_when_a_draw_is_reachable() {
    // X X . / . O . / . . . with O to move: only (0, 2) stops X's top row,
    // and from there O holds the draw, so blocking is strictly best.
    let mut game = TicTacToe::new();
    assert!(game.place(0, 0, Cell::X));
    assert!(game.place(0, 1, Cell::X));
    assert!(game.place(1, 1, Cell::O));
    assert_eq!(game.find_best_move(), Some((0, 2)));
}

#[test]
fn doomed_defence_falls_back_to_the_first_cell() {
    // X . . / . X . / . . . with O to move. Whatever O answers, an optimal X
    // wins: taking (2, 2) stops the diagonal but X forks from (2, 0). With no
    // depth discount every reply scores -10 alike, and the strict row-major
    // tie-break keeps the first empty cell.
    let mut game = TicTacToe::new();
    assert!(game.place(0, 0, Cell::X));
    assert!(game.place(1, 1, Cell::X));
    assert_eq!(game.find_best_move(), Some((0, 1)));
}

#[test]
fn winning_move_is_taken() {
    // O O . / X X . / . . . with O to move: (0, 2) wins at once.
    let mut game = TicTacToe::new();
    assert!(game.place(0, 0, Cell::O));
    assert!(game.place(0, 1, Cell::O));
    assert!(game.place(1, 0, Cell::X));
    assert!(game.place(1, 1, Cell::X));
    assert_eq!(game.find_best_move(), Some((0, 2)));
}

#[test]
fn single_empty_cell_is_returned() {
    // X O X / X O O / O X _ : only (2, 2) is free.
    let mut game = TicTacToe::new();
    let layout = [
        (0, 0, Cell::X),
        (0, 1, Cell::O),
        (0, 2, Cell::X),
        (1, 0, Cell::X),
        (1, 1, Cell::O),
        (1, 2, Cell::O),
        (2, 0, Cell::O),
        (2, 1, Cell::X),
    ];
    for &(row, col, player) in layout.iter() {
        assert!(game.place(row, col, player));
    }
    assert_eq!(game.find_best_move(), Some((2, 2)));
}

#[test]
fn full_board_has_no_move() {
    let mut game = TicTacToe::new();
    let layout = [
        (0, 0, Cell::X),
        (0, 1, Cell::O),
        (0, 2, Cell::X),
        (1, 0, Cell::X),
        (1, 1, Cell::O),
        (1, 2, Cell::O),
        (2, 0, Cell::O),
        (2, 1, Cell::X),
        (2, 2, Cell::X),
    ];
    for &(row, col, player) in layout.iter() {
        assert!(game.place(row, col, player));
    }
    assert_eq!(game.find_best_move(), None);
}

#[test]
fn repeated_searches_return_the_same_move_and_leave_the_board_alone() {
    let mut game = TicTacToe::new();
    assert!(game.place(0, 0, Cell::X));
    assert!(game.place(1, 1, Cell::O));
    assert!(game.place(2, 2, Cell::X));
    let before = snapshot(&game);
    let first = game.find_best_move();
    assert_eq!(snapshot(&game), before);
    let second = game.find_best_move();
    let third = game.find_best_move();
    assert_eq!(first, second);
    assert_eq!(second, third);
    assert_eq!(snapshot(&game), before);
}

#[test]
fn search_leaves_a_mid_game_board_unchanged() {
    let mut game = TicTacToe::new();
    assert!(game.place(0, 1, Cell::X));
    assert!(game.place(2, 0, Cell::O));
    let before = snapshot(&game);
    let _ = game.minimax(true);
    assert_eq!(snapshot(&game), before);
    let _ = game.minimax(false);
    assert_eq!(snapshot(&game), before);
}
