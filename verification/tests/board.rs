use tic_tac_toe::game::Cell;
use tic_tac_toe::game::TicTacToe;
use tic_tac_toe::game::render_symbol;

fn snapshot(game: &TicTacToe) -> Vec<Cell> {
    let mut cells = Vec::new();
    for row in 0..3 {
        for col in 0..3 {
            cells.push(game.cell(row, col));
        }
    }
    cells
}

#[test]
fn new_board_is_empty() {
    let game = TicTacToe::new();
    for row in 0..3 {
        for col in 0..3 {
            assert_eq!(game.cell(row, col), Cell::Empty);
        }
    }
    assert!(!game.is_full());
    assert_eq!(game.check_winner(), None);
    assert_eq!(game.get_empty_cells().len(), 9);
}

#[test]
fn place_succeeds_on_empty_cell_in_range() {
    let mut game = TicTacToe::new();
    assert!(game.place(1, 2, Cell::X));
    assert_eq!(game.cell(1, 2), Cell::X);
    assert_eq!(game.get_empty_cells().len(), 8);
}

#[test]
fn place_fails_on_occupied_cell_and_leaves_board_unchanged() {
    let mut game = TicTacToe::new();
    assert!(game.place(0, 0, Cell::X));
    let before = snapshot(&game);
    assert!(!game.place(0, 0, Cell::O));
    assert_eq!(snapshot(&game), before);
    assert_eq!(game.cell(0, 0), Cell::X);
}

#[test]
fn place_fails_out_of_range_and_leaves_board_unchanged() {
    let mut game = TicTacToe::new();
    assert!(game.place(2, 2, Cell::O));
    let before = snapshot(&game);
    assert!(!game.place(3, 0, Cell::X));
    assert!(!game.place(0, 3, Cell::X));
    assert!(!game.place(9, 9, Cell::X));
    assert_eq!(snapshot(&game), before);
}

#[test]
fn place_then_unplace_restores_the_board() {
    let mut game = TicTacToe::new();
    assert!(game.place(0, 0, Cell::X));
    assert!(game.place(1, 1, Cell::O));
    assert!(game.place(2, 0, Cell::X));
    let before = snapshot(&game);
    for row in 0..3 {
        for col in 0..3 {
            if game.cell(row, col) == Cell::Empty {
                assert!(game.place(row, col, Cell::O));
                game.unplace(row, col);
                assert_eq!(snapshot(&game), before);
            }
        }
    }
}

#[test]
fn unplace_out_of_range_is_a_no_op() {
    let mut game = TicTacToe::new();
    assert!(game.place(0, 0, Cell::X));
    let before = snapshot(&game);
    game.unplace(3, 0);
    game.unplace(0, 3);
    assert_eq!(snapshot(&game), before);
}

#[test]
fn unplace_clears_a_cell() {
    let mut game = TicTacToe::new();
    assert!(game.place(2, 2, Cell::O));
    game.unplace(2, 2);
    assert_eq!(game.cell(2, 2), Cell::Empty);
    assert_eq!(game.get_empty_cells().len(), 9);
}

#[test]
fn empty_cells_plus_occupied_is_always_nine() {
    let mut game = TicTacToe::new();
    let moves = [
        (0, 0, Cell::X),
        (1, 1, Cell::O),
        (0, 1, Cell::X),
        (2, 2, Cell::O),
        (2, 0, Cell::X),
        (1, 0, Cell::O),
        (0, 2, Cell::X),
        (1, 2, Cell::O),
        (2, 1, Cell::X),
    ];
    let mut occupied = 0;
    assert_eq!(game.get_empty_cells().len() + occupied, 9);
    for &(row, col, player) in moves.iter() {
        assert!(game.place(row, col, player));
        occupied += 1;
        assert_eq!(game.get_empty_cells().len() + occupied, 9);
    }
    assert!(game.is_full());
}

#[test]
fn empty_cells_come_in_row_major_order() {
    let mut game = TicTacToe::new();
    assert_eq!(
        game.get_empty_cells(),
        vec![
            (0, 0),
            (0, 1),
            (0, 2),
            (1, 0),
            (1, 1),
            (1, 2),
            (2, 0),
            (2, 1),
            (2, 2)
        ]
    );
    assert!(game.place(0, 1, Cell::X));
    assert!(game.place(1, 2, Cell::O));
    assert_eq!(
        game.get_empty_cells(),
        vec![(0, 0), (0, 2), (1, 0), (1, 1), (2, 0), (2, 1), (2, 2)]
    );
}

#[test]
fn winner_on_top_row_of_x() {
    let mut game = TicTacToe::new();
    assert!(game.place(0, 0, Cell::X));
    assert!(game.place(0, 1, Cell::X));
    assert!(game.place(0, 2, Cell::X));
    assert_eq!(game.check_winner(), Some(Cell::X));
}

#[test]
fn winner_on_main_diagonal_of_o() {
    let mut game = TicTacToe::new();
    assert!(game.place(0, 0, Cell::O));
    assert!(game.place(1, 1, Cell::O));
    assert!(game.place(2, 2, Cell::O));
    assert_eq!(game.check_winner(), Some(Cell::O));
}

#[test]
fn winner_on_column_and_anti_diagonal() {
    let mut game = TicTacToe::new();
    assert!(game.place(0, 1, Cell::X));
    assert!(game.place(1, 1, Cell::X));
    assert!(game.place(2, 1, Cell::X));
    assert_eq!(game.check_winner(), Some(Cell::X));

    let mut game = TicTacToe::new();
    assert!(game.place(0, 2, Cell::O));
    assert!(game.place(1, 1, Cell::O));
    assert!(game.place(2, 0, Cell::O));
    assert_eq!(game.check_winner(), Some(Cell::O));
}

#[test]
fn no_winner_on_empty_board_or_drawn_full_board() {
    let game = TicTacToe::new();
    assert_eq!(game.check_winner(), None);

    // X O X / X O O / O X X: full, no three in a row.
    let mut game = TicTacToe::new();
    let layout = [
        (0, 0, Cell::X),
        (0, 1, Cell::O),
        (0, 2, Cell::X),
        (1, 0, Cell::X),
        (1, 1, Cell::O),
        (1, 2, Cell::O),
        (2, 0, Cell::O),
        (2, 1, Cell::X),
        (2, 2, Cell::X),
    ];
    for &(row, col, player) in layout.iter() {
        assert!(game.place(row, col, player));
    }
    assert!(game.is_full());
    assert_eq!(game.check_winner(), None);
}

#[test]
fn is_full_only_when_every_cell_is_occupied() {
    let mut game = TicTacToe::new();
    assert!(!game.is_full());
    for row in 0..3 {
        for col in 0..3 {
            assert!(!game.is_full());
            assert!(game.place(row, col, if (row + col) % 2 == 0 { Cell::X } else { Cell::O }));
        }
    }
    assert!(game.is_full());
}

#[test]
fn render_symbol_maps_each_cell_to_its_token() {
    assert_eq!(render_symbol(Cell::Empty), ".");
    assert_eq!(render_symbol(Cell::X), "X");
    assert_eq!(render_symbol(Cell::O), "O");
}
