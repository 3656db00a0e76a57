use sudoku::Board;
use sudoku::Error;
use sudoku::Sudoku;

const EXAMPLE_VALUES: [u8; 81] = [
    0, 0, 0, 2, 6, 0, 7, 0, 1, //
    6, 8, 0, 0, 7, 0, 0, 9, 0, //
    1, 9, 0, 0, 0, 4, 5, 0, 0, //
    8, 2, 0, 1, 0, 0, 0, 4, 0, //
    0, 0, 4, 6, 0, 2, 9, 0, 0, //
    0, 5, 0, 0, 0, 3, 0, 2, 8, //
    0, 0, 9, 3, 0, 0, 0, 7, 4, //
    0, 4, 0, 0, 5, 0, 0, 3, 6, //
    7, 0, 3, 0, 1, 8, 0, 0, 0, //
];

// A complete, valid grid: every row, column, and block holds 1..=9.
const SOLVED_VALUES: [u8; 81] = [
    1, 2, 3, 4, 5, 6, 7, 8, 9, //
    4, 5, 6, 7, 8, 9, 1, 2, 3, //
    7, 8, 9, 1, 2, 3, 4, 5, 6, //
    2, 3, 4, 5, 6, 7, 8, 9, 1, //
    5, 6, 7, 8, 9, 1, 2, 3, 4, //
    8, 9, 1, 2, 3, 4, 5, 6, 7, //
    3, 4, 5, 6, 7, 8, 9, 1, 2, //
    6, 7, 8, 9, 1, 2, 3, 4, 5, //
    9, 1, 2, 3, 4, 5, 6, 7, 8, //
];

fn game_of(values: &[u8; 81]) -> Sudoku {
    let mut game = Sudoku::default();
    game.init_board_values(values);
    game
}

#[test]
fn default_game_has_an_empty_board() {
    let game = Sudoku::default();
    for i in 0..81 {
        assert_eq!(game.board().index(i).value(), 0);
    }
    assert!(!game.finished());
    assert!(game.verify_board().is_ok());
}

#[test]
fn init_board_copies_the_given_board() {
    let b = Board::from_flattened_values(&EXAMPLE_VALUES);
    let mut game = Sudoku::default();
    game.init_board(&b);
    for i in 0..81 {
        assert_eq!(game.board().index(i).value(), EXAMPLE_VALUES[i]);
    }
}

#[test]
fn verify_accepts_the_example_puzzle() {
    let game = game_of(&EXAMPLE_VALUES);
    assert!(game.verify_board().is_ok());
    assert!(!game.finished());
}

#[test]
fn verify_reports_a_column_violation_by_its_column() {
    // Duplicate in column 3 only: rows and blocks stay valid.
    let mut values = [0u8; 81];
    values[3] = 5; // row 0, column 3, block 1
    values[3 * 9 + 3] = 5; // row 3, column 3, block 4
    let game = game_of(&values);
    match game.verify_board() {
        Err(Error::ConstraintError { region, slice }) => {
            assert_eq!(region, "column 4");
            let digits: Vec<u8> = (0..9).map(|k| slice.get(k).value()).collect();
            assert_eq!(digits, vec![5, 0, 0, 5, 0, 0, 0, 0, 0]);
        }
        other => panic!("expected a constraint violation, got {:?}", other),
    }
}

#[test]
fn verify_reports_a_row_violation_before_a_block_violation() {
    let mut values = [0u8; 81];
    // Row 2 holds two 5s in different columns and different blocks.
    values[2 * 9 + 1] = 5;
    values[2 * 9 + 4] = 5;
    // Block 0 holds two 7s in different rows and columns.
    values[0] = 7;
    values[9 + 1] = 7;
    let game = game_of(&values);
    match game.verify_board() {
        Err(Error::ConstraintError { region, .. }) => assert_eq!(region, "row 3"),
        other => panic!("expected a constraint violation, got {:?}", other),
    }
}

#[test]
fn verify_reports_a_block_violation_when_rows_and_columns_pass() {
    let mut values = [0u8; 81];
    values[0] = 7; // row 0, column 0
    values[9 + 1] = 7; // row 1, column 1, same top-left block
    let game = game_of(&values);
    match game.verify_board() {
        Err(Error::ConstraintError { region, .. }) => assert_eq!(region, "block top-left"),
        other => panic!("expected a constraint violation, got {:?}", other),
    }

    let mut values = [0u8; 81];
    values[6 * 9 + 6] = 3; // row 6, column 6
    values[7 * 9 + 7] = 3; // row 7, column 7, same bottom-right block
    let game = game_of(&values);
    match game.verify_board() {
        Err(Error::ConstraintError { region, .. }) => assert_eq!(region, "block bottom-right"),
        other => panic!("expected a constraint violation, got {:?}", other),
    }
}

#[test]
fn finished_means_no_unassigned_cell() {
    assert!(!game_of(&EXAMPLE_VALUES).finished());
    assert!(game_of(&SOLVED_VALUES).finished());

    // Finished does not mean valid: a full board of 1s is finished.
    let all_ones = game_of(&[1u8; 81]);
    assert!(all_ones.finished());
    assert!(all_ones.verify_board().is_err());
}

#[test]
fn solved_board_passes_and_offers_no_moves() {
    let game = game_of(&SOLVED_VALUES);
    assert!(game.verify_board().is_ok());
    assert!(game.finished());
    assert!(game.next_possible_moves().is_empty());
}

#[test]
fn moves_for_the_example_puzzle_start_at_cell_0_with_3_4_5() {
    // Cell 0 of the example puzzle: row 0 holds {2,6,7,1}, column 0
    // holds {6,1,8,7}, the top-left block holds {6,8,1,9}; only 3, 4,
    // and 5 remain.
    let game = game_of(&EXAMPLE_VALUES);
    let moves = game.next_possible_moves();

    let cell0_values: Vec<u8> = moves
        .iter()
        .filter(|(cell_id, _)| *cell_id == 0)
        .map(|(_, board)| board.index(0).value())
        .collect();
    assert_eq!(cell0_values, vec![3, 4, 5]);

    // The fixed iteration order puts those three first, then cell 1,
    // whose only admissible digit is 3.
    assert_eq!(moves[0].0, 0);
    assert_eq!(moves[0].1.index(0).value(), 3);
    assert_eq!(moves[1].0, 0);
    assert_eq!(moves[1].1.index(0).value(), 4);
    assert_eq!(moves[2].0, 0);
    assert_eq!(moves[2].1.index(0).value(), 5);
    assert_eq!(moves[3].0, 1);
    assert_eq!(moves[3].1.index(1).value(), 3);
}

#[test]
fn moves_change_only_the_named_cell() {
    let game = game_of(&EXAMPLE_VALUES);
    for (cell_id, board) in game.next_possible_moves() {
        assert_eq!(game.board().index(cell_id).value(), 0);
        let placed = board.index(cell_id).value();
        assert!((1..=9).contains(&placed));
        for i in 0..81 {
            if i != cell_id {
                assert_eq!(board.index(i).value(), game.board().index(i).value());
            }
        }
    }
}

#[test]
fn move_filter_checks_the_cells_own_block() {
    // Cell 8 (row 0, column 8) lies in the top-right block: a digit
    // placed only there — in no shared row or column — excludes the
    // candidate at cell 8.
    let mut values = [0u8; 81];
    values[9 + 7] = 5; // row 1, column 7: inside the top-right block
    let game = game_of(&values);
    let moves = game.next_possible_moves();
    let cell8_values: Vec<u8> = moves
        .iter()
        .filter(|(cell_id, _)| *cell_id == 8)
        .map(|(_, board)| board.index(8).value())
        .collect();
    assert!(!cell8_values.contains(&5));

    // Placed in the top-left block instead, the digit shares no region
    // with cell 8 and stays admissible there.
    let mut values = [0u8; 81];
    values[9 + 1] = 5; // row 1, column 1: inside the top-left block
    let game = game_of(&values);
    let moves = game.next_possible_moves();
    let cell8_values: Vec<u8> = moves
        .iter()
        .filter(|(cell_id, _)| *cell_id == 8)
        .map(|(_, board)| board.index(8).value())
        .collect();
    assert!(cell8_values.contains(&5));
}

#[test]
fn moves_of_a_valid_board_stay_valid() {
    // Candidate filtering checks the cell's column, row, and its own
    // block, so every offered board of a valid board passes
    // verification.
    let mut values = [0u8; 81];
    values[9 + 7] = 5; // valid: one digit placed
    let game = game_of(&values);
    assert!(game.verify_board().is_ok());
    for (_, board) in game.next_possible_moves() {
        let mut next = Sudoku::default();
        next.init_board(&board);
        assert!(next.verify_board().is_ok());
    }
}

#[test]
fn error_variants_carry_their_data() {
    let e = Error::IdError { admissible: 0..9, actual: 12 };
    match e {
        Error::IdError { admissible, actual } => {
            assert_eq!(admissible, 0..9);
            assert_eq!(actual, 12);
        }
        other => panic!("wrong variant: {:?}", other),
    }
    let e = Error::ValueError { value: 77, expected: "a digit from 0 to 9".to_string() };
    match e {
        Error::ValueError { value, expected } => {
            assert_eq!(value, 77);
            assert_eq!(expected, "a digit from 0 to 9");
        }
        other => panic!("wrong variant: {:?}", other),
    }
}
