use sudoku::Board;

fn counting_board() -> Board {
    // Each cell holds its own flat index, so region snapshots expose
    // exactly which cells they were copied from.
    let mut values = [0u8; 81];
    for i in 0..81 {
        values[i] = i as u8;
    }
    Board::from_flattened_values(&values)
}

#[test]
fn from_flattened_values_copies_verbatim() {
    let b = counting_board();
    for i in 0..81 {
        assert_eq!(b.index(i).value(), i as u8);
    }
}

#[test]
fn from_values_per_row_round_trips_by_row_and_col() {
    let mut rows = [[0u8; 9]; 9];
    for r in 0..9 {
        for c in 0..9 {
            rows[r][c] = ((r * 9 + c) % 10) as u8;
        }
    }
    let b = Board::from_values_per_row(&rows);
    for r in 0..9 {
        for c in 0..9 {
            assert_eq!(b.index_by_row_and_col(r, c).value(), rows[r][c]);
        }
    }
}

#[test]
fn both_constructors_agree_on_equivalent_input() {
    let mut flat = [0u8; 81];
    let mut rows = [[0u8; 9]; 9];
    for r in 0..9 {
        for c in 0..9 {
            let d = ((r + 2 * c) % 10) as u8;
            flat[r * 9 + c] = d;
            rows[r][c] = d;
        }
    }
    let a = Board::from_flattened_values(&flat);
    let b = Board::from_values_per_row(&rows);
    for i in 0..81 {
        assert_eq!(a.index(i).value(), b.index(i).value());
    }
}

#[test]
fn flat_index_matches_row_and_col_index() {
    let b = counting_board();
    for r in 0..9 {
        for c in 0..9 {
            assert_eq!(b.index_by_row_and_col(r, c).value(), b.index(r * 9 + c).value());
        }
    }
}

#[test]
fn unassigned_lists_zero_cells_ascending() {
    let mut values = [1u8; 81];
    values[0] = 0;
    values[40] = 0;
    values[80] = 0;
    let b = Board::from_flattened_values(&values);
    assert_eq!(b.unassigned(), vec![0, 40, 80]);

    let empty = Board::default();
    let all: Vec<usize> = (0..81).collect();
    assert_eq!(empty.unassigned(), all);

    let full = Board::from_flattened_values(&[1u8; 81]);
    assert_eq!(full.unassigned(), Vec::<usize>::new());
}

#[test]
fn row_and_column_snapshots_match_layout() {
    let b = counting_board();
    for r in 0..9 {
        let row = b.row(r);
        for k in 0..9 {
            assert_eq!(row.get(k).value(), (r * 9 + k) as u8);
        }
    }
    for c in 0..9 {
        let col = b.column(c);
        for k in 0..9 {
            assert_eq!(col.get(k).value(), (k * 9 + c) as u8);
        }
    }
}

#[test]
fn block_zero_and_eight_match_hand_computed_layout() {
    let b = counting_board();
    let block0 = b.block(0);
    let expected0 = [0u8, 1, 2, 9, 10, 11, 18, 19, 20];
    for k in 0..9 {
        assert_eq!(block0.get(k).value(), expected0[k]);
    }
    let block8 = b.block(8);
    let expected8 = [60u8, 61, 62, 69, 70, 71, 78, 79, 80];
    for k in 0..9 {
        assert_eq!(block8.get(k).value(), expected8[k]);
    }
}

#[test]
fn blocks_partition_all_81_cells() {
    let b = counting_board();
    let mut covered = [0u32; 81];
    for id in 0..9 {
        let block = b.block(id);
        for k in 0..9 {
            covered[block.get(k).value() as usize] += 1;
        }
    }
    for i in 0..81 {
        assert_eq!(covered[i], 1);
    }
}

#[test]
fn replace_cell_leaves_the_original_untouched() {
    let b = Board::default();
    let b2 = b.replace_cell(17, 6);
    assert_eq!(b.index(17).value(), 0);
    assert_eq!(b2.index(17).value(), 6);
    for i in 0..81 {
        if i != 17 {
            assert_eq!(b2.index(i).value(), b.index(i).value());
        }
    }
}

#[test]
fn default_board_is_all_unassigned() {
    let b = Board::default();
    for i in 0..81 {
        assert_eq!(b.index(i).value(), 0);
    }
}
