use sudoku::Cell;
use sudoku::Slice;

fn slice_of(digits: [u8; 9]) -> Slice {
    let mut s = Slice::default();
    for (i, d) in digits.iter().enumerate() {
        s.set(i, Cell::new(*d));
    }
    s
}

#[test]
fn default_slice_is_all_unassigned() {
    let s = Slice::default();
    for i in 0..9 {
        assert_eq!(s.get(i).value(), 0);
    }
    assert!(s.has(0));
    assert!(!s.has(1));
}

#[test]
fn has_finds_only_present_digits() {
    let s = slice_of([0, 0, 3, 0, 0, 7, 0, 0, 9]);
    assert!(s.has(3));
    assert!(s.has(7));
    assert!(s.has(9));
    assert!(s.has(0));
    assert!(!s.has(1));
    assert!(!s.has(8));
}

#[test]
fn single_digit_is_unique_and_second_copy_is_not() {
    // One placed digit among zeros passes; a second copy of it fails;
    // the zeros themselves never matter.
    for d in 1..=9u8 {
        let mut digits = [0u8; 9];
        digits[4] = d;
        let s = slice_of(digits);
        assert!(s.has_unique_sudoku_values());

        for j in 0..9 {
            if j != 4 {
                let mut t = s;
                t.set(j, Cell::new(d));
                assert!(!t.has_unique_sudoku_values());
            }
        }
    }
}

#[test]
fn repeated_zeros_are_always_unique() {
    let s = Slice::default();
    assert!(s.has_unique_sudoku_values());
    let t = slice_of([0, 0, 0, 5, 0, 0, 0, 0, 0]);
    assert!(t.has_unique_sudoku_values());
}

#[test]
fn malformed_digits_are_ignored_by_uniqueness() {
    // Digits outside 1..=9 may repeat without breaking uniqueness.
    let s = slice_of([10, 10, 0, 0, 250, 250, 0, 0, 0]);
    assert!(s.has_unique_sudoku_values());
}

#[test]
fn full_valid_slice_is_unique() {
    let s = slice_of([1, 2, 3, 4, 5, 6, 7, 8, 9]);
    assert!(s.has_unique_sudoku_values());
}

#[test]
fn unused_values_complement_present_values() {
    let s = slice_of([1, 0, 0, 5, 0, 0, 9, 0, 0]);
    assert_eq!(s.unused_sudoku_values(), vec![2, 3, 4, 6, 7, 8]);

    // Union of present and unused digits is exactly 1..=9, disjointly.
    let mut seen = vec![false; 10];
    for v in 1..=9u8 {
        if s.has(v) {
            seen[v as usize] = true;
        }
    }
    for v in s.unused_sudoku_values() {
        assert!(!seen[v as usize]);
        seen[v as usize] = true;
    }
    for v in 1..=9 {
        assert!(seen[v]);
    }
}

#[test]
fn unused_values_of_empty_slice_is_everything() {
    let s = Slice::default();
    assert_eq!(s.unused_sudoku_values(), vec![1, 2, 3, 4, 5, 6, 7, 8, 9]);
}

#[test]
fn unused_values_of_full_slice_is_empty() {
    let s = slice_of([9, 8, 7, 6, 5, 4, 3, 2, 1]);
    assert_eq!(s.unused_sudoku_values(), Vec::<u8>::new());
}

#[test]
fn set_overwrites_one_position() {
    let mut s = Slice::default();
    s.set(3, Cell::new(7));
    assert_eq!(s.get(3).value(), 7);
    for i in 0..9 {
        if i != 3 {
            assert_eq!(s.get(i).value(), 0);
        }
    }
}

#[test]
fn cell_reports_sudoku_values() {
    assert!(!Cell::new(0).is_sudoku_value());
    assert!(Cell::new(1).is_sudoku_value());
    assert!(Cell::new(9).is_sudoku_value());
    assert!(!Cell::new(10).is_sudoku_value());
    assert_eq!(Cell::new(5).value(), 5);
}
