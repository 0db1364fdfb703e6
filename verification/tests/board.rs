use sudoku::board::SudokuBoard;
use sudoku::moves::shares_unit;
use sudoku::results::{AddResult, ChangeResult, ConfigError, RemoveResult};
use sudoku::value::Value;

const DIGITS: [Value; 9] = [
    Value::One,
    Value::Two,
    Value::Three,
    Value::Four,
    Value::Five,
    Value::Six,
    Value::Seven,
    Value::Eight,
    Value::Nine,
];

fn blank() -> SudokuBoard {
    SudokuBoard::new(Vec::new()).unwrap()
}

/// The digits that no peer of `(r, c)` holds, counted from 0, in ascending
/// order.
fn free_digits(board: &SudokuBoard, r: usize, c: usize) -> Vec<Value> {
    let mut free = Vec::new();
    for v in DIGITS {
        let mut held = false;
        for r2 in 0..9 {
            for c2 in 0..9 {
                let peer = (r2, c2) != (r, c)
                    && (r2 == r || c2 == c || (r2 / 3 == r / 3 && c2 / 3 == c / 3));
                if peer && board.board[r2][c2].value == v {
                    held = true;
                }
            }
        }
        if !held {
            free.push(v);
        }
    }
    free
}

fn candidates_are_consistent(board: &SudokuBoard) -> bool {
    for r in 0..9 {
        for c in 0..9 {
            let cell = board.board[r][c];
            if cell.value == Value::Empty {
                if cell.possible_values() != free_digits(board, r, c) {
                    return false;
                }
            } else if !cell.possible_values().is_empty() {
                return false;
            }
        }
    }
    true
}

fn no_digit_twice(board: &SudokuBoard) -> bool {
    for r in 0..9 {
        for c in 0..9 {
            let v = board.board[r][c].value;
            if v == Value::Empty {
                continue;
            }
            for r2 in 0..9 {
                for c2 in 0..9 {
                    let peer = (r2, c2) != (r, c)
                        && (r2 == r || c2 == c || (r2 / 3 == r / 3 && c2 / 3 == c / 3));
                    if peer && board.board[r2][c2].value == v {
                        return false;
                    }
                }
            }
        }
    }
    true
}

fn snapshot(board: &SudokuBoard) -> Vec<(Value, [Value; 9], bool)> {
    let mut cells = Vec::new();
    for r in 0..9 {
        for c in 0..9 {
            let cell = board.board[r][c];
            cells.push((cell.value, cell.possible_values, cell.mutable));
        }
    }
    cells
}

#[test]
fn blank_board_has_every_candidate_everywhere() {
    let board = SudokuBoard::blank();
    assert!(board.indicator);
    assert!(!board.is_solved());
    for r in 0..9 {
        for c in 0..9 {
            assert_eq!(board.board[r][c].value, Value::Empty);
            assert!(board.board[r][c].mutable);
            assert_eq!(board.board[r][c].possible_values(), DIGITS.to_vec());
        }
    }
    assert_eq!(board.possible_values.len(), 81);
    assert_eq!(snapshot(&board), snapshot(&blank()));
}

#[test]
fn units_are_rows_columns_and_boxes() {
    assert!(shares_unit(0, 0, 0, 8));
    assert!(shares_unit(0, 0, 8, 0));
    assert!(shares_unit(0, 0, 2, 2));
    assert!(shares_unit(4, 4, 4, 4));
    assert!(shares_unit(3, 5, 5, 3));
    assert!(!shares_unit(0, 0, 3, 3));
    assert!(!shares_unit(2, 2, 3, 3));
    assert!(!shares_unit(0, 0, 1, 3));
    let mut peers = 0;
    for r in 0..9 {
        for c in 0..9 {
            if (r, c) != (4, 7) && shares_unit(4, 7, r, c) {
                peers += 1;
            }
        }
    }
    assert_eq!(peers, 20);
}

#[test]
fn new_rejects_more_than_nine_lines() {
    let lines = vec!["", "", "", "", "", "", "", "", "", ""];
    assert_eq!(SudokuBoard::new(lines).err(), Some(ConfigError::TooManyLines));
    let long = "1|2|3|4|5|6|7|8|9|1";
    let lines = vec![long, "", "", "", "", "", "", "", "", ""];
    assert_eq!(SudokuBoard::new(lines).err(), Some(ConfigError::TooManyLines));
    assert!(SudokuBoard::new(vec!["", "", "", "", "", "", "", "", ""]).is_ok());
}

#[test]
fn new_rejects_more_than_nine_columns() {
    let lines = vec!["1|2", "|||||||||", "1|2|3|4|5|6|7|8|9|1"];
    assert_eq!(
        SudokuBoard::new(lines).err(),
        Some(ConfigError::TooManyColumns(1))
    );
    assert_eq!(
        SudokuBoard::new(vec!["1|2|3|4|5|6|7|8|9|"]).err(),
        Some(ConfigError::TooManyColumns(0))
    );
    assert!(SudokuBoard::new(vec!["1|2|3|4|5|6|7|8|9"]).is_ok());
    assert!(SudokuBoard::new(vec!["||||||||"]).is_ok());
}

#[test]
fn new_places_clues_and_makes_them_immutable() {
    let board = SudokuBoard::new(vec!["5| |x|", "", " 3 |  | 7"]).unwrap();
    assert_eq!(board.board[0][0].value, Value::Five);
    assert!(!board.board[0][0].mutable);
    assert_eq!(board.board[2][0].value, Value::Three);
    assert!(!board.board[2][0].mutable);
    assert_eq!(board.board[2][2].value, Value::Seven);
    assert!(!board.board[2][2].mutable);
    let mut filled = 0;
    for r in 0..9 {
        for c in 0..9 {
            let cell = board.board[r][c];
            assert_eq!(cell.mutable, cell.value == Value::Empty);
            if cell.value != Value::Empty {
                filled += 1;
            }
        }
    }
    assert_eq!(filled, 3);
    assert!(candidates_are_consistent(&board));
    assert!(no_digit_twice(&board));
    assert_eq!(board.possible_values.len(), 78);
    assert!(board.indicator);
}

#[test]
fn new_leaves_a_clashing_clue_out() {
    let board = SudokuBoard::new(vec!["5|5"]).unwrap();
    assert_eq!(board.board[0][0].value, Value::Five);
    assert_eq!(board.board[0][1].value, Value::Empty);
    assert!(board.board[0][1].mutable);
    let board = SudokuBoard::new(vec!["5", "|5"]).unwrap();
    assert_eq!(board.board[1][1].value, Value::Empty);
    let board = SudokuBoard::new(vec!["5", "", "", "5"]).unwrap();
    assert_eq!(board.board[3][0].value, Value::Empty);
    assert!(no_digit_twice(&board));
}

#[test]
fn new_marks_the_last_clue_of_a_full_puzzle() {
    let lines = vec![
        "5|3|4|6|7|8|9|1|2",
        "6|7|2|1|9|5|3|4|8",
        "1|9|8|3|4|2|5|6|7",
        "8|5|9|7|6|1|4|2|3",
        "4|2|6|8|5|3|7|9|1",
        "7|1|3|9|2|4|8|5|6",
        "9|6|1|5|3|7|2|8|4",
        "2|8|7|4|1|9|6|3|5",
        "3|4|5|2|8|6|1|7|9",
    ];
    let board = SudokuBoard::new(lines).unwrap();
    assert!(board.is_solved());
    for r in 0..9 {
        for c in 0..9 {
            assert!(!board.board[r][c].mutable);
        }
    }
    assert!(board.possible_values.is_empty());
}

#[test]
fn add_reports_each_outcome() {
    let mut board = blank();
    assert_eq!(board.add(5, 5, Value::Empty), AddResult::NoneValue);
    assert_eq!(board.add(5, 5, Value::Four), AddResult::Added(Value::Four));
    assert_eq!(board.add(5, 5, Value::Four), AddResult::AlreadySet);
    assert_eq!(board.add(5, 5, Value::Six), AddResult::AlreadySet);
    assert_eq!(board.add(5, 5, Value::Empty), AddResult::NoneValue);
    assert_eq!(board.add(5, 9, Value::Four), AddResult::NotPossible);
    assert_eq!(board.add(1, 5, Value::Four), AddResult::NotPossible);
    assert_eq!(board.add(4, 6, Value::Four), AddResult::NotPossible);
    assert_eq!(board.add(1, 1, Value::Four), AddResult::Added(Value::Four));
    assert_eq!(board.add_str(9, 9, "4"), AddResult::Added(Value::Four));
    assert_eq!(board.add_str(9, 8, "x"), AddResult::NoneValue);
    assert_eq!(board.add_str(9, 8, "4"), AddResult::NotPossible);
}

#[test]
fn add_leaves_the_board_alone_when_it_fails() {
    let mut board = blank();
    board.add(5, 5, Value::Four);
    let before = snapshot(&board);
    let frontier = board.possible_values.len();
    assert_eq!(board.add(5, 9, Value::Four), AddResult::NotPossible);
    assert_eq!(board.add(5, 5, Value::One), AddResult::AlreadySet);
    assert_eq!(board.add(1, 1, Value::Empty), AddResult::NoneValue);
    assert_eq!(snapshot(&board), before);
    assert_eq!(board.possible_values.len(), frontier);
}

#[test]
fn add_rules_the_digit_out_for_the_peers_only() {
    let mut board = blank();
    assert_eq!(board.add(2, 3, Value::Seven), AddResult::Added(Value::Seven));
    for r in 0..9 {
        for c in 0..9 {
            let cell = board.board[r][c];
            let peer = (r, c) != (1, 2) && shares_unit(1, 2, r, c);
            if (r, c) == (1, 2) {
                assert_eq!(cell.value, Value::Seven);
                assert!(cell.possible_values().is_empty());
            } else if peer {
                assert_eq!(cell.possible_values[6], Value::Empty);
                assert_eq!(cell.possible_values().len(), 8);
            } else {
                assert_eq!(cell.possible_values().len(), 9);
            }
            assert!(cell.mutable);
        }
    }
    assert!(candidates_are_consistent(&board));
}

#[test]
fn add_refuses_to_take_the_last_candidate_of_a_peer() {
    // Cell (1, 9) is left with 9 as its only candidate.
    let mut board = SudokuBoard::new(vec!["1|2|3|4|5|6|7|8"]).unwrap();
    assert_eq!(board.board[0][8].possible_values(), vec![Value::Nine]);
    let before = snapshot(&board);
    // A 9 below it in the same column, in the same box or elsewhere in the
    // column would leave it without any.
    assert_eq!(board.add(2, 9, Value::Nine), AddResult::NotPossible);
    assert_eq!(board.add(3, 7, Value::Nine), AddResult::NotPossible);
    assert_eq!(board.add(9, 9, Value::Nine), AddResult::NotPossible);
    assert_eq!(snapshot(&board), before);
    // A 9 that is no peer of the cell is fine, and so is the 9 in the cell.
    assert_eq!(board.add(9, 1, Value::Nine), AddResult::Added(Value::Nine));
    assert_eq!(board.add(1, 9, Value::Nine), AddResult::Added(Value::Nine));
    assert!(candidates_are_consistent(&board));
}

#[test]
fn add_never_leaves_an_empty_cell_without_candidates() {
    let mut board = blank();
    let mut seed: u32 = 12345;
    for _ in 0..400 {
        seed = seed.wrapping_mul(1103515245).wrapping_add(12345);
        let row = (seed >> 16) as usize % 9 + 1;
        seed = seed.wrapping_mul(1103515245).wrapping_add(12345);
        let col = (seed >> 16) as usize % 9 + 1;
        seed = seed.wrapping_mul(1103515245).wrapping_add(12345);
        let v = DIGITS[(seed >> 16) as usize % 9];
        board.add(row, col, v);
        for r in 0..9 {
            for c in 0..9 {
                let cell = board.board[r][c];
                assert!(cell.value != Value::Empty || !cell.possible_values().is_empty());
            }
        }
        assert!(no_digit_twice(&board));
        assert!(candidates_are_consistent(&board));
    }
}

#[test]
fn add_reports_solved_on_the_last_cell() {
    let lines = vec![
        "5|3|4|6|7|8|9|1|2",
        "6|7|2|1|9|5|3|4|8",
        "1|9|8|3|4|2|5|6|7",
        "8|5|9|7|6|1|4|2|3",
        "4|2|6|8|5|3|7|9|1",
        "7|1|3|9|2|4|8|5|6",
        "9|6|1|5|3|7|2|8|4",
        "2|8|7|4|1|9|6|3|5",
        "3|4|5|2|8|6|1|7|",
    ];
    let mut board = SudokuBoard::new(lines).unwrap();
    assert!(!board.is_solved());
    assert_eq!(board.add(9, 9, Value::Eight), AddResult::NotPossible);
    assert_eq!(board.add(9, 9, Value::Nine), AddResult::Solved);
    assert!(board.is_solved());
    assert!(board.board[8][8].mutable);
    assert_eq!(board.remove(9, 9), RemoveResult::Removed(Value::Nine));
    assert!(!board.is_solved());
    assert_eq!(board.board[8][8].possible_values(), vec![Value::Nine]);
}

#[test]
fn remove_reports_each_outcome() {
    let mut board = SudokuBoard::new(vec!["5"]).unwrap();
    let before = snapshot(&board);
    assert_eq!(board.remove(1, 1), RemoveResult::Immutable);
    assert_eq!(board.remove(1, 2), RemoveResult::NoneValue);
    assert_eq!(snapshot(&board), before);
    assert_eq!(board.add(1, 2, Value::Six), AddResult::Added(Value::Six));
    assert_eq!(board.remove(1, 2), RemoveResult::Removed(Value::Six));
    assert_eq!(board.remove(1, 2), RemoveResult::NoneValue);
    assert_eq!(snapshot(&board), before);
}

#[test]
fn remove_opens_the_digit_only_where_it_is_free() {
    let mut board = blank();
    board.add(1, 1, Value::Five);
    board.add(5, 5, Value::Five);
    // (1, 5) and (5, 1) see both fives.
    assert_eq!(board.remove(1, 1), RemoveResult::Removed(Value::Five));
    assert_eq!(board.board[0][0].value, Value::Empty);
    assert_eq!(board.board[0][0].possible_values().len(), 9);
    assert_eq!(board.board[0][4].possible_values[4], Value::Empty);
    assert_eq!(board.board[4][0].possible_values[4], Value::Empty);
    assert_eq!(board.board[0][1].possible_values[4], Value::Five);
    assert_eq!(board.board[1][1].possible_values[4], Value::Five);
    assert_eq!(board.board[8][0].possible_values[4], Value::Five);
    assert!(candidates_are_consistent(&board));
}

#[test]
fn remove_after_add_restores_every_cell() {
    let mut board = SudokuBoard::new(vec!["1|2|3", "", "|||4|5|6", "9"]).unwrap();
    board.add(5, 5, Value::One);
    let before = snapshot(&board);
    for row in 1..=9 {
        for col in 1..=9 {
            for v in DIGITS {
                match board.add(row, col, v) {
                    AddResult::Added(w) => {
                        assert_eq!(w, v);
                        assert_eq!(board.remove(row, col), RemoveResult::Removed(v));
                        assert_eq!(snapshot(&board), before);
                    }
                    AddResult::NotPossible | AddResult::AlreadySet => {
                        assert_eq!(snapshot(&board), before);
                    }
                    other => panic!("{:?}", other),
                }
            }
        }
    }
}

#[test]
fn change_reports_each_outcome() {
    let mut board = SudokuBoard::new(vec!["5"]).unwrap();
    let before = snapshot(&board);
    assert_eq!(board.change(1, 1, Value::Six), ChangeResult::Immutable);
    assert_eq!(board.change(1, 1, Value::Empty), ChangeResult::Immutable);
    assert_eq!(board.change(2, 2, Value::Six), ChangeResult::NoneValue);
    assert_eq!(board.change(2, 2, Value::Empty), ChangeResult::NoneValue);
    assert_eq!(board.change_str(1, 1, "6"), ChangeResult::Immutable);
    assert_eq!(board.change_str(2, 2, "6"), ChangeResult::NoneValue);
    assert_eq!(snapshot(&board), before);
    board.add(2, 2, Value::Six);
    assert_eq!(
        board.change(2, 2, Value::Seven),
        ChangeResult::Changed(Value::Six, Value::Seven)
    );
    assert_eq!(board.board[1][1].value, Value::Seven);
    assert_eq!(
        board.change(2, 2, Value::Seven),
        ChangeResult::Changed(Value::Seven, Value::Seven)
    );
    assert_eq!(
        board.change_str(2, 2, "8"),
        ChangeResult::Changed(Value::Seven, Value::Eight)
    );
    assert!(candidates_are_consistent(&board));
}

#[test]
fn change_that_is_not_possible_leaves_the_board_as_it_was() {
    let mut board = SudokuBoard::new(vec!["5"]).unwrap();
    board.add(2, 2, Value::Six);
    board.add(9, 9, Value::One);
    let before = snapshot(&board);
    assert_eq!(board.change(2, 2, Value::Five), ChangeResult::NotPossible);
    assert_eq!(board.board[1][1].value, Value::Six);
    assert_eq!(snapshot(&board), before);
    assert_eq!(board.change_str(2, 2, "5"), ChangeResult::NotPossible);
    assert_eq!(snapshot(&board), before);
    assert_eq!(board.possible_values.len(), 78);
}

#[test]
fn change_reports_solved_on_a_full_board() {
    let lines = vec![
        "5|3|4|6|7|8|9|1|2",
        "6|7|2|1|9|5|3|4|8",
        "1|9|8|3|4|2|5|6|7",
        "8|5|9|7|6|1|4|2|3",
        "4|2|6|8|5|3|7|9|1",
        "7|1|3|9|2|4|8|5|6",
        "9|6|1|5|3|7|2|8|4",
        "2|8|7|4|1|9|6|3|5",
        "3|4|5|2|8|6|1|7|",
    ];
    let mut board = SudokuBoard::new(lines).unwrap();
    assert_eq!(board.add(9, 9, Value::Nine), AddResult::Solved);
    assert_eq!(board.change(9, 9, Value::Nine), ChangeResult::Solved);
    assert_eq!(board.change(9, 9, Value::One), ChangeResult::NotPossible);
    assert_eq!(board.board[8][8].value, Value::Nine);
    assert!(board.is_solved());
}

#[test]
fn clues_cannot_be_removed_or_changed() {
    let mut board = SudokuBoard::new(vec!["1|2|3", "4|5|6", "7|8|9"]).unwrap();
    let before = snapshot(&board);
    for row in 1..=3 {
        for col in 1..=3 {
            assert_eq!(board.remove(row, col), RemoveResult::Immutable);
            for v in DIGITS {
                assert_eq!(board.change(row, col, v), ChangeResult::Immutable);
            }
        }
    }
    assert_eq!(snapshot(&board), before);
}

#[test]
fn no_digit_stands_twice_after_any_edits() {
    let mut board = SudokuBoard::new(vec!["1||||||||9", "", "", "", "||||5"]).unwrap();
    let mut seed: u32 = 2024;
    for step in 0..600 {
        seed = seed.wrapping_mul(1103515245).wrapping_add(12345);
        let row = (seed >> 16) as usize % 9 + 1;
        seed = seed.wrapping_mul(1103515245).wrapping_add(12345);
        let col = (seed >> 16) as usize % 9 + 1;
        seed = seed.wrapping_mul(1103515245).wrapping_add(12345);
        let v = DIGITS[(seed >> 16) as usize % 9];
        match step % 3 {
            0 => {
                board.add(row, col, v);
            }
            1 => {
                board.change(row, col, v);
            }
            _ => {
                board.remove(row, col);
            }
        }
        assert!(no_digit_twice(&board));
        assert!(candidates_are_consistent(&board));
    }
    assert_eq!(board.board[0][0].value, Value::One);
    assert_eq!(board.board[0][8].value, Value::Nine);
    assert_eq!(board.board[4][4].value, Value::Five);
}

#[test]
fn frontier_lists_the_empty_cells_row_by_row() {
    let board = SudokuBoard::new(vec!["1|2", "", "3"]).unwrap();
    assert_eq!(board.possible_values.len(), 78);
    let first = &board.possible_values[0];
    assert_eq!((first.row, first.col), (1, 3));
    assert_eq!(
        first.values,
        vec![
            Value::Four,
            Value::Five,
            Value::Six,
            Value::Seven,
            Value::Eight,
            Value::Nine
        ]
    );
    let mut last = (0, 0);
    for entry in &board.possible_values {
        assert!((entry.row, entry.col) > last);
        last = (entry.row, entry.col);
        let cell = board.board[entry.row - 1][entry.col - 1];
        assert_eq!(cell.value, Value::Empty);
        assert_eq!(entry.values, cell.possible_values());
    }
}

#[test]
fn pop_hands_out_the_cell_with_the_fewest_candidates() {
    let mut board = SudokuBoard::new(vec!["1|2|3|4|5|6|7", "", "|||||||8"]).unwrap();
    // (1, 8) and (1, 9) are left with 9 alone; the first of them comes first.
    let entry = board.pop_possible_value().unwrap();
    assert_eq!((entry.row, entry.col), (1, 8));
    assert_eq!(entry.values, vec![Value::Nine]);
    let entry = board.pop_possible_value().unwrap();
    assert_eq!((entry.row, entry.col), (1, 9));
    assert_eq!(entry.values, vec![Value::Nine]);
    // Next come the cells of row 3 below the first box, which see 1, 2, 3
    // and 8.
    let entry = board.pop_possible_value().unwrap();
    assert_eq!((entry.row, entry.col), (3, 1));
    assert_eq!(
        entry.values,
        vec![
            Value::Four,
            Value::Five,
            Value::Six,
            Value::Seven,
            Value::Nine
        ]
    );
    let entry = board.pop_possible_value().unwrap();
    assert_eq!((entry.row, entry.col), (3, 2));
    assert_eq!(board.possible_values.len(), 81 - 8 - 4);
}

#[test]
fn pop_breaks_ties_by_row_then_column() {
    let mut board = blank();
    let entry = board.pop_possible_value().unwrap();
    assert_eq!((entry.row, entry.col), (1, 1));
    assert_eq!(entry.values, DIGITS.to_vec());
    let entry = board.pop_possible_value().unwrap();
    assert_eq!((entry.row, entry.col), (1, 2));
    assert_eq!(board.possible_values.len(), 79);
    board.add(9, 9, Value::One);
    assert_eq!(board.possible_values.len(), 80);
    let entry = board.pop_possible_value().unwrap();
    assert_eq!((entry.row, entry.col), (1, 9));
    assert_eq!(entry.values.len(), 8);
}

#[test]
fn pop_returns_nothing_from_an_empty_frontier() {
    let mut board = blank();
    let before = snapshot(&board);
    for _ in 0..81 {
        assert!(board.pop_possible_value().is_some());
    }
    assert!(board.pop_possible_value().is_none());
    assert!(board.pop_possible_value().is_none());
    assert_eq!(snapshot(&board), before);
    board.update_possible_value_heap();
    assert_eq!(board.possible_values.len(), 81);
}

#[test]
fn is_solved_means_no_cell_is_empty() {
    let mut board = blank();
    assert!(!board.is_solved());
    board.add(1, 1, Value::One);
    assert!(!board.is_solved());
}

#[test]
fn frontier_entries_compare_by_cell_and_candidates() {
    let mut a = SudokuBoard::blank();
    let mut b = SudokuBoard::blank();
    let first = a.pop_possible_value().unwrap();
    let same = b.pop_possible_value().unwrap();
    let second = a.pop_possible_value().unwrap();
    assert!(first == same);
    assert!(first != second);
    b.add(9, 9, Value::One);
    let fewer = b.pop_possible_value().unwrap();
    assert_eq!((fewer.row, fewer.col), (1, 9));
    let other = SudokuBoard::new(vec!["||||||||", "1"]).unwrap();
    let entry = &other.possible_values[8];
    assert_eq!((entry.row, entry.col), (1, 9));
    assert!(*entry != fewer);
    assert_eq!(entry.values.len(), 9);
}

#[test]
fn change_to_the_empty_value_changes_nothing() {
    let mut board = SudokuBoard::new(vec!["5"]).unwrap();
    board.add(2, 2, Value::Six);
    board.pop_possible_value();
    let before = snapshot(&board);
    let frontier = board.possible_values.len();
    // A cell that holds a value and may be edited.
    assert_eq!(board.change(2, 2, Value::Empty), ChangeResult::NoneValue);
    assert_eq!(board.change_str(2, 2, "0"), ChangeResult::NoneValue);
    assert_eq!(board.change_str(2, 2, ""), ChangeResult::NoneValue);
    // An empty cell, and a clue.
    assert_eq!(board.change(3, 3, Value::Empty), ChangeResult::NoneValue);
    assert_eq!(board.change(1, 1, Value::Empty), ChangeResult::Immutable);
    assert_eq!(board.change_str(1, 1, "x"), ChangeResult::Immutable);
    assert_eq!(board.board[1][1].value, Value::Six);
    assert_eq!(snapshot(&board), before);
    assert_eq!(board.possible_values.len(), frontier);
}
