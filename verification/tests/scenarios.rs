use sudoku::board::SudokuBoard;
use sudoku::results::{AddResult, RemoveResult, SolveResult};
use sudoku::solver::solve;
use sudoku::value::Value;

fn rows_cols_boxes_hold_no_digit_twice(board: &SudokuBoard) -> bool {
    for unit in 0..9 {
        let mut in_row = [false; 10];
        let mut in_col = [false; 10];
        let mut in_box = [false; 10];
        for k in 0..9 {
            let r = board.board[unit][k].value.to_usize();
            let c = board.board[k][unit].value.to_usize();
            let b = board.board[(unit / 3) * 3 + k / 3][(unit % 3) * 3 + k % 3]
                .value
                .to_usize();
            if r != 0 {
                if in_row[r] {
                    return false;
                }
                in_row[r] = true;
            }
            if c != 0 {
                if in_col[c] {
                    return false;
                }
                in_col[c] = true;
            }
            if b != 0 {
                if in_box[b] {
                    return false;
                }
                in_box[b] = true;
            }
        }
    }
    true
}

#[test]
fn empty_board_is_solved_by_search() {
    let mut board = SudokuBoard::new(Vec::new()).unwrap();
    assert_eq!(solve(&mut board), SolveResult::Solved);
    assert!(board.is_solved());
    assert!(rows_cols_boxes_hold_no_digit_twice(&board));
    for r in 0..9 {
        for c in 0..9 {
            assert_ne!(board.board[r][c].value, Value::Empty);
        }
    }
}

#[test]
fn second_equal_clue_in_a_row_is_not_possible() {
    let board = SudokuBoard::new(vec!["5|5"]).unwrap();
    assert_eq!(board.board[0][0].value, Value::Five);
    assert_eq!(board.board[0][1].value, Value::Empty);

    let mut board = SudokuBoard::blank();
    assert_eq!(board.add(1, 1, Value::Five), AddResult::Added(Value::Five));
    assert_eq!(board.add(1, 2, Value::Five), AddResult::NotPossible);
    assert_eq!(board.add_str(1, 2, "5"), AddResult::NotPossible);
}

#[test]
fn place_remove_place_gives_the_same_board() {
    let mut board = SudokuBoard::blank();
    assert_eq!(board.add(1, 1, Value::Five), AddResult::Added(Value::Five));
    let first: Vec<Vec<(Value, Vec<Value>, bool)>> = snapshot(&board);
    assert_eq!(board.remove(1, 1), RemoveResult::Removed(Value::Five));
    assert_eq!(board.add(1, 1, Value::Five), AddResult::Added(Value::Five));
    assert_eq!(snapshot(&board), first);
}

fn snapshot(board: &SudokuBoard) -> Vec<Vec<(Value, Vec<Value>, bool)>> {
    let mut rows = Vec::new();
    for r in 0..9 {
        let mut row = Vec::new();
        for c in 0..9 {
            let cell = board.board[r][c];
            row.push((cell.value, cell.possible_values(), cell.mutable));
        }
        rows.push(row);
    }
    rows
}
