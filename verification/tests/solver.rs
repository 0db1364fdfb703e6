use sudoku::board::SudokuBoard;
use sudoku::results::{AddResult, SolveResult};
use sudoku::solver::solve;
use sudoku::value::Value;

fn values(board: &SudokuBoard) -> Vec<Vec<usize>> {
    (0..9)
        .map(|r| (0..9).map(|c| board.board[r][c].value.to_usize()).collect())
        .collect()
}

fn is_valid_solution(grid: &[Vec<usize>]) -> bool {
    for unit in 0..9 {
        let mut row = [false; 10];
        let mut col = [false; 10];
        let mut bx = [false; 10];
        for k in 0..9 {
            let r = grid[unit][k];
            let c = grid[k][unit];
            let b = grid[(unit / 3) * 3 + k / 3][(unit % 3) * 3 + k % 3];
            if r == 0 || c == 0 || b == 0 || row[r] || col[c] || bx[b] {
                return false;
            }
            row[r] = true;
            col[c] = true;
            bx[b] = true;
        }
    }
    true
}

#[test]
fn solver_finds_the_solution_of_a_puzzle() {
    let lines = vec![
        "5|3| | |7| | | | ",
        "6| | |1|9|5| | | ",
        " |9|8| | | | |6| ",
        "8| | | |6| | | |3",
        "4| | |8| |3| | |1",
        "7| | | |2| | | |6",
        " |6| | | | |2|8| ",
        " | | |4|1|9| | |5",
        " | | | |8| | |7|9",
    ];
    let mut board = SudokuBoard::new(lines).unwrap();
    assert_eq!(solve(&mut board), SolveResult::Solved);
    assert!(board.is_solved());
    let expected = vec![
        vec![5, 3, 4, 6, 7, 8, 9, 1, 2],
        vec![6, 7, 2, 1, 9, 5, 3, 4, 8],
        vec![1, 9, 8, 3, 4, 2, 5, 6, 7],
        vec![8, 5, 9, 7, 6, 1, 4, 2, 3],
        vec![4, 2, 6, 8, 5, 3, 7, 9, 1],
        vec![7, 1, 3, 9, 2, 4, 8, 5, 6],
        vec![9, 6, 1, 5, 3, 7, 2, 8, 4],
        vec![2, 8, 7, 4, 1, 9, 6, 3, 5],
        vec![3, 4, 5, 2, 8, 6, 1, 7, 9],
    ];
    assert_eq!(values(&board), expected);
    assert!(!board.board[0][0].mutable);
    assert!(board.board[0][2].mutable);
}

#[test]
fn solver_keeps_what_the_board_held() {
    let mut board = SudokuBoard::new(vec!["9|8|7", "", "", "", "||||1"]).unwrap();
    assert_eq!(board.add(9, 9, Value::Four), AddResult::Added(Value::Four));
    let before = values(&board);
    assert_eq!(solve(&mut board), SolveResult::Solved);
    let after = values(&board);
    assert!(is_valid_solution(&after));
    for r in 0..9 {
        for c in 0..9 {
            if before[r][c] != 0 {
                assert_eq!(after[r][c], before[r][c]);
            }
        }
    }
    assert!(board.indicator);
}

#[test]
fn solver_fills_the_blank_board_in_order() {
    let mut board = SudokuBoard::blank();
    assert_eq!(solve(&mut board), SolveResult::Solved);
    let grid = values(&board);
    assert!(is_valid_solution(&grid));
    assert_eq!(grid[0], vec![1, 2, 3, 4, 5, 6, 7, 8, 9]);
}

#[test]
fn solver_fails_on_a_board_without_solution_and_leaves_it() {
    // (1, 8) and (1, 9) both have 9 as their only candidate.
    let mut board = SudokuBoard::new(vec!["1|2|3|4|5|6|7", "", "|||||||8"]).unwrap();
    let before = values(&board);
    let cells: Vec<_> = (0..9)
        .flat_map(|r| (0..9).map(move |c| (r, c)))
        .map(|(r, c)| {
            let cell = board.board[r][c];
            (cell.value, cell.possible_values, cell.mutable)
        })
        .collect();
    assert_eq!(solve(&mut board), SolveResult::Failed);
    assert_eq!(values(&board), before);
    let after: Vec<_> = (0..9)
        .flat_map(|r| (0..9).map(move |c| (r, c)))
        .map(|(r, c)| {
            let cell = board.board[r][c];
            (cell.value, cell.possible_values, cell.mutable)
        })
        .collect();
    assert_eq!(after, cells);
    assert!(!board.is_solved());
}

#[test]
fn solver_solves_what_is_left_of_clashing_clues() {
    // The second 5 of the row is left out when the board is made, so the
    // board that remains has a solution.
    let mut board = SudokuBoard::new(vec!["5|5"]).unwrap();
    assert_eq!(solve(&mut board), SolveResult::Solved);
    let grid = values(&board);
    assert!(is_valid_solution(&grid));
    assert_eq!(grid[0][0], 5);
    assert_ne!(grid[0][1], 5);
}

#[test]
fn solver_reports_a_full_board_as_solved() {
    let lines = vec![
        "5|3|4|6|7|8|9|1|2",
        "6|7|2|1|9|5|3|4|8",
        "1|9|8|3|4|2|5|6|7",
        "8|5|9|7|6|1|4|2|3",
        "4|2|6|8|5|3|7|9|1",
        "7|1|3|9|2|4|8|5|6",
        "9|6|1|5|3|7|2|8|4",
        "2|8|7|4|1|9|6|3|5",
        "3|4|5|2|8|6|1|7|9",
    ];
    let mut board = SudokuBoard::new(lines).unwrap();
    let before = values(&board);
    assert_eq!(solve(&mut board), SolveResult::Solved);
    assert_eq!(values(&board), before);
}

#[test]
fn solver_with_an_emptied_frontier_changes_nothing() {
    let mut board = SudokuBoard::blank();
    while board.pop_possible_value().is_some() {}
    assert_eq!(solve(&mut board), SolveResult::Failed);
    assert!(values(&board).iter().all(|row| row.iter().all(|v| *v == 0)));
}

#[test]
fn solver_result_on_the_blank_board_is_fixed() {
    let mut board = SudokuBoard::blank();
    assert_eq!(solve(&mut board), SolveResult::Solved);
    let expected = vec![
        vec![1, 2, 3, 4, 5, 6, 7, 8, 9],
        vec![4, 5, 6, 7, 8, 9, 1, 2, 3],
        vec![7, 8, 9, 1, 2, 3, 4, 5, 6],
        vec![2, 3, 1, 6, 7, 4, 8, 9, 5],
        vec![8, 7, 5, 9, 1, 2, 3, 6, 4],
        vec![6, 9, 4, 5, 3, 8, 2, 1, 7],
        vec![3, 1, 7, 2, 6, 5, 9, 4, 8],
        vec![5, 4, 2, 8, 9, 7, 6, 3, 1],
        vec![9, 6, 8, 3, 4, 1, 5, 7, 2],
    ];
    assert_eq!(values(&board), expected);
    let mut again = SudokuBoard::blank();
    assert_eq!(solve(&mut again), SolveResult::Solved);
    assert_eq!(values(&again), expected);
}

#[test]
fn solver_failure_leaves_the_frontier_without_the_cell_it_took() {
    // The 9 cannot be placed at (1, 8): it is all that (1, 9) has.
    let mut board = SudokuBoard::new(vec!["1|2|3|4|5|6|7", "", "|||||||8"]).unwrap();
    let before = board.possible_values.len();
    assert_eq!(solve(&mut board), SolveResult::Failed);
    assert_eq!(board.possible_values.len(), before - 1);
    assert!(board
        .possible_values
        .iter()
        .all(|e| (e.row, e.col) != (1, 8)));
    // The next search takes (1, 9), where the 9 is all that (1, 8) has.
    assert_eq!(solve(&mut board), SolveResult::Failed);
    assert_eq!(board.possible_values.len(), before - 2);
    assert_eq!(board.board[0][8].value, Value::Empty);
    // The third takes a cell in which digits can be placed, and lists the
    // frontier anew when it has undone them.
    assert_eq!(solve(&mut board), SolveResult::Failed);
    assert_eq!(board.possible_values.len(), before);
}

#[test]
fn solver_starts_with_the_cell_that_the_frontier_hands_out() {
    let mut board = SudokuBoard::blank();
    let taken = board.pop_possible_value().unwrap();
    assert_eq!((taken.row, taken.col), (1, 1));
    assert_eq!(solve(&mut board), SolveResult::Solved);
    let grid = values(&board);
    assert!(is_valid_solution(&grid));
    // The search began at (1, 2) and gave it the 1.
    assert_eq!(grid[0][1], 1);
    assert_eq!(grid[0][0], 2);
    assert!(board.possible_values.is_empty());
}
