use sudoku::board::SudokuBoard;
use sudoku::commands::command::parse_index;
use sudoku::commands::{
    AddCommand, ChangeCommand, Command, CommandResult, IndicateCommand, RemoveCommand,
    SolveCommand,
};
use sudoku::value::Value;

#[test]
fn commands_have_their_names_and_arities() {
    let commands: Vec<(Box<dyn Command>, &str, usize, &str, &str)> = vec![
        (
            Box::new(AddCommand {}),
            "a",
            3,
            "Usage: `a<row><col><val>`",
            "Adds a value to the board",
        ),
        (
            Box::new(ChangeCommand {}),
            "c",
            3,
            "Usage: `c<row><col><val>`",
            "Changes a value on the board",
        ),
        (
            Box::new(RemoveCommand {}),
            "r",
            2,
            "Usage: `r<row><col>`",
            "Removes a value from the board",
        ),
        (
            Box::new(IndicateCommand {}),
            "i",
            0,
            "Usage: `i`",
            "Toggles the indicators of available values",
        ),
        (
            Box::new(SolveCommand {}),
            "solve",
            0,
            "Usage: `solve`",
            "Solves the current board",
        ),
    ];
    for (command, name, arity, usage, description) in commands {
        assert_eq!(command.name(), name);
        assert_eq!(command.num_args(), arity);
        assert_eq!(command.usage(), usage);
        assert_eq!(command.description(), description);
    }
}

#[test]
fn index_is_a_number_from_one_to_nine() {
    assert_eq!(parse_index("1"), Some(1));
    assert_eq!(parse_index("9"), Some(9));
    assert_eq!(parse_index("+3"), Some(3));
    assert_eq!(parse_index("03"), Some(3));
    assert_eq!(parse_index("0"), None);
    assert_eq!(parse_index("10"), None);
    assert_eq!(parse_index(""), None);
    assert_eq!(parse_index("x"), None);
    assert_eq!(parse_index("-1"), None);
    assert_eq!(parse_index("99999999999999999999999"), None);
}

#[test]
fn add_command_places_and_reports() {
    let mut board = SudokuBoard::blank();
    let add = AddCommand {};
    assert_eq!(
        add.execute(&mut board, vec!["2", "3", "7"]),
        CommandResult::AddCommandSuccess(Value::Seven, 2, 3)
    );
    assert_eq!(board.board[1][2].value, Value::Seven);
    assert_eq!(
        add.execute(&mut board, vec!["2", "3", "7"]),
        CommandResult::AddCommandAlreadySet
    );
    assert_eq!(
        add.execute(&mut board, vec!["2", "9", "7"]),
        CommandResult::AddCommandNotPossible
    );
    assert_eq!(
        add.execute(&mut board, vec!["2", "9", "0"]),
        CommandResult::AddCommandNoneValue
    );
    assert_eq!(
        add.execute(&mut board, vec!["2", "9", "8", "extra"]),
        CommandResult::AddCommandSuccess(Value::Eight, 2, 9)
    );
}

#[test]
fn add_command_rejects_what_names_no_cell() {
    let mut board = SudokuBoard::blank();
    let add = AddCommand {};
    for args in [
        vec!["x", "3", "7"],
        vec!["2", "", "7"],
        vec!["0", "3", "7"],
        vec!["2", "10", "7"],
        vec!["-1", "3", "7"],
    ] {
        assert_eq!(add.execute(&mut board, args), CommandResult::ParseError);
    }
    assert_eq!(board.possible_values.len(), 81);
    for r in 0..9 {
        for c in 0..9 {
            assert_eq!(board.board[r][c].value, Value::Empty);
        }
    }
}

#[test]
fn add_command_reports_solved() {
    let lines = vec![
        "5|3|4|6|7|8|9|1|2",
        "6|7|2|1|9|5|3|4|8",
        "1|9|8|3|4|2|5|6|7",
        "8|5|9|7|6|1|4|2|3",
        "4|2|6|8|5|3|7|9|1",
        "7|1|3|9|2|4|8|5|6",
        "9|6|1|5|3|7|2|8|4",
        "2|8|7|4|1|9|6|3|5",
        "3|4|5|2|8|6|1|7|",
    ];
    let mut board = SudokuBoard::new(lines).unwrap();
    assert_eq!(
        AddCommand {}.execute(&mut board, vec!["9", "9", "9"]),
        CommandResult::AddCommandSolved
    );
    assert_eq!(
        ChangeCommand {}.execute(&mut board, vec!["9", "9", "9"]),
        CommandResult::ChangeCommandSolved
    );
}

#[test]
fn remove_command_removes_and_reports() {
    let mut board = SudokuBoard::new(vec!["5"]).unwrap();
    let remove = RemoveCommand {};
    assert_eq!(
        remove.execute(&mut board, vec!["1", "1"]),
        CommandResult::RemoveCommandImmutable
    );
    assert_eq!(
        remove.execute(&mut board, vec!["1", "2"]),
        CommandResult::RemoveCommandNoneValue
    );
    assert_eq!(
        remove.execute(&mut board, vec!["1", "ten"]),
        CommandResult::ParseError
    );
    assert_eq!(
        remove.execute(&mut board, vec!["12", "1"]),
        CommandResult::ParseError
    );
    AddCommand {}.execute(&mut board, vec!["1", "2", "6"]);
    assert_eq!(
        remove.execute(&mut board, vec!["1", "2"]),
        CommandResult::RemoveCommandSuccess(Value::Six, 1, 2)
    );
    assert_eq!(board.board[0][1].value, Value::Empty);
}

#[test]
fn change_command_changes_and_reports() {
    let mut board = SudokuBoard::new(vec!["5"]).unwrap();
    let change = ChangeCommand {};
    assert_eq!(
        change.execute(&mut board, vec!["1", "1", "6"]),
        CommandResult::ChangeCommandImmutable
    );
    assert_eq!(
        change.execute(&mut board, vec!["1", "1", "x"]),
        CommandResult::ChangeCommandImmutable
    );
    assert_eq!(
        change.execute(&mut board, vec!["1", "2", "6"]),
        CommandResult::ChangeCommandNoneValue
    );
    assert_eq!(
        change.execute(&mut board, vec!["1", "2", "x"]),
        CommandResult::ChangeCommandNoneValue
    );
    assert_eq!(
        change.execute(&mut board, vec!["0", "2", "6"]),
        CommandResult::ParseError
    );
    AddCommand {}.execute(&mut board, vec!["1", "2", "6"]);
    assert_eq!(
        change.execute(&mut board, vec!["1", "2", "5"]),
        CommandResult::ChangeCommandNotPossible
    );
    assert_eq!(board.board[0][1].value, Value::Six);
    assert_eq!(
        change.execute(&mut board, vec!["1", "2", "7"]),
        CommandResult::ChangeCommandSuccess(Value::Six, Value::Seven, 1, 2)
    );
    assert_eq!(board.board[0][1].value, Value::Seven);
}

#[test]
fn change_command_does_not_take_a_value_off() {
    let mut board = SudokuBoard::blank();
    AddCommand {}.execute(&mut board, vec!["1", "2", "6"]);
    let frontier = board.possible_values.len();
    for val in ["x", "", "0", "10"] {
        assert_eq!(
            ChangeCommand {}.execute(&mut board, vec!["1", "2", val]),
            CommandResult::ChangeCommandNoneValue
        );
        assert_eq!(board.board[0][1].value, Value::Six);
        assert_eq!(board.possible_values.len(), frontier);
    }
}

#[test]
fn indicate_command_switches_the_indicator() {
    let mut board = SudokuBoard::blank();
    let indicate = IndicateCommand {};
    assert_eq!(
        indicate.execute(&mut board, Vec::new()),
        CommandResult::IndicateCommandSuccess(false)
    );
    assert!(!board.indicator);
    assert_eq!(
        indicate.execute(&mut board, vec!["ignored"]),
        CommandResult::IndicateCommandSuccess(true)
    );
    assert!(board.indicator);
    assert_eq!(board.possible_values.len(), 81);
}

#[test]
fn solve_command_reports_success_and_failure() {
    let mut board = SudokuBoard::blank();
    assert_eq!(
        SolveCommand {}.execute(&mut board, Vec::new()),
        CommandResult::SolveCommandSuccess
    );
    assert!(board.is_solved());
    let mut board = SudokuBoard::new(vec!["1|2|3|4|5|6|7", "", "|||||||8"]).unwrap();
    assert_eq!(
        SolveCommand {}.execute(&mut board, Vec::new()),
        CommandResult::SolveCommandFailure
    );
    assert!(!board.is_solved());
    assert_eq!(board.board[2][7].value, Value::Eight);
}
