use sudoku::text::{is_whitespace, parse_field, parse_line, parse_number};
use sudoku::value::Value;

#[test]
fn line_is_divided_at_each_bar() {
    assert_eq!(
        parse_line("1|2|3"),
        vec![Value::One, Value::Two, Value::Three]
    );
    assert_eq!(parse_line(""), vec![Value::Empty]);
    assert_eq!(parse_line("|"), vec![Value::Empty, Value::Empty]);
    assert_eq!(parse_line("7|"), vec![Value::Seven, Value::Empty]);
    assert_eq!(parse_line("|7"), vec![Value::Empty, Value::Seven]);
    assert_eq!(parse_line("9"), vec![Value::Nine]);
}

#[test]
fn fields_are_trimmed_before_they_are_read() {
    assert_eq!(
        parse_line(" 1 | 2|3 |\t4\t|  |x| 5 6 |56|0"),
        vec![
            Value::One,
            Value::Two,
            Value::Three,
            Value::Four,
            Value::Empty,
            Value::Empty,
            Value::Empty,
            Value::Empty,
            Value::Empty
        ]
    );
    assert_eq!(parse_line("\u{a0}8\u{3000}"), vec![Value::Eight]);
    assert_eq!(parse_line("8\r"), vec![Value::Eight]);
}

#[test]
fn a_line_may_have_more_than_nine_fields() {
    assert_eq!(parse_line("1|2|3|4|5|6|7|8|9|1").len(), 10);
    assert_eq!(parse_line("|||||||||||").len(), 12);
}

#[test]
fn field_reads_one_digit_between_white_space() {
    let field: Vec<char> = "  4 ".chars().collect();
    assert_eq!(parse_field(&field), Value::Four);
    let field: Vec<char> = "4 4".chars().collect();
    assert_eq!(parse_field(&field), Value::Empty);
    let field: Vec<char> = "   ".chars().collect();
    assert_eq!(parse_field(&field), Value::Empty);
    assert_eq!(parse_field(&Vec::new()), Value::Empty);
}

#[test]
fn white_space_is_what_the_standard_library_trims() {
    let mut c = 0u32;
    while c <= 0x3100 {
        if let Some(ch) = char::from_u32(c) {
            assert_eq!(is_whitespace(ch), ch.is_whitespace(), "U+{:04X}", c);
        }
        c += 1;
    }
}

#[test]
fn number_is_read_as_the_standard_library_reads_it() {
    let max = usize::MAX.to_string();
    let over = format!("{}0", max);
    let plus_max = format!("+{}", max);
    let texts = [
        "0", "1", "9", "10", "007", "+5", "+", "", "-1", "-0", "5+", "++5", " 5", "5 ", "12a",
        "a", "1_000", "٣", "18446744073709551615", "18446744073709551616",
        "99999999999999999999999999", "+0", "000000000000000000000000000001",
        max.as_str(), over.as_str(), plus_max.as_str(),
    ];
    for t in texts {
        assert_eq!(parse_number(t), t.parse::<usize>().ok(), "{:?}", t);
    }
}

#[test]
fn number_values_are_exact() {
    assert_eq!(parse_number("42"), Some(42));
    assert_eq!(parse_number("+42"), Some(42));
    assert_eq!(parse_number("0042"), Some(42));
    assert_eq!(parse_number("4x2"), None);
    assert_eq!(parse_number(""), None);
}
