//! The text form of a puzzle: lines of fields divided by `|`, each field a
//! digit or anything else for an empty cell.

use crate::value::Value;
use vstd::prelude::*;

verus! {

/// The character is white space, as Unicode defines it.
pub open spec fn is_space(c: char) -> bool {
    let n = c as u32;
    ||| 0x09 <= n <= 0x0d
    ||| n == 0x20
    ||| n == 0x85
    ||| n == 0xa0
    ||| n == 0x1680
    ||| 0x2000 <= n <= 0x200a
    ||| n == 0x2028
    ||| n == 0x2029
    ||| n == 0x202f
    ||| n == 0x205f
    ||| n == 0x3000
}

/// The text without the white space at its start.
pub open spec fn trim_start(s: Seq<char>) -> Seq<char>
    decreases s.len(),
{
    if s.len() > 0 && is_space(s[0]) {
        trim_start(s.drop_first())
    } else {
        s
    }
}

/// The text without the white space at its end.
pub open spec fn trim_end(s: Seq<char>) -> Seq<char>
    decreases s.len(),
{
    if s.len() > 0 && is_space(s.last()) {
        trim_end(s.drop_last())
    } else {
        s
    }
}

/// The text without the white space at its start and at its end.
pub open spec fn trimmed(s: Seq<char>) -> Seq<char> {
    trim_end(trim_start(s))
}

/// The value that a field names: what is left of it after trimming, read as
/// a digit.
pub open spec fn field_value(field: Seq<char>) -> Value {
    Value::of_text(trimmed(field))
}

/// The fields of the first `n` characters of a line. A line has one field
/// more than it has bars, so a line without a bar is one field, and an empty
/// line is one empty field.
pub open spec fn fields(s: Seq<char>, n: int) -> Seq<Seq<char>>
    decreases n,
{
    if n <= 0 {
        seq![Seq::<char>::empty()]
    } else {
        let before = fields(s, n - 1);
        if s[n - 1] == '|' {
            before.push(Seq::empty())
        } else {
            before.drop_last().push(before.last().push(s[n - 1]))
        }
    }
}

/// The values that the fields of a line name, field by field.
pub open spec fn line_values(s: Seq<char>) -> Seq<Value> {
    fields(s, s.len() as int).map_values(|f: Seq<char>| field_value(f))
}

/// Checks whether the character is white space.
pub fn is_whitespace(c: char) -> (b: bool)
    ensures
        b == is_space(c),
{
    let n: u32 = c as u32;
    (0x09 <= n && n <= 0x0d) || n == 0x20 || n == 0x85 || n == 0xa0 || n == 0x1680 || (0x2000 <= n
        && n <= 0x200a) || n == 0x2028 || n == 0x2029 || n == 0x202f || n == 0x205f || n == 0x3000
}

/// Reads one field: trims it and reads what is left as a digit.
pub fn parse_field(field: &Vec<char>) -> (v: Value)
    ensures
        v == field_value(field@),
{
    let n = field.len();
    let mut a: usize = 0;
    assert(field@.subrange(0, n as int) =~= field@);
    while a < n && is_whitespace(field[a])
        invariant
            a <= n,
            n == field@.len(),
            trim_start(field@) == trim_start(field@.subrange(a as int, n as int)),
        decreases n - a,
    {
        assert(field@.subrange(a as int, n as int).drop_first() =~= field@.subrange(
            a + 1,
            n as int,
        ));
        a += 1;
    }
    assert(trim_start(field@) == field@.subrange(a as int, n as int));
    let mut b: usize = n;
    while b > a && is_whitespace(field[b - 1])
        invariant
            a <= b <= n,
            n == field@.len(),
            trimmed(field@) == trim_end(field@.subrange(a as int, b as int)),
            a < n ==> !is_space(field@[a as int]),
        decreases b - a,
    {
        assert(field@.subrange(a as int, b as int).drop_last() =~= field@.subrange(
            a as int,
            b - 1,
        ));
        b -= 1;
    }
    assert(trimmed(field@) == field@.subrange(a as int, b as int));
    if b - a == 1 {
        Value::from_char(field[a])
    } else {
        Value::Empty
    }
}

/// Reads a line: divides it at each `|` and reads each field.
pub fn parse_line(line: &str) -> (values: Vec<Value>)
    ensures
        values@ == line_values(line@),
{
    let n = line.unicode_len();
    let mut values: Vec<Value> = Vec::new();
    let mut field: Vec<char> = Vec::new();
    let mut i: usize = 0;
    while i < n
        invariant
            i <= n,
            n == line@.len(),
            fields(line@, i as int).len() == values@.len() + 1,
            fields(line@, i as int).last() == field@,
            values@ == fields(line@, i as int).drop_last().map_values(
                |f: Seq<char>| field_value(f),
            ),
        decreases n - i,
    {
        let ch = line.get_char(i);
        let ghost before = fields(line@, i as int);
        let ghost after = fields(line@, i + 1);
        if ch == '|' {
            let v = parse_field(&field);
            values.push(v);
            field = Vec::new();
            assert(after.drop_last() =~= before);
            assert(values@ =~= after.drop_last().map_values(|f: Seq<char>| field_value(f)));
        } else {
            field.push(ch);
            assert(after.drop_last() =~= before.drop_last());
        }
        i += 1;
    }
    let v = parse_field(&field);
    values.push(v);
    assert(values@ =~= line_values(line@)) by {
        let all = fields(line@, n as int);
        assert(all =~= all.drop_last().push(all.last()));
    }
    values
}

/// The character is a decimal digit.
pub open spec fn is_digit(c: char) -> bool {
    '0' <= c <= '9'
}

/// The number that a text of decimal digits writes.
pub open spec fn decimal(s: Seq<char>) -> int
    decreases s.len(),
{
    if s.len() == 0 {
        0
    } else {
        decimal(s.drop_last()) * 10 + (s.last() as u32 - '0' as u32)
    }
}

/// The digits of a number text: the text without a plus sign at its start.
pub open spec fn unsigned_part(s: Seq<char>) -> Seq<char> {
    if s.len() > 0 && s[0] == '+' {
        s.drop_first()
    } else {
        s
    }
}

/// The number that a text writes: one or more decimal digits, with or without
/// a plus sign before them, whose number fits the machine word. Any other text
/// writes no number.
pub open spec fn number_of(s: Seq<char>) -> Option<usize> {
    let d = unsigned_part(s);
    if d.len() > 0 && (forall|i: int| 0 <= i < d.len() ==> is_digit(#[trigger] d[i])) && decimal(d)
        <= usize::MAX {
        Some(decimal(d) as usize)
    } else {
        None
    }
}

/// A text of digits writes a number that is at least the number that any of
/// its beginnings writes.
pub proof fn lemma_decimal_grows(s: Seq<char>, n: int)
    requires
        0 <= n <= s.len(),
        forall|i: int| 0 <= i < s.len() ==> is_digit(#[trigger] s[i]),
    ensures
        0 <= decimal(s.take(n)) <= decimal(s),
    decreases s.len() - n,
{
    if n == s.len() {
        assert(s.take(n) =~= s);
        lemma_decimal_nonnegative(s);
    } else {
        lemma_decimal_grows(s, n + 1);
        assert(s.take(n + 1).drop_last() =~= s.take(n));
        assert(is_digit(s[n]));
        lemma_decimal_nonnegative(s.take(n));
    }
}

/// A text of digits writes no negative number.
pub proof fn lemma_decimal_nonnegative(s: Seq<char>)
    requires
        forall|i: int| 0 <= i < s.len() ==> is_digit(#[trigger] s[i]),
    ensures
        0 <= decimal(s),
    decreases s.len(),
{
    if s.len() > 0 {
        lemma_decimal_nonnegative(s.drop_last());
        assert(is_digit(s[s.len() - 1]));
    }
}

/// Reads a number: one or more decimal digits, with or without a plus sign
/// before them. Returns `None` for any other text, and where the number does
/// not fit the machine word.
pub fn parse_number(text: &str) -> (res: Option<usize>)
    ensures
        res == number_of(text@),
{
    let n = text.unicode_len();
    let mut i: usize = 0;
    if n > 0 && text.get_char(0) == '+' {
        i = 1;
    }
    let start = i;
    let ghost d = unsigned_part(text@);
    assert(d =~= text@.subrange(start as int, n as int));
    if i == n {
        return None;
    }
    let mut acc: usize = 0;
    assert(d.take(0) =~= Seq::<char>::empty());
    while i < n
        invariant
            start <= i <= n,
            n == text@.len(),
            d == text@.subrange(start as int, n as int),
            d == unsigned_part(text@),
            forall|j: int| 0 <= j < i - start ==> is_digit(#[trigger] d[j]),
            acc == decimal(d.take(i - start)),
        decreases n - i,
    {
        let ch = text.get_char(i);
        assert(d[i - start] == ch);
        if !('0' <= ch && ch <= '9') {
            return None;
        }
        let digit: usize = (ch as u32 - '0' as u32) as usize;
        proof {
            assert(d.take(i - start + 1).drop_last() =~= d.take(i - start));
            if forall|j: int| 0 <= j < d.len() ==> is_digit(#[trigger] d[j]) {
                lemma_decimal_grows(d, i - start + 1);
            }
        }
        acc = match acc.checked_mul(10) {
            Some(tens) => match tens.checked_add(digit) {
                Some(sum) => sum,
                None => {
                    return None;
                },
            },
            None => {
                return None;
            },
        };
        i += 1;
    }
    assert(d.take(n - start) =~= d);
    Some(acc)
}

} // verus!
