//! The digits that a cell can hold.

use vstd::prelude::*;

verus! {

/// A digit from one to nine, or `Empty` for a cell that holds none.
#[derive(Clone, Copy, PartialEq, Eq, Structural, Debug)]
pub enum Value {
    One,
    Two,
    Three,
    Four,
    Five,
    Six,
    Seven,
    Eight,
    Nine,
    Empty,
}

impl Value {
    /// The number that the value stands for: 1 to 9, and 0 for `Empty`.
    pub open spec fn digit(self) -> nat {
        match self {
            Value::One => 1,
            Value::Two => 2,
            Value::Three => 3,
            Value::Four => 4,
            Value::Five => 5,
            Value::Six => 6,
            Value::Seven => 7,
            Value::Eight => 8,
            Value::Nine => 9,
            Value::Empty => 0,
        }
    }

    /// The value that stands for `d`; `Empty` for every number outside 1 to 9.
    pub open spec fn of_digit(d: int) -> Value {
        if d == 1 {
            Value::One
        } else if d == 2 {
            Value::Two
        } else if d == 3 {
            Value::Three
        } else if d == 4 {
            Value::Four
        } else if d == 5 {
            Value::Five
        } else if d == 6 {
            Value::Six
        } else if d == 7 {
            Value::Seven
        } else if d == 8 {
            Value::Eight
        } else if d == 9 {
            Value::Nine
        } else {
            Value::Empty
        }
    }

    /// Returns the number that the value stands for, 0 for `Empty`.
    pub fn to_usize(&self) -> (n: usize)
        ensures
            n == self.digit(),
    {
        match self {
            Value::One => 1,
            Value::Two => 2,
            Value::Three => 3,
            Value::Four => 4,
            Value::Five => 5,
            Value::Six => 6,
            Value::Seven => 7,
            Value::Eight => 8,
            Value::Nine => 9,
            Value::Empty => 0,
        }
    }
}

impl Value {
    /// The character that the value prints as: its digit, a blank for `Empty`.
    pub open spec fn glyph(self) -> char {
        match self {
            Value::One => '1',
            Value::Two => '2',
            Value::Three => '3',
            Value::Four => '4',
            Value::Five => '5',
            Value::Six => '6',
            Value::Seven => '7',
            Value::Eight => '8',
            Value::Nine => '9',
            Value::Empty => ' ',
        }
    }

    /// The character that the value prints as in superscript, a blank for
    /// `Empty`.
    pub open spec fn sup_glyph(self) -> char {
        match self {
            Value::One => '\u{b9}',
            Value::Two => '\u{b2}',
            Value::Three => '\u{b3}',
            Value::Four => '\u{2074}',
            Value::Five => '\u{2075}',
            Value::Six => '\u{2076}',
            Value::Seven => '\u{2077}',
            Value::Eight => '\u{2078}',
            Value::Nine => '\u{2079}',
            Value::Empty => ' ',
        }
    }

    /// Returns the value in superscript, as one character.
    pub fn sup_str(&self) -> (s: &'static str)
        ensures
            s@ == seq![self.sup_glyph()],
    {
        proof {
            reveal_strlit("\u{b9}");
            reveal_strlit("\u{b2}");
            reveal_strlit("\u{b3}");
            reveal_strlit("\u{2074}");
            reveal_strlit("\u{2075}");
            reveal_strlit("\u{2076}");
            reveal_strlit("\u{2077}");
            reveal_strlit("\u{2078}");
            reveal_strlit("\u{2079}");
            reveal_strlit(" ");
        }
        let s = match self {
            Value::One => "\u{b9}",
            Value::Two => "\u{b2}",
            Value::Three => "\u{b3}",
            Value::Four => "\u{2074}",
            Value::Five => "\u{2075}",
            Value::Six => "\u{2076}",
            Value::Seven => "\u{2077}",
            Value::Eight => "\u{2078}",
            Value::Nine => "\u{2079}",
            Value::Empty => " ",
        };
        assert(s@ =~= seq![self.sup_glyph()]);
        s
    }

    /// Returns the value as it prints, as one character.
    pub fn to_str(&self) -> (s: &'static str)
        ensures
            s@ == seq![self.glyph()],
    {
        proof {
            reveal_strlit("1");
            reveal_strlit("2");
            reveal_strlit("3");
            reveal_strlit("4");
            reveal_strlit("5");
            reveal_strlit("6");
            reveal_strlit("7");
            reveal_strlit("8");
            reveal_strlit("9");
            reveal_strlit(" ");
        }
        let s = match self {
            Value::One => "1",
            Value::Two => "2",
            Value::Three => "3",
            Value::Four => "4",
            Value::Five => "5",
            Value::Six => "6",
            Value::Seven => "7",
            Value::Eight => "8",
            Value::Nine => "9",
            Value::Empty => " ",
        };
        assert(s@ =~= seq![self.glyph()]);
        s
    }

    /// The value that a character names: a digit from `'1'` to `'9'` names
    /// itself, every other character names `Empty`.
    pub open spec fn of_char(c: char) -> Value {
        if c == '1' {
            Value::One
        } else if c == '2' {
            Value::Two
        } else if c == '3' {
            Value::Three
        } else if c == '4' {
            Value::Four
        } else if c == '5' {
            Value::Five
        } else if c == '6' {
            Value::Six
        } else if c == '7' {
            Value::Seven
        } else if c == '8' {
            Value::Eight
        } else if c == '9' {
            Value::Nine
        } else {
            Value::Empty
        }
    }

    /// The value that a text names: a text of exactly one character names what
    /// that character names, every other text names `Empty`.
    pub open spec fn of_text(s: Seq<char>) -> Value {
        if s.len() == 1 {
            Value::of_char(s[0])
        } else {
            Value::Empty
        }
    }

    /// Returns the value that the character names.
    pub fn from_char(c: char) -> (v: Value)
        ensures
            v == Value::of_char(c),
    {
        if c == '1' {
            Value::One
        } else if c == '2' {
            Value::Two
        } else if c == '3' {
            Value::Three
        } else if c == '4' {
            Value::Four
        } else if c == '5' {
            Value::Five
        } else if c == '6' {
            Value::Six
        } else if c == '7' {
            Value::Seven
        } else if c == '8' {
            Value::Eight
        } else if c == '9' {
            Value::Nine
        } else {
            Value::Empty
        }
    }
}

impl From<&str> for Value {
    /// Reads `"1"` to `"9"` as the digit, and anything else as `Empty`.
    fn from(val: &str) -> (v: Value) {
        if val.unicode_len() == 1 {
            Value::from_char(val.get_char(0))
        } else {
            Value::Empty
        }
    }
}

impl vstd::std_specs::convert::FromSpecImpl<&str> for Value {
    open spec fn obeys_from_spec() -> bool {
        true
    }

    open spec fn from_spec(val: &str) -> Value {
        Value::of_text(val@)
    }
}

/// The digits and the values correspond one to one.
pub proof fn lemma_digit_of_digit(v: Value, d: int)
    ensures
        Value::of_digit(v.digit() as int) == v,
        v.digit() <= 9,
        1 <= d <= 9 ==> Value::of_digit(d).digit() == d,
        Value::of_digit(d) != Value::Empty <==> 1 <= d <= 9,
{
}

} // verus!
