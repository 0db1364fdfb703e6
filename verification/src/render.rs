//! The board as text: a frame of box-drawing characters, three lines of text
//! for each row of the board, and in each cell its value or its candidates.

use crate::board::SudokuBoard;
use crate::cell::Cell;
use crate::value::Value;
use vstd::prelude::*;

verus! {

/// The text of one line of a cell that shows its own content: for an empty
/// cell the three slots `o1`, `o2`, `o3` in superscript, divided by blanks;
/// for a cell with a value the value between two blanks on either side where
/// `o1` is 3, which is the middle line, and five blanks on the other lines.
pub open spec fn cell_text(cell: Cell, o1: int, o2: int, o3: int) -> Seq<char> {
    if cell.value == Value::Empty {
        seq![cell.possible_values@[o1].sup_glyph()] + " "@ + seq![
            cell.possible_values@[o2].sup_glyph(),
        ] + " "@ + seq![cell.possible_values@[o3].sup_glyph()]
    } else if o1 == 3 {
        "  "@ + seq![cell.value.glyph()] + "  "@
    } else {
        "     "@
    }
}

/// The text of one line of a cell on a board: as `cell_text`, but five blanks
/// for an empty cell where the indicator is off.
pub open spec fn shown_text(indicator: bool, cell: Cell, o1: int, o2: int, o3: int) -> Seq<char> {
    if cell.value == Value::Empty && !indicator {
        "     "@
    } else {
        cell_text(cell, o1, o2, o3)
    }
}

/// The text of three neighbouring cells, from cell `first` on, on the line
/// `band` of their row.
pub open spec fn group_text(indicator: bool, row: [Cell; 9], first: int, band: int) -> Seq<char> {
    " "@ + shown_text(indicator, row@[first], 3 * band, 3 * band + 1, 3 * band + 2)
        + " \u{2502} "@ + shown_text(
        indicator,
        row@[first + 1],
        3 * band,
        3 * band + 1,
        3 * band + 2,
    ) + " \u{2502} "@ + shown_text(
        indicator,
        row@[first + 2],
        3 * band,
        3 * band + 1,
        3 * band + 2,
    ) + " \u{2551}"@
}

/// What stands at the left edge on the line `band` of row `i`: the number of
/// the row on the middle line, the frame on the others.
pub open spec fn edge_text(i: int, band: int) -> Seq<char> {
    if band == 1 {
        seq![Value::of_digit(i).glyph()]
    } else {
        "\u{2551}"@
    }
}

/// The line `band` of row `i`, with its line break.
pub open spec fn band_text(indicator: bool, i: int, row: [Cell; 9], band: int) -> Seq<char> {
    edge_text(i, band) + group_text(indicator, row, 0, band) + group_text(indicator, row, 3, band)
        + group_text(indicator, row, 6, band) + "\n"@
}

/// The three lines of row `i`.
pub open spec fn row_text(indicator: bool, i: int, row: [Cell; 9]) -> Seq<char> {
    band_text(indicator, i, row, 0) + band_text(indicator, i, row, 1) + band_text(
        indicator,
        i,
        row,
        2,
    )
}

/// The top of the frame, with the numbers of the columns.
pub open spec fn head_text() -> Seq<char> {
    "\u{2554}\u{2550}\u{2550} 1 \u{2550}\u{2550}\u{2564}\u{2550}\u{2550} 2 \u{2550}\u{2550}\u{2564}\u{2550}\u{2550} 3 \u{2550}\u{2550}\u{2566}\u{2550}\u{2550} 4 \u{2550}\u{2550}\u{2564}\u{2550}\u{2550} 5 \u{2550}\u{2550}\u{2564}\u{2550}\u{2550} 6 \u{2550}\u{2550}\u{2566}\u{2550}\u{2550} 7 \u{2550}\u{2550}\u{2564}\u{2550}\u{2550} 8 \u{2550}\u{2550}\u{2564}\u{2550}\u{2550} 9 \u{2550}\u{2550}\u{2557}\n"@
}

/// The line between two rows of one box.
pub open spec fn thin_text() -> Seq<char> {
    "\u{255f}\u{2500}\u{2500}\u{2500}\u{2500}\u{2500}\u{2500}\u{2500}\u{253c}\u{2500}\u{2500}\u{2500}\u{2500}\u{2500}\u{2500}\u{2500}\u{253c}\u{2500}\u{2500}\u{2500}\u{2500}\u{2500}\u{2500}\u{2500}\u{256b}\u{2500}\u{2500}\u{2500}\u{2500}\u{2500}\u{2500}\u{2500}\u{253c}\u{2500}\u{2500}\u{2500}\u{2500}\u{2500}\u{2500}\u{2500}\u{253c}\u{2500}\u{2500}\u{2500}\u{2500}\u{2500}\u{2500}\u{2500}\u{256b}\u{2500}\u{2500}\u{2500}\u{2500}\u{2500}\u{2500}\u{2500}\u{253c}\u{2500}\u{2500}\u{2500}\u{2500}\u{2500}\u{2500}\u{2500}\u{253c}\u{2500}\u{2500}\u{2500}\u{2500}\u{2500}\u{2500}\u{2500}\u{2562}\n"@
}

/// The line between two boxes.
pub open spec fn thick_text() -> Seq<char> {
    "\u{2560}\u{2550}\u{2550}\u{2550}\u{2550}\u{2550}\u{2550}\u{2550}\u{256a}\u{2550}\u{2550}\u{2550}\u{2550}\u{2550}\u{2550}\u{2550}\u{256a}\u{2550}\u{2550}\u{2550}\u{2550}\u{2550}\u{2550}\u{2550}\u{256c}\u{2550}\u{2550}\u{2550}\u{2550}\u{2550}\u{2550}\u{2550}\u{256a}\u{2550}\u{2550}\u{2550}\u{2550}\u{2550}\u{2550}\u{2550}\u{256a}\u{2550}\u{2550}\u{2550}\u{2550}\u{2550}\u{2550}\u{2550}\u{256c}\u{2550}\u{2550}\u{2550}\u{2550}\u{2550}\u{2550}\u{2550}\u{256a}\u{2550}\u{2550}\u{2550}\u{2550}\u{2550}\u{2550}\u{2550}\u{256a}\u{2550}\u{2550}\u{2550}\u{2550}\u{2550}\u{2550}\u{2550}\u{2563}\n"@
}

/// The bottom of the frame, without a line break.
pub open spec fn tail_text() -> Seq<char> {
    "\u{255a}\u{2550}\u{2550}\u{2550}\u{2550}\u{2550}\u{2550}\u{2550}\u{2567}\u{2550}\u{2550}\u{2550}\u{2550}\u{2550}\u{2550}\u{2550}\u{2567}\u{2550}\u{2550}\u{2550}\u{2550}\u{2550}\u{2550}\u{2550}\u{2569}\u{2550}\u{2550}\u{2550}\u{2550}\u{2550}\u{2550}\u{2550}\u{2567}\u{2550}\u{2550}\u{2550}\u{2550}\u{2550}\u{2550}\u{2550}\u{2567}\u{2550}\u{2550}\u{2550}\u{2550}\u{2550}\u{2550}\u{2550}\u{2569}\u{2550}\u{2550}\u{2550}\u{2550}\u{2550}\u{2550}\u{2550}\u{2567}\u{2550}\u{2550}\u{2550}\u{2550}\u{2550}\u{2550}\u{2550}\u{2567}\u{2550}\u{2550}\u{2550}\u{2550}\u{2550}\u{2550}\u{2550}\u{255d}"@
}

/// The line that follows row `i`: thin within a box, thick between boxes, and
/// the bottom of the frame after the last row.
pub open spec fn rule_text(i: int) -> Seq<char> {
    if i == 9 {
        tail_text()
    } else if i % 3 == 0 {
        thick_text()
    } else {
        thin_text()
    }
}

/// The text of the rows up to row `n`, each with the line that follows it.
pub open spec fn rows_text(indicator: bool, cells: [[Cell; 9]; 9], n: int) -> Seq<char>
    decreases n,
{
    if n <= 0 {
        Seq::empty()
    } else {
        rows_text(indicator, cells, n - 1) + row_text(indicator, n, cells@[n - 1]) + rule_text(n)
    }
}

/// The whole board as text.
pub open spec fn board_text(indicator: bool, cells: [[Cell; 9]; 9]) -> Seq<char> {
    head_text() + rows_text(indicator, cells, 9)
}

impl Cell {
    /// Returns the text of one line of the cell: see `cell_text`.
    pub fn get_print_row_values(&self, val_off1: usize, val_off2: usize, val_off3: usize) -> (s:
        String)
        requires
            val_off1 < 9,
            val_off2 < 9,
            val_off3 < 9,
        ensures
            s@ == cell_text(*self, val_off1 as int, val_off2 as int, val_off3 as int),
    {
        if self.value == Value::Empty {
            let mut s = String::from_str(self.possible_values[val_off1].sup_str());
            s.append(" ");
            s.append(self.possible_values[val_off2].sup_str());
            s.append(" ");
            s.append(self.possible_values[val_off3].sup_str());
            s
        } else if val_off1 == 3 {
            let mut s = String::from_str("  ");
            s.append(self.value.to_str());
            s.append("  ");
            s
        } else {
            String::from_str("     ")
        }
    }
}

impl SudokuBoard {
    /// Returns the text of one line of a cell as this board shows it: see
    /// `shown_text`.
    pub fn get_print_row_values(
        &self,
        cell: Cell,
        val_off1: usize,
        val_off2: usize,
        val_off3: usize,
    ) -> (s: String)
        requires
            val_off1 < 9,
            val_off2 < 9,
            val_off3 < 9,
        ensures
            s@ == shown_text(
                self.indicator,
                cell,
                val_off1 as int,
                val_off2 as int,
                val_off3 as int,
            ),
    {
        if cell.value == Value::Empty && !self.indicator {
            String::from_str("     ")
        } else {
            cell.get_print_row_values(val_off1, val_off2, val_off3)
        }
    }

    /// Returns the text of the three cells from `first` on, on the line `band`
    /// of their row.
    fn print_group(&self, row: &[Cell; 9], first: usize, band: usize) -> (s: String)
        requires
            first <= 6,
            band < 3,
        ensures
            s@ == group_text(self.indicator, *row, first as int, band as int),
    {
        let a = self.get_print_row_values(row[first], 3 * band, 3 * band + 1, 3 * band + 2);
        let b = self.get_print_row_values(row[first + 1], 3 * band, 3 * band + 1, 3 * band + 2);
        let c = self.get_print_row_values(row[first + 2], 3 * band, 3 * band + 1, 3 * band + 2);
        let mut s = String::from_str(" ");
        s.append(a.as_str());
        s.append(" \u{2502} ");
        s.append(b.as_str());
        s.append(" \u{2502} ");
        s.append(c.as_str());
        s.append(" \u{2551}");
        s
    }

    /// Returns the line `band` of row `i`, with its line break.
    fn print_band(&self, i: usize, row: &[Cell; 9], band: usize) -> (s: String)
        requires
            1 <= i <= 9,
            band < 3,
        ensures
            s@ == band_text(self.indicator, i as int, *row, band as int),
    {
        let left = self.print_group(row, 0, band);
        let middle = self.print_group(row, 3, band);
        let right = self.print_group(row, 6, band);
        let mut s = if band == 1 {
            String::from_str(digit_str(i))
        } else {
            String::from_str("\u{2551}")
        };
        s.append(left.as_str());
        s.append(middle.as_str());
        s.append(right.as_str());
        s.append("\n");
        s
    }

    /// Returns the three lines of text of the row `row`, which is row `i` of
    /// the board, counted from 1.
    pub fn print_row(&self, i: usize, row: [Cell; 9]) -> (s: String)
        requires
            1 <= i <= 9,
        ensures
            s@ == row_text(self.indicator, i as int, row),
    {
        let middle = self.print_band(i, &row, 1);
        let bottom = self.print_band(i, &row, 2);
        let mut s = self.print_band(i, &row, 0);
        s.append(middle.as_str());
        s.append(bottom.as_str());
        s
    }

    /// Returns the board as text, framed, with the numbers of the rows and
    /// columns: see `board_text`.
    pub fn to_string(&self) -> (s: String)
        ensures
            s@ == board_text(self.indicator, self.board),
    {
        let mut rows = String::new();
        let mut i: usize = 0;
        while i < 9
            invariant
                i <= 9,
                rows@ == rows_text(self.indicator, self.board, i as int),
            decreases 9 - i,
        {
            let row = self.print_row(i + 1, self.board[i]);
            rows.append(row.as_str());
            if i == 8 {
                rows.append(
                    "\u{255a}\u{2550}\u{2550}\u{2550}\u{2550}\u{2550}\u{2550}\u{2550}\u{2567}\u{2550}\u{2550}\u{2550}\u{2550}\u{2550}\u{2550}\u{2550}\u{2567}\u{2550}\u{2550}\u{2550}\u{2550}\u{2550}\u{2550}\u{2550}\u{2569}\u{2550}\u{2550}\u{2550}\u{2550}\u{2550}\u{2550}\u{2550}\u{2567}\u{2550}\u{2550}\u{2550}\u{2550}\u{2550}\u{2550}\u{2550}\u{2567}\u{2550}\u{2550}\u{2550}\u{2550}\u{2550}\u{2550}\u{2550}\u{2569}\u{2550}\u{2550}\u{2550}\u{2550}\u{2550}\u{2550}\u{2550}\u{2567}\u{2550}\u{2550}\u{2550}\u{2550}\u{2550}\u{2550}\u{2550}\u{2567}\u{2550}\u{2550}\u{2550}\u{2550}\u{2550}\u{2550}\u{2550}\u{255d}",
                );
            } else if i % 3 == 2 {
                rows.append(
                    "\u{2560}\u{2550}\u{2550}\u{2550}\u{2550}\u{2550}\u{2550}\u{2550}\u{256a}\u{2550}\u{2550}\u{2550}\u{2550}\u{2550}\u{2550}\u{2550}\u{256a}\u{2550}\u{2550}\u{2550}\u{2550}\u{2550}\u{2550}\u{2550}\u{256c}\u{2550}\u{2550}\u{2550}\u{2550}\u{2550}\u{2550}\u{2550}\u{256a}\u{2550}\u{2550}\u{2550}\u{2550}\u{2550}\u{2550}\u{2550}\u{256a}\u{2550}\u{2550}\u{2550}\u{2550}\u{2550}\u{2550}\u{2550}\u{256c}\u{2550}\u{2550}\u{2550}\u{2550}\u{2550}\u{2550}\u{2550}\u{256a}\u{2550}\u{2550}\u{2550}\u{2550}\u{2550}\u{2550}\u{2550}\u{256a}\u{2550}\u{2550}\u{2550}\u{2550}\u{2550}\u{2550}\u{2550}\u{2563}\n",
                );
            } else {
                rows.append(
                    "\u{255f}\u{2500}\u{2500}\u{2500}\u{2500}\u{2500}\u{2500}\u{2500}\u{253c}\u{2500}\u{2500}\u{2500}\u{2500}\u{2500}\u{2500}\u{2500}\u{253c}\u{2500}\u{2500}\u{2500}\u{2500}\u{2500}\u{2500}\u{2500}\u{256b}\u{2500}\u{2500}\u{2500}\u{2500}\u{2500}\u{2500}\u{2500}\u{253c}\u{2500}\u{2500}\u{2500}\u{2500}\u{2500}\u{2500}\u{2500}\u{253c}\u{2500}\u{2500}\u{2500}\u{2500}\u{2500}\u{2500}\u{2500}\u{256b}\u{2500}\u{2500}\u{2500}\u{2500}\u{2500}\u{2500}\u{2500}\u{253c}\u{2500}\u{2500}\u{2500}\u{2500}\u{2500}\u{2500}\u{2500}\u{253c}\u{2500}\u{2500}\u{2500}\u{2500}\u{2500}\u{2500}\u{2500}\u{2562}\n",
                );
            }
            i += 1;
        }
        let mut s = String::from_str(
            "\u{2554}\u{2550}\u{2550} 1 \u{2550}\u{2550}\u{2564}\u{2550}\u{2550} 2 \u{2550}\u{2550}\u{2564}\u{2550}\u{2550} 3 \u{2550}\u{2550}\u{2566}\u{2550}\u{2550} 4 \u{2550}\u{2550}\u{2564}\u{2550}\u{2550} 5 \u{2550}\u{2550}\u{2564}\u{2550}\u{2550} 6 \u{2550}\u{2550}\u{2566}\u{2550}\u{2550} 7 \u{2550}\u{2550}\u{2564}\u{2550}\u{2550} 8 \u{2550}\u{2550}\u{2564}\u{2550}\u{2550} 9 \u{2550}\u{2550}\u{2557}\n",
        );
        s.append(rows.as_str());
        s
    }
}

/// Returns the digit `i` as text.
pub fn digit_str(i: usize) -> (s: &'static str)
    requires
        1 <= i <= 9,
    ensures
        s@ == seq![Value::of_digit(i as int).glyph()],
{
    let v = if i == 1 {
        Value::One
    } else if i == 2 {
        Value::Two
    } else if i == 3 {
        Value::Three
    } else if i == 4 {
        Value::Four
    } else if i == 5 {
        Value::Five
    } else if i == 6 {
        Value::Six
    } else if i == 7 {
        Value::Seven
    } else if i == 8 {
        Value::Eight
    } else {
        Value::Nine
    };
    v.to_str()
}

} // verus!
