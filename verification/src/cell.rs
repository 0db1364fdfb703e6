//! One position of the grid: its value, the digits still open to it, and
//! whether it may be edited.

use crate::value::{lemma_digit_of_digit, Value};
use vstd::prelude::*;

verus! {

/// A cell of the board.
///
/// `possible_values` has one slot per digit: slot `d - 1` holds the digit `d`
/// while `d` is still open to the cell, and `Empty` once it is ruled out.
#[derive(Clone, Copy, Debug)]
pub struct Cell {
    pub value: Value,
    pub possible_values: [Value; 9],
    pub mutable: bool,
}

/// The entries other than `Empty` among the first `n` slots, in slot order.
pub open spec fn open_slots(slots: Seq<Value>, n: int) -> Seq<Value>
    decreases n,
{
    if n <= 0 {
        Seq::empty()
    } else if slots[n - 1] != Value::Empty {
        open_slots(slots, n - 1).push(slots[n - 1])
    } else {
        open_slots(slots, n - 1)
    }
}

impl Cell {
    /// Every slot holds its own digit or `Empty`.
    pub open spec fn wf(&self) -> bool {
        forall|i: int|
            0 <= i < 9 ==> {
                ||| #[trigger] self.possible_values@[i] == Value::Empty
                ||| self.possible_values@[i] == Value::of_digit(i + 1)
            }
    }

    /// The slot of the digit `v` is open.
    pub open spec fn has_slot(&self, v: Value) -> bool {
        v != Value::Empty && self.possible_values@[v.digit() - 1] != Value::Empty
    }

    /// The candidates of the cell in ascending order: none for a cell that
    /// holds a value, the open slots for one that does not.
    pub open spec fn candidate_list(&self) -> Seq<Value> {
        if self.value != Value::Empty {
            Seq::empty()
        } else {
            open_slots(self.possible_values@, 9)
        }
    }

    /// The candidates of the cell as a set.
    pub open spec fn candidates(&self) -> Set<Value> {
        Set::new(|v: Value| self.value == Value::Empty && self.has_slot(v))
    }

    /// Creates an empty, editable cell to which every digit is open.
    pub fn new() -> (cell: Cell)
        ensures
            cell.value == Value::Empty,
            cell.mutable,
            cell.wf(),
            forall|v: Value| v != Value::Empty ==> cell.has_slot(v),
            cell.possible_values@ == seq![
                Value::One,
                Value::Two,
                Value::Three,
                Value::Four,
                Value::Five,
                Value::Six,
                Value::Seven,
                Value::Eight,
                Value::Nine,
            ],
    {
        let cell = Cell {
            value: Value::Empty,
            possible_values: [
                Value::One,
                Value::Two,
                Value::Three,
                Value::Four,
                Value::Five,
                Value::Six,
                Value::Seven,
                Value::Eight,
                Value::Nine,
            ],
            mutable: true,
        };
        assert(cell.possible_values@ =~= seq![
            Value::One,
            Value::Two,
            Value::Three,
            Value::Four,
            Value::Five,
            Value::Six,
            Value::Seven,
            Value::Eight,
            Value::Nine,
        ]);
        cell
    }

    /// Marks the cell as a clue, which can no longer be edited.
    pub fn set_immutable(&mut self)
        ensures
            !final(self).mutable,
            final(self).value == old(self).value,
            final(self).possible_values == old(self).possible_values,
    {
        self.mutable = false;
    }

    /// Rules the digit `val` out; does nothing for `Empty`.
    pub fn remove_possible_value(&mut self, val: Value)
        ensures
            final(self).value == old(self).value,
            final(self).mutable == old(self).mutable,
            val == Value::Empty ==> final(self).possible_values == old(self).possible_values,
            val != Value::Empty ==> final(self).possible_values@ == old(
                self,
            ).possible_values@.update(val.digit() - 1, Value::Empty),
            old(self).wf() ==> final(self).wf(),
    {
        if val != Value::Empty {
            self.possible_values[val.to_usize() - 1] = Value::Empty;
        }
    }

    /// Opens the digit `val` to the cell again; does nothing for `Empty`.
    pub fn add_possible_value(&mut self, val: Value)
        ensures
            final(self).value == old(self).value,
            final(self).mutable == old(self).mutable,
            val == Value::Empty ==> final(self).possible_values == old(self).possible_values,
            val != Value::Empty ==> final(self).possible_values@ == old(
                self,
            ).possible_values@.update(val.digit() - 1, val),
            old(self).wf() ==> final(self).wf(),
    {
        if val != Value::Empty {
            self.possible_values[val.to_usize() - 1] = val;
        }
    }

    /// Returns the candidates of the cell in ascending order.
    pub fn possible_values(&self) -> (values: Vec<Value>)
        ensures
            values@ == self.candidate_list(),
    {
        let mut values: Vec<Value> = Vec::new();
        if self.value != Value::Empty {
            return values;
        }
        let mut i: usize = 0;
        while i < 9
            invariant
                i <= 9,
                values@ == open_slots(self.possible_values@, i as int),
            decreases 9 - i,
        {
            let val = self.possible_values[i];
            if val != Value::Empty {
                values.push(val);
            }
            i += 1;
        }
        values
    }
}

impl From<Value> for Cell {
    /// Creates an editable cell that holds `value` and to which no digit is
    /// open.
    fn from(value: Value) -> (cell: Cell) {
        Cell { value, possible_values: [Value::Empty; 9], mutable: true }
    }
}

impl vstd::std_specs::convert::FromSpecImpl<Value> for Cell {
    open spec fn obeys_from_spec() -> bool {
        true
    }

    open spec fn from_spec(value: Value) -> Cell {
        Cell { value, possible_values: closed_slots(), mutable: true }
    }
}

/// Nine slots of which none is open.
pub open spec fn closed_slots() -> [Value; 9] {
    vstd::array::spec_array_fill_for_copy_type(Value::Empty)
}

/// What the open slots hold: each entry is a digit whose slot is open, every
/// such digit below the bound is there, and the entries ascend.
pub proof fn lemma_open_slots(cell: Cell, n: int)
    requires
        cell.wf(),
        0 <= n <= 9,
    ensures
        open_slots(cell.possible_values@, n).len() <= n,
        forall|k: int|
            0 <= k < open_slots(cell.possible_values@, n).len() ==> {
                let v = #[trigger] open_slots(cell.possible_values@, n)[k];
                cell.has_slot(v) && v.digit() <= n
            },
        forall|v: Value|
            cell.has_slot(v) && v.digit() <= n ==> open_slots(cell.possible_values@, n).contains(v),
        forall|j: int, k: int|
            0 <= j < k < open_slots(cell.possible_values@, n).len() ==> open_slots(
                cell.possible_values@,
                n,
            )[j].digit() < open_slots(cell.possible_values@, n)[k].digit(),
    decreases n,
{
    let slots = cell.possible_values@;
    if n > 0 {
        lemma_open_slots(cell, n - 1);
        let prev = open_slots(slots, n - 1);
        let cur = open_slots(slots, n);
        assert(slots[n - 1] == Value::Empty || slots[n - 1] == Value::of_digit(n));
        if slots[n - 1] != Value::Empty {
            assert(cur == prev.push(slots[n - 1]));
            assert forall|v: Value| cell.has_slot(v) && v.digit() <= n implies cur.contains(v) by {
                if v.digit() == n {
                    lemma_digit_of_digit(v, n);
                    assert(cur[prev.len() as int] == v);
                } else {
                    assert(prev.contains(v));
                    let k = choose|k: int| 0 <= k < prev.len() && prev[k] == v;
                    assert(cur[k] == v);
                }
            }
        } else {
            assert forall|v: Value| cell.has_slot(v) && v.digit() <= n implies cur.contains(v) by {
                assert(v.digit() != n);
            }
        }
    }
}

/// The candidate list and the candidate set hold the same digits, and a cell
/// that holds a value has neither.
pub proof fn lemma_candidate_list(cell: Cell)
    requires
        cell.wf(),
    ensures
        cell.candidate_list().len() <= 9,
        cell.candidate_list().len() == 0 <==> cell.candidates() =~= Set::empty(),
        forall|v: Value| cell.candidate_list().contains(v) <==> cell.candidates().contains(v),
        forall|k: int|
            0 <= k < cell.candidate_list().len() ==> #[trigger] cell.candidate_list()[k]
                != Value::Empty,
        forall|j: int, k: int|
            0 <= j < k < cell.candidate_list().len() ==> cell.candidate_list()[j].digit()
                < cell.candidate_list()[k].digit(),
{
    let list = cell.candidate_list();
    if cell.value == Value::Empty {
        lemma_open_slots(cell, 9);
        assert forall|v: Value| list.contains(v) implies cell.candidates().contains(v) by {
            let k = choose|k: int| 0 <= k < list.len() && list[k] == v;
            assert(cell.has_slot(list[k]));
        }
        assert forall|v: Value| cell.candidates().contains(v) implies list.contains(v) by {
            lemma_digit_of_digit(v, 0);
        }
        if list.len() == 0 {
            assert forall|v: Value| !cell.candidates().contains(v) by {
                if cell.candidates().contains(v) {
                    assert(list.contains(v));
                }
            }
        } else {
            assert(list.contains(list[0]));
        }
    }
}

} // verus!
