//! An entry of the frontier: an empty cell with its candidates.

use crate::value::Value;
use vstd::prelude::*;

verus! {

/// An empty cell, by its row and column counted from 1, with its candidates
/// in ascending order.
#[derive(Debug)]
pub struct PossibleCellValues {
    pub row: usize,
    pub col: usize,
    pub values: Vec<Value>,
}

/// A frontier entry as a mathematical value.
pub struct Entry {
    pub row: int,
    pub col: int,
    pub values: Seq<Value>,
}

impl View for PossibleCellValues {
    type V = Entry;

    open spec fn view(&self) -> Entry {
        Entry { row: self.row as int, col: self.col as int, values: self.values@ }
    }
}

impl PartialEq for PossibleCellValues {
    /// Two entries are equal if they name the same cell with the same
    /// candidates.
    fn eq(&self, other: &Self) -> (b: bool) {
        if self.row != other.row || self.col != other.col || self.values.len()
            != other.values.len() {
            return false;
        }
        let mut i: usize = 0;
        while i < self.values.len()
            invariant
                i <= self.values@.len(),
                self.values@.len() == other.values@.len(),
                forall|j: int| 0 <= j < i ==> self.values@[j] == other.values@[j],
            decreases self.values@.len() - i,
        {
            if self.values[i] != other.values[i] {
                return false;
            }
            i += 1;
        }
        assert(self.values@ =~= other.values@);
        true
    }
}

impl Eq for PossibleCellValues {

}

impl vstd::std_specs::cmp::PartialEqSpecImpl for PossibleCellValues {
    open spec fn obeys_eq_spec() -> bool {
        true
    }

    open spec fn eq_spec(&self, other: &Self) -> bool {
        self@ == other@
    }
}

/// The place of an entry in the order of the frontier: row by row, and from
/// left to right within a row.
pub open spec fn rank(e: Entry) -> int {
    (e.row - 1) * 9 + (e.col - 1)
}

/// `i` is the entry that is taken next: none has fewer candidates, and each
/// one before it has more.
pub open spec fn is_mrv(f: Seq<Entry>, i: int) -> bool {
    &&& 0 <= i < f.len()
    &&& forall|k: int| 0 <= k < f.len() ==> f[i].values.len() <= (#[trigger] f[k]).values.len()
    &&& forall|k: int| 0 <= k < i ==> f[i].values.len() < (#[trigger] f[k]).values.len()
}

/// The index of the entry that is taken next.
pub open spec fn mrv_index(f: Seq<Entry>) -> int {
    choose|i: int| is_mrv(f, i)
}

/// At most one index is the next to be taken.
pub proof fn lemma_mrv_unique(f: Seq<Entry>, i: int, j: int)
    requires
        is_mrv(f, i),
        is_mrv(f, j),
    ensures
        i == j,
{
    if i < j {
        assert(f[j].values.len() < f[i].values.len());
        assert(f[i].values.len() <= f[j].values.len());
    }
    if j < i {
        assert(f[i].values.len() < f[j].values.len());
        assert(f[j].values.len() <= f[i].values.len());
    }
}

/// Among the first `n` entries, `i` has no more candidates than any, and
/// fewer than each one before it.
pub open spec fn is_mrv_among(f: Seq<Entry>, n: int, i: int) -> bool {
    &&& 0 <= i < n <= f.len()
    &&& forall|k: int| 0 <= k < n ==> f[i].values.len() <= (#[trigger] f[k]).values.len()
    &&& forall|k: int| 0 <= k < i ==> f[i].values.len() < (#[trigger] f[k]).values.len()
}

/// Among any first entries there is one that is taken next.
pub proof fn lemma_mrv_among(f: Seq<Entry>, n: int) -> (i: int)
    requires
        0 < n <= f.len(),
    ensures
        is_mrv_among(f, n, i),
    decreases n,
{
    if n == 1 {
        0
    } else {
        let i0 = lemma_mrv_among(f, n - 1);
        if f[n - 1].values.len() < f[i0].values.len() {
            assert forall|k: int| 0 <= k < n - 1 implies f[n - 1].values.len() < (
            #[trigger] f[k]).values.len() by {
                assert(f[i0].values.len() <= f[k].values.len());
            }
            n - 1
        } else {
            i0
        }
    }
}

/// A frontier that is not empty has an entry that is taken next, and
/// `mrv_index` names it.
pub proof fn lemma_some_mrv(f: Seq<Entry>)
    requires
        f.len() > 0,
    ensures
        is_mrv(f, mrv_index(f)),
{
    let i = lemma_mrv_among(f, f.len() as int);
    assert(is_mrv(f, i));
}

} // verus!
