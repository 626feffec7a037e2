//! A fixed column holding `0, 1, ..., range - 1`, used as a lookup table.
use crate::checker::table_contains;
use crate::error::Error;
use crate::expr::{Column, ColumnKind};
use crate::field::Fe;
use crate::layout::{Slot, Trace};
use crate::system::ConstraintSystem;
use vstd::prelude::*;

verus! {

/// Every known cell of column `c` is below `range`.
pub open spec fn column_below(t: &Trace, c: Column, range: int) -> bool {
    forall|r: int| 0 <= r < t.n && (#[trigger] t.slot(c, r) is Known) ==> t.slot(c, r)->Known_0.val() < range
}

/// Column `c` holds exactly the values `0..range`.
pub open spec fn holds_range(t: &Trace, c: Column, range: int) -> bool {
    &&& column_below(t, c, range)
    &&& forall|j: int| 0 <= j < range ==> #[trigger] table_contains(t, c, j)
}

/// The table column and the number of entries it holds.
#[derive(Clone, Copy, Debug)]
pub struct RangeCheckTable {
    pub col: Column,
    pub range: usize,
}

impl RangeCheckTable {
    /// Declares the table column.
    pub fn new(cs: &mut ConstraintSystem, range: usize) -> (r: RangeCheckTable)
        requires
            old(cs).wf(),
            old(cs).num_fixed < usize::MAX,
        ensures
            final(cs).wf(),
            r.col == (Column { kind: ColumnKind::Fixed, index: old(cs).num_fixed }),
            final(cs).num_fixed == old(cs).num_fixed + 1,
            final(cs).column_declared(r.col),
            r.range == range,
            final(cs).num_advice == old(cs).num_advice,
            final(cs).num_instance == old(cs).num_instance,
            final(cs).num_selectors == old(cs).num_selectors,
            final(cs).equality@ == old(cs).equality@,
            final(cs).gates@ == old(cs).gates@,
            final(cs).lookups@ == old(cs).lookups@,
    {
        let col = cs.lookup_table_column();
        RangeCheckTable { col, range }
    }

    pub fn table_column(&self) -> (r: Column)
        ensures
            r == self.col,
    {
        self.col
    }

    /// Writes `0..range` into a fresh region of the table column.
    pub fn load(&self, t: &mut Trace) -> (r: Result<(), Error>)
        requires
            old(t).wf(),
            self.col.kind == ColumnKind::Fixed,
            old(t).has_col(self.col),
            self.range <= u64::MAX,
        ensures
            final(t).wf(),
            final(t).same_columns(old(t)),
            final(t).same_selectors(old(t)),
            final(t).copies@ == old(t).copies@,
            r is Err <==> old(t).next_row + self.range > old(t).n,
            r is Ok ==> final(t).next_row == old(t).next_row + self.range,
            r is Err ==> *final(t) == *old(t),
            r is Ok ==> forall|j: int| 0 <= j < self.range ==> #[trigger] table_contains(final(t), self.col, j),
            r is Ok ==> forall|j: int|
                0 <= j < self.range ==> (#[trigger] final(t).slot(self.col, old(t).next_row + j) matches Slot::Known(f)
                    && f.val() == j),
            r is Ok && column_below(old(t), self.col, self.range as int) ==> holds_range(final(t), self.col, self.range as int),
            forall|c: Column, row: int|
                final(t).has_col(c) && 0 <= row < final(t).n && !(c == self.col && old(t).next_row <= row < old(t).next_row
                    + self.range) ==> #[trigger] final(t).slot(c, row) == old(t).slot(c, row),
    {
        let region = t.assign_region(String::from_str("load table"), self.range)?;
        let ghost t0 = *t;
        let mut i: usize = 0;
        while i < self.range
            invariant
                t.wf(),
                t.same_columns(old(t)),
                t.same_selectors(old(t)),
                t.copies@ == old(t).copies@,
                t.next_row == old(t).next_row + self.range,
                t.region_fits(&region),
                region.start == old(t).next_row,
                region.height == self.range,
                i <= self.range <= u64::MAX,
                self.col.kind == ColumnKind::Fixed,
                t.has_col(self.col),
                forall|j: int| 0 <= j < i ==> (#[trigger] t.slot(self.col, region.start + j) matches Slot::Known(f)
                    && f.val() == j),
                forall|c: Column, row: int|
                    t.has_col(c) && 0 <= row < t.n && !(c == self.col && region.start <= row < region.start + i)
                        ==> #[trigger] t.slot(c, row) == old(t).slot(c, row),
                forall|row: int| old(t).next_row <= row < old(t).n ==> #[trigger] old(t).slot(self.col, row) is Empty,
            decreases self.range - i,
        {
            let v = Fe::from_u64(i as u64);
            assert(t.slot(self.col, region.start + i) is Empty);
            let _ = t.assign_fixed(&region, self.col, i, v);
            proof {
                assert(t.slot(self.col, region.start + i) matches Slot::Known(f) && f.val() == i);
            }
            i = i + 1;
        }
        proof {
            assert forall|j: int| 0 <= j < self.range implies #[trigger] table_contains(t, self.col, j) by {
                assert(t.slot(self.col, region.start + j) matches Slot::Known(f) && f.val() == j);
            }
            if column_below(old(t), self.col, self.range as int) {
                assert forall|r: int| 0 <= r < t.n && (#[trigger] t.slot(self.col, r) is Known)
                    implies t.slot(self.col, r)->Known_0.val() < self.range by {
                    if !(region.start <= r < region.start + self.range) {
                        assert(t.slot(self.col, r) == old(t).slot(self.col, r));
                    } else {
                        let j = r - region.start;
                        assert(region.start + j == r);
                        assert(t.slot(self.col, region.start + j) matches Slot::Known(f) && f.val() == j);
                    }
                }
            }
        }
        Ok(())
    }
}

} // verus!
