//! The trace of one circuit instance and the layouter that fills it: regions
//! of rows, write-once cells, selector flags, and copy constraints.
use crate::error::Error;
use crate::expr::{contains_column, Column, ColumnKind, Selector};
use crate::field::Fe;
use crate::system::ConstraintSystem;
use vstd::prelude::*;

verus! {

/// What a cell holds.
#[derive(Clone, Copy, Debug)]
pub enum Slot {
    /// Never written.
    Empty,
    /// Written during a pass without concrete witnesses.
    Unknown,
    Known(Fe),
}

/// A (column, absolute row) position.
#[derive(Clone, Copy, Debug, PartialEq, Eq, Structural)]
pub struct Cell {
    pub column: Column,
    pub row: usize,
}

/// A handle to a written cell and the value it holds, `None` when unknown.
#[derive(Clone, Copy, Debug)]
pub struct AssignedCell {
    pub cell: Cell,
    pub value: Option<Fe>,
}

/// A block of `height` rows starting at absolute row `start`.
#[derive(Debug)]
pub struct Region {
    pub name: String,
    pub start: usize,
    pub height: usize,
}

/// The cells, selector flags and copy constraints of one circuit instance.
#[derive(Debug)]
pub struct Trace {
    /// Number of rows.
    pub n: usize,
    pub advice: Vec<Vec<Slot>>,
    pub instance: Vec<Vec<Slot>>,
    pub fixed: Vec<Vec<Slot>>,
    pub selectors: Vec<Vec<bool>>,
    /// Pairs of cells asserted equal.
    pub copies: Vec<(Cell, Cell)>,
    /// Columns on which copy constraints are allowed.
    pub equality: Vec<Column>,
    /// First row not yet given to a region.
    pub next_row: usize,
}

/// The value of a slot, if concrete.
pub open spec fn slot_value(s: Slot) -> Option<Fe> {
    match s {
        Slot::Known(f) => Some(f),
        _ => None,
    }
}

/// Writing `v` over `s` would contradict the value already there.
pub open spec fn conflicts(s: Slot, v: Option<Fe>) -> bool {
    s matches Slot::Known(x) && v matches Some(y) && x.val() != y.val()
}

/// The slot after writing `v` over `s` (when they do not conflict): a known
/// value is never replaced, an unknown one never hides a known one.
pub open spec fn merged(s: Slot, v: Option<Fe>) -> Slot {
    match s {
        Slot::Known(x) => Slot::Known(x),
        _ => match v {
            Some(y) => Slot::Known(y),
            None => Slot::Unknown,
        },
    }
}

fn merge(s: Slot, v: Option<Fe>) -> (r: Slot)
    ensures
        r == merged(s, v),
{
    match s {
        Slot::Known(x) => Slot::Known(x),
        _ => match v {
            Some(y) => Slot::Known(y),
            None => Slot::Unknown,
        },
    }
}

impl Trace {
    pub open spec fn has_col(&self, c: Column) -> bool {
        match c.kind {
            ColumnKind::Advice => c.index < self.advice@.len(),
            ColumnKind::Instance => c.index < self.instance@.len(),
            ColumnKind::Fixed => c.index < self.fixed@.len(),
        }
    }

    pub open spec fn has_cell(&self, c: Cell) -> bool {
        self.has_col(c.column) && c.row < self.n
    }

    pub open spec fn slot(&self, c: Column, row: int) -> Slot {
        match c.kind {
            ColumnKind::Advice => self.advice@[c.index as int]@[row],
            ColumnKind::Instance => self.instance@[c.index as int]@[row],
            ColumnKind::Fixed => self.fixed@[c.index as int]@[row],
        }
    }

    pub open spec fn enabled(&self, s: Selector, row: int) -> bool {
        self.selectors@[s.index as int]@[row]
    }

    pub open spec fn equality_enabled(&self, c: Column) -> bool {
        self.equality@.contains(c)
    }

    /// Every column has `n` rows, every known value is canonical, every copy
    /// names cells inside the trace.
    pub open spec fn wf(&self) -> bool {
        &&& forall|i: int| 0 <= i < self.advice@.len() ==> (#[trigger] self.advice@[i])@.len() == self.n
        &&& forall|i: int| 0 <= i < self.instance@.len() ==> (#[trigger] self.instance@[i])@.len() == self.n
        &&& forall|i: int| 0 <= i < self.fixed@.len() ==> (#[trigger] self.fixed@[i])@.len() == self.n
        &&& forall|i: int| 0 <= i < self.selectors@.len() ==> (#[trigger] self.selectors@[i])@.len() == self.n
        &&& forall|c: Column, row: int|
            self.has_col(c) && 0 <= row < self.n && #[trigger] self.slot(c, row) is Known
                ==> self.slot(c, row)->Known_0.wf()
        &&& forall|i: int|
            0 <= i < self.copies@.len() ==> self.has_cell((#[trigger] self.copies@[i]).0)
                && self.has_cell(self.copies@[i].1)
        &&& self.next_row <= self.n
        &&& forall|c: Column, row: int|
            self.has_col(c) && c.kind != ColumnKind::Instance && self.next_row <= row < self.n
                ==> #[trigger] self.slot(c, row) is Empty
    }

    /// The trace was laid out for the columns and selectors of `cs`.
    pub open spec fn fits(&self, cs: &ConstraintSystem) -> bool {
        &&& self.advice@.len() == cs.num_advice
        &&& self.instance@.len() == cs.num_instance
        &&& self.fixed@.len() == cs.num_fixed
        &&& self.selectors@.len() == cs.num_selectors
        &&& self.equality@ == cs.equality@
    }

    /// `r` is a block of rows already handed out by the layouter.
    pub open spec fn region_fits(&self, r: &Region) -> bool {
        r.start + r.height <= self.next_row
    }

    /// Everything but the cells is the same in `self` and `o`.
    pub open spec fn same_shape(&self, o: &Trace) -> bool {
        &&& self.n == o.n
        &&& self.advice@.len() == o.advice@.len()
        &&& self.instance@.len() == o.instance@.len()
        &&& self.fixed@.len() == o.fixed@.len()
        &&& self.selectors@.len() == o.selectors@.len()
        &&& self.equality@ == o.equality@
        &&& self.next_row == o.next_row
    }

    /// The rows, columns, selectors and equality-enabled columns of `self` are those of `o`.
    pub open spec fn same_columns(&self, o: &Trace) -> bool {
        &&& self.n == o.n
        &&& self.advice@.len() == o.advice@.len()
        &&& self.instance@.len() == o.instance@.len()
        &&& self.fixed@.len() == o.fixed@.len()
        &&& self.selectors@.len() == o.selectors@.len()
        &&& self.equality@ == o.equality@
    }

    /// The instance and fixed cells of `self` are those of `o`.
    pub open spec fn same_non_advice(&self, o: &Trace) -> bool {
        forall|c: Column, row: int|
            self.has_col(c) && c.kind != ColumnKind::Advice && 0 <= row < self.n ==> #[trigger] self.slot(c, row)
                == o.slot(c, row)
    }

    /// Every cell that `written` does not name is the same in `self` and `o`.
    pub open spec fn cells_same_outside(&self, o: &Trace, written: spec_fn(Column, int) -> bool) -> bool {
        forall|c: Column, row: int|
            self.has_col(c) && 0 <= row < self.n && !written(c, row) ==> #[trigger] self.slot(c, row) == o.slot(c, row)
    }

    /// Every selector flag that `set` does not name (by selector index and
    /// row) is the same in `self` and `o`, and those it names are enabled.
    pub open spec fn selectors_set(&self, o: &Trace, set: spec_fn(int, int) -> bool) -> bool {
        forall|s: Selector, row: int|
            0 <= s.index < self.selectors@.len() && 0 <= row < self.n ==> #[trigger] self.enabled(s, row) == (
            o.enabled(s, row) || set(s.index as int, row))
    }

    /// The cells of `self` are those of `o`.
    pub open spec fn same_cells(&self, o: &Trace) -> bool {
        forall|c: Column, row: int|
            self.has_col(c) && 0 <= row < self.n ==> #[trigger] self.slot(c, row) == o.slot(c, row)
    }

    /// The selector flags of `self` are those of `o`.
    pub open spec fn same_selectors(&self, o: &Trace) -> bool {
        forall|s: Selector, row: int|
            0 <= s.index < self.selectors@.len() && 0 <= row < self.n ==> #[trigger] self.enabled(s, row)
                == o.enabled(s, row)
    }

    /// An empty trace of `n` rows for the columns and selectors of `cs`.
    pub fn new(cs: &ConstraintSystem, n: usize) -> (r: Trace)
        requires
            cs.wf(),
        ensures
            r.wf(),
            r.fits(cs),
            r.n == n,
            r.next_row == 0,
            r.copies@.len() == 0,
            forall|c: Column, row: int| r.has_col(c) && 0 <= row < n ==> #[trigger] r.slot(c, row) is Empty,
            forall|s: Selector, row: int| 0 <= s.index < r.selectors@.len() && 0 <= row < n ==> !#[trigger] r.enabled(s, row),
    {
        let advice = empty_columns(cs.num_advice, n);
        let instance = empty_columns(cs.num_instance, n);
        let fixed = empty_columns(cs.num_fixed, n);
        let mut selectors: Vec<Vec<bool>> = Vec::new();
        let mut i: usize = 0;
        while i < cs.num_selectors
            invariant
                i <= cs.num_selectors,
                selectors@.len() == i,
                forall|j: int| 0 <= j < i ==> (#[trigger] selectors@[j])@.len() == n,
                forall|j: int, row: int| 0 <= j < i && 0 <= row < n ==> !#[trigger] selectors@[j]@[row],
            decreases cs.num_selectors - i,
        {
            let mut flags: Vec<bool> = Vec::new();
            let mut k: usize = 0;
            while k < n
                invariant
                    k <= n,
                    flags@.len() == k,
                    forall|row: int| 0 <= row < k ==> !#[trigger] flags@[row],
                decreases n - k,
            {
                flags.push(false);
                k = k + 1;
            }
            selectors.push(flags);
            i = i + 1;
        }
        let mut equality: Vec<Column> = Vec::new();
        let mut j: usize = 0;
        while j < cs.equality.len()
            invariant
                j <= cs.equality@.len(),
                equality@ == cs.equality@.subrange(0, j as int),
            decreases cs.equality@.len() - j,
        {
            equality.push(cs.equality[j]);
            j = j + 1;
        }
        assert(equality@ =~= cs.equality@);
        Trace { n, advice, instance, fixed, selectors, copies: Vec::new(), equality, next_row: 0 }
    }
}

impl Trace {
    /// The slot at `c`, `row`.
    pub fn read(&self, c: Column, row: usize) -> (r: Slot)
        requires
            self.has_col(c),
            row < self.n,
            self.wf(),
        ensures
            r == self.slot(c, row as int),
    {
        match c.kind {
            ColumnKind::Advice => self.advice[c.index][row],
            ColumnKind::Instance => self.instance[c.index][row],
            ColumnKind::Fixed => self.fixed[c.index][row],
        }
    }

    /// Whether selector `s` is enabled at `row`.
    pub fn is_enabled(&self, s: Selector, row: usize) -> (r: bool)
        requires
            s.index < self.selectors@.len(),
            row < self.n,
            self.wf(),
        ensures
            r == self.enabled(s, row as int),
    {
        self.selectors[s.index][row]
    }

    fn write(&mut self, c: Column, row: usize, v: Slot)
        requires
            old(self).wf(),
            old(self).has_col(c),
            row < old(self).n,
            c.kind == ColumnKind::Instance || row < old(self).next_row,
            v matches Slot::Known(f) ==> f.wf(),
        ensures
            final(self).wf(),
            final(self).same_shape(old(self)),
            final(self).same_selectors(old(self)),
            final(self).copies@ == old(self).copies@,
            final(self).slot(c, row as int) == v,
            forall|c2: Column, r2: int|
                final(self).has_col(c2) && 0 <= r2 < final(self).n && !(c2 == c && r2 == row)
                    ==> #[trigger] final(self).slot(c2, r2) == old(self).slot(c2, r2),
    {
        match c.kind {
            ColumnKind::Advice => {
                self.advice[c.index].set(row, v);
            },
            ColumnKind::Instance => {
                self.instance[c.index].set(row, v);
            },
            ColumnKind::Fixed => {
                self.fixed[c.index].set(row, v);
            },
        }
        proof {
            assert forall|c2: Column, r2: int|
                self.has_col(c2) && 0 <= r2 < self.n && #[trigger] self.slot(c2, r2) is Known
                    implies self.slot(c2, r2)->Known_0.wf() by {
                if !(c2 == c && r2 == row) {
                    assert(old(self).slot(c2, r2) == self.slot(c2, r2));
                }
            }
            assert forall|c2: Column, r2: int|
                self.has_col(c2) && c2.kind != ColumnKind::Instance && self.next_row <= r2 < self.n
                    implies #[trigger] self.slot(c2, r2) is Empty by {
                assert(old(self).slot(c2, r2) == self.slot(c2, r2));
            }
        }
    }
}

impl Trace {
    /// Places a fresh region of `height` rows right after the last one.
    /// Regions never overlap and keep their internal row order.
    pub fn assign_region(&mut self, name: String, height: usize) -> (r: Result<Region, Error>)
        requires
            old(self).wf(),
        ensures
            final(self).wf(),
            final(self).same_cells(old(self)),
            final(self).same_selectors(old(self)),
            final(self).copies@ == old(self).copies@,
            r is Err <==> old(self).next_row + height > old(self).n,
            r is Err ==> r == Err::<Region, Error>(Error::NotEnoughRows) && *final(self) == *old(self),
            r matches Ok(reg) ==> reg.name@ == name@ && reg.start == old(self).next_row
                && reg.height == height && final(self).next_row == old(self).next_row + height
                && final(self).region_fits(&reg),
            r is Ok ==> final(self).n == old(self).n && final(self).equality@ == old(self).equality@,
            final(self).advice@.len() == old(self).advice@.len(),
            final(self).instance@.len() == old(self).instance@.len(),
            final(self).fixed@.len() == old(self).fixed@.len(),
            final(self).selectors@.len() == old(self).selectors@.len(),
    {
        if height > self.n - self.next_row {
            return Err(Error::NotEnoughRows);
        }
        let start = self.next_row;
        self.next_row = self.next_row + height;
        proof {
            assert forall|c: Column, r2: int|
                self.has_col(c) && 0 <= r2 < self.n && #[trigger] self.slot(c, r2) is Known
                    implies self.slot(c, r2)->Known_0.wf() by {
                assert(old(self).slot(c, r2) == self.slot(c, r2));
            }
            assert forall|c2: Column, r2: int|
                self.has_col(c2) && c2.kind != ColumnKind::Instance && self.next_row <= r2 < self.n
                    implies #[trigger] self.slot(c2, r2) is Empty by {
                assert(old(self).slot(c2, r2) == self.slot(c2, r2));
            }
        }
        Ok(Region { name, start, height })
    }

    /// Enables selector `s` at row `offset` of `region`.
    pub fn enable_selector(
        &mut self,
        region: &Region,
        s: Selector,
        offset: usize,
    ) -> (r: Result<(), Error>)
        requires
            old(self).wf(),
            old(self).region_fits(region),
            s.index < old(self).selectors@.len(),
        ensures
            final(self).wf(),
            final(self).same_shape(old(self)),
            final(self).same_cells(old(self)),
            final(self).copies@ == old(self).copies@,
            r is Err <==> offset >= region.height,
            r matches Err(e) ==> e == (Error::OutOfRegion { region: region.name, offset })
                && *final(self) == *old(self),
            r is Ok ==> final(self).enabled(s, region.start + offset),
            forall|s2: Selector, row: int|
                0 <= s2.index < final(self).selectors@.len() && 0 <= row < final(self).n
                    && !(r is Ok && s2.index == s.index && row == region.start + offset)
                    ==> #[trigger] final(self).enabled(s2, row) == old(self).enabled(s2, row),
    {
        if offset >= region.height {
            return Err(Error::OutOfRegion { region: region.name.clone(), offset });
        }
        let row = region.start + offset;
        self.selectors[s.index].set(row, true);
        proof {
            assert forall|c: Column, r2: int|
                self.has_col(c) && 0 <= r2 < self.n && #[trigger] self.slot(c, r2) is Known
                    implies self.slot(c, r2)->Known_0.wf() by {
                assert(old(self).slot(c, r2) == self.slot(c, r2));
            }
            assert forall|c2: Column, r2: int|
                self.has_col(c2) && c2.kind != ColumnKind::Instance && self.next_row <= r2 < self.n
                    implies #[trigger] self.slot(c2, r2) is Empty by {
                assert(old(self).slot(c2, r2) == self.slot(c2, r2));
            }
        }
        Ok(())
    }

    /// Writes `value` (unknown when `None`) at row `offset` of `region`.
    fn assign_cell(
        &mut self,
        region: &Region,
        c: Column,
        offset: usize,
        value: Option<Fe>,
    ) -> (r: Result<AssignedCell, Error>)
        requires
            old(self).wf(),
            old(self).region_fits(region),
            old(self).has_col(c),
            value matches Some(f) ==> f.wf(),
        ensures
            final(self).wf(),
            final(self).same_shape(old(self)),
            final(self).same_selectors(old(self)),
            final(self).copies@ == old(self).copies@,
            r is Err ==> *final(self) == *old(self),
            offset >= region.height ==> (r matches Err(e) && e == (Error::OutOfRegion { region: region.name, offset })),
            offset < region.height ==> (r is Err <==> conflicts(old(self).slot(c, region.start + offset), value)),
            offset < region.height && r is Err ==> (r matches Err(e) && e
                == (Error::ConflictingAssignment { region: region.name, offset })),
            r matches Ok(a) ==> a.cell == (Cell { column: c, row: (region.start + offset) as usize })
                && final(self).slot(c, region.start + offset) == merged(old(self).slot(c, region.start + offset), value)
                && a.value == slot_value(final(self).slot(c, region.start + offset)),
            forall|c2: Column, r2: int|
                final(self).has_col(c2) && 0 <= r2 < final(self).n && !(c2 == c && r2 == region.start + offset)
                    ==> #[trigger] final(self).slot(c2, r2) == old(self).slot(c2, r2),
    {
        if offset >= region.height {
            return Err(Error::OutOfRegion { region: region.name.clone(), offset });
        }
        let row = region.start + offset;
        let cur = self.read(c, row);
        match (cur, value) {
            (Slot::Known(x), Some(y)) => {
                if !x.equals(&y) {
                    return Err(Error::ConflictingAssignment { region: region.name.clone(), offset });
                }
            },
            _ => {},
        }
        let next = merge(cur, value);
        self.write(c, row, next);
        Ok(AssignedCell { cell: Cell { column: c, row }, value: slot_value_of(next) })
    }

    /// Writes an advice cell. The value may be unknown.
    pub fn assign_advice(
        &mut self,
        region: &Region,
        c: Column,
        offset: usize,
        value: Option<Fe>,
    ) -> (r: Result<AssignedCell, Error>)
        requires
            old(self).wf(),
            old(self).region_fits(region),
            value matches Some(f) ==> f.wf(),
        ensures
            final(self).wf(),
            final(self).same_shape(old(self)),
            final(self).same_selectors(old(self)),
            final(self).copies@ == old(self).copies@,
            r is Err ==> *final(self) == *old(self),
            !(c.kind == ColumnKind::Advice && old(self).has_col(c)) ==> (r matches Err(e) && e == Error::WrongColumnKind),
            c.kind == ColumnKind::Advice && old(self).has_col(c) && offset >= region.height ==> (r matches Err(e)
                && e == (Error::OutOfRegion { region: region.name, offset })),
            c.kind == ColumnKind::Advice && old(self).has_col(c) && offset < region.height ==> (r is Err
                <==> conflicts(old(self).slot(c, region.start + offset), value)),
            c.kind == ColumnKind::Advice && old(self).has_col(c) && offset < region.height && r is Err ==> (r matches Err(e)
                && e == (Error::ConflictingAssignment { region: region.name, offset })),
            r matches Ok(a) ==> a.cell == (Cell { column: c, row: (region.start + offset) as usize })
                && final(self).slot(c, region.start + offset) == merged(old(self).slot(c, region.start + offset), value)
                && a.value == slot_value(final(self).slot(c, region.start + offset)),
            forall|c2: Column, r2: int|
                final(self).has_col(c2) && 0 <= r2 < final(self).n && !(c2 == c && r2 == region.start + offset)
                    ==> #[trigger] final(self).slot(c2, r2) == old(self).slot(c2, r2),
    {
        if c.kind != ColumnKind::Advice || c.index >= self.advice.len() {
            return Err(Error::WrongColumnKind);
        }
        self.assign_cell(region, c, offset, value)
    }

    /// Writes a cell of a fixed (table) column.
    pub fn assign_fixed(
        &mut self,
        region: &Region,
        c: Column,
        offset: usize,
        value: Fe,
    ) -> (r: Result<AssignedCell, Error>)
        requires
            old(self).wf(),
            old(self).region_fits(region),
            value.wf(),
        ensures
            final(self).wf(),
            final(self).same_shape(old(self)),
            final(self).same_selectors(old(self)),
            final(self).copies@ == old(self).copies@,
            r is Err ==> *final(self) == *old(self),
            !(c.kind == ColumnKind::Fixed && old(self).has_col(c)) ==> (r matches Err(e) && e == Error::WrongColumnKind),
            c.kind == ColumnKind::Fixed && old(self).has_col(c) && offset >= region.height ==> (r matches Err(e)
                && e == (Error::OutOfRegion { region: region.name, offset })),
            c.kind == ColumnKind::Fixed && old(self).has_col(c) && offset < region.height ==> (r is Err
                <==> conflicts(old(self).slot(c, region.start + offset), Some(value))),
            c.kind == ColumnKind::Fixed && old(self).has_col(c) && offset < region.height && r is Err ==> (r matches Err(e)
                && e == (Error::ConflictingAssignment { region: region.name, offset })),
            r matches Ok(a) ==> a.cell == (Cell { column: c, row: (region.start + offset) as usize })
                && final(self).slot(c, region.start + offset) == merged(old(self).slot(c, region.start + offset), Some(value))
                && a.value == slot_value(final(self).slot(c, region.start + offset)),
            forall|c2: Column, r2: int|
                final(self).has_col(c2) && 0 <= r2 < final(self).n && !(c2 == c && r2 == region.start + offset)
                    ==> #[trigger] final(self).slot(c2, r2) == old(self).slot(c2, r2),
    {
        if c.kind != ColumnKind::Fixed || c.index >= self.fixed.len() {
            return Err(Error::WrongColumnKind);
        }
        self.assign_cell(region, c, offset, Some(value))
    }

    /// Whether copy constraints are allowed on `c`.
    pub fn has_equality(&self, c: Column) -> (r: bool)
        ensures
            r == self.equality_enabled(c),
    {
        contains_column(&self.equality, c)
    }

    /// Registers a copy constraint between two cells of the trace.
    pub fn constrain_equal(&mut self, a: Cell, b: Cell) -> (r: Result<(), Error>)
        requires
            old(self).wf(),
            old(self).has_cell(a),
            old(self).has_cell(b),
        ensures
            final(self).wf(),
            final(self).same_shape(old(self)),
            final(self).same_cells(old(self)),
            final(self).same_selectors(old(self)),
            r is Err <==> !(old(self).equality_enabled(a.column) && old(self).equality_enabled(b.column)),
            r matches Err(e) ==> e == Error::EqualityNotEnabled && *final(self) == *old(self),
            r is Ok ==> final(self).copies@ == old(self).copies@.push((a, b)),
    {
        if !self.has_equality(a.column) || !self.has_equality(b.column) {
            return Err(Error::EqualityNotEnabled);
        }
        self.copies.push((a, b));
        proof {
            assert forall|c: Column, r2: int|
                self.has_col(c) && 0 <= r2 < self.n && #[trigger] self.slot(c, r2) is Known
                    implies self.slot(c, r2)->Known_0.wf() by {
                assert(old(self).slot(c, r2) == self.slot(c, r2));
            }
            assert forall|c2: Column, r2: int|
                self.has_col(c2) && c2.kind != ColumnKind::Instance && self.next_row <= r2 < self.n
                    implies #[trigger] self.slot(c2, r2) is Empty by {
                assert(old(self).slot(c2, r2) == self.slot(c2, r2));
            }
            assert forall|i: int| 0 <= i < self.copies@.len() implies self.has_cell((#[trigger] self.copies@[i]).0)
                && self.has_cell(self.copies@[i].1) by {
                if i < old(self).copies@.len() {
                    assert(old(self).copies@[i] == self.copies@[i]);
                }
            }
        }
        Ok(())
    }
}

impl Trace {
    /// Writes the value of `src` into row `offset` of `region` in advice
    /// column `c`, and asserts the two cells equal.
    pub fn copy_advice(
        &mut self,
        src: &AssignedCell,
        region: &Region,
        c: Column,
        offset: usize,
    ) -> (r: Result<AssignedCell, Error>)
        requires
            old(self).wf(),
            old(self).region_fits(region),
            old(self).has_cell(src.cell),
            src.value matches Some(f) ==> f.wf(),
        ensures
            final(self).wf(),
            final(self).same_shape(old(self)),
            final(self).same_selectors(old(self)),
            r is Err ==> *final(self) == *old(self),
            !(c.kind == ColumnKind::Advice && old(self).has_col(c)) ==> (r matches Err(e) && e == Error::WrongColumnKind),
            c.kind == ColumnKind::Advice && old(self).has_col(c) && !(old(self).equality_enabled(c)
                && old(self).equality_enabled(src.cell.column)) ==> (r matches Err(e) && e == Error::EqualityNotEnabled),
            c.kind == ColumnKind::Advice && old(self).has_col(c) && old(self).equality_enabled(c)
                && old(self).equality_enabled(src.cell.column) && offset >= region.height ==> (r matches Err(e)
                && e == (Error::OutOfRegion { region: region.name, offset })),
            c.kind == ColumnKind::Advice && old(self).has_col(c) && old(self).equality_enabled(c)
                && old(self).equality_enabled(src.cell.column) && offset < region.height ==> (r is Err
                <==> conflicts(old(self).slot(c, region.start + offset), src.value)),
            c.kind == ColumnKind::Advice && old(self).has_col(c) && old(self).equality_enabled(c)
                && old(self).equality_enabled(src.cell.column) && offset < region.height && r is Err ==> (r matches Err(e)
                && e == (Error::ConflictingAssignment { region: region.name, offset })),
            r matches Ok(a) ==> a.cell == (Cell { column: c, row: (region.start + offset) as usize })
                && final(self).slot(c, region.start + offset) == merged(old(self).slot(c, region.start + offset), src.value)
                && a.value == slot_value(final(self).slot(c, region.start + offset))
                && final(self).copies@ == old(self).copies@.push((src.cell, a.cell)),
            forall|c2: Column, r2: int|
                final(self).has_col(c2) && 0 <= r2 < final(self).n && !(c2 == c && r2 == region.start + offset)
                    ==> #[trigger] final(self).slot(c2, r2) == old(self).slot(c2, r2),
    {
        if c.kind != ColumnKind::Advice || c.index >= self.advice.len() {
            return Err(Error::WrongColumnKind);
        }
        if !self.has_equality(c) || !self.has_equality(src.cell.column) {
            return Err(Error::EqualityNotEnabled);
        }
        let a = self.assign_cell(region, c, offset, src.value)?;
        let ghost mid = *self;
        let res = self.constrain_equal(src.cell, a.cell);
        proof {
            assert(res is Ok);
            assert forall|c2: Column, r2: int|
                self.has_col(c2) && 0 <= r2 < self.n && !(c2 == c && r2 == region.start + offset)
                    implies #[trigger] self.slot(c2, r2) == old(self).slot(c2, r2) by {
                assert(mid.slot(c2, r2) == old(self).slot(c2, r2));
            }
            assert(self.slot(c, region.start + offset) == mid.slot(c, region.start + offset));
        }
        Ok(a)
    }

    /// Asserts that `cell` equals row `row` of instance column `c`.
    pub fn constrain_instance(&mut self, cell: &AssignedCell, c: Column, row: usize) -> (r: Result<(), Error>)
        requires
            old(self).wf(),
            old(self).has_cell(cell.cell),
        ensures
            final(self).wf(),
            final(self).same_shape(old(self)),
            final(self).same_cells(old(self)),
            final(self).same_selectors(old(self)),
            r is Err ==> *final(self) == *old(self),
            !(c.kind == ColumnKind::Instance && old(self).has_col(c)) ==> (r matches Err(e) && e == Error::WrongColumnKind),
            c.kind == ColumnKind::Instance && old(self).has_col(c) && row >= old(self).n ==> (r matches Err(e)
                && e == Error::RowOutOfRange),
            c.kind == ColumnKind::Instance && old(self).has_col(c) && row < old(self).n ==> (r is Err
                <==> !(old(self).equality_enabled(c) && old(self).equality_enabled(cell.cell.column))),
            r is Ok ==> final(self).copies@ == old(self).copies@.push((cell.cell, Cell { column: c, row })),
    {
        if c.kind != ColumnKind::Instance || c.index >= self.instance.len() {
            return Err(Error::WrongColumnKind);
        }
        if row >= self.n {
            return Err(Error::RowOutOfRange);
        }
        self.constrain_equal(cell.cell, Cell { column: c, row })
    }

    /// Supplies the public inputs of instance column `c`, from row zero on.
    pub fn set_instance(&mut self, c: Column, values: &Vec<Fe>) -> (r: Result<(), Error>)
        requires
            old(self).wf(),
            forall|i: int| 0 <= i < values@.len() ==> (#[trigger] values@[i]).wf(),
        ensures
            final(self).wf(),
            final(self).same_shape(old(self)),
            final(self).same_selectors(old(self)),
            final(self).copies@ == old(self).copies@,
            r is Err ==> *final(self) == *old(self),
            !(c.kind == ColumnKind::Instance && old(self).has_col(c)) ==> (r matches Err(e) && e == Error::WrongColumnKind),
            c.kind == ColumnKind::Instance && old(self).has_col(c) ==> (r is Err <==> values@.len() > old(self).n),
            r is Ok ==> forall|i: int| 0 <= i < values@.len() ==> #[trigger] final(self).slot(c, i) == Slot::Known(values@[i]),
            forall|c2: Column, r2: int|
                final(self).has_col(c2) && 0 <= r2 < final(self).n && !(c2 == c && r2 < values@.len())
                    ==> #[trigger] final(self).slot(c2, r2) == old(self).slot(c2, r2),
    {
        if c.kind != ColumnKind::Instance || c.index >= self.instance.len() {
            return Err(Error::WrongColumnKind);
        }
        if values.len() > self.n {
            return Err(Error::RowOutOfRange);
        }
        let mut i: usize = 0;
        while i < values.len()
            invariant
                i <= values@.len() <= self.n,
                self.wf(),
                self.same_shape(old(self)),
                self.same_selectors(old(self)),
                self.copies@ == old(self).copies@,
                self.has_col(c),
                c.kind == ColumnKind::Instance,
                forall|k: int| 0 <= k < values@.len() ==> (#[trigger] values@[k]).wf(),
                forall|k: int| 0 <= k < i ==> #[trigger] self.slot(c, k) == Slot::Known(values@[k]),
                forall|c2: Column, r2: int|
                    self.has_col(c2) && 0 <= r2 < self.n && !(c2 == c && r2 < i)
                        ==> #[trigger] self.slot(c2, r2) == old(self).slot(c2, r2),
            decreases values@.len() - i,
        {
            self.write(c, i, Slot::Known(values[i]));
            i = i + 1;
        }
        Ok(())
    }
}

fn slot_value_of(s: Slot) -> (r: Option<Fe>)
    ensures
        r == slot_value(s),
{
    match s {
        Slot::Known(f) => Some(f),
        _ => None,
    }
}

/// `m` columns of `n` empty slots.
fn empty_columns(m: usize, n: usize) -> (r: Vec<Vec<Slot>>)
    ensures
        r@.len() == m,
        forall|i: int| 0 <= i < m ==> (#[trigger] r@[i])@.len() == n,
        forall|i: int, row: int| 0 <= i < m && 0 <= row < n ==> #[trigger] r@[i]@[row] is Empty,
{
    let mut r: Vec<Vec<Slot>> = Vec::new();
    let mut i: usize = 0;
    while i < m
        invariant
            i <= m,
            r@.len() == i,
            forall|j: int| 0 <= j < i ==> (#[trigger] r@[j])@.len() == n,
            forall|j: int, row: int| 0 <= j < i && 0 <= row < n ==> #[trigger] r@[j]@[row] is Empty,
        decreases m - i,
    {
        let mut col: Vec<Slot> = Vec::new();
        let mut k: usize = 0;
        while k < n
            invariant
                k <= n,
                col@.len() == k,
                forall|row: int| 0 <= row < k ==> #[trigger] col@[row] is Empty,
            decreases n - k,
        {
            col.push(Slot::Empty);
            k = k + 1;
        }
        r.push(col);
        i = i + 1;
    }
    r
}

} // verus!
