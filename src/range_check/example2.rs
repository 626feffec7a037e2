//! A range check that uses the polynomial constraint set for small ranges and a lookup
//! into a table of `0..range` for large ones.
use crate::checker::table_contains;
use crate::error::Error;
use crate::expr::{Column, ColumnKind, Expr, Selector};
use crate::field::Fe;
use crate::layout::{merged, Slot, Trace};
use crate::range_check::example1::{is_range_poly, range_poly};
use crate::range_check::table::{column_below, holds_range, RangeCheckTable};
use crate::system::{Constraint, ConstraintSystem};
use vstd::prelude::*;

verus! {

/// Ranges up to this size are checked by the constraint set, larger ones by the lookup.
pub const GATE_RANGE_LIMIT: usize = 256;

/// Selectors for the constraint set and the lookup, the value column, and the table.
#[derive(Clone, Copy, Debug)]
pub struct RangeCheckConfig {
    pub q_check: Selector,
    pub q_table: Selector,
    pub value_col: Column,
    pub range_check_table: RangeCheckTable,
}

/// Checks that a value lies in `0..range`.
pub struct RangeCheckChip {
    pub config: RangeCheckConfig,
    pub range: usize,
}

impl RangeCheckConfig {
    pub open spec fn fits(&self, t: &Trace) -> bool {
        &&& self.value_col.kind == ColumnKind::Advice
        &&& t.has_col(self.value_col)
        &&& self.q_check.index < t.selectors@.len()
        &&& self.q_table.index < t.selectors@.len()
        &&& self.range_check_table.col.kind == ColumnKind::Fixed
        &&& t.has_col(self.range_check_table.col)
    }
}

/// `r` is the configuration that `configure` builds on `o`, giving `cs`:
/// fresh handles, one range constraint set under `q_check`, one lookup of
/// the value into the table under `q_table`, and nothing else changed.
pub open spec fn configured(r: RangeCheckConfig, o: &ConstraintSystem, cs: &ConstraintSystem, range: usize) -> bool {
    &&& cs.wf()
    &&& r.q_check == (Selector { index: o.num_selectors, complex: false })
    &&& r.q_table == (Selector { index: (o.num_selectors + 1) as usize, complex: true })
    &&& r.value_col == (Column { kind: ColumnKind::Advice, index: o.num_advice })
    &&& r.range_check_table.col == (Column { kind: ColumnKind::Fixed, index: o.num_fixed })
    &&& r.range_check_table.range == range
    &&& cs.num_advice == o.num_advice + 1
    &&& cs.num_fixed == o.num_fixed + 1
    &&& cs.num_selectors == o.num_selectors + 2
    &&& cs.num_instance == o.num_instance
    &&& cs.equality@ == o.equality@
    &&& cs.gates@.len() == o.gates@.len() + 1
    &&& cs.gates@.drop_last() == o.gates@
    &&& cs.gates@.last().selector == r.q_check
    &&& cs.gates@.last().constraints@.len() == 1
    &&& is_range_poly(cs.gates@.last().constraints@[0].poly, Expr::Query(r.value_col, 0), (range - 1) as nat)
    &&& cs.lookups@.len() == o.lookups@.len() + 1
    &&& cs.lookups@.drop_last() == o.lookups@
    &&& cs.lookups@.last().selector == Some(r.q_table)
    &&& cs.lookups@.last().input == Expr::Query(r.value_col, 0)
    &&& cs.lookups@.last().table == r.range_check_table.col
}

impl RangeCheckChip {
    pub fn new(config: RangeCheckConfig, range: usize) -> (r: RangeCheckChip)
        ensures
            r.config == config,
            r.range == range,
    {
        RangeCheckChip { config, range }
    }

    /// Declares the selectors, the value column and the table; registers the
    /// constraint set `v * (v - 1) * ... * (v - (range - 1)) = 0` under
    /// `q_check` and the lookup of `v` into the table under `q_table`.
    pub fn configure(cs: &mut ConstraintSystem, range: usize) -> (r: RangeCheckConfig)
        requires
            old(cs).wf(),
            old(cs).num_advice < usize::MAX,
            old(cs).num_selectors + 2 <= usize::MAX,
            old(cs).num_fixed < usize::MAX,
            1 <= range <= u64::MAX,
        ensures
            configured(r, old(cs), final(cs), range),
    {
        let q_check = cs.selector();
        let q_table = cs.complex_selector();
        let value_col = cs.advice_column();
        let range_check_table = RangeCheckTable::new(cs, range);
        let poly = range_poly(value_col, range - 1);
        proof {
            crate::range_check::example1::lemma_range_poly_declared(cs, poly, Expr::Query(value_col, 0), (range - 1) as nat);
        }
        let mut constraints: Vec<Constraint> = Vec::new();
        constraints.push(Constraint { label: String::from_str("range check"), poly });
        assert(constraints@[0].poly == poly);
        let ghost g0 = cs.gates@;
        let _ = cs.create_gate(String::from_str("range check"), q_check, constraints);
        let table = Expr::query(range_check_table.table_column(), 0);
        let ghost l0 = cs.lookups@;
        let _ = cs.lookup(String::from_str("range lookup"), Some(q_table), Expr::query(value_col, 0), table);
        proof {
            assert(cs.gates@.drop_last() =~= g0);
            assert(cs.lookups@.drop_last() =~= l0);
        }
        RangeCheckConfig { q_check, q_table, value_col, range_check_table }
    }

    /// Fills the table column.
    pub fn load_table(&self, t: &mut Trace) -> (r: Result<(), Error>)
        requires
            old(t).wf(),
            self.config.fits(old(t)),
            self.config.range_check_table.range <= u64::MAX,
        ensures
            final(t).wf(),
            final(t).same_columns(old(t)),
            r is Err <==> old(t).next_row + self.config.range_check_table.range > old(t).n,
            final(t).same_selectors(old(t)),
            final(t).copies@ == old(t).copies@,
            r is Err ==> *final(t) == *old(t),
            r is Ok ==> final(t).next_row == old(t).next_row + self.config.range_check_table.range,
            r is Ok ==> forall|j: int|
                0 <= j < self.config.range_check_table.range ==> #[trigger] table_contains(
                    final(t),
                    self.config.range_check_table.col,
                    j,
                ),
            r is Ok ==> forall|j: int|
                0 <= j < self.config.range_check_table.range ==> (#[trigger] final(t).slot(
                    self.config.range_check_table.col,
                    old(t).next_row + j,
                ) matches Slot::Known(f) && f.val() == j),
            r is Ok && column_below(old(t), self.config.range_check_table.col, self.config.range_check_table.range as int)
                ==> holds_range(final(t), self.config.range_check_table.col, self.config.range_check_table.range as int),
            final(t).cells_same_outside(
                old(t),
                (|c: Column, row: int|
                    c == self.config.range_check_table.col && old(t).next_row <= row < old(t).next_row
                        + self.config.range_check_table.range),
            ),
    {
        self.config.range_check_table.load(t)
    }

    /// Writes `value` (unknown when `None`) on a fresh row, with the range
    /// constraint set enabled when the range is small and the lookup enabled
    /// otherwise.
    pub fn assign(&self, t: &mut Trace, value: Option<Fe>) -> (r: Result<(), Error>)
        requires
            old(t).wf(),
            self.config.fits(old(t)),
            value matches Some(f) ==> f.wf(),
        ensures
            final(t).wf(),
            final(t).same_columns(old(t)),
            final(t).copies@ == old(t).copies@,
            r is Err <==> old(t).next_row + 1 > old(t).n,
            r is Err ==> *final(t) == *old(t),
            r is Ok ==> final(t).next_row == old(t).next_row + 1,
            r is Ok ==> final(t).slot(self.config.value_col, old(t).next_row as int) == merged(Slot::Empty, value),
            final(t).cells_same_outside(
                old(t),
                (|c: Column, row: int| c == self.config.value_col && row == old(t).next_row),
            ),
            r is Ok ==> final(t).selectors_set(
                old(t),
                (|i: int, row: int|
                    row == old(t).next_row && i == (if self.range <= GATE_RANGE_LIMIT {
                        self.config.q_check.index
                    } else {
                        self.config.q_table.index
                    })),
            ),
    {
        let region = t.assign_region(String::from_str("assign region"), 1)?;
        let ghost t0 = *t;
        if self.range <= GATE_RANGE_LIMIT {
            let _ = t.enable_selector(&region, self.config.q_check, 0);
        } else {
            let _ = t.enable_selector(&region, self.config.q_table, 0);
        }
        let ghost t1 = *t;
        assert(t.slot(self.config.value_col, region.start as int) is Empty);
        let _ = t.assign_advice(&region, self.config.value_col, 0, value);
        proof {
            assert forall|s2: Selector, row: int| 0 <= s2.index < t.selectors@.len() && 0 <= row < t.n implies #[trigger] t.enabled(
                s2,
                row,
            ) == (old(t).enabled(s2, row) || (row == old(t).next_row && s2.index == (if self.range <= GATE_RANGE_LIMIT {
                self.config.q_check.index
            } else {
                self.config.q_table.index
            }))) by {
                assert(t0.enabled(s2, row) == old(t).enabled(s2, row));
                assert(t.enabled(s2, row) == t1.enabled(s2, row));
            }
            assert forall|c: Column, row: int|
                t.has_col(c) && 0 <= row < t.n && !(c == self.config.value_col && row == old(t).next_row)
                    implies #[trigger] t.slot(c, row) == old(t).slot(c, row) by {
                assert(t0.slot(c, row) == old(t).slot(c, row));
                assert(t1.slot(c, row) == t0.slot(c, row));
            }
        }
        Ok(())
    }
}

/// A circuit that range-checks one value against a loaded table.
pub struct RangeCheckCircuit {
    pub value: Option<Fe>,
    pub range: usize,
}

impl RangeCheckCircuit {
    /// The same circuit with the value unknown.
    pub fn without_witnesses(&self) -> (r: RangeCheckCircuit)
        ensures
            r.value is None,
            r.range == self.range,
    {
        RangeCheckCircuit { value: None, range: self.range }
    }

    /// Declares the chip's columns, selectors, constraint set and lookup.
    /// Needs no witness.
    pub fn configure(&self, cs: &mut ConstraintSystem) -> (r: RangeCheckConfig)
        requires
            old(cs).wf(),
            old(cs).num_advice < usize::MAX,
            old(cs).num_selectors + 2 <= usize::MAX,
            old(cs).num_fixed < usize::MAX,
            1 <= self.range <= u64::MAX,
        ensures
            configured(r, old(cs), final(cs), self.range),
    {
        RangeCheckChip::configure(cs, self.range)
    }

    /// Loads the table, then assigns the value.
    pub fn synthesize(&self, config: RangeCheckConfig, t: &mut Trace) -> (r: Result<(), Error>)
        requires
            old(t).wf(),
            config.fits(old(t)),
            config.range_check_table.range == self.range,
            self.range <= u64::MAX,
            self.value matches Some(f) ==> f.wf(),
        ensures
            final(t).wf(),
            final(t).same_columns(old(t)),
            final(t).copies@ == old(t).copies@,
            r is Err <==> old(t).next_row + self.range + 1 > old(t).n,
            r is Ok ==> forall|j: int| 0 <= j < self.range ==> #[trigger] table_contains(final(t), config.range_check_table.col, j),
            r is Ok && column_below(old(t), config.range_check_table.col, self.range as int) ==> holds_range(
                final(t),
                config.range_check_table.col,
                self.range as int,
            ),
            r is Ok ==> final(t).slot(config.value_col, old(t).next_row + self.range) == merged(Slot::Empty, self.value),
            r is Ok && self.range <= GATE_RANGE_LIMIT ==> final(t).enabled(config.q_check, old(t).next_row + self.range),
            r is Ok && self.range > GATE_RANGE_LIMIT ==> final(t).enabled(config.q_table, old(t).next_row + self.range),
            r is Ok ==> final(t).next_row == old(t).next_row + self.range + 1,
            r is Ok ==> forall|j: int|
                0 <= j < self.range ==> (#[trigger] final(t).slot(config.range_check_table.col, old(t).next_row + j) matches Slot::Known(f)
                    && f.val() == j),
            r is Ok ==> final(t).selectors_set(
                old(t),
                (|i: int, row: int|
                    row == old(t).next_row + self.range && i == (if self.range <= GATE_RANGE_LIMIT {
                        config.q_check.index
                    } else {
                        config.q_table.index
                    })),
            ),
            r is Ok ==> final(t).cells_same_outside(
                old(t),
                (|c: Column, row: int|
                    (c == config.range_check_table.col && old(t).next_row <= row < old(t).next_row + self.range) || (c
                        == config.value_col && row == old(t).next_row + self.range)),
            ),
    {
        let chip = RangeCheckChip::new(config, self.range);
        chip.load_table(t)?;
        let ghost mid = *t;
        let r = chip.assign(t, self.value);
        proof {
            if r is Ok {
                if column_below(old(t), config.range_check_table.col, self.range as int) {
                    assert(holds_range(&mid, config.range_check_table.col, self.range as int));
                    assert forall|w: int| 0 <= w < t.n && (#[trigger] t.slot(config.range_check_table.col, w) is Known)
                        implies t.slot(config.range_check_table.col, w)->Known_0.val() < self.range by {
                        assert(t.slot(config.range_check_table.col, w) == mid.slot(config.range_check_table.col, w));
                    }
                }
                assert forall|j: int| 0 <= j < self.range implies #[trigger] table_contains(t, config.range_check_table.col, j) by {
                    assert(table_contains(&mid, config.range_check_table.col, j));
                    let w = choose|w: int| 0 <= w < mid.n && (#[trigger] mid.slot(config.range_check_table.col, w) matches Slot::Known(f)
                        && f.val() == j);
                    assert(t.slot(config.range_check_table.col, w) == mid.slot(config.range_check_table.col, w));
                }
                if column_below(old(t), config.range_check_table.col, self.range as int) {
                    assert(holds_range(t, config.range_check_table.col, self.range as int));
                }
                assert forall|j: int| 0 <= j < self.range implies (#[trigger] t.slot(config.range_check_table.col, old(t).next_row + j) matches Slot::Known(f)
                    && f.val() == j) by {
                    assert(t.slot(config.range_check_table.col, old(t).next_row + j) == mid.slot(config.range_check_table.col, old(t).next_row + j));
                }
                assert forall|s2: Selector, row: int| 0 <= s2.index < t.selectors@.len() && 0 <= row < t.n implies #[trigger] t.enabled(
                    s2,
                    row,
                ) == (old(t).enabled(s2, row) || (row == old(t).next_row + self.range && s2.index == (if self.range
                    <= GATE_RANGE_LIMIT {
                    config.q_check.index
                } else {
                    config.q_table.index
                }))) by {
                    assert(mid.enabled(s2, row) == old(t).enabled(s2, row));
                }
                assert forall|c: Column, row: int| t.has_col(c) && 0 <= row < t.n && !((c == config.range_check_table.col
                    && old(t).next_row <= row < old(t).next_row + self.range) || (c == config.value_col && row
                    == old(t).next_row + self.range)) implies #[trigger] t.slot(c, row) == old(t).slot(c, row) by {
                    assert(t.slot(c, row) == mid.slot(c, row));
                    assert(mid.slot(c, row) == old(t).slot(c, row));
                }
            }
        }
        r
    }
}

} // verus!
