//! The Fibonacci-style chain in a single region of one advice column: the
//! constraint set, enabled on each row but the last two, reads rotations 0, 1 and 2.
use crate::error::Error;
use crate::expr::{fmod, Column, ColumnKind, Expr, Selector};
use crate::fib1::{add_values, advice_in, fib_mod, opt_val, opt_wf};
use crate::field::Fe;
use crate::layout::{merged, slot_value, AssignedCell, Cell, Slot, Trace};
use crate::system::{Constraint, ConstraintSystem};
use vstd::prelude::*;

verus! {

/// The column and selector of the chain.
#[derive(Clone, Copy, Debug)]
pub struct FiboConfig {
    pub col: Column,
    pub sel: Selector,
    pub instance: Column,
}

impl FiboConfig {
    /// The configuration's columns and selector exist in `t`, and copies are allowed on them.
    pub open spec fn fits(&self, t: &Trace) -> bool {
        &&& advice_in(t, self.col)
        &&& self.sel.index < t.selectors@.len()
        &&& self.instance.kind == ColumnKind::Instance
        &&& t.has_col(self.instance)
        &&& t.equality_enabled(self.instance)
    }

    /// The configuration's columns and selector are declared in `cs`, with copies allowed.
    pub open spec fn declared_in(&self, cs: &ConstraintSystem) -> bool {
        &&& self.col.kind == ColumnKind::Advice && cs.column_declared(self.col) && cs.equality_enabled(self.col)
        &&& self.sel.index < cs.num_selectors
        &&& self.instance.kind == ColumnKind::Instance
        &&& cs.column_declared(self.instance)
        &&& cs.equality_enabled(self.instance)
    }

    /// Declares an advice column, a selector and an instance column, all
    /// open to copy constraints.
    pub fn new(cs: &mut ConstraintSystem) -> (r: FiboConfig)
        requires
            old(cs).wf(),
            old(cs).num_advice < usize::MAX,
            old(cs).num_selectors < usize::MAX,
            old(cs).num_instance < usize::MAX,
        ensures
            final(cs).wf(),
            r.declared_in(final(cs)),
            r.col == (Column { kind: ColumnKind::Advice, index: old(cs).num_advice }),
            r.sel == (Selector { index: old(cs).num_selectors, complex: false }),
            r.instance == (Column { kind: ColumnKind::Instance, index: old(cs).num_instance }),
            final(cs).num_advice == old(cs).num_advice + 1,
            final(cs).num_selectors == old(cs).num_selectors + 1,
            final(cs).num_instance == old(cs).num_instance + 1,
            final(cs).num_fixed == old(cs).num_fixed,
            forall|d: Column| #[trigger] final(cs).equality_enabled(d) <==> (old(cs).equality_enabled(d) || d == r.col
                || d == r.instance),
            final(cs).gates@ == old(cs).gates@,
            final(cs).lookups@ == old(cs).lookups@,
    {
        let col = cs.advice_column();
        let sel = cs.selector();
        let instance = cs.instance_column();
        let ghost e0 = *cs;
        let _ = cs.enable_equality(col);
        let ghost e1 = *cs;
        let _ = cs.enable_equality(instance);
        proof {
            assert forall|d: Column| #[trigger] cs.equality_enabled(d) <==> (old(cs).equality_enabled(d) || d == col
                || d == instance) by {
                assert(e0.equality@ == old(cs).equality@);
                assert(e1.equality_enabled(d) == (e0.equality_enabled(d) || d == col));
                assert(cs.equality_enabled(d) == (e1.equality_enabled(d) || d == instance));
            }
        }
        FiboConfig { col, sel, instance }
    }

    /// The constraint set's polynomial: `a + b - c` on the current row and the two after it.
    pub open spec fn gate_poly(&self) -> Expr {
        Expr::Sum(
            Box::new(Expr::Sum(Box::new(Expr::Query(self.col, 0)), Box::new(Expr::Query(self.col, 1)))),
            Box::new(Expr::Neg(Box::new(Expr::Query(self.col, 2)))),
        )
    }
}

/// Lays out the chain.
pub struct FiboChip {
    pub config: FiboConfig,
}

impl FiboChip {
    pub fn new(config: FiboConfig) -> (r: FiboChip)
        ensures
            r.config == config,
    {
        FiboChip { config }
    }

    /// Registers the constraint set `a + b - c = 0` over rows 0, 1, 2 under the chain's selector.
    pub fn configure(cs: &mut ConstraintSystem, config: &FiboConfig) -> (r: Result<(), Error>)
        requires
            old(cs).wf(),
            config.declared_in(old(cs)),
        ensures
            r is Ok,
            final(cs).wf(),
            config.declared_in(final(cs)),
            final(cs).gates@.len() == old(cs).gates@.len() + 1,
            final(cs).gates@.drop_last() == old(cs).gates@,
            final(cs).gates@.last().selector == config.sel,
            final(cs).gates@.last().constraints@.len() == 1,
            final(cs).gates@.last().constraints@[0].poly == config.gate_poly(),
            final(cs).lookups@ == old(cs).lookups@,
            final(cs).num_advice == old(cs).num_advice,
            final(cs).num_instance == old(cs).num_instance,
            final(cs).num_fixed == old(cs).num_fixed,
            final(cs).num_selectors == old(cs).num_selectors,
            final(cs).equality@ == old(cs).equality@,
    {
        let poly = Expr::query(config.col, 0).plus(Expr::query(config.col, 1)).minus(
            Expr::query(config.col, 2),
        );
        proof {
            let qa = Expr::Query(config.col, 0);
            let qb = Expr::Query(config.col, 1);
            let qc = Expr::Query(config.col, 2);
            assert(cs.expr_declared(qa) && cs.expr_declared(qb) && cs.expr_declared(qc));
            assert(cs.expr_declared(Expr::Neg(Box::new(qc))));
            assert(cs.expr_declared(Expr::Sum(Box::new(qa), Box::new(qb))));
            assert(cs.expr_declared(poly));
        }
        let mut constraints: Vec<Constraint> = Vec::new();
        constraints.push(Constraint { label: String::from_str("a + b = c"), poly });
        assert(constraints@[0].poly == config.gate_poly());
        let r = cs.create_gate(String::from_str("fibonacci"), config.sel, constraints);
        proof {
            assert(cs.gates@.drop_last() =~= old(cs).gates@);
        }
        r
    }
}

impl FiboChip {

    /// Lays out the whole chain in one region of `max(nrows, 3)` rows: `a`,
    /// `b`, then each row the sum of the two before it, unknown when either
    /// is, with the selector enabled on every row but the last two. Returns
    /// the last cell.
    pub fn assign(&self, t: &mut Trace, a: Option<Fe>, b: Option<Fe>, nrows: usize) -> (r: Result<AssignedCell, Error>)
        requires
            old(t).wf(),
            self.config.fits(old(t)),
            opt_wf(a),
            opt_wf(b),
        ensures
            final(t).wf(),
            self.config.fits(final(t)),
            final(t).same_columns(old(t)),
            final(t).same_non_advice(old(t)),
            final(t).copies@ == old(t).copies@,
            r is Err <==> old(t).next_row + table_height(nrows) > old(t).n,
            r is Err ==> *final(t) == *old(t),
            r matches Ok(out) ==> {
                let start = old(t).next_row as int;
                let h = table_height(nrows);
                &&& final(t).next_row == start + h
                &&& out.cell == (Cell { column: self.config.col, row: (start + h - 1) as usize })
                &&& final(t).has_cell(out.cell)
                &&& out.value == slot_value(final(t).slot(self.config.col, start + h - 1))
                &&& forall|i: int| 0 <= i < h ==> #[trigger] chain_cell(final(t).slot(self.config.col, start + i), a, b, i)
                &&& final(t).selectors_set(
                    old(t),
                    (|j: int, q: int| j == self.config.sel.index && start <= q < start + h - 2),
                )
                &&& final(t).cells_same_outside(
                    old(t),
                    (|c: Column, q: int| c == self.config.col && start <= q < start + h),
                )
            },
    {
        let height: usize = if nrows < 3 {
            3
        } else {
            nrows
        };
        let region = t.assign_region(String::from_str("entire table"), height)?;
        let ghost t0 = *t;
        let start = region.start;
        let ghost av = a->Some_0.val();
        let ghost bv = b->Some_0.val();
        assert(fib_mod(av, bv, 0) == av);
        assert(fib_mod(av, bv, 1) == bv);
        assert(fib_mod(av, bv, 2) == fmod(av + bv));
        let _ = t.enable_selector(&region, self.config.sel, 0);
        assert(t.slot(self.config.col, start as int) is Empty);
        assert(t.slot(self.config.col, start + 1) is Empty);
        assert(t.slot(self.config.col, start + 2) is Empty);
        let _ = t.assign_advice(&region, self.config.col, 0, a);
        let mut prev_b = t.assign_advice(&region, self.config.col, 1, b).unwrap();
        let mut prev_c = t.assign_advice(&region, self.config.col, 2, add_values(a, b)).unwrap();
        let mut i: usize = 3;
        while i < height
            invariant
                3 <= i <= height,
                t.wf(),
                self.config.fits(t),
                t.same_columns(old(t)),
                t.same_non_advice(old(t)),
                t.copies@ == old(t).copies@,
                t.region_fits(&region),
                region.start == start,
                region.height == height,
                start == old(t).next_row,
                t.next_row == start + height,
                height == table_height(nrows),
                av == a->Some_0.val(),
                bv == b->Some_0.val(),
                prev_b.cell == (Cell { column: self.config.col, row: (start + i - 2) as usize }),
                prev_c.cell == (Cell { column: self.config.col, row: (start + i - 1) as usize }),
                opt_wf(prev_b.value),
                opt_wf(prev_c.value),
                prev_b.value == slot_value(t.slot(self.config.col, start + i - 2)),
                prev_c.value == slot_value(t.slot(self.config.col, start + i - 1)),
                forall|j: int| 0 <= j < i ==> #[trigger] chain_cell(t.slot(self.config.col, start + j), a, b, j),
                forall|j: int| i <= j < height ==> #[trigger] t.slot(self.config.col, start + j) is Empty,
                t.selectors_set(old(t), (|j: int, q: int| j == self.config.sel.index && start <= q < start + i - 2)),
                t.cells_same_outside(old(t), (|c: Column, q: int| c == self.config.col && start <= q < start + height)),
            decreases height - i,
        {
            let ghost tp = *t;
            let _ = t.enable_selector(&region, self.config.sel, i - 2);
            let ghost tq = *t;
            let v = add_values(prev_b.value, prev_c.value);
            assert(t.slot(self.config.col, start + i) is Empty);
            let cell_c = t.assign_advice(&region, self.config.col, i, v).unwrap();
            proof {
                let j1 = i - 1;
                let j2 = i - 2;
                assert(chain_cell(tp.slot(self.config.col, start + j2), a, b, j2));
                assert(chain_cell(tp.slot(self.config.col, start + j1), a, b, j1));
                assert forall|j: int| 0 <= j < i + 1 implies #[trigger] chain_cell(t.slot(self.config.col, start + j), a, b, j) by {
                    if j < i {
                        assert(t.slot(self.config.col, start + j) == tp.slot(self.config.col, start + j));
                    }
                }
                assert forall|j: int| i + 1 <= j < height implies #[trigger] t.slot(self.config.col, start + j) is Empty by {
                    assert(t.slot(self.config.col, start + j) == tp.slot(self.config.col, start + j));
                }
                assert forall|s2: Selector, q: int| 0 <= s2.index < t.selectors@.len() && 0 <= q < t.n implies #[trigger] t.enabled(
                    s2,
                    q,
                ) == (old(t).enabled(s2, q) || (s2.index == self.config.sel.index && start <= q < start + (i + 1) - 2)) by {
                    assert(tq.enabled(s2, q) == tp.enabled(s2, q) || (s2.index == self.config.sel.index && q == start + i - 2));
                    assert(t.enabled(s2, q) == tq.enabled(s2, q));
                }
                assert forall|c: Column, q: int| t.has_col(c) && 0 <= q < t.n && !(c == self.config.col && start <= q < start + height)
                    implies #[trigger] t.slot(c, q) == old(t).slot(c, q) by {
                    assert(t.slot(c, q) == tp.slot(c, q));
                }
            }
            prev_b = prev_c;
            prev_c = cell_c;
            i = i + 1;
        }
        Ok(prev_c)
    }

    /// Asserts that `final_cell` equals the first public input.
    pub fn expose_public(&self, t: &mut Trace, final_cell: &AssignedCell) -> (r: Result<(), Error>)
        requires
            old(t).wf(),
            self.config.fits(old(t)),
            old(t).has_cell(final_cell.cell),
            old(t).equality_enabled(final_cell.cell.column),
        ensures
            final(t).wf(),
            final(t).same_shape(old(t)),
            final(t).same_cells(old(t)),
            final(t).same_selectors(old(t)),
            r is Err <==> old(t).n == 0,
            r is Ok ==> final(t).copies@ == old(t).copies@.push((final_cell.cell, Cell { column: self.config.instance, row: 0 })),
    {
        t.constrain_instance(final_cell, self.config.instance, 0)
    }
}

/// Cell `i` of the chain seeded with `a`, `b`: the chain's value when both
/// seeds are known; otherwise the seed itself for the first two cells and
/// unknown after them.
pub open spec fn chain_cell(s: Slot, a: Option<Fe>, b: Option<Fe>, i: int) -> bool {
    if a is Some && b is Some {
        s matches Slot::Known(f) && f.val() == fib_mod(a->Some_0.val(), b->Some_0.val(), i as nat)
    } else if i == 0 {
        s == merged(Slot::Empty, a)
    } else if i == 1 {
        s == merged(Slot::Empty, b)
    } else {
        s == Slot::Unknown
    }
}

/// Rows of the chain's region for `nrows` requested: at least three.
pub open spec fn table_height(nrows: usize) -> int {
    if nrows < 3 {
        3
    } else {
        nrows as int
    }
}

/// Number of rows of the chain.
pub const FIBO_ROWS: usize = 10;

/// The chain's circuit: its two seeds, either of which may be unknown.
pub struct FiboCircuit {
    pub a: Option<Fe>,
    pub b: Option<Fe>,
}

impl FiboCircuit {
    /// The same circuit with both seeds unknown.
    pub fn without_witnesses(&self) -> (r: FiboCircuit)
        ensures
            r.a is None && r.b is None,
    {
        FiboCircuit { a: None, b: None }
    }

    /// Declares the column and the constraint set. Needs no witness.
    pub fn configure(cs: &mut ConstraintSystem) -> (r: FiboConfig)
        requires
            old(cs).wf(),
            old(cs).num_advice < usize::MAX,
            old(cs).num_selectors < usize::MAX,
            old(cs).num_instance < usize::MAX,
        ensures
            final(cs).wf(),
            r.declared_in(final(cs)),
            r.col == (Column { kind: ColumnKind::Advice, index: old(cs).num_advice }),
            r.sel == (Selector { index: old(cs).num_selectors, complex: false }),
            r.instance == (Column { kind: ColumnKind::Instance, index: old(cs).num_instance }),
            final(cs).num_advice == old(cs).num_advice + 1,
            final(cs).num_selectors == old(cs).num_selectors + 1,
            final(cs).num_instance == old(cs).num_instance + 1,
            final(cs).num_fixed == old(cs).num_fixed,
            forall|d: Column| #[trigger] final(cs).equality_enabled(d) <==> (old(cs).equality_enabled(d) || d == r.col
                || d == r.instance),
            final(cs).gates@.len() == old(cs).gates@.len() + 1,
            final(cs).gates@.drop_last() == old(cs).gates@,
            final(cs).gates@.last().selector == r.sel,
            final(cs).gates@.last().constraints@.len() == 1,
            final(cs).gates@.last().constraints@[0].poly == r.gate_poly(),
            final(cs).lookups@ == old(cs).lookups@,
    {
        let config = FiboConfig::new(cs);
        let ghost mid = *cs;
        let _ = FiboChip::configure(cs, &config);
        proof {
            assert forall|d: Column| #[trigger] cs.equality_enabled(d) == mid.equality_enabled(d) by {}
        }
        config
    }

    /// Lays out ten rows of the chain and exposes the last one as the first
    /// public input.
    pub fn synthesize(&self, config: FiboConfig, t: &mut Trace) -> (r: Result<(), Error>)
        requires
            old(t).wf(),
            config.fits(old(t)),
            opt_wf(self.a),
            opt_wf(self.b),
        ensures
            final(t).wf(),
            final(t).same_columns(old(t)),
            final(t).same_non_advice(old(t)),
            r is Err <==> old(t).next_row + FIBO_ROWS > old(t).n,
            r is Ok ==> final(t).copies@ == old(t).copies@.push(
                (
                    Cell { column: config.col, row: (old(t).next_row + FIBO_ROWS - 1) as usize },
                    Cell { column: config.instance, row: 0 },
                ),
            ),
            r is Ok ==> forall|i: int|
                0 <= i < FIBO_ROWS ==> #[trigger] chain_cell(final(t).slot(config.col, old(t).next_row + i), self.a, self.b, i),
            r is Ok ==> final(t).selectors_set(
                old(t),
                (|j: int, q: int| j == config.sel.index && old(t).next_row <= q < old(t).next_row + FIBO_ROWS - 2),
            ),
    {
        let chip = FiboChip::new(config);
        let final_cell = chip.assign(t, self.a, self.b, FIBO_ROWS)?;
        let ghost mid = *t;
        let r = chip.expose_public(t, &final_cell);
        proof {
            if r is Ok {
                assert forall|i: int| 0 <= i < FIBO_ROWS implies #[trigger] chain_cell(
                    t.slot(config.col, old(t).next_row + i),
                    self.a,
                    self.b,
                    i,
                ) by {
                    assert(t.slot(config.col, old(t).next_row + i) == mid.slot(config.col, old(t).next_row + i));
                    assert(chain_cell(mid.slot(config.col, old(t).next_row + i), self.a, self.b, i));
                }
                assert forall|s2: Selector, q: int| 0 <= s2.index < t.selectors@.len() && 0 <= q < t.n implies #[trigger] t.enabled(
                    s2,
                    q,
                ) == (old(t).enabled(s2, q) || (s2.index == config.sel.index && old(t).next_row <= q < old(t).next_row
                    + FIBO_ROWS - 2)) by {
                    assert(t.enabled(s2, q) == mid.enabled(s2, q));
                }
            }
        }
        r
    }
}

} // verus!
