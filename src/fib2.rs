//! The Fibonacci-style chain on a single advice column: each step takes
//! three consecutive rows `a`, `b`, `c` with the constraint set, enabled on the middle
//! row, reading them at rotations -1, 0 and 1.
use crate::error::Error;
use crate::expr::{fmod, Column, ColumnKind, Expr, Selector};
use crate::checker::copy_holds;
use crate::fib1::{add_spec, add_values, advice_in, copies_ok, fib_mod, opt_val, opt_wf};
use crate::field::Fe;
use crate::layout::{merged, AssignedCell, Cell, Slot, Trace};
use crate::system::{Constraint, ConstraintSystem};
use vstd::prelude::*;

verus! {

/// The column and selector of the chain.
#[derive(Clone, Copy, Debug)]
pub struct FiboConfig {
    pub col: Column,
    pub sel: Selector,
    pub instance: Column,
}

impl FiboConfig {
    /// The configuration's columns and selector exist in `t`, and copies are allowed on them.
    pub open spec fn fits(&self, t: &Trace) -> bool {
        &&& advice_in(t, self.col)
        &&& self.sel.index < t.selectors@.len()
        &&& self.instance.kind == ColumnKind::Instance
        &&& t.has_col(self.instance)
        &&& t.equality_enabled(self.instance)
    }

    /// The configuration's columns and selector are declared in `cs`, with copies allowed.
    pub open spec fn declared_in(&self, cs: &ConstraintSystem) -> bool {
        &&& self.col.kind == ColumnKind::Advice && cs.column_declared(self.col) && cs.equality_enabled(self.col)
        &&& self.sel.index < cs.num_selectors
        &&& self.instance.kind == ColumnKind::Instance
        &&& cs.column_declared(self.instance)
        &&& cs.equality_enabled(self.instance)
    }

    /// Declares an advice column, a selector and an instance column, all
    /// open to copy constraints.
    pub fn new(cs: &mut ConstraintSystem) -> (r: FiboConfig)
        requires
            old(cs).wf(),
            old(cs).num_advice < usize::MAX,
            old(cs).num_selectors < usize::MAX,
            old(cs).num_instance < usize::MAX,
        ensures
            final(cs).wf(),
            r.declared_in(final(cs)),
            r.col == (Column { kind: ColumnKind::Advice, index: old(cs).num_advice }),
            r.sel == (Selector { index: old(cs).num_selectors, complex: false }),
            r.instance == (Column { kind: ColumnKind::Instance, index: old(cs).num_instance }),
            final(cs).num_advice == old(cs).num_advice + 1,
            final(cs).num_selectors == old(cs).num_selectors + 1,
            final(cs).num_instance == old(cs).num_instance + 1,
            final(cs).num_fixed == old(cs).num_fixed,
            forall|d: Column| #[trigger] final(cs).equality_enabled(d) <==> (old(cs).equality_enabled(d) || d == r.col
                || d == r.instance),
            final(cs).gates@ == old(cs).gates@,
            final(cs).lookups@ == old(cs).lookups@,
    {
        let col = cs.advice_column();
        let sel = cs.selector();
        let instance = cs.instance_column();
        let ghost e0 = *cs;
        let _ = cs.enable_equality(col);
        let ghost e1 = *cs;
        let _ = cs.enable_equality(instance);
        proof {
            assert forall|d: Column| #[trigger] cs.equality_enabled(d) <==> (old(cs).equality_enabled(d) || d == col
                || d == instance) by {
                assert(e0.equality@ == old(cs).equality@);
                assert(e1.equality_enabled(d) == (e0.equality_enabled(d) || d == col));
                assert(cs.equality_enabled(d) == (e1.equality_enabled(d) || d == instance));
            }
        }
        FiboConfig { col, sel, instance }
    }

    /// The constraint set's polynomial: `a + b - c` on the previous, current and next rows.
    pub open spec fn gate_poly(&self) -> Expr {
        Expr::Sum(
            Box::new(Expr::Sum(Box::new(Expr::Query(self.col, -1i64)), Box::new(Expr::Query(self.col, 0)))),
            Box::new(Expr::Neg(Box::new(Expr::Query(self.col, 1)))),
        )
    }
}

/// Lays out the chain.
pub struct FiboChip {
    pub config: FiboConfig,
}

impl FiboChip {
    pub fn new(config: FiboConfig) -> (r: FiboChip)
        ensures
            r.config == config,
    {
        FiboChip { config }
    }

    /// Registers the constraint set `a + b - c = 0` over rows -1, 0, 1 under the chain's selector.
    pub fn configure(cs: &mut ConstraintSystem, config: &FiboConfig) -> (r: Result<(), Error>)
        requires
            old(cs).wf(),
            config.declared_in(old(cs)),
        ensures
            r is Ok,
            final(cs).wf(),
            config.declared_in(final(cs)),
            final(cs).gates@.len() == old(cs).gates@.len() + 1,
            final(cs).gates@.drop_last() == old(cs).gates@,
            final(cs).gates@.last().selector == config.sel,
            final(cs).gates@.last().constraints@.len() == 1,
            final(cs).gates@.last().constraints@[0].poly == config.gate_poly(),
            final(cs).lookups@ == old(cs).lookups@,
            final(cs).num_advice == old(cs).num_advice,
            final(cs).num_instance == old(cs).num_instance,
            final(cs).num_fixed == old(cs).num_fixed,
            final(cs).num_selectors == old(cs).num_selectors,
            final(cs).equality@ == old(cs).equality@,
    {
        let poly = Expr::query(config.col, -1).plus(Expr::query(config.col, 0)).minus(
            Expr::query(config.col, 1),
        );
        proof {
            let qa = Expr::Query(config.col, -1i64);
            let qb = Expr::Query(config.col, 0);
            let qc = Expr::Query(config.col, 1);
            assert(cs.expr_declared(qa) && cs.expr_declared(qb) && cs.expr_declared(qc));
            assert(cs.expr_declared(Expr::Neg(Box::new(qc))));
            assert(cs.expr_declared(Expr::Sum(Box::new(qa), Box::new(qb))));
            assert(cs.expr_declared(poly));
        }
        let mut constraints: Vec<Constraint> = Vec::new();
        constraints.push(Constraint { label: String::from_str("a + b = c"), poly });
        assert(constraints@[0].poly == config.gate_poly());
        let r = cs.create_gate(String::from_str("fibonacci"), config.sel, constraints);
        proof {
            assert(cs.gates@.drop_last() =~= old(cs).gates@);
        }
        r
    }
}

impl FiboChip {
    /// The first step: `a`, `b` and `a + b` (unknown where an input is) on
    /// three fresh rows, with the selector enabled on the middle one.
    /// Returns the cells of `b` and `a + b`.
    pub fn assign_init(&self, t: &mut Trace, a: Option<Fe>, b: Option<Fe>) -> (r: Result<(AssignedCell, AssignedCell), Error>)
        requires
            old(t).wf(),
            self.config.fits(old(t)),
            opt_wf(a),
            opt_wf(b),
        ensures
            final(t).wf(),
            self.config.fits(final(t)),
            final(t).n == old(t).n,
            final(t).same_columns(old(t)),
            final(t).same_non_advice(old(t)),
            final(t).copies@ == old(t).copies@,
            r is Err <==> old(t).next_row + 3 > old(t).n,
            r is Err ==> *final(t) == *old(t),
            r matches Ok((cb, cc)) ==> {
                let row = old(t).next_row as int;
                &&& cb.cell == (Cell { column: self.config.col, row: (row + 1) as usize })
                &&& cc.cell == (Cell { column: self.config.col, row: (row + 2) as usize })
                &&& cb.value == b
                &&& opt_val(cc.value) == add_spec(a, b)
                &&& opt_wf(cc.value)
                &&& final(t).has_cell(cb.cell)
                &&& final(t).slot(self.config.col, row) == merged(Slot::Empty, a)
                &&& final(t).slot(self.config.col, row + 1) == merged(Slot::Empty, b)
                &&& (a is Some && b is Some && rows_ok(self.config, old(t)) && copies_ok(old(t)) ==> rows_ok(
                    self.config,
                    final(t),
                ) && copies_ok(final(t)))
                &&& final(t).has_cell(cc.cell)
                &&& final(t).next_row == old(t).next_row + 3
                &&& final(t).slot(self.config.col, row + 2) == merged(Slot::Empty, cc.value)
                &&& final(t).selectors_set(old(t), (|i: int, q: int| i == self.config.sel.index && q == row + 1))
                &&& final(t).cells_same_outside(old(t), (|c: Column, q: int| step_cell(self.config, c, q, row)))
            },
            forall|c2: Column, r2: int|
                final(t).has_col(c2) && 0 <= r2 < old(t).next_row ==> #[trigger] final(t).slot(c2, r2) == old(t).slot(c2, r2),
    {
        let region = t.assign_region(String::from_str("assign init"), 3)?;
        let ghost t0 = *t;
        let _ = t.enable_selector(&region, self.config.sel, 1);
        let ghost t1 = *t;
        let c = add_values(a, b);
        let row = region.start;
        assert(t.slot(self.config.col, row as int) is Empty);
        assert(t.slot(self.config.col, row + 1) is Empty);
        assert(t.slot(self.config.col, row + 2) is Empty);
        let _ = t.assign_advice(&region, self.config.col, 0, a);
        let ghost t2 = *t;
        let cell_b = t.assign_advice(&region, self.config.col, 1, b);
        let ghost t3 = *t;
        let cell_c = t.assign_advice(&region, self.config.col, 2, c);
        proof {
            let o = old(t);
            assert forall|c2: Column, r2: int|
                o.has_col(c2) && 0 <= r2 < o.n && !step_cell(self.config, c2, r2, row as int)
                    implies #[trigger] t.slot(c2, r2) == o.slot(c2, r2) by {
                assert(t0.slot(c2, r2) == o.slot(c2, r2));
                assert(t1.slot(c2, r2) == t0.slot(c2, r2));
                assert(t2.slot(c2, r2) == t1.slot(c2, r2));
                assert(t3.slot(c2, r2) == t2.slot(c2, r2));
                assert(t.slot(c2, r2) == t3.slot(c2, r2));
            }
            assert forall|s2: Selector, r2: int| 0 <= s2.index < t.selectors@.len() && 0 <= r2 < t.n implies #[trigger] t.enabled(
                s2,
                r2,
            ) == (o.enabled(s2, r2) || (s2.index == self.config.sel.index && r2 == row + 1)) by {
                assert(t0.enabled(s2, r2) == o.enabled(s2, r2));
            }
            assert(t3.slot(self.config.col, row as int) == t2.slot(self.config.col, row as int));
            assert(t.slot(self.config.col, row as int) == t3.slot(self.config.col, row as int));
            assert(t.slot(self.config.col, row + 1) == t3.slot(self.config.col, row + 1));
        }
        proof {
            let o = old(t);
            if a is Some && b is Some && rows_ok(self.config, o) && copies_ok(o) {
                assert forall|c2: Column, r2: int|
                    o.has_col(c2) && 0 <= r2 < o.n && #[trigger] t.slot(c2, r2) != o.slot(c2, r2) implies o.slot(c2, r2) is Empty by {
                    if !step_cell(self.config, c2, r2, row as int) {
                        assert(t.slot(c2, r2) == o.slot(c2, r2));
                    }
                }
                assert(row_sums(self.config, t, row + 1));
                assert forall|r2: int| 0 <= r2 < o.n && #[trigger] t.enabled(self.config.sel, r2) implies o.enabled(
                    self.config.sel,
                    r2,
                ) || row_sums(self.config, t, r2) by {}
                lemma_frame(self.config, o, t);
            }
        }
        Ok((cell_b.unwrap(), cell_c.unwrap()))
    }
}


/// The chain's sum holds around row `r`: the cells above, on and below it
/// are known and the lower one is the sum of the other two.
pub open spec fn row_sums(cfg: FiboConfig, t: &Trace, r: int) -> bool {
    &&& 1 <= r && r + 1 < t.n
    &&& t.slot(cfg.col, r - 1) matches Slot::Known(x) && t.slot(cfg.col, r) matches Slot::Known(y)
        && t.slot(cfg.col, r + 1) matches Slot::Known(z) && z.val() == fmod(x.val() + y.val())
}

/// Every row where the chain's selector is enabled has a correct sum around it.
pub open spec fn rows_ok(cfg: FiboConfig, t: &Trace) -> bool {
    forall|r: int| 0 <= r < t.n && #[trigger] t.enabled(cfg.sel, r) ==> row_sums(cfg, t, r)
}

/// Filling empty cells and enabling the selector on rows whose sum holds
/// keeps every earlier sum and copy intact, given that the added copies hold.
proof fn lemma_frame(cfg: FiboConfig, o: &Trace, t: &Trace)
    requires
        rows_ok(cfg, o),
        copies_ok(o),
        o.wf(),
        t.same_columns(o),
        cfg.sel.index < o.selectors@.len(),
        t.copies@.len() >= o.copies@.len(),
        forall|j: int| 0 <= j < o.copies@.len() ==> #[trigger] t.copies@[j] == o.copies@[j],
        forall|j: int| o.copies@.len() <= j < t.copies@.len() ==> #[trigger] copy_holds(t, j),
        forall|c2: Column, r2: int|
            o.has_col(c2) && 0 <= r2 < o.n && #[trigger] t.slot(c2, r2) != o.slot(c2, r2) ==> o.slot(c2, r2) is Empty,
        forall|r2: int| 0 <= r2 < o.n && #[trigger] t.enabled(cfg.sel, r2) ==> o.enabled(cfg.sel, r2) || row_sums(cfg, t, r2),
        o.has_col(cfg.col),
    ensures
        rows_ok(cfg, t),
        copies_ok(t),
{
    assert forall|r: int| 0 <= r < t.n && #[trigger] t.enabled(cfg.sel, r) implies row_sums(cfg, t, r) by {
        if !row_sums(cfg, t, r) {
            assert(o.enabled(cfg.sel, r));
            assert(row_sums(cfg, o, r));
            assert(t.slot(cfg.col, r - 1) == o.slot(cfg.col, r - 1));
            assert(t.slot(cfg.col, r) == o.slot(cfg.col, r));
            assert(t.slot(cfg.col, r + 1) == o.slot(cfg.col, r + 1));
        }
    }
    assert forall|j: int| 0 <= j < t.copies@.len() implies #[trigger] copy_holds(t, j) by {
        if j < o.copies@.len() {
            assert(copy_holds(o, j));
            assert(t.copies@[j] == o.copies@[j]);
            let (a, b) = o.copies@[j];
            assert(o.has_cell(o.copies@[j].0) && o.has_cell(o.copies@[j].1));
            assert(t.slot(a.column, a.row as int) == o.slot(a.column, a.row as int));
            assert(t.slot(b.column, b.row as int) == o.slot(b.column, b.row as int));
        }
    }
}

/// Rows `row`, `row + 1`, `row + 2` hold step `q` of the chain seeded with
/// `a`, `b`: `x_q`, `x_{q+1}`, `x_{q+2}` when both seeds are known, and an
/// unknown sum otherwise.
pub open spec fn chain_step(cfg: FiboConfig, t: &Trace, a: Option<Fe>, b: Option<Fe>, row: int, q: int) -> bool {
    if a is Some && b is Some {
        let x = a->Some_0.val();
        let y = b->Some_0.val();
        &&& t.slot(cfg.col, row) matches Slot::Known(f) && f.val() == fib_mod(x, y, q as nat)
        &&& t.slot(cfg.col, row + 1) matches Slot::Known(f) && f.val() == fib_mod(x, y, (q + 1) as nat)
        &&& t.slot(cfg.col, row + 2) matches Slot::Known(f) && f.val() == fib_mod(x, y, (q + 2) as nat)
    } else {
        t.slot(cfg.col, row + 2) == Slot::Unknown
    }
}

/// `q` is the middle row of one of the first `steps` three-row steps that
/// start at row `start`.
pub open spec fn middle_row(start: int, steps: int, q: int) -> bool {
    start <= q < start + 3 * steps && (q - start) % 3 == 1
}

/// `(c, r)` is one of the three cells a step writes from row `row` on.
pub open spec fn step_cell(cfg: FiboConfig, c: Column, r: int, row: int) -> bool {
    c == cfg.col && row <= r < row + 3
}

impl FiboChip {
    /// One step on three fresh rows: copies `prev_b` and `prev_c` into the
    /// first two and writes their sum, unknown when either is, into the
    /// third, with the selector enabled on the middle row.
    pub fn assign(&self, t: &mut Trace, prev_b: &AssignedCell, prev_c: &AssignedCell) -> (r: Result<AssignedCell, Error>)
        requires
            old(t).wf(),
            self.config.fits(old(t)),
            old(t).has_cell(prev_b.cell),
            old(t).has_cell(prev_c.cell),
            old(t).equality_enabled(prev_b.cell.column),
            old(t).equality_enabled(prev_c.cell.column),
            opt_wf(prev_b.value),
            opt_wf(prev_c.value),
        ensures
            final(t).wf(),
            self.config.fits(final(t)),
            final(t).n == old(t).n,
            final(t).same_columns(old(t)),
            final(t).same_non_advice(old(t)),
            r is Err <==> old(t).next_row + 3 > old(t).n,
            r is Err ==> *final(t) == *old(t),
            r matches Ok(cc) ==> {
                let row = old(t).next_row as int;
                &&& cc.cell == (Cell { column: self.config.col, row: (row + 2) as usize })
                &&& opt_wf(cc.value)
                &&& opt_val(cc.value) == add_spec(prev_b.value, prev_c.value)
                &&& final(t).slot(self.config.col, row) == merged(Slot::Empty, prev_b.value)
                &&& final(t).slot(self.config.col, row + 1) == merged(Slot::Empty, prev_c.value)
                &&& final(t).copies@ == old(t).copies@.push((prev_b.cell, Cell { column: self.config.col, row: row as usize })).push(
                    (prev_c.cell, Cell { column: self.config.col, row: (row + 1) as usize }),
                )
                &&& (rows_ok(self.config, old(t)) && copies_ok(old(t)) && prev_b.value is Some && prev_c.value is Some
                    && old(t).slot(prev_b.cell.column, prev_b.cell.row as int) == Slot::Known(prev_b.value->Some_0)
                    && old(t).slot(prev_c.cell.column, prev_c.cell.row as int) == Slot::Known(prev_c.value->Some_0)
                    ==> rows_ok(self.config, final(t)) && copies_ok(final(t)))
                &&& final(t).has_cell(cc.cell)
                &&& final(t).next_row == old(t).next_row + 3
                &&& final(t).slot(self.config.col, row + 2) == merged(Slot::Empty, cc.value)
                &&& final(t).selectors_set(old(t), (|i: int, q: int| i == self.config.sel.index && q == row + 1))
                &&& final(t).cells_same_outside(old(t), (|c: Column, q: int| step_cell(self.config, c, q, row)))
            },
            forall|c2: Column, r2: int|
                final(t).has_col(c2) && 0 <= r2 < old(t).next_row ==> #[trigger] final(t).slot(c2, r2) == old(t).slot(c2, r2),
    {
        let region = t.assign_region(String::from_str("assign"), 3)?;
        let ghost t0 = *t;
        let _ = t.enable_selector(&region, self.config.sel, 1);
        let ghost t1 = *t;
        let c = add_values(prev_b.value, prev_c.value);
        let row = region.start;
        assert(t.slot(self.config.col, row as int) is Empty);
        assert(t.slot(self.config.col, row + 1) is Empty);
        assert(t.slot(self.config.col, row + 2) is Empty);
        let _ = t.copy_advice(prev_b, &region, self.config.col, 0).unwrap();
        let ghost t2 = *t;
        let _ = t.copy_advice(prev_c, &region, self.config.col, 1).unwrap();
        let ghost t3 = *t;
        let cell_c = t.assign_advice(&region, self.config.col, 2, c).unwrap();
        proof {
            let o = old(t);
            assert forall|c2: Column, r2: int|
                o.has_col(c2) && 0 <= r2 < o.n && !step_cell(self.config, c2, r2, row as int)
                    implies #[trigger] t.slot(c2, r2) == o.slot(c2, r2) by {
                assert(t0.slot(c2, r2) == o.slot(c2, r2));
                assert(t1.slot(c2, r2) == t0.slot(c2, r2));
                assert(t2.slot(c2, r2) == t1.slot(c2, r2));
                assert(t3.slot(c2, r2) == t2.slot(c2, r2));
                assert(t.slot(c2, r2) == t3.slot(c2, r2));
            }
            assert forall|s2: Selector, r2: int| 0 <= s2.index < t.selectors@.len() && 0 <= r2 < t.n implies #[trigger] t.enabled(
                s2,
                r2,
            ) == (o.enabled(s2, r2) || (s2.index == self.config.sel.index && r2 == row + 1)) by {
                assert(t0.enabled(s2, r2) == o.enabled(s2, r2));
            }
            assert(t3.slot(self.config.col, row as int) == t2.slot(self.config.col, row as int));
            assert(t.slot(self.config.col, row as int) == t3.slot(self.config.col, row as int));
            assert(t.slot(self.config.col, row + 1) == t3.slot(self.config.col, row + 1));
        }
        proof {
            let o = old(t);
            if rows_ok(self.config, o) && copies_ok(o) && prev_b.value is Some && prev_c.value is Some
                && o.slot(prev_b.cell.column, prev_b.cell.row as int) == Slot::Known(prev_b.value->Some_0)
                && o.slot(prev_c.cell.column, prev_c.cell.row as int) == Slot::Known(prev_c.value->Some_0) {
                assert forall|c2: Column, r2: int|
                    o.has_col(c2) && 0 <= r2 < o.n && #[trigger] t.slot(c2, r2) != o.slot(c2, r2) implies o.slot(c2, r2) is Empty by {
                    if !step_cell(self.config, c2, r2, row as int) {
                        assert(t.slot(c2, r2) == o.slot(c2, r2));
                    }
                }
                let pb = prev_b.cell;
                let pc = prev_c.cell;
                assert(t.slot(pb.column, pb.row as int) == o.slot(pb.column, pb.row as int));
                assert(t.slot(pc.column, pc.row as int) == o.slot(pc.column, pc.row as int));
                assert(row_sums(self.config, t, row + 1));
                assert forall|r2: int| 0 <= r2 < o.n && #[trigger] t.enabled(self.config.sel, r2) implies o.enabled(
                    self.config.sel,
                    r2,
                ) || row_sums(self.config, t, r2) by {}
                let ca = Cell { column: self.config.col, row: row };
                let cb2 = Cell { column: self.config.col, row: (row + 1) as usize };
                assert(t.copies@ == o.copies@.push((pb, ca)).push((pc, cb2)));
                assert forall|j: int| o.copies@.len() <= j < t.copies@.len() implies #[trigger] copy_holds(t, j) by {
                    if j == o.copies@.len() {
                        assert(t.copies@[j] == (pb, ca));
                    } else {
                        assert(t.copies@[j] == (pc, cb2));
                    }
                }
                assert forall|j: int| 0 <= j < o.copies@.len() implies #[trigger] t.copies@[j] == o.copies@[j] by {
                    assert(t.copies@[j] == o.copies@.push((pb, ca)).push((pc, cb2))[j]);
                }
                lemma_frame(self.config, o, t);
            }
        }
        Ok(cell_c)
    }

    /// Asserts that `output` equals the first public input.
    pub fn expose_public(&self, t: &mut Trace, output: &AssignedCell) -> (r: Result<(), Error>)
        requires
            old(t).wf(),
            self.config.fits(old(t)),
            old(t).has_cell(output.cell),
            old(t).equality_enabled(output.cell.column),
        ensures
            final(t).wf(),
            final(t).same_shape(old(t)),
            final(t).same_cells(old(t)),
            final(t).same_selectors(old(t)),
            r is Err <==> old(t).n == 0,
            r is Ok ==> final(t).copies@ == old(t).copies@.push((output.cell, Cell { column: self.config.instance, row: 0 })),
    {
        t.constrain_instance(output, self.config.instance, 0)
    }
}

/// The chain's circuit: its two seeds, either of which may be unknown.
pub struct FiboCircuit {
    pub a: Option<Fe>,
    pub b: Option<Fe>,
}

/// Number of steps of the chain, three rows each.
pub const FIBO_STEPS: usize = 10;

impl FiboCircuit {
    /// The same circuit with both seeds unknown.
    pub fn without_witnesses(&self) -> (r: FiboCircuit)
        ensures
            r.a is None && r.b is None,
    {
        FiboCircuit { a: None, b: None }
    }

    /// Declares the columns and the constraint set. Needs no witness.
    pub fn configure(cs: &mut ConstraintSystem) -> (r: FiboConfig)
        requires
            old(cs).wf(),
            old(cs).num_advice < usize::MAX,
            old(cs).num_selectors < usize::MAX,
            old(cs).num_instance < usize::MAX,
        ensures
            final(cs).wf(),
            r.declared_in(final(cs)),
            r.col == (Column { kind: ColumnKind::Advice, index: old(cs).num_advice }),
            r.sel == (Selector { index: old(cs).num_selectors, complex: false }),
            r.instance == (Column { kind: ColumnKind::Instance, index: old(cs).num_instance }),
            final(cs).num_advice == old(cs).num_advice + 1,
            final(cs).num_selectors == old(cs).num_selectors + 1,
            final(cs).num_instance == old(cs).num_instance + 1,
            final(cs).num_fixed == old(cs).num_fixed,
            forall|d: Column| #[trigger] final(cs).equality_enabled(d) <==> (old(cs).equality_enabled(d) || d == r.col
                || d == r.instance),
            final(cs).gates@.len() == old(cs).gates@.len() + 1,
            final(cs).gates@.drop_last() == old(cs).gates@,
            final(cs).gates@.last().selector == r.sel,
            final(cs).gates@.last().constraints@.len() == 1,
            final(cs).gates@.last().constraints@[0].poly == r.gate_poly(),
            final(cs).lookups@ == old(cs).lookups@,
    {
        let config = FiboConfig::new(cs);
        let ghost mid = *cs;
        let _ = FiboChip::configure(cs, &config);
        proof {
            assert forall|d: Column| #[trigger] cs.equality_enabled(d) == mid.equality_enabled(d) by {}
        }
        config
    }

    /// Lays out ten steps of the chain and exposes the last sum as the first
    /// public input.
    pub fn synthesize(&self, config: FiboConfig, t: &mut Trace) -> (r: Result<(), Error>)
        requires
            old(t).wf(),
            config.fits(old(t)),
            opt_wf(self.a),
            opt_wf(self.b),
        ensures
            final(t).wf(),
            final(t).same_columns(old(t)),
            final(t).same_non_advice(old(t)),
            r is Err <==> old(t).next_row + 3 * FIBO_STEPS > old(t).n,
            r is Ok ==> final(t).next_row == old(t).next_row + 3 * FIBO_STEPS,
            r is Ok ==> final(t).copies@.len() == old(t).copies@.len() + 2 * FIBO_STEPS - 1,
            r is Ok ==> final(t).copies@.last().1 == (Cell { column: config.instance, row: 0 }),
            r is Ok && self.a is Some && self.b is Some ==> {
                let (out, inst) = final(t).copies@.last();
                &&& final(t).slot(out.column, out.row as int) matches Slot::Known(f)
                &&& f.val() == fib_mod(self.a->Some_0.val(), self.b->Some_0.val(), (FIBO_STEPS + 1) as nat)
            },
            r is Ok && self.a is Some && self.b is Some && rows_ok(config, old(t)) && copies_ok(old(t)) ==> rows_ok(
                config,
                final(t),
            ) && forall|j: int| 0 <= j < final(t).copies@.len() - 1 ==> #[trigger] copy_holds(final(t), j),
            r is Ok ==> forall|q: int|
                0 <= q < FIBO_STEPS ==> #[trigger] chain_step(config, final(t), self.a, self.b, old(t).next_row + 3 * q, q),
            r is Ok ==> final(t).selectors_set(
                old(t),
                (|j: int, q: int|
                    j == config.sel.index && middle_row(old(t).next_row as int, FIBO_STEPS as int, q)),
            ),
    {
        let chip = FiboChip::new(config);
        let ghost known = self.a is Some && self.b is Some;
        let ghost good = known && rows_ok(config, old(t)) && copies_ok(old(t));
        let (mut prev_b, mut prev_c) = chip.assign_init(t, self.a, self.b)?;
        let ghost a = self.a->Some_0.val();
        let ghost b = self.b->Some_0.val();
        let ghost start = old(t).next_row;
        assert(fib_mod(a, b, 0) == a);
        assert(fib_mod(a, b, 1) == b);
        assert(fib_mod(a, b, 2) == fmod(a + b));
        assert(chain_step(config, t, self.a, self.b, start + 3 * 0, 0));
        proof {
            assert forall|s2: Selector, q: int| 0 <= s2.index < t.selectors@.len() && 0 <= q < t.n implies #[trigger] t.enabled(
                s2,
                q,
            ) == (old(t).enabled(s2, q) || (s2.index == config.sel.index && middle_row(start as int, 1, q))) by {
            }
        }
        let mut i: usize = 1;
        while i < FIBO_STEPS
            invariant
                1 <= i <= FIBO_STEPS,
                t.wf(),
                chip.config == config,
                config.fits(t),
                t.n == old(t).n,
                t.same_columns(old(t)),
                t.same_non_advice(old(t)),
                t.next_row == start + 3 * i,
                t.copies@.len() == old(t).copies@.len() + 2 * (i - 1),
                start + 3 <= old(t).n,
                start == old(t).next_row,
                t.has_cell(prev_b.cell),
                t.has_cell(prev_c.cell),
                prev_c.cell.row < t.next_row,
                prev_b.cell.column == config.col,
                prev_c.cell.column == config.col,
                opt_wf(prev_b.value),
                opt_wf(prev_c.value),
                known == (self.a is Some && self.b is Some),
                known ==> opt_val(prev_b.value) == Some(fib_mod(a, b, i as nat)),
                known ==> opt_val(prev_c.value) == Some(fib_mod(a, b, (i + 1) as nat)),
                known ==> t.slot(prev_c.cell.column, prev_c.cell.row as int) == Slot::Known(prev_c.value->Some_0),
                known ==> t.slot(prev_b.cell.column, prev_b.cell.row as int) == Slot::Known(prev_b.value->Some_0),
                prev_b.cell.row < t.next_row,
                good == (known && rows_ok(config, old(t)) && copies_ok(old(t))),
                good ==> rows_ok(config, t) && copies_ok(t),
                !known ==> prev_c.value is None,
                a == self.a->Some_0.val(),
                b == self.b->Some_0.val(),
                forall|q: int| 0 <= q < i ==> #[trigger] chain_step(config, t, self.a, self.b, start + 3 * q, q),
                t.selectors_set(
                    old(t),
                    (|j: int, q: int| j == config.sel.index && middle_row(start as int, i as int, q)),
                ),
            decreases FIBO_STEPS - i,
        {
            let ghost pre = *t;
            let cell_c = match chip.assign(t, &prev_b, &prev_c) {
                Ok(c) => c,
                Err(e) => {
                    return Err(e);
                },
            };
            proof {
                assert forall|q: int| 0 <= q < i + 1 implies #[trigger] chain_step(config, t, self.a, self.b, start + 3 * q, q) by {
                    if q < i {
                        assert(chain_step(config, &pre, self.a, self.b, start + 3 * q, q));
                        assert(t.slot(config.col, start + 3 * q) == pre.slot(config.col, start + 3 * q));
                        assert(t.slot(config.col, start + 3 * q + 1) == pre.slot(config.col, start + 3 * q + 1));
                        assert(t.slot(config.col, start + 3 * q + 2) == pre.slot(config.col, start + 3 * q + 2));
                    } else {
                        let row = start + 3 * i;
                        assert(pre.next_row == row);
                        assert(opt_val(cell_c.value) == add_spec(prev_b.value, prev_c.value));
                        if known {
                            assert(fib_mod(a, b, (i + 2) as nat) == fmod(fib_mod(a, b, i as nat) + fib_mod(a, b, (i + 1) as nat)));
                        } else {
                            assert(cell_c.value is None);
                        }
                        assert(chain_step(config, t, self.a, self.b, row, i as int));
                    }
                }
                assert forall|s2: Selector, q: int| 0 <= s2.index < t.selectors@.len() && 0 <= q < t.n implies #[trigger] t.enabled(
                    s2,
                    q,
                ) == (old(t).enabled(s2, q) || (s2.index == config.sel.index && middle_row(start as int, i + 1, q))) by {
                    assert(pre.enabled(s2, q) == (old(t).enabled(s2, q) || (s2.index == config.sel.index && middle_row(
                        start as int,
                        i as int,
                        q,
                    ))));
                }
            }
            prev_b = prev_c;
            prev_c = cell_c;
            i = i + 1;
        }
        let ghost before = *t;
        let r = chip.expose_public(t, &prev_c);
        proof {
            if r is Ok {
                assert forall|q: int| 0 <= q < FIBO_STEPS implies #[trigger] chain_step(config, t, self.a, self.b, start + 3 * q, q) by {
                    assert(chain_step(config, &before, self.a, self.b, start + 3 * q, q));
                    assert(t.slot(config.col, start + 3 * q) == before.slot(config.col, start + 3 * q));
                    assert(t.slot(config.col, start + 3 * q + 1) == before.slot(config.col, start + 3 * q + 1));
                    assert(t.slot(config.col, start + 3 * q + 2) == before.slot(config.col, start + 3 * q + 2));
                }
                assert forall|s2: Selector, q: int| 0 <= s2.index < t.selectors@.len() && 0 <= q < t.n implies #[trigger] t.enabled(
                    s2,
                    q,
                ) == (old(t).enabled(s2, q) || (s2.index == config.sel.index && middle_row(start as int, FIBO_STEPS as int, q))) by {
                    assert(t.enabled(s2, q) == before.enabled(s2, q));
                }
            }
            if r is Ok && good {
                assert forall|q: int| 0 <= q < t.n && #[trigger] t.enabled(config.sel, q) implies row_sums(config, t, q) by {
                    assert(before.enabled(config.sel, q));
                    assert(t.slot(config.col, q - 1) == before.slot(config.col, q - 1));
                    assert(t.slot(config.col, q) == before.slot(config.col, q));
                    assert(t.slot(config.col, q + 1) == before.slot(config.col, q + 1));
                }
                assert forall|j: int| 0 <= j < t.copies@.len() - 1 implies #[trigger] copy_holds(t, j) by {
                    assert(copy_holds(&before, j));
                    assert(t.copies@[j] == before.copies@[j]);
                    let (x, y) = before.copies@[j];
                    assert(before.has_cell(before.copies@[j].0) && before.has_cell(before.copies@[j].1));
                    assert(t.slot(x.column, x.row as int) == before.slot(x.column, x.row as int));
                    assert(t.slot(y.column, y.row as int) == before.slot(y.column, y.row as int));
                }
            }
        }
        r
    }
}

} // verus!
