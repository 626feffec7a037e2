//! A Fibonacci-style chain over three advice columns: each row holds
//! `a | b | c` with `c = a + b`, and each step copies the previous `b` and
//! `c` into the next row's `a` and `b`.
use crate::checker::{check, copy_holds, is_violation, Violation};
use crate::laws::lemma_addition_gate;
use crate::error::Error;
use crate::expr::{fmod, Column, ColumnKind, Expr, Selector};
use crate::field::Fe;
use crate::layout::{merged, AssignedCell, Cell, Slot, Trace};
use crate::system::{Constraint, ConstraintSystem};
use vstd::prelude::*;

verus! {

/// The chain `x_0 = a`, `x_1 = b`, `x_{i+2} = x_i + x_{i+1}` in the field.
pub open spec fn fib_mod(a: int, b: int, n: nat) -> int
    decreases n,
{
    if n == 0 {
        a
    } else if n == 1 {
        b
    } else {
        fmod(fib_mod(a, b, (n - 2) as nat) + fib_mod(a, b, (n - 1) as nat))
    }
}

/// The columns and selector of the chain.
#[derive(Clone, Copy, Debug)]
pub struct FiboConfig {
    pub col_a: Column,
    pub col_b: Column,
    pub col_c: Column,
    pub sel: Selector,
    pub instance: Column,
}

/// `c` is a declared advice column with equality enabled.
pub open spec fn advice_in(t: &Trace, c: Column) -> bool {
    c.kind == ColumnKind::Advice && t.has_col(c) && t.equality_enabled(c)
}

impl FiboConfig {
    /// The configuration's columns and selector exist in `t`, and copies are allowed on them.
    pub open spec fn fits(&self, t: &Trace) -> bool {
        &&& advice_in(t, self.col_a)
        &&& advice_in(t, self.col_b)
        &&& advice_in(t, self.col_c)
        &&& self.col_a != self.col_b
        &&& self.col_b != self.col_c
        &&& self.col_a != self.col_c
        &&& self.sel.index < t.selectors@.len()
        &&& self.instance.kind == ColumnKind::Instance
        &&& t.has_col(self.instance)
        &&& t.equality_enabled(self.instance)
    }

    /// The configuration's columns and selector are declared in `cs`, with copies allowed.
    pub open spec fn declared_in(&self, cs: &ConstraintSystem) -> bool {
        &&& self.col_a.kind == ColumnKind::Advice && cs.column_declared(self.col_a) && cs.equality_enabled(self.col_a)
        &&& self.col_b.kind == ColumnKind::Advice && cs.column_declared(self.col_b) && cs.equality_enabled(self.col_b)
        &&& self.col_c.kind == ColumnKind::Advice && cs.column_declared(self.col_c) && cs.equality_enabled(self.col_c)
        &&& self.col_a != self.col_b
        &&& self.col_b != self.col_c
        &&& self.col_a != self.col_c
        &&& self.sel.index < cs.num_selectors
        &&& self.instance.kind == ColumnKind::Instance
        &&& cs.column_declared(self.instance)
        &&& cs.equality_enabled(self.instance)
    }

    /// Declares three advice columns, a selector and an instance column, all
    /// open to copy constraints.
    pub fn new(cs: &mut ConstraintSystem) -> (r: FiboConfig)
        requires
            old(cs).wf(),
            old(cs).num_advice + 3 <= usize::MAX,
            old(cs).num_selectors < usize::MAX,
            old(cs).num_instance < usize::MAX,
        ensures
            final(cs).wf(),
            r.declared_in(final(cs)),
            r.col_a == (Column { kind: ColumnKind::Advice, index: old(cs).num_advice }),
            r.col_b == (Column { kind: ColumnKind::Advice, index: (old(cs).num_advice + 1) as usize }),
            r.col_c == (Column { kind: ColumnKind::Advice, index: (old(cs).num_advice + 2) as usize }),
            r.sel == (Selector { index: old(cs).num_selectors, complex: false }),
            r.instance == (Column { kind: ColumnKind::Instance, index: old(cs).num_instance }),
            final(cs).num_advice == old(cs).num_advice + 3,
            final(cs).num_selectors == old(cs).num_selectors + 1,
            final(cs).num_instance == old(cs).num_instance + 1,
            final(cs).num_fixed == old(cs).num_fixed,
            forall|d: Column| #[trigger] final(cs).equality_enabled(d) <==> (old(cs).equality_enabled(d) || d == r.col_a
                || d == r.col_b || d == r.col_c || d == r.instance),
            final(cs).gates@ == old(cs).gates@,
            final(cs).lookups@ == old(cs).lookups@,
    {
        let col_a = cs.advice_column();
        let col_b = cs.advice_column();
        let col_c = cs.advice_column();
        let sel = cs.selector();
        let instance = cs.instance_column();
        let ghost e0 = *cs;
        let _ = cs.enable_equality(col_a);
        let ghost e1 = *cs;
        let _ = cs.enable_equality(col_b);
        let ghost e2 = *cs;
        let _ = cs.enable_equality(col_c);
        let ghost e3 = *cs;
        let _ = cs.enable_equality(instance);
        proof {
            assert forall|d: Column| #[trigger] cs.equality_enabled(d) <==> (old(cs).equality_enabled(d) || d == col_a
                || d == col_b || d == col_c || d == instance) by {
                assert(e0.equality@ == old(cs).equality@);
                assert(e1.equality_enabled(d) == (e0.equality_enabled(d) || d == col_a));
                assert(e2.equality_enabled(d) == (e1.equality_enabled(d) || d == col_b));
                assert(e3.equality_enabled(d) == (e2.equality_enabled(d) || d == col_c));
                assert(cs.equality_enabled(d) == (e3.equality_enabled(d) || d == instance));
            }
        }
        FiboConfig { col_a, col_b, col_c, sel, instance }
    }

    /// The constraint set's polynomial: `a + b - c` on the current row.
    pub open spec fn gate_poly(&self) -> Expr {
        Expr::Sum(
            Box::new(Expr::Sum(Box::new(Expr::Query(self.col_a, 0)), Box::new(Expr::Query(self.col_b, 0)))),
            Box::new(Expr::Neg(Box::new(Expr::Query(self.col_c, 0)))),
        )
    }
}

/// Lays out the chain.
pub struct FiboChip {
    pub config: FiboConfig,
}

impl FiboChip {
    pub fn new(config: FiboConfig) -> (r: FiboChip)
        ensures
            r.config == config,
    {
        FiboChip { config }
    }

    /// Registers the constraint set `a + b - c = 0` under the chain's selector.
    pub fn configure(cs: &mut ConstraintSystem, config: &FiboConfig) -> (r: Result<(), Error>)
        requires
            old(cs).wf(),
            config.declared_in(old(cs)),
        ensures
            r is Ok,
            final(cs).wf(),
            config.declared_in(final(cs)),
            final(cs).gates@.len() == old(cs).gates@.len() + 1,
            final(cs).gates@.drop_last() == old(cs).gates@,
            final(cs).gates@.last().selector == config.sel,
            final(cs).gates@.last().constraints@.len() == 1,
            final(cs).gates@.last().constraints@[0].poly == config.gate_poly(),
            final(cs).lookups@ == old(cs).lookups@,
            final(cs).num_advice == old(cs).num_advice,
            final(cs).num_instance == old(cs).num_instance,
            final(cs).num_fixed == old(cs).num_fixed,
            final(cs).num_selectors == old(cs).num_selectors,
            final(cs).equality@ == old(cs).equality@,
    {
        let poly = Expr::query(config.col_a, 0).plus(Expr::query(config.col_b, 0)).minus(
            Expr::query(config.col_c, 0),
        );
        proof {
            let qa = Expr::Query(config.col_a, 0);
            let qb = Expr::Query(config.col_b, 0);
            let qc = Expr::Query(config.col_c, 0);
            assert(cs.expr_declared(qa) && cs.expr_declared(qb) && cs.expr_declared(qc));
            assert(cs.expr_declared(Expr::Neg(Box::new(qc))));
            assert(cs.expr_declared(Expr::Sum(Box::new(qa), Box::new(qb))));
            assert(cs.expr_declared(poly));
        }
        let mut constraints: Vec<Constraint> = Vec::new();
        constraints.push(Constraint { label: String::from_str("a + b = c"), poly });
        assert(constraints@[0].poly == config.gate_poly());
        let r = cs.create_gate(String::from_str("fibonacci"), config.sel, constraints);
        proof {
            assert(cs.gates@.drop_last() =~= old(cs).gates@);
        }
        r
    }
}

/// The integer a possibly unknown value stands for.
pub open spec fn opt_val(v: Option<Fe>) -> Option<int> {
    match v {
        Some(f) => Some(f.val()),
        None => None,
    }
}

/// A possibly unknown value is canonical where known.
pub open spec fn opt_wf(v: Option<Fe>) -> bool {
    v matches Some(f) ==> f.wf()
}

/// `x + y`, unknown when either is.
pub fn add_values(x: Option<Fe>, y: Option<Fe>) -> (r: Option<Fe>)
    requires
        opt_wf(x),
        opt_wf(y),
    ensures
        opt_wf(r),
        r is Some <==> x is Some && y is Some,
        r matches Some(f) ==> f.val() == fmod(x->Some_0.val() + y->Some_0.val()),
{
    match (x, y) {
        (Some(x), Some(y)) => Some(x.add(&y)),
        _ => None,
    }
}


/// The chain's sum holds on row `r`: `a`, `b`, `c` are known and `c = a + b`.
pub open spec fn row_sums(cfg: FiboConfig, t: &Trace, r: int) -> bool {
    t.slot(cfg.col_a, r) matches Slot::Known(x) && t.slot(cfg.col_b, r) matches Slot::Known(y)
        && t.slot(cfg.col_c, r) matches Slot::Known(z) && z.val() == fmod(x.val() + y.val())
}

/// Every row where the chain's selector is enabled holds a correct sum.
pub open spec fn rows_ok(cfg: FiboConfig, t: &Trace) -> bool {
    forall|r: int| 0 <= r < t.n && #[trigger] t.enabled(cfg.sel, r) ==> row_sums(cfg, t, r)
}

/// Every copy constraint of the trace holds.
pub open spec fn copies_ok(t: &Trace) -> bool {
    forall|j: int| 0 <= j < t.copies@.len() ==> #[trigger] copy_holds(t, j)
}

/// Filling empty cells of one row, enabling the selector there, and adding
/// copies that hold keeps every earlier sum and copy intact.
proof fn lemma_row_frame(cfg: FiboConfig, o: &Trace, t: &Trace, row: int)
    requires
        rows_ok(cfg, o),
        copies_ok(o),
        o.wf(),
        t.same_columns(o),
        cfg.sel.index < o.selectors@.len(),
        t.copies@.len() >= o.copies@.len(),
        forall|j: int| 0 <= j < o.copies@.len() ==> #[trigger] t.copies@[j] == o.copies@[j],
        forall|j: int| o.copies@.len() <= j < t.copies@.len() ==> #[trigger] copy_holds(t, j),
        forall|c2: Column, r2: int|
            o.has_col(c2) && 0 <= r2 < o.n && #[trigger] t.slot(c2, r2) != o.slot(c2, r2) ==> r2 == row && o.slot(
                c2,
                r2,
            ) is Empty,
        forall|r2: int| 0 <= r2 < o.n && r2 != row && #[trigger] t.enabled(cfg.sel, r2) ==> o.enabled(cfg.sel, r2),
        0 <= row < o.n && t.enabled(cfg.sel, row) ==> row_sums(cfg, t, row),
        o.has_col(cfg.col_a) && o.has_col(cfg.col_b) && o.has_col(cfg.col_c),
    ensures
        rows_ok(cfg, t),
        copies_ok(t),
{
    assert forall|r: int| 0 <= r < t.n && #[trigger] t.enabled(cfg.sel, r) implies row_sums(cfg, t, r) by {
        if r != row {
            assert(o.enabled(cfg.sel, r));
            assert(row_sums(cfg, o, r));
            assert(t.slot(cfg.col_a, r) == o.slot(cfg.col_a, r));
            assert(t.slot(cfg.col_b, r) == o.slot(cfg.col_b, r));
            assert(t.slot(cfg.col_c, r) == o.slot(cfg.col_c, r));
        }
    }
    assert forall|j: int| 0 <= j < t.copies@.len() implies #[trigger] copy_holds(t, j) by {
        if j < o.copies@.len() {
            assert(copy_holds(o, j));
            assert(t.copies@[j] == o.copies@[j]);
            let (a, b) = o.copies@[j];
            assert(o.has_cell(o.copies@[j].0) && o.has_cell(o.copies@[j].1));
            assert(t.slot(a.column, a.row as int) == o.slot(a.column, a.row as int));
            assert(t.slot(b.column, b.row as int) == o.slot(b.column, b.row as int));
        }
    }
}

impl FiboChip {
    /// The first row: `a`, `b` and `a + b` (unknown where an input is), with
    /// the selector enabled. Returns the cells of `b` and `a + b`.
    pub fn assign_init(&self, t: &mut Trace, a: Option<Fe>, b: Option<Fe>) -> (r: Result<(AssignedCell, AssignedCell), Error>)
        requires
            old(t).wf(),
            self.config.fits(old(t)),
            opt_wf(a),
            opt_wf(b),
        ensures
            final(t).wf(),
            self.config.fits(final(t)),
            final(t).n == old(t).n,
            final(t).same_columns(old(t)),
            final(t).same_non_advice(old(t)),
            final(t).copies@ == old(t).copies@,
            r is Err <==> old(t).next_row + 1 > old(t).n,
            r is Err ==> *final(t) == *old(t),
            r matches Ok((cb, cc)) ==> {
                let row = old(t).next_row as int;
                &&& cb.cell == (Cell { column: self.config.col_b, row: old(t).next_row })
                &&& cc.cell == (Cell { column: self.config.col_c, row: old(t).next_row })
                &&& cb.value == b
                &&& opt_val(cc.value) == add_spec(a, b)
                &&& opt_wf(cc.value)
                &&& final(t).has_cell(cb.cell) && final(t).has_cell(cc.cell)
                &&& final(t).next_row == old(t).next_row + 1
                &&& final(t).slot(self.config.col_a, row) == merged(Slot::Empty, a)
                &&& final(t).slot(self.config.col_b, row) == merged(Slot::Empty, b)
                &&& final(t).slot(self.config.col_c, row) == merged(Slot::Empty, cc.value)
                &&& final(t).selectors_set(old(t), (|i: int, q: int| i == self.config.sel.index && q == row))
                &&& final(t).cells_same_outside(old(t), (|c: Column, q: int| fibo_cell(self.config, c, q, row)))
            },
            r is Ok && a is Some && b is Some && rows_ok(self.config, old(t)) && copies_ok(old(t)) ==> rows_ok(
                self.config,
                final(t),
            ) && copies_ok(final(t)),
            forall|c2: Column, r2: int|
                final(t).has_col(c2) && 0 <= r2 < old(t).next_row ==> #[trigger] final(t).slot(c2, r2) == old(t).slot(c2, r2),
    {
        let region = t.assign_region(String::from_str("assign init"), 1)?;
        let ghost t0 = *t;
        let _ = t.enable_selector(&region, self.config.sel, 0);
        let ghost t1 = *t;
        let c = add_values(a, b);
        let row = region.start;
        assert(t.slot(self.config.col_a, row as int) is Empty);
        let _ = t.assign_advice(&region, self.config.col_a, 0, a);
        let ghost t2 = *t;
        assert(t.slot(self.config.col_b, row as int) is Empty);
        let cell_b = t.assign_advice(&region, self.config.col_b, 0, b);
        let ghost t3 = *t;
        assert(t.slot(self.config.col_c, row as int) is Empty);
        let cell_c = t.assign_advice(&region, self.config.col_c, 0, c);
        proof {
            let o = old(t);
            assert(cell_b is Ok && cell_c is Ok);
            assert forall|c2: Column, r2: int|
                o.has_col(c2) && 0 <= r2 < o.n && !fibo_cell(self.config, c2, r2, row as int)
                    implies #[trigger] t.slot(c2, r2) == o.slot(c2, r2) by {
                assert(t0.slot(c2, r2) == o.slot(c2, r2));
                assert(t1.slot(c2, r2) == t0.slot(c2, r2));
                assert(t2.slot(c2, r2) == t1.slot(c2, r2));
                assert(t3.slot(c2, r2) == t2.slot(c2, r2));
                assert(t.slot(c2, r2) == t3.slot(c2, r2));
            }
            assert forall|s2: Selector, r2: int| 0 <= s2.index < t.selectors@.len() && 0 <= r2 < t.n implies #[trigger] t.enabled(
                s2,
                r2,
            ) == (o.enabled(s2, r2) || (s2.index == self.config.sel.index && r2 == row)) by {
                assert(t0.enabled(s2, r2) == o.enabled(s2, r2));
            }
            assert(t3.slot(self.config.col_a, row as int) == t2.slot(self.config.col_a, row as int));
            assert(t.slot(self.config.col_a, row as int) == t3.slot(self.config.col_a, row as int));
            assert(t.slot(self.config.col_b, row as int) == t3.slot(self.config.col_b, row as int));
            if a is Some && b is Some && rows_ok(self.config, o) && copies_ok(o) {
                assert forall|c2: Column, r2: int|
                    o.has_col(c2) && 0 <= r2 < o.n && #[trigger] t.slot(c2, r2) != o.slot(c2, r2) implies r2 == row
                        && o.slot(c2, r2) is Empty by {
                    if !fibo_cell(self.config, c2, r2, row as int) {
                        assert(t.slot(c2, r2) == o.slot(c2, r2));
                    }
                }
                assert forall|r2: int| 0 <= r2 < o.n && r2 != row && #[trigger] t.enabled(self.config.sel, r2)
                    implies o.enabled(self.config.sel, r2) by {
                    assert(t1.enabled(self.config.sel, r2) == t0.enabled(self.config.sel, r2));
                }
                assert(row_sums(self.config, t, row as int));
                lemma_row_frame(self.config, o, t, row as int);
            }
        }
        Ok((cell_b.unwrap(), cell_c.unwrap()))
    }
}

/// Row `row` holds step `q` of the chain seeded with `a`, `b`: the values
/// `x_q`, `x_{q+1}`, `x_{q+2}` when both seeds are known, and an unknown sum
/// otherwise.
pub open spec fn chain_row(cfg: FiboConfig, t: &Trace, a: Option<Fe>, b: Option<Fe>, row: int, q: int) -> bool {
    if a is Some && b is Some {
        let x = a->Some_0.val();
        let y = b->Some_0.val();
        &&& t.slot(cfg.col_a, row) matches Slot::Known(f) && f.val() == fib_mod(x, y, q as nat)
        &&& t.slot(cfg.col_b, row) matches Slot::Known(f) && f.val() == fib_mod(x, y, (q + 1) as nat)
        &&& t.slot(cfg.col_c, row) matches Slot::Known(f) && f.val() == fib_mod(x, y, (q + 2) as nat)
    } else {
        t.slot(cfg.col_c, row) == Slot::Unknown
    }
}

/// `(c, r)` is one of the three cells the chain writes on row `row`.
pub open spec fn fibo_cell(cfg: FiboConfig, c: Column, r: int, row: int) -> bool {
    r == row && (c == cfg.col_a || c == cfg.col_b || c == cfg.col_c)
}

/// `a + b` in the field, unknown when either is.
pub open spec fn add_spec(a: Option<Fe>, b: Option<Fe>) -> Option<int> {
    match (a, b) {
        (Some(x), Some(y)) => Some(fmod(x.val() + y.val())),
        _ => None,
    }
}

impl FiboChip {
    /// One step on a fresh row: copies `prev_b` and `prev_c` into `a` and `b`
    /// and writes their sum, unknown when either is, into `c`.
    pub fn assign(&self, t: &mut Trace, prev_b: &AssignedCell, prev_c: &AssignedCell) -> (r: Result<AssignedCell, Error>)
        requires
            old(t).wf(),
            self.config.fits(old(t)),
            old(t).has_cell(prev_b.cell),
            old(t).has_cell(prev_c.cell),
            old(t).equality_enabled(prev_b.cell.column),
            old(t).equality_enabled(prev_c.cell.column),
            opt_wf(prev_b.value),
            opt_wf(prev_c.value),
        ensures
            final(t).wf(),
            self.config.fits(final(t)),
            final(t).n == old(t).n,
            final(t).same_columns(old(t)),
            final(t).same_non_advice(old(t)),
            r is Err <==> old(t).next_row + 1 > old(t).n,
            r is Err ==> *final(t) == *old(t),
            r matches Ok(cc) ==> {
                let row = old(t).next_row as int;
                &&& cc.cell == (Cell { column: self.config.col_c, row: old(t).next_row })
                &&& opt_wf(cc.value)
                &&& opt_val(cc.value) == add_spec(prev_b.value, prev_c.value)
                &&& final(t).has_cell(cc.cell)
                &&& final(t).next_row == old(t).next_row + 1
                &&& final(t).slot(self.config.col_a, row) == merged(Slot::Empty, prev_b.value)
                &&& final(t).slot(self.config.col_b, row) == merged(Slot::Empty, prev_c.value)
                &&& final(t).slot(self.config.col_c, row) == merged(Slot::Empty, cc.value)
                &&& final(t).copies@ == old(t).copies@.push(
                    (prev_b.cell, Cell { column: self.config.col_a, row: old(t).next_row }),
                ).push((prev_c.cell, Cell { column: self.config.col_b, row: old(t).next_row }))
                &&& final(t).selectors_set(old(t), (|i: int, q: int| i == self.config.sel.index && q == row))
                &&& final(t).cells_same_outside(old(t), (|c: Column, q: int| fibo_cell(self.config, c, q, row)))
            },
            r is Ok && rows_ok(self.config, old(t)) && copies_ok(old(t)) && prev_b.value is Some && prev_c.value is Some
                && old(t).slot(prev_b.cell.column, prev_b.cell.row as int) == Slot::Known(prev_b.value->Some_0)
                && old(t).slot(prev_c.cell.column, prev_c.cell.row as int) == Slot::Known(prev_c.value->Some_0)
                ==> rows_ok(self.config, final(t)) && copies_ok(final(t)),
            forall|c2: Column, r2: int|
                final(t).has_col(c2) && 0 <= r2 < old(t).next_row ==> #[trigger] final(t).slot(c2, r2) == old(t).slot(c2, r2),
    {
        let region = t.assign_region(String::from_str("assign"), 1)?;
        let ghost t0 = *t;
        let _ = t.enable_selector(&region, self.config.sel, 0);
        let ghost t1 = *t;
        let c = add_values(prev_b.value, prev_c.value);
        let row = region.start;
        assert(t.slot(self.config.col_a, row as int) is Empty);
        let ca = t.copy_advice(prev_b, &region, self.config.col_a, 0).unwrap();
        let ghost t2 = *t;
        assert(t.slot(self.config.col_b, row as int) is Empty);
        let cb = t.copy_advice(prev_c, &region, self.config.col_b, 0).unwrap();
        let ghost t3 = *t;
        assert(t.slot(self.config.col_c, row as int) is Empty);
        let cell_c = t.assign_advice(&region, self.config.col_c, 0, c).unwrap();
        proof {
            let o = old(t);
            assert forall|c2: Column, r2: int|
                o.has_col(c2) && 0 <= r2 < o.n && !fibo_cell(self.config, c2, r2, row as int)
                    implies #[trigger] t.slot(c2, r2) == o.slot(c2, r2) by {
                assert(t0.slot(c2, r2) == o.slot(c2, r2));
                assert(t1.slot(c2, r2) == t0.slot(c2, r2));
                assert(t2.slot(c2, r2) == t1.slot(c2, r2));
                assert(t3.slot(c2, r2) == t2.slot(c2, r2));
                assert(t.slot(c2, r2) == t3.slot(c2, r2));
            }
            assert forall|s2: Selector, r2: int| 0 <= s2.index < t.selectors@.len() && 0 <= r2 < t.n implies #[trigger] t.enabled(
                s2,
                r2,
            ) == (o.enabled(s2, r2) || (s2.index == self.config.sel.index && r2 == row)) by {
                assert(t0.enabled(s2, r2) == o.enabled(s2, r2));
            }
            assert(t3.slot(self.config.col_a, row as int) == t2.slot(self.config.col_a, row as int));
            assert(t.slot(self.config.col_a, row as int) == t3.slot(self.config.col_a, row as int));
            assert(t.slot(self.config.col_b, row as int) == t3.slot(self.config.col_b, row as int));
            if rows_ok(self.config, o) && copies_ok(o) && prev_b.value is Some && prev_c.value is Some
                && o.slot(prev_b.cell.column, prev_b.cell.row as int) == Slot::Known(prev_b.value->Some_0)
                && o.slot(prev_c.cell.column, prev_c.cell.row as int) == Slot::Known(prev_c.value->Some_0) {
                assert forall|c2: Column, r2: int|
                    o.has_col(c2) && 0 <= r2 < o.n && #[trigger] t.slot(c2, r2) != o.slot(c2, r2) implies r2 == row
                        && o.slot(c2, r2) is Empty by {
                    assert(t0.slot(c2, r2) == o.slot(c2, r2));
                    assert(t1.slot(c2, r2) == t0.slot(c2, r2));
                    if !(r2 == row && (c2 == self.config.col_a || c2 == self.config.col_b || c2 == self.config.col_c)) {
                        assert(t2.slot(c2, r2) == t1.slot(c2, r2));
                        assert(t3.slot(c2, r2) == t2.slot(c2, r2));
                        assert(t.slot(c2, r2) == t3.slot(c2, r2));
                    }
                }
                assert forall|r2: int| 0 <= r2 < o.n && r2 != row && #[trigger] t.enabled(self.config.sel, r2)
                    implies o.enabled(self.config.sel, r2) by {
                    assert(t1.enabled(self.config.sel, r2) == t0.enabled(self.config.sel, r2));
                }
                let pb = prev_b.cell;
                let pc = prev_c.cell;
                assert(t.slot(pb.column, pb.row as int) == o.slot(pb.column, pb.row as int));
                assert(t.slot(pc.column, pc.row as int) == o.slot(pc.column, pc.row as int));
                assert(t3.slot(self.config.col_a, row as int) == t2.slot(self.config.col_a, row as int));
                assert(t.slot(self.config.col_a, row as int) == t3.slot(self.config.col_a, row as int));
                assert(t.slot(self.config.col_b, row as int) == t3.slot(self.config.col_b, row as int));
                assert(row_sums(self.config, t, row as int));
                assert(t.copies@ == o.copies@.push((pb, ca.cell)).push((pc, cb.cell)));
                assert forall|j: int| o.copies@.len() <= j < t.copies@.len() implies #[trigger] copy_holds(t, j) by {
                    if j == o.copies@.len() {
                        assert(t.copies@[j] == (pb, ca.cell));
                    } else {
                        assert(t.copies@[j] == (pc, cb.cell));
                    }
                }
                assert forall|j: int| 0 <= j < o.copies@.len() implies #[trigger] t.copies@[j] == o.copies@[j] by {
                    assert(t.copies@[j] == o.copies@.push((pb, ca.cell)).push((pc, cb.cell))[j]);
                }
                lemma_row_frame(self.config, o, t, row as int);
            }
        }
        Ok(cell_c)
    }

    /// Asserts that `output` equals the first public input.
    pub fn expose_public(&self, t: &mut Trace, output: &AssignedCell) -> (r: Result<(), Error>)
        requires
            old(t).wf(),
            self.config.fits(old(t)),
            old(t).has_cell(output.cell),
            old(t).equality_enabled(output.cell.column),
        ensures
            final(t).wf(),
            final(t).same_shape(old(t)),
            final(t).same_cells(old(t)),
            final(t).same_selectors(old(t)),
            r is Err <==> old(t).n == 0,
            r is Ok ==> final(t).copies@ == old(t).copies@.push((output.cell, Cell { column: self.config.instance, row: 0 })),
    {
        t.constrain_instance(output, self.config.instance, 0)
    }
}

/// The chain's circuit: its two seeds, either of which may be unknown.
pub struct FiboCircuit {
    pub a: Option<Fe>,
    pub b: Option<Fe>,
}

/// Number of rows the chain occupies.
pub const FIBO_ROWS: usize = 10;

impl FiboCircuit {
    /// The same circuit with both seeds unknown.
    pub fn without_witnesses(&self) -> (r: FiboCircuit)
        ensures
            r.a is None && r.b is None,
    {
        FiboCircuit { a: None, b: None }
    }

    /// Declares the columns and the constraint set. Needs no witness.
    pub fn configure(cs: &mut ConstraintSystem) -> (r: FiboConfig)
        requires
            old(cs).wf(),
            old(cs).num_advice + 3 <= usize::MAX,
            old(cs).num_selectors < usize::MAX,
            old(cs).num_instance < usize::MAX,
        ensures
            final(cs).wf(),
            r.declared_in(final(cs)),
            r.col_a == (Column { kind: ColumnKind::Advice, index: old(cs).num_advice }),
            r.col_b == (Column { kind: ColumnKind::Advice, index: (old(cs).num_advice + 1) as usize }),
            r.col_c == (Column { kind: ColumnKind::Advice, index: (old(cs).num_advice + 2) as usize }),
            r.sel == (Selector { index: old(cs).num_selectors, complex: false }),
            r.instance == (Column { kind: ColumnKind::Instance, index: old(cs).num_instance }),
            final(cs).num_advice == old(cs).num_advice + 3,
            final(cs).num_selectors == old(cs).num_selectors + 1,
            final(cs).num_instance == old(cs).num_instance + 1,
            final(cs).num_fixed == old(cs).num_fixed,
            forall|d: Column| #[trigger] final(cs).equality_enabled(d) <==> (old(cs).equality_enabled(d) || d == r.col_a
                || d == r.col_b || d == r.col_c || d == r.instance),
            final(cs).gates@.len() == old(cs).gates@.len() + 1,
            final(cs).gates@.drop_last() == old(cs).gates@,
            final(cs).gates@.last().selector == r.sel,
            final(cs).gates@.last().constraints@.len() == 1,
            final(cs).gates@.last().constraints@[0].poly == r.gate_poly(),
            final(cs).lookups@ == old(cs).lookups@,
    {
        let config = FiboConfig::new(cs);
        let ghost mid = *cs;
        let _ = FiboChip::configure(cs, &config);
        proof {
            assert forall|d: Column| #[trigger] cs.equality_enabled(d) == mid.equality_enabled(d) by {}
        }
        config
    }

    /// Lays out ten rows of the chain and exposes the last sum as the first
    /// public input. Unknown seeds give unknown cells.
    pub fn synthesize(&self, config: FiboConfig, t: &mut Trace) -> (r: Result<(), Error>)
        requires
            old(t).wf(),
            config.fits(old(t)),
            opt_wf(self.a),
            opt_wf(self.b),
        ensures
            final(t).wf(),
            final(t).same_columns(old(t)),
            final(t).same_non_advice(old(t)),
            r is Err <==> old(t).next_row + FIBO_ROWS > old(t).n,
            r is Ok ==> final(t).next_row == old(t).next_row + FIBO_ROWS,
            r is Ok ==> final(t).copies@.len() == old(t).copies@.len() + 2 * FIBO_ROWS - 1,
            r is Ok ==> final(t).copies@.last().1 == (Cell { column: config.instance, row: 0 }),
            r is Ok && self.a is Some && self.b is Some ==> {
                let (out, inst) = final(t).copies@.last();
                &&& final(t).slot(out.column, out.row as int) matches Slot::Known(f)
                &&& f.val() == fib_mod(self.a->Some_0.val(), self.b->Some_0.val(), (FIBO_ROWS + 1) as nat)
            },
            r is Ok && self.a is Some && self.b is Some && rows_ok(config, old(t)) && copies_ok(old(t)) ==> rows_ok(
                config,
                final(t),
            ) && forall|j: int| 0 <= j < final(t).copies@.len() - 1 ==> #[trigger] copy_holds(final(t), j),
            r is Ok ==> forall|q: int|
                0 <= q < FIBO_ROWS ==> #[trigger] chain_row(config, final(t), self.a, self.b, old(t).next_row + q, q),
            r is Ok ==> final(t).selectors_set(
                old(t),
                (|j: int, q: int| j == config.sel.index && old(t).next_row <= q < old(t).next_row + FIBO_ROWS),
            ),
    {
        let chip = FiboChip::new(config);
        let ghost known = self.a is Some && self.b is Some;
        let ghost good = known && rows_ok(config, old(t)) && copies_ok(old(t));
        let (mut prev_b, mut prev_c) = chip.assign_init(t, self.a, self.b)?;
        let ghost a = self.a->Some_0.val();
        let ghost b = self.b->Some_0.val();
        let ghost start = old(t).next_row;
        assert(fib_mod(a, b, 0) == a);
        assert(fib_mod(a, b, 1) == b);
        assert(fib_mod(a, b, 2) == fmod(a + b));
        assert(chain_row(config, t, self.a, self.b, start + 0, 0));
        let mut i: usize = 1;
        while i < FIBO_ROWS
            invariant
                1 <= i <= FIBO_ROWS,
                t.wf(),
                chip.config == config,
                config.fits(t),
                t.n == old(t).n,
                t.same_columns(old(t)),
                t.same_non_advice(old(t)),
                t.next_row == start + i,
                t.copies@.len() == old(t).copies@.len() + 2 * (i - 1),
                start + 1 <= old(t).n,
                start == old(t).next_row,
                t.has_cell(prev_b.cell),
                t.has_cell(prev_c.cell),
                prev_c.cell.row < t.next_row,
                prev_b.cell.row < t.next_row,
                prev_b.cell.column == config.col_b || prev_b.cell.column == config.col_c,
                prev_c.cell.column == config.col_c,
                opt_wf(prev_b.value),
                opt_wf(prev_c.value),
                known == (self.a is Some && self.b is Some),
                known ==> opt_val(prev_b.value) == Some(fib_mod(a, b, i as nat)),
                known ==> opt_val(prev_c.value) == Some(fib_mod(a, b, (i + 1) as nat)),
                known ==> t.slot(prev_c.cell.column, prev_c.cell.row as int) == Slot::Known(prev_c.value->Some_0),
                known ==> t.slot(prev_b.cell.column, prev_b.cell.row as int) == Slot::Known(prev_b.value->Some_0),
                good == (known && rows_ok(config, old(t)) && copies_ok(old(t))),
                good ==> rows_ok(config, t) && copies_ok(t),
                !known ==> prev_c.value is None,
                a == self.a->Some_0.val(),
                b == self.b->Some_0.val(),
                forall|q: int| 0 <= q < i ==> #[trigger] chain_row(config, t, self.a, self.b, start + q, q),
                t.selectors_set(old(t), (|j: int, q: int| j == config.sel.index && start <= q < start + i)),
            decreases FIBO_ROWS - i,
        {
            let ghost pre = *t;
            let cell_c = match chip.assign(t, &prev_b, &prev_c) {
                Ok(c) => c,
                Err(e) => {
                    return Err(e);
                },
            };
            proof {
                assert forall|q: int| 0 <= q < i + 1 implies #[trigger] chain_row(config, t, self.a, self.b, start + q, q) by {
                    if q < i {
                        assert(chain_row(config, &pre, self.a, self.b, start + q, q));
                        assert(t.slot(config.col_a, start + q) == pre.slot(config.col_a, start + q));
                        assert(t.slot(config.col_b, start + q) == pre.slot(config.col_b, start + q));
                        assert(t.slot(config.col_c, start + q) == pre.slot(config.col_c, start + q));
                        assert(chain_row(config, t, self.a, self.b, start + q, q));
                    } else {
                        let row = start + i;
                        assert(pre.next_row == row);
                        assert(t.slot(config.col_a, row) == merged(Slot::Empty, prev_b.value));
                        assert(t.slot(config.col_b, row) == merged(Slot::Empty, prev_c.value));
                        assert(t.slot(config.col_c, row) == merged(Slot::Empty, cell_c.value));
                        assert(opt_val(cell_c.value) == add_spec(prev_b.value, prev_c.value));
                        if known {
                            assert(fib_mod(a, b, (i + 2) as nat) == fmod(fib_mod(a, b, i as nat) + fib_mod(a, b, (i + 1) as nat)));
                        } else {
                            assert(cell_c.value is None);
                            assert(chain_row(config, t, self.a, self.b, row, i as int));
                        }
                        assert(q == i);
                        assert(chain_row(config, t, self.a, self.b, row, i as int));
                    }
                }
                assert forall|s2: Selector, q: int| 0 <= s2.index < t.selectors@.len() && 0 <= q < t.n implies #[trigger] t.enabled(
                    s2,
                    q,
                ) == (old(t).enabled(s2, q) || (s2.index == config.sel.index && start <= q < start + i + 1)) by {
                    assert(pre.enabled(s2, q) == (old(t).enabled(s2, q) || (s2.index == config.sel.index && start <= q < start + i)));
                }
            }
            prev_b = prev_c;
            prev_c = cell_c;
            i = i + 1;
        }
        let ghost before = *t;
        let r = chip.expose_public(t, &prev_c);
        proof {
            if r is Ok {
                assert(t.copies@.last().1 == (Cell { column: config.instance, row: 0 }));
                assert forall|q: int| 0 <= q < FIBO_ROWS implies #[trigger] chain_row(config, t, self.a, self.b, start + q, q) by {
                    assert(chain_row(config, &before, self.a, self.b, start + q, q));
                    assert(t.slot(config.col_a, start + q) == before.slot(config.col_a, start + q));
                    assert(t.slot(config.col_b, start + q) == before.slot(config.col_b, start + q));
                    assert(t.slot(config.col_c, start + q) == before.slot(config.col_c, start + q));
                }
                assert forall|s2: Selector, q: int| 0 <= s2.index < t.selectors@.len() && 0 <= q < t.n implies #[trigger] t.enabled(
                    s2,
                    q,
                ) == (old(t).enabled(s2, q) || (s2.index == config.sel.index && start <= q < start + FIBO_ROWS)) by {
                    assert(t.enabled(s2, q) == before.enabled(s2, q));
                }
            }
            if r is Ok && good {
                assert forall|q: int| 0 <= q < t.n && #[trigger] t.enabled(config.sel, q) implies row_sums(config, t, q) by {
                    assert(before.enabled(config.sel, q));
                    assert(t.slot(config.col_a, q) == before.slot(config.col_a, q));
                    assert(t.slot(config.col_b, q) == before.slot(config.col_b, q));
                    assert(t.slot(config.col_c, q) == before.slot(config.col_c, q));
                }
                assert forall|j: int| 0 <= j < t.copies@.len() - 1 implies #[trigger] copy_holds(t, j) by {
                    assert(copy_holds(&before, j));
                    assert(t.copies@[j] == before.copies@[j]);
                    let (x, y) = before.copies@[j];
                    assert(before.has_cell(before.copies@[j].0) && before.has_cell(before.copies@[j].1));
                    assert(t.slot(x.column, x.row as int) == before.slot(x.column, x.row as int));
                    assert(t.slot(y.column, y.row as int) == before.slot(y.column, y.row as int));
                }
            }
        }
        r
    }
}

impl FiboCircuit {
    /// Configures the circuit, lays it out on a trace of `n` rows with
    /// `public` as the instance column, and checks it. The result lists every
    /// violation; there is none exactly when the first public input is the
    /// chain's value.
    pub fn verify(&self, n: usize, public: &Vec<Fe>) -> (r: Result<Vec<Violation>, Error>)
        requires
            opt_wf(self.a),
            opt_wf(self.b),
            forall|i: int| 0 <= i < public@.len() ==> (#[trigger] public@[i]).wf(),
        ensures
            r is Err <==> (self.a is None || self.b is None || FIBO_ROWS > n || public@.len() > n),
            (self.a is None || self.b is None) ==> (r matches Err(e) && e == Error::MissingWitness),
            r matches Ok(v) ==> (public@.len() == 0 || public@[0].val() != fib_mod(
                self.a->Some_0.val(),
                self.b->Some_0.val(),
                (FIBO_ROWS + 1) as nat,
            )) ==> v@.len() > 0,
            r matches Ok(v) ==> (v@.len() == 0 <==> (public@.len() > 0 && public@[0].val() == fib_mod(
                self.a->Some_0.val(),
                self.b->Some_0.val(),
                (FIBO_ROWS + 1) as nat,
            ))),
    {
        if self.a.is_none() || self.b.is_none() {
            return Err(Error::MissingWitness);
        }
        let mut cs = ConstraintSystem::new();
        let config = FiboCircuit::configure(&mut cs);
        let mut t = Trace::new(&cs, n);
        let ghost t0 = t;
        t.set_instance(config.instance, public)?;
        let ghost t1 = t;
        self.synthesize(config, &mut t)?;
        let v = check(&cs, &t);
        proof {
            let i = t.copies@.len() - 1;
            let (out, inst) = t.copies@[i];
            let fib = fib_mod(self.a->Some_0.val(), self.b->Some_0.val(), (FIBO_ROWS + 1) as nat);
            assert(t.has_cell(t.copies@[i].0));
            assert(t.slot(config.instance, 0) == t1.slot(config.instance, 0));
            if public@.len() == 0 {
                assert(t1.slot(config.instance, 0) == t0.slot(config.instance, 0));
                assert(!copy_holds(&t, i));
                assert(is_violation(&cs, &t, Violation::CopyFailed { copy: i as usize }));
                assert(v@.contains(Violation::CopyFailed { copy: i as usize }));
            } else if public@[0].val() != fib {
                assert(t.slot(inst.column, 0) == crate::layout::Slot::Known(public@[0]));
                assert(!copy_holds(&t, i));
                assert(is_violation(&cs, &t, Violation::CopyFailed { copy: i as usize }));
                assert(v@.contains(Violation::CopyFailed { copy: i as usize }));
            } else {
                assert(rows_ok(config, &t1));
                assert(copies_ok(&t1));
                assert(t.slot(inst.column, 0) == crate::layout::Slot::Known(public@[0]));
                assert(copy_holds(&t, i));
                assert forall|w: Violation| !#[trigger] is_violation(&cs, &t, w) by {
                    match w {
                        Violation::ConstraintNotSatisfied { gate, constraint, row } => {
                            if gate < cs.gates@.len() && constraint < cs.gates@[gate as int].constraints@.len() && row < t.n
                                && t.enabled(cs.gates@[gate as int].selector, row as int) {
                                assert(row_sums(config, &t, row as int));
                                let x = t.slot(config.col_a, row as int)->Known_0;
                                let y = t.slot(config.col_b, row as int)->Known_0;
                                let z = t.slot(config.col_c, row as int)->Known_0;
                                lemma_addition_gate(&cs, &t, 0, row as int, config.col_a, config.col_b, config.col_c, 0, 0, 0, x, y, z);
                            }
                        },
                        Violation::CellNotAssigned { gate, constraint, row } => {
                            if gate < cs.gates@.len() && constraint < cs.gates@[gate as int].constraints@.len() && row < t.n
                                && t.enabled(cs.gates@[gate as int].selector, row as int) {
                                assert(row_sums(config, &t, row as int));
                                let x = t.slot(config.col_a, row as int)->Known_0;
                                let y = t.slot(config.col_b, row as int)->Known_0;
                                let z = t.slot(config.col_c, row as int)->Known_0;
                                lemma_addition_gate(&cs, &t, 0, row as int, config.col_a, config.col_b, config.col_c, 0, 0, 0, x, y, z);
                            }
                        },
                        Violation::LookupFailed { .. } => {},
                        Violation::CopyFailed { copy } => {
                            if copy < t.copies@.len() && copy < i {
                                assert(copy_holds(&t, copy as int));
                            }
                        },
                    }
                }
            }
        }
        Ok(v)
    }
}

} // verus!
