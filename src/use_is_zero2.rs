//! A circuit over one advice column and a public input: rows `a`, `b` and
//! an output that must equal the public input, `c` when `a == b` and
//! `a - b` otherwise.
use crate::error::Error;
use crate::expr::{fmod, Column, ColumnKind, Expr, Selector};
use crate::field::Fe;
use crate::is_zero::{inverse_or_zero, is_zero_form};
use crate::is_zero2::{IsZero2Chip, IsZero2Config};
use crate::layout::{merged, slot_value, AssignedCell, Cell, Slot, Trace};
use crate::system::{Constraint, ConstraintSystem};
use crate::use_is_zero::foo_output;
use vstd::prelude::*;

verus! {

#[derive(Debug)]
pub struct FooConfig {
    pub col: Column,
    pub sel: Selector,
    pub instance: Column,
    pub is_zero_config: IsZero2Config,
}

impl FooConfig {
    pub open spec fn fits(&self, t: &Trace) -> bool {
        let inv = self.is_zero_config.value_inv;
        &&& self.col.kind == ColumnKind::Advice && t.has_col(self.col) && t.equality_enabled(self.col)
        &&& inv.kind == ColumnKind::Advice && t.has_col(inv) && inv != self.col
        &&& self.instance.kind == ColumnKind::Instance && t.has_col(self.instance) && t.equality_enabled(self.instance)
        &&& self.sel.index < t.selectors@.len()
    }
}

impl IsZero2Config {
    /// A structural copy.
    pub fn duplicate(&self) -> (r: IsZero2Config)
        ensures
            r == *self,
    {
        IsZero2Config { value_inv: self.value_inv, is_zero_expr: self.is_zero_expr.duplicate() }
    }
}

pub struct FooChip {
    pub config: FooConfig,
}

impl FooChip {
    pub fn new(config: FooConfig) -> (r: FooChip)
        ensures
            r.config == config,
    {
        FooChip { config }
    }

    /// Declares the column, selector and instance column with copies allowed,
    /// the is-zero chip on `col[cur] - col[next]`, and the constraint set
    /// `z * (c - instance) = 0`, `(z - 1) * (a - b - instance) = 0` under the
    /// selector, with `a`, `b`, `c` the column at rotations 0, 1, 2.
    pub fn configure(cs: &mut ConstraintSystem) -> (r: FooConfig)
        requires
            old(cs).wf(),
            old(cs).num_advice + 2 <= usize::MAX,
            old(cs).num_selectors < usize::MAX,
            old(cs).num_instance < usize::MAX,
        ensures
            foo_configured(r, old(cs), final(cs)),
            forall|t: &Trace| t.fits(final(cs)) ==> #[trigger] r.fits(t),
    {
        let col = cs.advice_column();
        let sel = cs.selector();
        let instance = cs.instance_column();
        let ghost ce0 = *cs;
        let _ = cs.enable_equality(col);
        let ghost ce1 = *cs;
        let _ = cs.enable_equality(instance);
        let ghost ce2 = *cs;
        assert(cs.equality_enabled(col) && cs.equality_enabled(instance));
        let value = Expr::query(col, 0).minus(Expr::query(col, 1));
        proof {
            assert(cs.expr_declared(Expr::Query(col, 0)));
            assert(cs.expr_declared(Expr::Query(col, 1)));
            assert(cs.expr_declared(Expr::Neg(Box::new(Expr::Query(col, 1)))));
        }
        let ghost cs0 = *cs;
        let is_zero_config = IsZero2Chip::configure(cs, sel, value);
        let ghost gs1 = cs.gates@;
        let z = is_zero_config.expr().duplicate();
        let p1 = z.times(Expr::query(col, 2).minus(Expr::query(instance, 0)));
        let one = Fe::one();
        let z2 = is_zero_config.expr().duplicate();
        let diff = Expr::query(col, 0).minus(Expr::query(col, 1)).minus(Expr::query(instance, 0));
        let p2 = z2.minus(Expr::constant(one)).times(diff);
        let ghost g1 = p1;
        let ghost g2 = p2;
        proof {
            let zz = is_zero_config.is_zero_expr;
            let qa = Expr::Query(col, 0);
            let qb = Expr::Query(col, 1);
            let qc = Expr::Query(col, 2);
            let qi = Expr::Query(instance, 0);
            let n_i = Expr::Neg(Box::new(qi));
            assert(cs.expr_declared(qa) && cs.expr_declared(qb) && cs.expr_declared(qc) && cs.expr_declared(qi));
            assert(cs.expr_declared(n_i));
            let s1 = Expr::Sum(Box::new(qc), Box::new(n_i));
            assert(cs.expr_declared(s1));
            assert(g1 == Expr::Product(Box::new(zz), Box::new(s1)));
            assert(cs.expr_declared(g1));
            let n_one = Expr::Neg(Box::new(Expr::Constant(one)));
            assert(cs.expr_declared(Expr::Constant(one)));
            assert(cs.expr_declared(n_one));
            let l = Expr::Sum(Box::new(zz), Box::new(n_one));
            assert(cs.expr_declared(l));
            let ab = Expr::Sum(Box::new(qa), Box::new(Expr::Neg(Box::new(qb))));
            assert(cs.expr_declared(Expr::Neg(Box::new(qb))));
            assert(cs.expr_declared(ab));
            let d = Expr::Sum(Box::new(ab), Box::new(n_i));
            assert(cs.expr_declared(d));
            assert(g2 == Expr::Product(Box::new(l), Box::new(d)));
            assert(cs.expr_declared(g2));
        }
        let mut constraints: Vec<Constraint> = Vec::new();
        constraints.push(Constraint { label: String::from_str("a == b"), poly: p1 });
        constraints.push(Constraint { label: String::from_str("a != b"), poly: p2 });
        proof {
            assert forall|j: int| 0 <= j < constraints@.len() implies #[trigger] cs.expr_declared(constraints@[j].poly) by {
                if j == 0 {
                    assert(constraints@[j].poly == g1);
                } else {
                    assert(constraints@[j].poly == g2);
                }
            }
        }
        assert(constraints@[0].poly == g1);
        let _ = cs.create_gate(String::from_str("foo"), sel, constraints);
        assert(cs.equality_enabled(col) && cs.equality_enabled(instance));
        proof {
            assert(cs.gates@.drop_last() == gs1);
            assert(cs.gates@.subrange(0, old(cs).gates@.len() as int) =~= old(cs).gates@);
            assert(cs.gates@[cs.gates@.len() - 2] == gs1.last());
            assert(cs.gates@.last().constraints@[1].poly == g2);
            assert forall|d: Column| #[trigger] cs.equality_enabled(d) <==> (old(cs).equality_enabled(d) || d == col
                || d == instance) by {
                assert(cs.equality@ == cs0.equality@);
                assert(cs0.equality@ == ce2.equality@);
                assert(ce0.equality@ == old(cs).equality@);
                assert(ce2.equality_enabled(d) == (ce1.equality_enabled(d) || d == instance));
                assert(ce1.equality_enabled(d) == (ce0.equality_enabled(d) || d == col));
            }
        }
        FooConfig { col, sel, instance, is_zero_config }
    }

    /// Writes `a`, `b` and the output (unknown where an input is) on three
    /// fresh rows with the constraint set enabled on the first, and the
    /// inverse of `a - b` (zero when there is none) for the is-zero chip.
    /// Returns the output cell.
    pub fn assign(&self, t: &mut Trace, a: Option<Fe>, b: Option<Fe>, c: Option<Fe>) -> (r: Result<AssignedCell, Error>)
        requires
            old(t).wf(),
            self.config.fits(old(t)),
            a matches Some(f) ==> f.wf(),
            b matches Some(f) ==> f.wf(),
            c matches Some(f) ==> f.wf(),
        ensures
            final(t).wf(),
            final(t).same_columns(old(t)),
            final(t).copies@ == old(t).copies@,
            old(t).next_row + 3 > old(t).n ==> (r matches Err(e) && e == Error::NotEnoughRows && *final(t) == *old(t)),
            r is Err <==> old(t).next_row + 3 > old(t).n,
            r matches Ok(out) ==> foo_assigned(self.config, old(t), final(t), a, b, c) && out.cell == (Cell {
                column: self.config.col,
                row: (old(t).next_row + 2) as usize,
            }) && out.value == slot_value(final(t).slot(self.config.col, old(t).next_row + 2)),
    {
        let region = t.assign_region(String::from_str("assign foo"), 3)?;
        let ghost t0 = *t;
        let _ = t.enable_selector(&region, self.config.sel, 0);
        let ghost t1 = *t;
        let output: Option<Fe> = match (a, b, c) {
            (Some(x), Some(y), Some(z)) => Some(
                if x.equals(&y) {
                    z
                } else {
                    x.sub(&y)
                },
            ),
            _ => None,
        };
        let inv: Option<Fe> = match (a, b) {
            (Some(x), Some(y)) => {
                let d = x.sub(&y);
                match d.invert() {
                    None => Some(Fe::zero()),
                    Some(w) => Some(w),
                }
            },
            _ => None,
        };
        let row = region.start;
        let chip = IsZero2Chip::new(self.config.is_zero_config.duplicate());
        assert(t.slot(self.config.is_zero_config.value_inv, row as int) is Empty);
        let _ = chip.assign(t, &region, inv);
        let ghost t2 = *t;
        assert(t.slot(self.config.col, row as int) is Empty);
        let _ = t.assign_advice(&region, self.config.col, 0, a);
        let ghost t3 = *t;
        assert(t.slot(self.config.col, row + 1) is Empty);
        let _ = t.assign_advice(&region, self.config.col, 1, b);
        let ghost t4 = *t;
        assert(t.slot(self.config.col, row + 2) is Empty);
        let out = t.assign_advice(&region, self.config.col, 2, output);
        proof {
            let cfg = self.config;
            assert(out is Ok);
            assert forall|s2: Selector, r2: int| 0 <= s2.index < t.selectors@.len() && 0 <= r2 < t.n implies #[trigger] t.enabled(
                s2,
                r2,
            ) == (old(t).enabled(s2, r2) || (s2.index == cfg.sel.index && r2 == old(t).next_row)) by {
                assert(t0.enabled(s2, r2) == old(t).enabled(s2, r2));
                assert(t2.enabled(s2, r2) == t1.enabled(s2, r2));
                assert(t3.enabled(s2, r2) == t2.enabled(s2, r2));
                assert(t4.enabled(s2, r2) == t3.enabled(s2, r2));
                assert(t.enabled(s2, r2) == t4.enabled(s2, r2));
            }
            assert forall|c2: Column, r2: int|
                t.has_col(c2) && 0 <= r2 < t.n && !foo_cell(cfg, c2, r2, old(t).next_row as int)
                    implies #[trigger] t.slot(c2, r2) == old(t).slot(c2, r2) by {
                assert(t0.slot(c2, r2) == old(t).slot(c2, r2));
                assert(t1.slot(c2, r2) == t0.slot(c2, r2));
                assert(t2.slot(c2, r2) == t1.slot(c2, r2));
                assert(t3.slot(c2, r2) == t2.slot(c2, r2));
                assert(t4.slot(c2, r2) == t3.slot(c2, r2));
                assert(t.slot(c2, r2) == t4.slot(c2, r2));
            }
            assert(t.slot(cfg.is_zero_config.value_inv, row as int) == t2.slot(cfg.is_zero_config.value_inv, row as int));
            assert(t.slot(cfg.col, row as int) == t3.slot(cfg.col, row as int));
            assert(t.slot(cfg.col, row + 1) == t4.slot(cfg.col, row + 1));
        }
        out
    }

    /// Asserts that `cell` equals the first public input.
    pub fn expose_public(&self, t: &mut Trace, cell: &AssignedCell) -> (r: Result<(), Error>)
        requires
            old(t).wf(),
            self.config.fits(old(t)),
            old(t).has_cell(cell.cell),
            old(t).equality_enabled(cell.cell.column),
        ensures
            final(t).wf(),
            final(t).same_shape(old(t)),
            final(t).same_cells(old(t)),
            final(t).same_selectors(old(t)),
            r is Err <==> old(t).n == 0,
            r is Ok ==> final(t).copies@ == old(t).copies@.push((cell.cell, Cell { column: self.config.instance, row: 0 })),
    {
        t.constrain_instance(cell, self.config.instance, 0)
    }
}

/// `(c, r)` is one of the cells the chip writes from row `row` on.
pub open spec fn foo_cell(cfg: FooConfig, c: Column, r: int, row: int) -> bool {
    (c == cfg.col && row <= r < row + 3) || (c == cfg.is_zero_config.value_inv && r == row)
}

/// `t` is `o` with three fresh rows holding `a`, `b` and the output, the
/// inverse of `a - b` beside `a`, and the selector enabled on the first row;
/// nothing else changed.
pub open spec fn foo_assigned(cfg: FooConfig, o: &Trace, t: &Trace, a: Option<Fe>, b: Option<Fe>, c: Option<Fe>) -> bool {
    let row = o.next_row as int;
    &&& t.next_row == o.next_row + 3
    &&& t.slot(cfg.col, row) == merged(Slot::Empty, a)
    &&& t.slot(cfg.col, row + 1) == merged(Slot::Empty, b)
    &&& (a is Some && b is Some && c is Some ==> (t.slot(cfg.col, row + 2) matches Slot::Known(o)
        && o.val() == foo_output(a->Some_0.val(), b->Some_0.val(), c->Some_0.val())))
    &&& (!(a is Some && b is Some && c is Some) ==> t.slot(cfg.col, row + 2) == Slot::Unknown)
    &&& (a is Some && b is Some ==> (t.slot(cfg.is_zero_config.value_inv, row) matches Slot::Known(w)
        && inverse_or_zero(w.val(), fmod(a->Some_0.val() - b->Some_0.val()))))
    &&& (!(a is Some && b is Some) ==> t.slot(cfg.is_zero_config.value_inv, row) == Slot::Unknown)
    &&& t.selectors_set(o, (|i: int, r: int| i == cfg.sel.index && r == row))
    &&& t.cells_same_outside(o, (|c2: Column, r2: int| foo_cell(cfg, c2, r2, row)))
}

/// `(z - 1) * rest` with a canonical constant one.
pub open spec fn is_minus_one_times(e: Expr, z: Expr, rest: Expr) -> bool {
    match e {
        Expr::Product(l, r) => *r == rest && match *l {
            Expr::Sum(zz, n1) => *zz == z && match *n1 {
                Expr::Neg(one) => match *one {
                    Expr::Constant(f) => f.val() == 1 && f.wf(),
                    _ => false,
                },
                _ => false,
            },
            _ => false,
        },
        _ => false,
    }
}

/// `r` is what `FooChip::configure` builds on `o`, giving `cs`: a fresh
/// advice column, inverse column, selector and instance column, copies
/// allowed on the column and the instance column; the is-zero constraint set
/// `(a - b) * z = 0` and then `z * (c - instance) = 0`,
/// `(z - 1) * (a - b - instance) = 0`, both under the selector, where `a`,
/// `b`, `c` are the column at rotations 0, 1, 2 and `z` is
/// `1 - (a - b) * inv`; nothing else changed.
pub open spec fn foo_configured(r: FooConfig, o: &ConstraintSystem, cs: &ConstraintSystem) -> bool {
    let qa = Expr::Query(r.col, 0);
    let qb = Expr::Query(r.col, 1);
    let qi = Expr::Query(r.instance, 0);
    let value = Expr::Sum(Box::new(qa), Box::new(Expr::Neg(Box::new(qb))));
    let z = r.is_zero_config.is_zero_expr;
    let n = cs.gates@.len();
    &&& cs.wf()
    &&& r.col == (Column { kind: ColumnKind::Advice, index: o.num_advice })
    &&& r.is_zero_config.value_inv == (Column { kind: ColumnKind::Advice, index: (o.num_advice + 1) as usize })
    &&& r.sel == (Selector { index: o.num_selectors, complex: false })
    &&& r.instance == (Column { kind: ColumnKind::Instance, index: o.num_instance })
    &&& cs.num_advice == o.num_advice + 2
    &&& cs.num_selectors == o.num_selectors + 1
    &&& cs.num_instance == o.num_instance + 1
    &&& cs.num_fixed == o.num_fixed
    &&& (forall|d: Column| #[trigger] cs.equality_enabled(d) <==> (o.equality_enabled(d) || d == r.col || d == r.instance))
    &&& cs.lookups@ == o.lookups@
    &&& is_zero_form(z, value, r.is_zero_config.value_inv)
    &&& n == o.gates@.len() + 2
    &&& cs.gates@.subrange(0, o.gates@.len() as int) == o.gates@
    &&& cs.gates@[n - 2].selector == r.sel
    &&& cs.gates@[n - 2].constraints@.len() == 1
    &&& cs.gates@[n - 2].constraints@[0].poly == Expr::Product(Box::new(value), Box::new(z))
    &&& cs.gates@[n - 1].selector == r.sel
    &&& cs.gates@[n - 1].constraints@.len() == 2
    &&& cs.gates@[n - 1].constraints@[0].poly == Expr::Product(
        Box::new(z),
        Box::new(Expr::Sum(Box::new(Expr::Query(r.col, 2)), Box::new(Expr::Neg(Box::new(qi))))),
    )
    &&& is_minus_one_times(
        cs.gates@[n - 1].constraints@[1].poly,
        z,
        Expr::Sum(Box::new(value), Box::new(Expr::Neg(Box::new(qi)))),
    )
}

/// The circuit's three inputs, any of which may be unknown.
pub struct FooCircuit {
    pub a: Option<Fe>,
    pub b: Option<Fe>,
    pub c: Option<Fe>,
}

impl FooCircuit {
    /// The same circuit with every input unknown.
    pub fn without_witnesses(&self) -> (r: FooCircuit)
        ensures
            r.a is None && r.b is None && r.c is None,
    {
        FooCircuit { a: None, b: None, c: None }
    }

    /// Declares the chip. Needs no witness.
    pub fn configure(cs: &mut ConstraintSystem) -> (r: FooConfig)
        requires
            old(cs).wf(),
            old(cs).num_advice + 2 <= usize::MAX,
            old(cs).num_selectors < usize::MAX,
            old(cs).num_instance < usize::MAX,
        ensures
            foo_configured(r, old(cs), final(cs)),
            forall|t: &Trace| t.fits(final(cs)) ==> #[trigger] r.fits(t),
    {
        FooChip::configure(cs)
    }

    /// Assigns the rows and exposes the output as the first public input;
    /// unknown inputs give unknown cells.
    pub fn synthesize(&self, config: FooConfig, t: &mut Trace) -> (r: Result<(), Error>)
        requires
            old(t).wf(),
            config.fits(old(t)),
            self.a matches Some(f) ==> f.wf(),
            self.b matches Some(f) ==> f.wf(),
            self.c matches Some(f) ==> f.wf(),
        ensures
            final(t).wf(),
            final(t).same_columns(old(t)),
            old(t).next_row + 3 > old(t).n ==> (r matches Err(e) && e == Error::NotEnoughRows && *final(t) == *old(t)),
            r is Err <==> old(t).next_row + 3 > old(t).n,
            r is Ok ==> foo_assigned(config, old(t), final(t), self.a, self.b, self.c) && final(t).copies@
                == old(t).copies@.push(
                (
                    Cell { column: config.col, row: (old(t).next_row + 2) as usize },
                    Cell { column: config.instance, row: 0 },
                ),
            ),
    {
        let chip = FooChip::new(config);
        let cell = chip.assign(t, self.a, self.b, self.c)?;
        let ghost mid = *t;
        let r = chip.expose_public(t, &cell);
        proof {
            if r is Ok {
                assert forall|c2: Column, r2: int| t.has_col(c2) && 0 <= r2 < t.n && !foo_cell(config, c2, r2, old(t).next_row as int)
                    implies #[trigger] t.slot(c2, r2) == old(t).slot(c2, r2) by {
                    assert(t.slot(c2, r2) == mid.slot(c2, r2));
                    assert(mid.slot(c2, r2) == old(t).slot(c2, r2));
                }
                assert forall|s2: Selector, r2: int| 0 <= s2.index < t.selectors@.len() && 0 <= r2 < t.n implies #[trigger] t.enabled(
                    s2,
                    r2,
                ) == (old(t).enabled(s2, r2) || (s2.index == config.sel.index && r2 == old(t).next_row)) by {
                    assert(t.enabled(s2, r2) == mid.enabled(s2, r2));
                    assert(mid.enabled(s2, r2) == (old(t).enabled(s2, r2) || (s2.index == config.sel.index && r2 == old(t).next_row)));
                }
                let row = old(t).next_row as int;
                assert(t.slot(config.col, row) == mid.slot(config.col, row));
                assert(t.slot(config.col, row + 1) == mid.slot(config.col, row + 1));
                assert(t.slot(config.col, row + 2) == mid.slot(config.col, row + 2));
                assert(t.slot(config.is_zero_config.value_inv, row) == mid.slot(config.is_zero_config.value_inv, row));
            }
        }
        r
    }
}

} // verus!
