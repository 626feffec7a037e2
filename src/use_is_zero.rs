//! A circuit over four advice columns that outputs `c` when `a == b` and
//! `a - b` otherwise, deciding the case with the is-zero chip.
use crate::error::Error;
use crate::expr::{fmod, Column, ColumnKind, Expr, Selector};
use crate::field::Fe;
use crate::is_zero::{inverse_or_zero, is_zero_form, IsZeroChip, IsZeroConfig};
use crate::layout::{merged, Slot, Trace};
use crate::system::{Constraint, ConstraintSystem};
use vstd::prelude::*;

verus! {

/// `c` when `a == b`, else `a - b`.
pub open spec fn foo_output(a: int, b: int, c: int) -> int {
    if a == b {
        c
    } else {
        fmod(a - b)
    }
}

/// `(1 - z) * rest` with a canonical constant one.
pub open spec fn is_one_minus_times(e: Expr, z: Expr, rest: Expr) -> bool {
    match e {
        Expr::Product(l, r) => *r == rest && match *l {
            Expr::Sum(one, nz) => *nz == Expr::Neg(Box::new(z)) && match *one {
                Expr::Constant(f) => f.val() == 1 && f.wf(),
                _ => false,
            },
            _ => false,
        },
        _ => false,
    }
}

#[derive(Debug)]
pub struct FooConfig {
    pub a: Column,
    pub b: Column,
    pub c: Column,
    pub output: Column,
    pub sel: Selector,
    pub is_zero_config: IsZeroConfig,
}

impl FooConfig {
    /// The five advice columns are distinct and present, the selector too.
    pub open spec fn fits(&self, t: &Trace) -> bool {
        let inv = self.is_zero_config.value_inv;
        &&& self.a.kind == ColumnKind::Advice && t.has_col(self.a)
        &&& self.b.kind == ColumnKind::Advice && t.has_col(self.b)
        &&& self.c.kind == ColumnKind::Advice && t.has_col(self.c)
        &&& self.output.kind == ColumnKind::Advice && t.has_col(self.output)
        &&& inv.kind == ColumnKind::Advice && t.has_col(inv)
        &&& self.a != self.b && self.a != self.c && self.a != self.output && self.a != inv
        &&& self.b != self.c && self.b != self.output && self.b != inv
        &&& self.c != self.output && self.c != inv && self.output != inv
        &&& self.sel.index < t.selectors@.len()
    }
}

pub struct FooChip {
    pub config: FooConfig,
}

impl FooChip {
    pub fn new(config: FooConfig) -> (r: FooChip)
        ensures
            r.config == config,
    {
        FooChip { config }
    }

    /// Registers the constraint set: `z * (c - output) = 0` and `(1 - z) * (a - b - output) = 0`
    /// under the selector, where `z` is the is-zero expression of `a - b`.
    pub fn configure(cs: &mut ConstraintSystem, config: &FooConfig) -> (r: Result<(), Error>)
        requires
            old(cs).wf(),
        ensures
            final(cs).wf(),
            r is Ok <==> (config.sel.index < old(cs).num_selectors && old(cs).expr_declared(config.is_zero_config.is_zero_expr)
                && old(cs).column_declared(config.a) && old(cs).column_declared(config.b)
                && old(cs).column_declared(config.c) && old(cs).column_declared(config.output)),
            r is Ok ==> {
                let g = final(cs).gates@.last();
                let z = config.is_zero_config.is_zero_expr;
                &&& final(cs).gates@.len() == old(cs).gates@.len() + 1
                &&& g.selector == config.sel
                &&& g.constraints@.len() == 2
                &&& g.constraints@[0].poly == Expr::Product(Box::new(z), Box::new(Expr::Sum(
                    Box::new(Expr::Query(config.c, 0)),
                    Box::new(Expr::Neg(Box::new(Expr::Query(config.output, 0)))),
                )))
                &&& is_one_minus_times(g.constraints@[1].poly, z, Expr::Sum(
                    Box::new(Expr::Sum(Box::new(Expr::Query(config.a, 0)), Box::new(Expr::Neg(Box::new(Expr::Query(config.b, 0)))))),
                    Box::new(Expr::Neg(Box::new(Expr::Query(config.output, 0)))),
                ))
            },
            r is Err ==> final(cs).same_registry(old(cs)),
            r is Ok ==> final(cs).gates@.drop_last() == old(cs).gates@,
            final(cs).num_advice == old(cs).num_advice,
            final(cs).num_instance == old(cs).num_instance,
            final(cs).num_fixed == old(cs).num_fixed,
            final(cs).num_selectors == old(cs).num_selectors,
            final(cs).equality@ == old(cs).equality@,
            final(cs).lookups@ == old(cs).lookups@,
    {
        let z = config.is_zero_config.expr();
        let p1 = z.times(Expr::query(config.c, 0).minus(Expr::query(config.output, 0)));
        let z2 = config.is_zero_config.expr();
        let diff = Expr::query(config.a, 0).minus(Expr::query(config.b, 0)).minus(Expr::query(config.output, 0));
        let one = Fe::one();
        let p2 = Expr::constant(one).minus(z2).times(diff);
        let ghost g1 = p1;
        let ghost g2 = p2;
        proof {
            let zz = config.is_zero_config.is_zero_expr;
            let qa = Expr::Query(config.a, 0);
            let qb = Expr::Query(config.b, 0);
            let qc = Expr::Query(config.c, 0);
            let qo = Expr::Query(config.output, 0);
            let n_o = Expr::Neg(Box::new(qo));
            let s1 = Expr::Sum(Box::new(qc), Box::new(n_o));
            assert(g1 == Expr::Product(Box::new(zz), Box::new(s1)));
            assert(cs.expr_declared(n_o) == cs.expr_declared(qo));
            assert(cs.expr_declared(s1) == (cs.expr_declared(qc) && cs.expr_declared(n_o)));
            let nz = Expr::Neg(Box::new(zz));
            let l = Expr::Sum(Box::new(Expr::Constant(one)), Box::new(nz));
            let ab = Expr::Sum(Box::new(qa), Box::new(Expr::Neg(Box::new(qb))));
            let d = Expr::Sum(Box::new(ab), Box::new(n_o));
            assert(g2 == Expr::Product(Box::new(l), Box::new(d)));
            assert(cs.expr_declared(nz) == cs.expr_declared(zz));
            assert(cs.expr_declared(Expr::Constant(one)));
            assert(cs.expr_declared(l) == cs.expr_declared(zz));
            assert(cs.expr_declared(Expr::Neg(Box::new(qb))) == cs.expr_declared(qb));
            assert(cs.expr_declared(ab) == (cs.expr_declared(qa) && cs.expr_declared(qb)));
            assert(cs.expr_declared(d) == (cs.expr_declared(ab) && cs.expr_declared(n_o)));
            assert(cs.expr_declared(g1) == (cs.expr_declared(zz) && cs.column_declared(config.c)
                && cs.column_declared(config.output)));
            assert(cs.expr_declared(g2) == (cs.expr_declared(zz) && cs.column_declared(config.a)
                && cs.column_declared(config.b) && cs.column_declared(config.output)));
        }
        let mut constraints: Vec<Constraint> = Vec::new();
        constraints.push(Constraint { label: String::from_str("a == b"), poly: p1 });
        constraints.push(Constraint { label: String::from_str("a != b"), poly: p2 });
        assert(constraints@[0].poly == p1 && constraints@[1].poly == p2);
        let ghost gc = constraints;
        let r = cs.create_gate(String::from_str("if a == b {c} else {a - b}"), config.sel, constraints);
        proof {
            if old(cs).expr_declared(g1) && old(cs).expr_declared(g2) {
                assert forall|j: int| 0 <= j < gc@.len() implies #[trigger] old(cs).expr_declared(gc@[j].poly) by {
                    if j == 0 {
                        assert(gc@[j].poly == g1);
                    } else {
                        assert(gc@[j].poly == g2);
                    }
                }
            }
            if r is Ok {
                assert(old(cs).expr_declared(gc@[0].poly));
                assert(old(cs).expr_declared(gc@[1].poly));
                assert(cs.gates@.drop_last() =~= old(cs).gates@);
            }
        }
        r
    }

    /// Writes `a`, `b`, `c` and the output (unknown where an input is) on a
    /// fresh row with the constraint set enabled, and the inverse of `a - b`
    /// (zero when there is none) for the is-zero chip.
    pub fn assign(&self, t: &mut Trace, a: Option<Fe>, b: Option<Fe>, c: Option<Fe>) -> (r: Result<(), Error>)
        requires
            old(t).wf(),
            self.config.fits(old(t)),
            a matches Some(f) ==> f.wf(),
            b matches Some(f) ==> f.wf(),
            c matches Some(f) ==> f.wf(),
        ensures
            final(t).wf(),
            final(t).same_columns(old(t)),
            final(t).copies@ == old(t).copies@,
            old(t).next_row + 1 > old(t).n ==> r == Err::<(), Error>(Error::NotEnoughRows) && *final(t) == *old(t),
            r is Err <==> old(t).next_row + 1 > old(t).n,
            r is Ok ==> foo_assigned(self.config, old(t), final(t), a, b, c),
    {
        let region = t.assign_region(String::from_str("foo"), 1)?;
        let ghost t0 = *t;
        let output: Option<Fe> = match (a, b, c) {
            (Some(x), Some(y), Some(z)) => Some(
                if x.equals(&y) {
                    z
                } else {
                    x.sub(&y)
                },
            ),
            _ => None,
        };
        let d: Option<Fe> = match (a, b) {
            (Some(x), Some(y)) => Some(x.sub(&y)),
            _ => None,
        };
        let _ = t.enable_selector(&region, self.config.sel, 0);
        let ghost t1 = *t;
        let row = region.start;
        assert(t.slot(self.config.a, row as int) is Empty);
        let _ = t.assign_advice(&region, self.config.a, 0, a);
        let ghost t2 = *t;
        assert(t.slot(self.config.b, row as int) is Empty);
        let _ = t.assign_advice(&region, self.config.b, 0, b);
        let ghost t3 = *t;
        assert(t.slot(self.config.c, row as int) is Empty);
        let _ = t.assign_advice(&region, self.config.c, 0, c);
        let ghost t4 = *t;
        assert(t.slot(self.config.output, row as int) is Empty);
        let _ = t.assign_advice(&region, self.config.output, 0, output);
        let ghost t5 = *t;
        assert(t.slot(self.config.is_zero_config.value_inv, row as int) is Empty);
        let chip = IsZeroChip::new(self.config.is_zero_config.duplicate());
        chip.assign(t, &region, d)?;
        proof {
            let cfg = self.config;
            let inv = cfg.is_zero_config.value_inv;
            assert forall|s2: Selector, r2: int| 0 <= s2.index < t.selectors@.len() && 0 <= r2 < t.n implies #[trigger] t.enabled(
                s2,
                r2,
            ) == (old(t).enabled(s2, r2) || (s2.index == cfg.sel.index && r2 == old(t).next_row)) by {
                assert(t0.enabled(s2, r2) == old(t).enabled(s2, r2));
                assert(t2.enabled(s2, r2) == t1.enabled(s2, r2));
                assert(t3.enabled(s2, r2) == t2.enabled(s2, r2));
                assert(t4.enabled(s2, r2) == t3.enabled(s2, r2));
                assert(t5.enabled(s2, r2) == t4.enabled(s2, r2));
                assert(t.enabled(s2, r2) == t5.enabled(s2, r2));
            }
            assert forall|c2: Column, r2: int|
                t.has_col(c2) && 0 <= r2 < t.n && !foo_cell(cfg, c2, r2, old(t).next_row as int)
                    implies #[trigger] t.slot(c2, r2) == old(t).slot(c2, r2) by {
                assert(t0.slot(c2, r2) == old(t).slot(c2, r2));
                assert(t1.slot(c2, r2) == t0.slot(c2, r2));
                assert(t2.slot(c2, r2) == t1.slot(c2, r2));
                assert(t3.slot(c2, r2) == t2.slot(c2, r2));
                assert(t4.slot(c2, r2) == t3.slot(c2, r2));
                assert(t5.slot(c2, r2) == t4.slot(c2, r2));
                assert(t.slot(c2, r2) == t5.slot(c2, r2));
            }
            assert(t.slot(cfg.a, row as int) == t2.slot(cfg.a, row as int));
            assert(t.slot(cfg.b, row as int) == t3.slot(cfg.b, row as int));
            assert(t.slot(cfg.c, row as int) == t4.slot(cfg.c, row as int));
            assert(t.slot(cfg.output, row as int) == t5.slot(cfg.output, row as int));
        }
        Ok(())
    }
}

/// `(c, r)` is one of the cells the chip writes on row `row`.
pub open spec fn foo_cell(cfg: FooConfig, c: Column, r: int, row: int) -> bool {
    r == row && (c == cfg.a || c == cfg.b || c == cfg.c || c == cfg.output || c == cfg.is_zero_config.value_inv)
}

/// `t` is `o` with one fresh row holding the inputs, the output and the
/// inverse of `a - b`, and the selector enabled there; nothing else changed.
pub open spec fn foo_assigned(cfg: FooConfig, o: &Trace, t: &Trace, a: Option<Fe>, b: Option<Fe>, c: Option<Fe>) -> bool {
    let row = o.next_row as int;
    &&& t.next_row == o.next_row + 1
    &&& t.slot(cfg.a, row) == merged(Slot::Empty, a)
    &&& t.slot(cfg.b, row) == merged(Slot::Empty, b)
    &&& t.slot(cfg.c, row) == merged(Slot::Empty, c)
    &&& (a is Some && b is Some && c is Some ==> (t.slot(cfg.output, row) matches Slot::Known(o)
        && o.val() == foo_output(a->Some_0.val(), b->Some_0.val(), c->Some_0.val())))
    &&& (!(a is Some && b is Some && c is Some) ==> t.slot(cfg.output, row) == Slot::Unknown)
    &&& (a is Some && b is Some ==> (t.slot(cfg.is_zero_config.value_inv, row) matches Slot::Known(w)
        && inverse_or_zero(w.val(), fmod(a->Some_0.val() - b->Some_0.val()))))
    &&& (!(a is Some && b is Some) ==> t.slot(cfg.is_zero_config.value_inv, row) == Slot::Unknown)
    &&& t.selectors_set(o, (|i: int, r: int| i == cfg.sel.index && r == row))
    &&& t.cells_same_outside(o, (|c2: Column, r2: int| foo_cell(cfg, c2, r2, row)))
}

/// The circuit's three inputs, any of which may be unknown.
pub struct FooCircuit {
    pub a: Option<Fe>,
    pub b: Option<Fe>,
    pub c: Option<Fe>,
}

impl FooCircuit {
    /// The same circuit with every input unknown.
    pub fn without_witnesses(&self) -> (r: FooCircuit)
        ensures
            r.a is None && r.b is None && r.c is None,
    {
        FooCircuit { a: None, b: None, c: None }
    }

    /// Declares four advice columns and a selector, the is-zero chip on
    /// `a - b`, and the constraint set. Needs no witness.
    pub fn configure(cs: &mut ConstraintSystem) -> (r: FooConfig)
        requires
            old(cs).wf(),
            old(cs).num_advice + 5 <= usize::MAX,
            old(cs).num_selectors < usize::MAX,
        ensures
            foo_configured(r, old(cs), final(cs)),
            forall|t: &Trace| t.fits(final(cs)) ==> #[trigger] r.fits(t),
    {
        let a = cs.advice_column();
        let b = cs.advice_column();
        let c = cs.advice_column();
        let output = cs.advice_column();
        let sel = cs.selector();
        let value = Expr::query(a, 0).minus(Expr::query(b, 0));
        assert(cs.expr_declared(Expr::Query(a, 0)));
        assert(cs.expr_declared(Expr::Query(b, 0)));
        assert(cs.expr_declared(Expr::Neg(Box::new(Expr::Query(b, 0)))));
        assert(cs.expr_declared(value));
        let ghost g0 = cs.gates@;
        let is_zero_config = IsZeroChip::configure(cs, sel, value);
        let config = FooConfig { a, b, c, output, sel, is_zero_config };
        let ghost g1 = cs.gates@;
        let _ = FooChip::configure(cs, &config);
        proof {
            assert(g1.drop_last() == g0);
            assert(cs.gates@.drop_last() == g1);
            assert(cs.gates@.subrange(0, g0.len() as int) =~= g0);
            assert(cs.gates@[cs.gates@.len() - 2] == g1.last());
        }
        config
    }

    /// Assigns the chip's row; unknown inputs give unknown cells.
    pub fn synthesize(&self, config: FooConfig, t: &mut Trace) -> (r: Result<(), Error>)
        requires
            old(t).wf(),
            config.fits(old(t)),
            self.a matches Some(f) ==> f.wf(),
            self.b matches Some(f) ==> f.wf(),
            self.c matches Some(f) ==> f.wf(),
        ensures
            final(t).wf(),
            final(t).same_columns(old(t)),
            final(t).copies@ == old(t).copies@,
            old(t).next_row + 1 > old(t).n ==> r == Err::<(), Error>(Error::NotEnoughRows) && *final(t) == *old(t),
            r is Err <==> old(t).next_row + 1 > old(t).n,
            r is Ok ==> foo_assigned(config, old(t), final(t), self.a, self.b, self.c),
    {
        let chip = FooChip::new(config);
        chip.assign(t, self.a, self.b, self.c)
    }
}

/// `r` is what `FooCircuit::configure` builds on `o`, giving `cs`: five fresh
/// advice columns and a fresh selector; the is-zero constraint set
/// `(a - b) * z = 0` and then the set `z * (c - output) = 0`,
/// `(1 - z) * (a - b - output) = 0`, both under the selector, where `z` is
/// `1 - (a - b) * inv`; nothing else changed.
pub open spec fn foo_configured(r: FooConfig, o: &ConstraintSystem, cs: &ConstraintSystem) -> bool {
    let value = Expr::Sum(Box::new(Expr::Query(r.a, 0)), Box::new(Expr::Neg(Box::new(Expr::Query(r.b, 0)))));
    let z = r.is_zero_config.is_zero_expr;
    let n = cs.gates@.len();
    &&& cs.wf()
    &&& r.a == (Column { kind: ColumnKind::Advice, index: o.num_advice })
    &&& r.b == (Column { kind: ColumnKind::Advice, index: (o.num_advice + 1) as usize })
    &&& r.c == (Column { kind: ColumnKind::Advice, index: (o.num_advice + 2) as usize })
    &&& r.output == (Column { kind: ColumnKind::Advice, index: (o.num_advice + 3) as usize })
    &&& r.is_zero_config.value_inv == (Column { kind: ColumnKind::Advice, index: (o.num_advice + 4) as usize })
    &&& r.sel == (Selector { index: o.num_selectors, complex: false })
    &&& cs.num_advice == o.num_advice + 5
    &&& cs.num_selectors == o.num_selectors + 1
    &&& cs.num_instance == o.num_instance
    &&& cs.num_fixed == o.num_fixed
    &&& cs.equality@ == o.equality@
    &&& cs.lookups@ == o.lookups@
    &&& is_zero_form(z, value, r.is_zero_config.value_inv)
    &&& n == o.gates@.len() + 2
    &&& cs.gates@.subrange(0, o.gates@.len() as int) == o.gates@
    &&& cs.gates@[n - 2].selector == r.sel
    &&& cs.gates@[n - 2].constraints@.len() == 1
    &&& cs.gates@[n - 2].constraints@[0].poly == Expr::Product(Box::new(value), Box::new(z))
    &&& cs.gates@[n - 1].selector == r.sel
    &&& cs.gates@[n - 1].constraints@.len() == 2
    &&& cs.gates@[n - 1].constraints@[0].poly == Expr::Product(
        Box::new(z),
        Box::new(Expr::Sum(Box::new(Expr::Query(r.c, 0)), Box::new(Expr::Neg(Box::new(Expr::Query(r.output, 0)))))),
    )
    &&& is_one_minus_times(
        cs.gates@[n - 1].constraints@[1].poly,
        z,
        Expr::Sum(
            Box::new(Expr::Sum(Box::new(Expr::Query(r.a, 0)), Box::new(Expr::Neg(Box::new(Expr::Query(r.b, 0)))))),
            Box::new(Expr::Neg(Box::new(Expr::Query(r.output, 0)))),
        ),
    )
}

impl IsZeroConfig {
    /// A structural copy.
    pub fn duplicate(&self) -> (r: IsZeroConfig)
        ensures
            r == *self,
    {
        IsZeroConfig { value_inv: self.value_inv, is_zero_expr: self.is_zero_expr.duplicate() }
    }
}

} // verus!
