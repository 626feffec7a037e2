//! A chip exposing the expression `1 - value * value_inv`, which is one
//! exactly when `value` is zero once `value_inv` holds the inverse of `value`
//! (or zero when there is none).
use crate::checker::eval;
use crate::error::Error;
use crate::expr::{fmod, Column, ColumnKind, Expr, Selector};
use crate::field::{modulus, Fe};
use crate::layout::{merged, Region, Slot, Trace};
use crate::system::{Constraint, ConstraintSystem};
use vstd::prelude::*;

verus! {

/// `e` is `1 - value * inv` with `inv` queried on the current row.
pub open spec fn is_zero_form(e: Expr, value: Expr, inv: Column) -> bool {
    match e {
        Expr::Sum(one, rest) => (match *one {
            Expr::Constant(f) => f.val() == 1 && f.wf(),
            _ => false,
        }) && (match *rest {
            Expr::Neg(p) => *p == Expr::Product(Box::new(value), Box::new(Expr::Query(inv, 0))),
            _ => false,
        }),
        _ => false,
    }
}

/// `f` is the inverse of `x`, or zero when `x` is zero.
pub open spec fn inverse_or_zero(f: int, x: int) -> bool {
    if x == 0 {
        f == 0
    } else {
        (f * x) % modulus() == 1
    }
}

/// Builds `1 - value * inv`.
pub fn is_zero_expression(value: Expr, inv: Column) -> (r: Expr)
    ensures
        is_zero_form(r, value, inv),
{
    Expr::constant(Fe::one()).minus(value.times(Expr::query(inv, 0)))
}

/// Where `inv` holds the inverse of the value (or zero), the expression is one
/// exactly when the value is zero, and `value * (1 - value * inv)` vanishes.
pub proof fn lemma_is_zero_eval(t: &Trace, e: Expr, value: Expr, inv: Column, row: int, x: int, f: int)
    requires
        is_zero_form(e, value, inv),
        t.has_col(inv),
        0 <= row < t.n,
        eval(t, value, row) == Some(x),
        0 <= x < modulus(),
        t.slot(inv, row) matches Slot::Known(g) && g.val() == f,
        0 <= f < modulus(),
        inverse_or_zero(f, x),
    ensures
        eval(t, e, row) == Some(if x == 0 { 1int } else { 0int }),
        eval(t, Expr::Product(Box::new(value), Box::new(e)), row) == Some(0int),
{
    let q = Expr::Query(inv, 0);
    assert(eval(t, q, row) == Some(f));
    let p = Expr::Product(Box::new(value), Box::new(q));
    assert(eval(t, p, row) == Some(fmod(x * f)));
    let ez = if x == 0 { 1int } else { 0int };
    if x == 0 {
        assert(fmod(0 * f) == 0);
        assert(fmod(-0) == 0);
        assert(fmod(1int + 0int) == 1);
    } else {
        assert(x * f == f * x) by (nonlinear_arith);
        assert(fmod(-1) == modulus() - 1);
        assert(fmod(1 + (modulus() - 1)) == 0);
    }
    if let Expr::Sum(one, rest) = e {
        if let Expr::Neg(pp) = *rest {
            assert(*pp == p);
            assert(eval(t, *rest, row) == Some(fmod(-fmod(x * f))));
        }
        if let Expr::Constant(g1) = *one {
            assert(eval(t, *one, row) == Some(1int));
        }
        assert(eval(t, e, row) == Some(fmod(1 + fmod(-fmod(x * f)))));
    }
    assert(eval(t, e, row) == Some(ez));
    assert(fmod(x * ez) == 0);
}

/// The column for the inverse and the expression it yields.
#[derive(Debug)]
pub struct IsZeroConfig {
    pub value_inv: Column,
    pub is_zero_expr: Expr,
}

impl IsZeroConfig {
    /// A copy of the exposed expression.
    pub fn expr(&self) -> (r: Expr)
        ensures
            r == self.is_zero_expr,
    {
        self.is_zero_expr.duplicate()
    }
}

pub struct IsZeroChip {
    pub config: IsZeroConfig,
}

impl IsZeroChip {
    pub fn new(config: IsZeroConfig) -> (r: IsZeroChip)
        ensures
            r.config == config,
    {
        IsZeroChip { config }
    }

    /// Declares the inverse column and the constraint set `value * (1 - value * value_inv) = 0`
    /// under `g_sel`; returns the column and `1 - value * value_inv`.
    pub fn configure(cs: &mut ConstraintSystem, g_sel: Selector, value: Expr) -> (r: IsZeroConfig)
        requires
            old(cs).wf(),
            old(cs).num_advice < usize::MAX,
            g_sel.index < old(cs).num_selectors,
            old(cs).expr_declared(value),
        ensures
            final(cs).wf(),
            r.value_inv == (Column { kind: ColumnKind::Advice, index: old(cs).num_advice }),
            is_zero_form(r.is_zero_expr, value, r.value_inv),
            final(cs).expr_declared(r.is_zero_expr),
            final(cs).num_advice == old(cs).num_advice + 1,
            final(cs).num_instance == old(cs).num_instance,
            final(cs).num_fixed == old(cs).num_fixed,
            final(cs).num_selectors == old(cs).num_selectors,
            final(cs).equality@ == old(cs).equality@,
            final(cs).gates@.len() == old(cs).gates@.len() + 1,
            final(cs).gates@.drop_last() == old(cs).gates@,
            final(cs).gates@.last().selector == g_sel,
            final(cs).gates@.last().constraints@.len() == 1,
            final(cs).gates@.last().constraints@[0].poly == Expr::Product(Box::new(value), Box::new(r.is_zero_expr)),
            final(cs).lookups@ == old(cs).lookups@,
    {
        let ghost pre = *old(cs);
        let value_inv = cs.advice_column();
        proof {
            cs.lemma_declared_grows(pre, value);
        }
        let is_zero_expr = is_zero_expression(value.duplicate(), value_inv);
        proof {
            lemma_is_zero_declared(cs, is_zero_expr, value, value_inv);
        }
        let poly = value.times(is_zero_expr.duplicate());
        let mut constraints: Vec<Constraint> = Vec::new();
        constraints.push(Constraint { label: String::from_str("is zero"), poly });
        assert(constraints@[0].poly == poly);
        let ghost mid = *cs;
        let _ = cs.create_gate(String::from_str("is zero"), g_sel, constraints);
        proof {
            assert(cs.gates@.drop_last() =~= old(cs).gates@);
            cs.lemma_declared_grows(mid, is_zero_expr);
        }
        IsZeroConfig { value_inv, is_zero_expr }
    }

    /// Writes the inverse of `value`, or zero when `value` is zero, into the
    /// inverse column at the region's first row.
    pub fn assign(&self, t: &mut Trace, region: &Region, value: Option<Fe>) -> (r: Result<(), Error>)
        requires
            old(t).wf(),
            old(t).region_fits(region),
            region.height >= 1,
            self.config.value_inv.kind == ColumnKind::Advice,
            old(t).has_col(self.config.value_inv),
            value matches Some(v) ==> v.wf(),
        ensures
            final(t).wf(),
            final(t).same_shape(old(t)),
            final(t).same_selectors(old(t)),
            final(t).copies@ == old(t).copies@,
            r is Err ==> *final(t) == *old(t),
            r matches Err(e) ==> e == (Error::ConflictingAssignment { region: region.name, offset: 0 })
                && old(t).slot(self.config.value_inv, region.start as int) is Known,
            !(old(t).slot(self.config.value_inv, region.start as int) is Known) ==> r is Ok,
            r is Ok && value is None ==> final(t).slot(self.config.value_inv, region.start as int) == merged(
                old(t).slot(self.config.value_inv, region.start as int),
                None,
            ),
            r is Ok && value is Some ==> (final(t).slot(self.config.value_inv, region.start as int) matches Slot::Known(f)
                && inverse_or_zero(f.val(), value->Some_0.val())),
            final(t).cells_same_outside(old(t), (|c: Column, row: int| c == self.config.value_inv && row == region.start)),
    {
        let w: Option<Fe> = match value {
            None => None,
            Some(v) => match v.invert() {
                None => Some(Fe::zero()),
                Some(x) => Some(x),
            },
        };
        let _ = t.assign_advice(region, self.config.value_inv, 0, w)?;
        Ok(())
    }
}

/// The is-zero expression over a declared value and column is declared.
pub(crate) proof fn lemma_is_zero_declared(cs: &ConstraintSystem, e: Expr, value: Expr, inv: Column)
    requires
        is_zero_form(e, value, inv),
        cs.expr_declared(value),
        cs.column_declared(inv),
    ensures
        cs.expr_declared(e),
{
    if let Expr::Sum(one, rest) = e {
        if let Expr::Neg(p) = *rest {
            assert(cs.expr_declared(Expr::Query(inv, 0)));
            assert(cs.expr_declared(*p));
            assert(cs.expr_declared(*rest));
        }
        assert(cs.expr_declared(*one));
    }
}

} // verus!
