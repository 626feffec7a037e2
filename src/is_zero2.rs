//! The is-zero chip in a second form: the exposed expression is lent out by
//! reference, and the caller supplies the inverse to write.
use crate::error::Error;
use crate::expr::{Column, ColumnKind, Expr, Selector};
use crate::field::Fe;
use crate::is_zero::{is_zero_expression, is_zero_form, lemma_is_zero_declared};
use crate::layout::{conflicts, merged, Region, Trace};
use crate::system::{Constraint, ConstraintSystem};
use vstd::prelude::*;

verus! {

/// The column for the inverse and the expression it yields.
#[derive(Debug)]
pub struct IsZero2Config {
    pub value_inv: Column,
    pub is_zero_expr: Expr,
}

impl IsZero2Config {
    /// The exposed expression.
    pub fn expr(&self) -> (r: &Expr)
        ensures
            *r == self.is_zero_expr,
    {
        &self.is_zero_expr
    }
}

pub struct IsZero2Chip {
    pub config: IsZero2Config,
}

impl IsZero2Chip {
    pub fn new(config: IsZero2Config) -> (r: IsZero2Chip)
        ensures
            r.config == config,
    {
        IsZero2Chip { config }
    }

    /// Declares the inverse column and the constraint set `value * (1 - value * value_inv) = 0`
    /// under `g_sel`; returns the column and `1 - value * value_inv`.
    pub fn configure(cs: &mut ConstraintSystem, g_sel: Selector, value: Expr) -> (r: IsZero2Config)
        requires
            old(cs).wf(),
            old(cs).num_advice < usize::MAX,
            g_sel.index < old(cs).num_selectors,
            old(cs).expr_declared(value),
        ensures
            final(cs).wf(),
            r.value_inv == (Column { kind: ColumnKind::Advice, index: old(cs).num_advice }),
            is_zero_form(r.is_zero_expr, value, r.value_inv),
            final(cs).expr_declared(r.is_zero_expr),
            final(cs).num_advice == old(cs).num_advice + 1,
            final(cs).num_instance == old(cs).num_instance,
            final(cs).num_fixed == old(cs).num_fixed,
            final(cs).num_selectors == old(cs).num_selectors,
            final(cs).equality@ == old(cs).equality@,
            final(cs).gates@.len() == old(cs).gates@.len() + 1,
            final(cs).gates@.drop_last() == old(cs).gates@,
            final(cs).gates@.last().selector == g_sel,
            final(cs).gates@.last().constraints@.len() == 1,
            final(cs).gates@.last().constraints@[0].poly == Expr::Product(Box::new(value), Box::new(r.is_zero_expr)),
            final(cs).lookups@ == old(cs).lookups@,
    {
        let ghost pre = *old(cs);
        let value_inv = cs.advice_column();
        proof {
            cs.lemma_declared_grows(pre, value);
        }
        let is_zero_expr = is_zero_expression(value.duplicate(), value_inv);
        proof {
            lemma_is_zero_declared(cs, is_zero_expr, value, value_inv);
        }
        let poly = value.times(is_zero_expr.duplicate());
        let mut constraints: Vec<Constraint> = Vec::new();
        constraints.push(Constraint { label: String::from_str("is zero"), poly });
        assert(constraints@[0].poly == poly);
        let ghost mid = *cs;
        let _ = cs.create_gate(String::from_str("is zero"), g_sel, constraints);
        proof {
            assert(cs.gates@.drop_last() =~= old(cs).gates@);
            cs.lemma_declared_grows(mid, is_zero_expr);
        }
        IsZero2Config { value_inv, is_zero_expr }
    }

    /// Writes `value_inv` (unknown when `None`) into the inverse column at
    /// the region's first row.
    pub fn assign(&self, t: &mut Trace, region: &Region, value_inv: Option<Fe>) -> (r: Result<(), Error>)
        requires
            old(t).wf(),
            old(t).region_fits(region),
            region.height >= 1,
            self.config.value_inv.kind == ColumnKind::Advice,
            old(t).has_col(self.config.value_inv),
            value_inv matches Some(f) ==> f.wf(),
        ensures
            final(t).wf(),
            final(t).same_shape(old(t)),
            final(t).same_selectors(old(t)),
            final(t).copies@ == old(t).copies@,
            r is Err ==> *final(t) == *old(t),
            r is Err <==> conflicts(old(t).slot(self.config.value_inv, region.start as int), value_inv),
            r is Ok ==> final(t).slot(self.config.value_inv, region.start as int) == merged(
                old(t).slot(self.config.value_inv, region.start as int),
                value_inv,
            ),
            forall|c2: Column, r2: int|
                final(t).has_col(c2) && 0 <= r2 < final(t).n && !(c2 == self.config.value_inv && r2 == region.start)
                    ==> #[trigger] final(t).slot(c2, r2) == old(t).slot(c2, r2),
    {
        let _ = t.assign_advice(region, self.config.value_inv, 0, value_inv)?;
        Ok(())
    }
}

} // verus!
