//! A range check by a single constraint set: `v * (v - 1) * ... * (v - (range - 1)) = 0`.
use crate::checker::eval;
use crate::error::Error;
use crate::expr::{fmod, Column, ColumnKind, Expr, Selector};
use crate::field::{modulus, Fe};
use crate::layout::{merged, Slot, Trace};
use crate::system::{Constraint, ConstraintSystem};
use vstd::prelude::*;

verus! {

/// `x * (x - 1) * ... * (x - k)` in the field, multiplied in that order.
pub open spec fn range_prod(x: int, k: nat) -> int
    decreases k,
{
    if k == 0 {
        x
    } else {
        fmod(range_prod(x, (k - 1) as nat) * fmod(x + fmod(-(k as int))))
    }
}

/// `x - j` vanishes in the field exactly when `x == j`, for residues `x` and `j`.
pub proof fn lemma_factor_zero(x: int, j: int)
    requires
        0 <= x < modulus(),
        0 <= j < modulus(),
    ensures
        (fmod(x + fmod(-j)) == 0) <==> x == j,
{
    if j == 0 {
        assert(fmod(-j) == 0);
    } else {
        assert(fmod(-j) == modulus() - j);
    }
}

/// One step of the running product keeps its value and its roots.
proof fn lemma_step(x: int, k: int, prev: int, factor: int, next: int)
    requires
        0 <= x < modulus(),
        1 <= k < modulus(),
        factor == fmod(x - k),
        next == fmod(prev * factor),
        next == 0 ==> prev == 0 || factor == 0,
    ensures
        factor == fmod(x + fmod(-k)),
        (factor == 0) <==> x == k,
        (next == 0) <==> (prev == 0 || x == k),
{
    lemma_factor_zero(x, k);
    assert(fmod(x - k) == fmod(x + fmod(-k)));
    if prev == 0 {
        assert(fmod(0 * factor) == 0);
    }
    if factor == 0 {
        assert(fmod(prev * 0) == 0);
    }
}

/// Every value below `k + 1` is a root of the product.
pub proof fn lemma_range_prod_roots(x: int, k: nat)
    requires
        0 <= x <= k,
        k < modulus(),
    ensures
        range_prod(x, k) == 0,
    decreases k,
{
    if k > 0 {
        if x == k {
            lemma_factor_zero(x, k as int);
            assert(fmod(range_prod(x, (k - 1) as nat) * 0) == 0);
        } else {
            lemma_range_prod_roots(x, (k - 1) as nat);
            assert(fmod(0 * fmod(x + fmod(-(k as int)))) == 0);
        }
    }
}

/// The range polynomial at `value`; zero exactly when `value < range`.
pub fn range_check_value(value: &Fe, range: usize) -> (r: Fe)
    requires
        value.wf(),
        1 <= range,
        range <= u64::MAX,
    ensures
        r.wf(),
        r.val() == range_prod(value.val(), (range - 1) as nat),
        r.val() == 0 <==> value.val() < range,
{
    let mut acc = *value;
    let mut k: usize = 1;
    while k < range
        invariant
            1 <= k <= range <= u64::MAX,
            value.wf(),
            acc.wf(),
            acc.val() == range_prod(value.val(), (k - 1) as nat),
            acc.val() == 0 <==> value.val() < k,
        decreases range - k,
    {
        let c = Fe::from_u64(k as u64);
        let factor = value.sub(&c);
        let ghost prev = acc.val();
        acc = acc.mul(&factor);
        proof {
            lemma_step(value.val(), k as int, prev, factor.val(), acc.val());
        }
        k = k + 1;
    }
    acc
}

/// The range polynomial `v * (v - 1) * ... * (v - k)` for the value query `v`,
/// whose constants are `from_u64(1)` up to `from_u64(k)`.
pub open spec fn is_range_poly(p: Expr, v: Expr, k: nat) -> bool
    decreases k,
{
    if k == 0 {
        p == v
    } else {
        match p {
            Expr::Product(a, b) => is_range_poly(*a, v, (k - 1) as nat) && is_shifted_query(*b, v, k as int),
            _ => false,
        }
    }
}

/// `e` is `v - c` for a canonical constant `c` with value `k`.
pub open spec fn is_shifted_query(e: Expr, v: Expr, k: int) -> bool {
    match e {
        Expr::Sum(l, r) => *l == v && match *r {
            Expr::Neg(c) => match *c {
                Expr::Constant(f) => f.val() == k && f.wf(),
                _ => false,
            },
            _ => false,
        },
        _ => false,
    }
}

/// A range polynomial evaluates to the range product of the value.
pub proof fn lemma_range_poly_eval(t: &Trace, p: Expr, v: Expr, k: nat, row: int)
    requires
        is_range_poly(p, v, k),
    ensures
        eval(t, p, row) == match eval(t, v, row) {
            Some(x) => Some(range_prod(x, k)),
            None => None::<int>,
        },
    decreases k,
{
    if k > 0 {
        if let Expr::Product(a, b) = p {
            lemma_range_poly_eval(t, *a, v, (k - 1) as nat, row);
            if let Expr::Sum(l, r) = *b {
                if let Expr::Neg(c) = *r {
                    if let Expr::Constant(f) = *c {
                        assert(eval(t, *c, row) == Some(f.val()));
                        assert(eval(t, *r, row) == Some(fmod(-f.val())));
                        assert(eval(t, *l, row) == eval(t, v, row));
                        assert(eval(t, *b, row) == match eval(t, v, row) {
                            Some(x) => Some(fmod(x + fmod(-(k as int)))),
                            None => None::<int>,
                        });
                    }
                }
            }
        }
    }
}

/// Builds `v * (v - 1) * ... * (v - k)` for the value query `v`.
pub fn range_poly(value: Column, k: usize) -> (r: Expr)
    requires
        k <= u64::MAX,
    ensures
        is_range_poly(r, Expr::Query(value, 0), k as nat),
{
    let mut acc = Expr::query(value, 0);
    let mut j: usize = 0;
    while j < k
        invariant
            j <= k <= u64::MAX,
            is_range_poly(acc, Expr::Query(value, 0), j as nat),
        decreases k - j,
    {
        let c = Fe::from_u64((j + 1) as u64);
        let factor = Expr::query(value, 0).minus(Expr::constant(c));
        acc = acc.times(factor);
        j = j + 1;
    }
    acc
}

/// The value column and the selector of the range check.
#[derive(Clone, Copy, Debug)]
pub struct RangeCheckConfig {
    pub value: Column,
    pub sel: Selector,
}

/// Checks that a value lies in `0..range`.
pub struct RangeCheckChip {
    pub config: RangeCheckConfig,
    pub range: usize,
}

impl RangeCheckConfig {
    pub open spec fn fits(&self, t: &Trace) -> bool {
        &&& self.value.kind == ColumnKind::Advice
        &&& t.has_col(self.value)
        &&& self.sel.index < t.selectors@.len()
    }
}

/// `r` is the configuration that `configure` builds on `o`, giving `cs`: a
/// fresh advice column and simple selector, one range constraint set under
/// the selector, and nothing else changed.
pub open spec fn configured(r: RangeCheckConfig, o: &ConstraintSystem, cs: &ConstraintSystem, range: usize) -> bool {
    &&& cs.wf()
    &&& r.value == (Column { kind: ColumnKind::Advice, index: o.num_advice })
    &&& r.sel == (Selector { index: o.num_selectors, complex: false })
    &&& cs.num_advice == o.num_advice + 1
    &&& cs.num_selectors == o.num_selectors + 1
    &&& cs.num_instance == o.num_instance
    &&& cs.num_fixed == o.num_fixed
    &&& cs.equality@ == o.equality@
    &&& cs.gates@.len() == o.gates@.len() + 1
    &&& cs.gates@.drop_last() == o.gates@
    &&& cs.gates@.last().selector == r.sel
    &&& cs.gates@.last().constraints@.len() == 1
    &&& is_range_poly(cs.gates@.last().constraints@[0].poly, Expr::Query(r.value, 0), (range - 1) as nat)
    &&& cs.lookups@ == o.lookups@
}

impl RangeCheckChip {
    pub fn new(config: RangeCheckConfig, range: usize) -> (r: RangeCheckChip)
        ensures
            r.config == config,
            r.range == range,
    {
        RangeCheckChip { config, range }
    }

    /// Declares the value column and selector, and the constraint set
    /// `v * (v - 1) * ... * (v - (range - 1)) = 0` under the selector.
    pub fn configure(cs: &mut ConstraintSystem, range: usize) -> (r: RangeCheckConfig)
        requires
            old(cs).wf(),
            old(cs).num_advice < usize::MAX,
            old(cs).num_selectors < usize::MAX,
            1 <= range <= u64::MAX,
        ensures
            configured(r, old(cs), final(cs), range),
    {
        let value = cs.advice_column();
        let sel = cs.selector();
        let poly = range_poly(value, range - 1);
        proof {
            lemma_range_poly_declared(cs, poly, Expr::Query(value, 0), (range - 1) as nat);
        }
        let mut constraints: Vec<Constraint> = Vec::new();
        constraints.push(Constraint { label: String::from_str("range check"), poly });
        assert(constraints@[0].poly == poly);
        let _ = cs.create_gate(String::from_str("range check"), sel, constraints);
        proof {
            assert(cs.gates@.drop_last() =~= old(cs).gates@);
        }
        RangeCheckConfig { value, sel }
    }

    /// Writes `v` (unknown when `None`) on a fresh row with the constraint set enabled.
    pub fn assign(&self, t: &mut Trace, v: Option<Fe>) -> (r: Result<(), Error>)
        requires
            old(t).wf(),
            self.config.fits(old(t)),
            v matches Some(f) ==> f.wf(),
        ensures
            final(t).wf(),
            final(t).same_columns(old(t)),
            final(t).copies@ == old(t).copies@,
            r is Err <==> old(t).next_row + 1 > old(t).n,
            r is Err ==> *final(t) == *old(t),
            r is Ok ==> final(t).next_row == old(t).next_row + 1,
            r is Ok ==> final(t).slot(self.config.value, old(t).next_row as int) == merged(Slot::Empty, v),
            final(t).cells_same_outside(old(t), (|c: Column, row: int| c == self.config.value && row == old(t).next_row)),
            r is Ok ==> final(t).selectors_set(
                old(t),
                (|i: int, row: int| i == self.config.sel.index && row == old(t).next_row),
            ),
    {
        let region = t.assign_region(String::from_str("assign value"), 1)?;
        let ghost t0 = *t;
        let _ = t.enable_selector(&region, self.config.sel, 0);
        let ghost t1 = *t;
        assert(t.slot(self.config.value, region.start as int) is Empty);
        let _ = t.assign_advice(&region, self.config.value, 0, v);
        proof {
            assert forall|s2: Selector, row: int| 0 <= s2.index < t.selectors@.len() && 0 <= row < t.n implies #[trigger] t.enabled(
                s2,
                row,
            ) == (old(t).enabled(s2, row) || (s2.index == self.config.sel.index && row == old(t).next_row)) by {
                assert(t0.enabled(s2, row) == old(t).enabled(s2, row));
                assert(t.enabled(s2, row) == t1.enabled(s2, row));
            }
            assert forall|c: Column, row: int|
                t.has_col(c) && 0 <= row < t.n && !(c == self.config.value && row == old(t).next_row)
                    implies #[trigger] t.slot(c, row) == old(t).slot(c, row) by {
                assert(t0.slot(c, row) == old(t).slot(c, row));
                assert(t1.slot(c, row) == t0.slot(c, row));
            }
        }
        Ok(())
    }
}

/// A range polynomial over a declared column is declared.
pub(crate) proof fn lemma_range_poly_declared(cs: &ConstraintSystem, p: Expr, v: Expr, k: nat)
    requires
        is_range_poly(p, v, k),
        cs.expr_declared(v),
    ensures
        cs.expr_declared(p),
    decreases k,
{
    if k > 0 {
        if let Expr::Product(a, b) = p {
            lemma_range_poly_declared(cs, *a, v, (k - 1) as nat);
            if let Expr::Sum(l, r) = *b {
                if let Expr::Neg(c) = *r {
                    assert(cs.expr_declared(*c));
                    assert(cs.expr_declared(*r));
                }
                assert(cs.expr_declared(*l));
                assert(cs.expr_declared(*b));
            }
        }
    }
}

/// A circuit that range-checks one value.
pub struct RangeCheckCircuit {
    pub value: Option<Fe>,
    pub range: usize,
}

impl RangeCheckCircuit {
    /// The same circuit with the value unknown.
    pub fn without_witnesses(&self) -> (r: RangeCheckCircuit)
        ensures
            r.value is None,
            r.range == self.range,
    {
        RangeCheckCircuit { value: None, range: self.range }
    }

    /// Declares the chip's column, selector and constraint set. Needs no witness.
    pub fn configure(&self, cs: &mut ConstraintSystem) -> (r: RangeCheckConfig)
        requires
            old(cs).wf(),
            old(cs).num_advice < usize::MAX,
            old(cs).num_selectors < usize::MAX,
            1 <= self.range <= u64::MAX,
        ensures
            configured(r, old(cs), final(cs), self.range),
    {
        RangeCheckChip::configure(cs, self.range)
    }

    /// Assigns the value, known or not, on a fresh row with the constraint set enabled.
    pub fn synthesize(&self, config: RangeCheckConfig, t: &mut Trace) -> (r: Result<(), Error>)
        requires
            old(t).wf(),
            config.fits(old(t)),
            self.value matches Some(f) ==> f.wf(),
        ensures
            final(t).wf(),
            final(t).same_columns(old(t)),
            final(t).copies@ == old(t).copies@,
            r is Err <==> old(t).next_row + 1 > old(t).n,
            r is Err ==> *final(t) == *old(t),
            r is Ok ==> final(t).slot(config.value, old(t).next_row as int) == merged(Slot::Empty, self.value),
            final(t).cells_same_outside(old(t), (|c: Column, row: int| c == config.value && row == old(t).next_row)),
            r is Ok ==> final(t).selectors_set(old(t), (|i: int, row: int| i == config.sel.index && row == old(t).next_row)),
    {
        let chip = RangeCheckChip::new(config, self.range);
        chip.assign(t, self.value)
    }
}

} // verus!
