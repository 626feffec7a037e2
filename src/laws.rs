//! Properties of the checker that hold for every circuit and trace.
use crate::checker::{
    copy_holds, eval, is_violation, lookup_active, table_contains, Violation,
};
use crate::expr::{fmod, Column, Expr};
use crate::field::Fe;
use crate::layout::{conflicts, Slot, Trace};
use crate::range_check::example1::{is_range_poly, lemma_range_poly_eval, lemma_range_prod_roots};
use crate::range_check::table::holds_range;
use crate::system::ConstraintSystem;
use vstd::prelude::*;

verus! {

/// `e`, evaluated at `row`, reads cell `(c, r)`.
pub open spec fn reads(e: Expr, row: int, c: Column, r: int) -> bool
    decreases e,
{
    match e {
        Expr::Query(col, rot) => col == c && row + rot == r,
        Expr::Neg(a) => reads(*a, row, c, r),
        Expr::Sum(a, b) => reads(*a, row, c, r) || reads(*b, row, c, r),
        Expr::Product(a, b) => reads(*a, row, c, r) || reads(*b, row, c, r),
        _ => false,
    }
}

/// `t2` differs from `t` at most in cell `(c, r)`.
pub open spec fn differs_only_at(t: &Trace, t2: &Trace, c: Column, r: int) -> bool {
    &&& t2.same_shape(t)
    &&& t2.same_selectors(t)
    &&& t2.copies@ == t.copies@
    &&& forall|c2: Column, r2: int|
        t.has_col(c2) && 0 <= r2 < t.n && !(c2 == c && r2 == r) ==> #[trigger] t2.slot(c2, r2) == t.slot(c2, r2)
}

/// An expression that does not read the changed cell has the same value.
pub proof fn lemma_eval_unread(t: &Trace, t2: &Trace, c: Column, r: int, e: Expr, row: int)
    requires
        differs_only_at(t, t2, c, r),
        !reads(e, row, c, r),
    ensures
        eval(t2, e, row) == eval(t, e, row),
    decreases e,
{
    match e {
        Expr::Query(col, rot) => {
            if t.has_col(col) && 0 <= row + rot < t.n {
                assert(t2.slot(col, row + rot) == t.slot(col, row + rot));
            }
        },
        Expr::Select(s) => {
            if s.index < t.selectors@.len() && 0 <= row < t.n {
                assert(t2.enabled(s, row) == t.enabled(s, row));
            }
        },
        Expr::Neg(a) => lemma_eval_unread(t, t2, c, r, *a, row),
        Expr::Sum(a, b) => {
            lemma_eval_unread(t, t2, c, r, *a, row);
            lemma_eval_unread(t, t2, c, r, *b, row);
        },
        Expr::Product(a, b) => {
            lemma_eval_unread(t, t2, c, r, *a, row);
            lemma_eval_unread(t, t2, c, r, *b, row);
        },
        _ => {},
    }
}

/// A sum constraint set `a + b - c` fails at an enabled row whose cells hold a wrong
/// sum, and holds where they hold the right one.
pub proof fn lemma_addition_gate(
    cs: &ConstraintSystem,
    t: &Trace,
    g: int,
    row: int,
    ca: Column,
    cb: Column,
    cc: Column,
    ra: i64,
    rb: i64,
    rc: i64,
    x: Fe,
    y: Fe,
    z: Fe,
)
    requires
        0 <= g < cs.gates@.len(),
        cs.gates@[g].constraints@.len() > 0,
        cs.gates@[g].constraints@[0].poly == Expr::Sum(
            Box::new(Expr::Sum(Box::new(Expr::Query(ca, ra)), Box::new(Expr::Query(cb, rb)))),
            Box::new(Expr::Neg(Box::new(Expr::Query(cc, rc)))),
        ),
        0 <= row < t.n,
        g <= usize::MAX,
        t.enabled(cs.gates@[g].selector, row),
        t.has_col(ca) && t.has_col(cb) && t.has_col(cc),
        0 <= row + ra < t.n && 0 <= row + rb < t.n && 0 <= row + rc < t.n,
        t.slot(ca, row + ra) == Slot::Known(x),
        t.slot(cb, row + rb) == Slot::Known(y),
        t.slot(cc, row + rc) == Slot::Known(z),
        x.wf() && y.wf() && z.wf(),
    ensures
        z.val() != fmod(x.val() + y.val()) ==> is_violation(
            cs,
            t,
            Violation::ConstraintNotSatisfied { gate: g as usize, constraint: 0, row: row as usize },
        ),
        z.val() == fmod(x.val() + y.val()) ==> !is_violation(
            cs,
            t,
            Violation::ConstraintNotSatisfied { gate: g as usize, constraint: 0, row: row as usize },
        ) && !is_violation(cs, t, Violation::CellNotAssigned { gate: g as usize, constraint: 0, row: row as usize }),
{
    let s = fmod(x.val() + y.val());
    let v = fmod(s + fmod(-z.val()));
    let qa = Expr::Query(ca, ra);
    let qb = Expr::Query(cb, rb);
    let qc = Expr::Query(cc, rc);
    assert(eval(t, qa, row) == Some(x.val()));
    assert(eval(t, qb, row) == Some(y.val()));
    assert(eval(t, qc, row) == Some(z.val()));
    assert(eval(t, Expr::Sum(Box::new(qa), Box::new(qb)), row) == Some(s));
    assert(eval(t, Expr::Neg(Box::new(qc)), row) == Some(fmod(-z.val())));
    assert(eval(t, cs.gates@[g].constraints@[0].poly, row) == Some(v));
    if z.val() == s {
        assert(fmod(-s) == if s == 0 { 0 } else { crate::field::modulus() - s });
        assert(v == 0);
    } else {
        assert(fmod(-z.val()) == if z.val() == 0 { 0 } else { crate::field::modulus() - z.val() });
        assert(v != 0);
    }
}

/// Changing one cell of a satisfied trace to differ from its partner in a
/// copy constraint is caught as exactly that copy constraint, provided the
/// cell is in no other copy constraint, no active constraint set or lookup reads it,
/// and it is in no lookup table.
pub proof fn lemma_copy_integrity(cs: &ConstraintSystem, t: &Trace, t2: &Trace, i: int, f: Fe)
    requires
        cs.wf(),
        t.wf(),
        t.fits(cs),
        forall|v: Violation| !#[trigger] is_violation(cs, t, v),
        0 <= i < t.copies@.len(),
        i <= usize::MAX,
        t.copies@[i].0 != t.copies@[i].1,
        differs_only_at(t, t2, t.copies@[i].0.column, t.copies@[i].0.row as int),
        t2.slot(t.copies@[i].0.column, t.copies@[i].0.row as int) == Slot::Known(f),
        t.slot(t.copies@[i].1.column, t.copies@[i].1.row as int) matches Slot::Known(w) && w.val() != f.val(),
        forall|j: int|
            0 <= j < t.copies@.len() && j != i ==> (#[trigger] t.copies@[j]).0 != t.copies@[i].0 && t.copies@[j].1
                != t.copies@[i].0,
        forall|g: int, k: int, row: int|
            0 <= g < cs.gates@.len() && 0 <= k < cs.gates@[g].constraints@.len() && 0 <= row < t.n && t.enabled(
                cs.gates@[g].selector,
                row,
            ) ==> !#[trigger] reads(
                cs.gates@[g].constraints@[k].poly,
                row,
                t.copies@[i].0.column,
                t.copies@[i].0.row as int,
            ),
        forall|l: int, row: int|
            0 <= l < cs.lookups@.len() && 0 <= row < t.n && lookup_active(t, cs.lookups@[l], row) ==> !#[trigger] reads(
                cs.lookups@[l].input,
                row,
                t.copies@[i].0.column,
                t.copies@[i].0.row as int,
            ),
        forall|l: int| 0 <= l < cs.lookups@.len() ==> (#[trigger] cs.lookups@[l]).table != t.copies@[i].0.column,
    ensures
        forall|v: Violation| #[trigger] is_violation(cs, t2, v) <==> v == (Violation::CopyFailed { copy: i as usize }),
{
    let c = t.copies@[i].0.column;
    let r = t.copies@[i].0.row as int;
    assert forall|v: Violation| #[trigger] is_violation(cs, t2, v) <==> v == (Violation::CopyFailed { copy: i as usize }) by {
        assert(!is_violation(cs, t, v));
        match v {
            Violation::ConstraintNotSatisfied { gate, constraint, row } => {
                if gate < cs.gates@.len() && constraint < cs.gates@[gate as int].constraints@.len() && row < t.n {
                    assert(cs.gate_wf(cs.gates@[gate as int]));
                    assert(t2.enabled(cs.gates@[gate as int].selector, row as int) == t.enabled(
                        cs.gates@[gate as int].selector,
                        row as int,
                    ));
                    if t.enabled(cs.gates@[gate as int].selector, row as int) {
                        assert(!reads(cs.gates@[gate as int].constraints@[constraint as int].poly, row as int, c, r));
                        lemma_eval_unread(t, t2, c, r, cs.gates@[gate as int].constraints@[constraint as int].poly, row as int);
                    }
                }
            },
            Violation::CellNotAssigned { gate, constraint, row } => {
                if gate < cs.gates@.len() && constraint < cs.gates@[gate as int].constraints@.len() && row < t.n {
                    assert(cs.gate_wf(cs.gates@[gate as int]));
                    assert(t2.enabled(cs.gates@[gate as int].selector, row as int) == t.enabled(
                        cs.gates@[gate as int].selector,
                        row as int,
                    ));
                    if t.enabled(cs.gates@[gate as int].selector, row as int) {
                        assert(!reads(cs.gates@[gate as int].constraints@[constraint as int].poly, row as int, c, r));
                        lemma_eval_unread(t, t2, c, r, cs.gates@[gate as int].constraints@[constraint as int].poly, row as int);
                    }
                }
            },
            Violation::LookupFailed { lookup, row } => {
                if lookup < cs.lookups@.len() && row < t.n {
                    let lk = cs.lookups@[lookup as int];
                    assert(cs.lookup_wf(lk));
                    assert(lookup_active(t2, lk, row as int) == lookup_active(t, lk, row as int));
                    if lookup_active(t, lk, row as int) {
                        assert(!reads(lk.input, row as int, c, r));
                        lemma_eval_unread(t, t2, c, r, lk.input, row as int);
                        assert(lk.table != c);
                        if let Some(x) = eval(t, lk.input, row as int) {
                            if table_contains(t, lk.table, x) {
                                let w = choose|w: int| 0 <= w < t.n && (#[trigger] t.slot(lk.table, w) matches Slot::Known(f)
                                    && f.val() == x);
                                assert(cs.lookup_wf(lk));
                                assert(t2.slot(lk.table, w) == t.slot(lk.table, w));
                            }
                            if table_contains(t2, lk.table, x) {
                                let w = choose|w: int| 0 <= w < t2.n && (#[trigger] t2.slot(lk.table, w) matches Slot::Known(f)
                                    && f.val() == x);
                                assert(cs.lookup_wf(lk));
                                assert(t2.slot(lk.table, w) == t.slot(lk.table, w));
                            }
                        }
                    }
                }
            },
            Violation::CopyFailed { copy } => {
                if copy < t.copies@.len() {
                    let (a, b) = t.copies@[copy as int];
                    assert(t.has_cell(a) && t.has_cell(b));
                    if copy as int != i {
                        assert(t.copies@[copy as int].0 != t.copies@[i].0 && t.copies@[copy as int].1 != t.copies@[i].0);
                        assert(t2.slot(a.column, a.row as int) == t.slot(a.column, a.row as int));
                        assert(t2.slot(b.column, b.row as int) == t.slot(b.column, b.row as int));
                    } else {
                        assert(t2.slot(b.column, b.row as int) == t.slot(b.column, b.row as int));
                        assert(!copy_holds(t2, i));
                    }
                }
            },
        }
    }
}

/// Against a table holding exactly `0..range`, a lookup at an active row
/// whose input has value `x` fails exactly when `x >= range`.
pub proof fn lemma_lookup_containment(cs: &ConstraintSystem, t: &Trace, l: int, row: int, range: int, x: int)
    requires
        0 <= l < cs.lookups@.len(),
        l <= usize::MAX,
        0 <= row < t.n,
        holds_range(t, cs.lookups@[l].table, range),
        lookup_active(t, cs.lookups@[l], row),
        eval(t, cs.lookups@[l].input, row) == Some(x),
        0 <= x,
    ensures
        is_violation(cs, t, Violation::LookupFailed { lookup: l as usize, row: row as usize }) <==> x >= range,
{
    let c = cs.lookups@[l].table;
    if x < range {
        assert(table_contains(t, c, x));
    } else if table_contains(t, c, x) {
        let w = choose|w: int| 0 <= w < t.n && (#[trigger] t.slot(c, w) matches Slot::Known(f) && f.val() == x);
        assert(t.slot(c, w) is Known);
    }
}

/// The range constraint set holds at an enabled row whose value cell holds a value
/// below `k + 1`.
pub proof fn lemma_range_gate_accepts(cs: &ConstraintSystem, t: &Trace, g: int, row: int, col: Column, k: nat, v: Fe)
    requires
        0 <= g < cs.gates@.len(),
        g <= usize::MAX,
        cs.gates@[g].constraints@.len() == 1,
        is_range_poly(cs.gates@[g].constraints@[0].poly, Expr::Query(col, 0), k),
        0 <= row < t.n,
        t.has_col(col),
        t.slot(col, row) == Slot::Known(v),
        0 <= v.val() <= k,
        k < crate::field::modulus(),
    ensures
        forall|j: usize| !#[trigger] is_violation(
            cs,
            t,
            Violation::ConstraintNotSatisfied { gate: g as usize, constraint: j, row: row as usize },
        ),
        forall|j: usize| !#[trigger] is_violation(
            cs,
            t,
            Violation::CellNotAssigned { gate: g as usize, constraint: j, row: row as usize },
        ),
{
    lemma_range_poly_eval(t, cs.gates@[g].constraints@[0].poly, Expr::Query(col, 0), k, row);
    lemma_range_prod_roots(v.val(), k);
    assert(eval(t, Expr::Query(col, 0), row) == Some(v.val()));
}

/// Writing an unknown value never conflicts with what a cell holds, so a
/// pass without witnesses cannot fail on it.
pub proof fn lemma_unknown_never_conflicts(s: Slot)
    ensures
        !conflicts(s, None),
{
}

/// Writing a value that differs from a known one always conflicts.
pub proof fn lemma_distinct_values_conflict(x: Fe, y: Fe)
    requires
        x.val() != y.val(),
    ensures
        conflicts(Slot::Known(x), Some(y)),
{
}

} // verus!
