//! The satisfiability checker: evaluates every constraint set and lookup at every row
//! and every copy constraint against a fixed trace, and lists each failure.
use crate::expr::{fmod, Column, Expr};
use crate::field::Fe;
use crate::layout::{Slot, Trace};
use crate::system::{ConstraintSystem, Lookup};
use vstd::prelude::*;

verus! {

/// One failed check.
#[derive(Clone, Copy, Debug, PartialEq, Eq, Structural)]
pub enum Violation {
    /// A constraint set polynomial evaluated to a nonzero value at an enabled row.
    ConstraintNotSatisfied { gate: usize, constraint: usize, row: usize },
    /// A constraint set polynomial at an enabled row reads a cell without a concrete value.
    CellNotAssigned { gate: usize, constraint: usize, row: usize },
    /// A lookup input at an active row is missing or absent from its table.
    LookupFailed { lookup: usize, row: usize },
    /// The two cells of a copy constraint do not hold the same concrete value.
    CopyFailed { copy: usize },
}

/// The value of `e` at `row`, or `None` where it reads a cell without a
/// concrete value or outside the trace.
pub open spec fn eval(t: &Trace, e: Expr, row: int) -> Option<int>
    decreases e,
{
    match e {
        Expr::Constant(f) => Some(f.val()),
        Expr::Query(c, rot) => {
            let r = row + rot;
            if t.has_col(c) && 0 <= r < t.n {
                match t.slot(c, r) {
                    Slot::Known(f) => Some(f.val()),
                    _ => None,
                }
            } else {
                None
            }
        },
        Expr::Select(s) => {
            if s.index < t.selectors@.len() && 0 <= row < t.n {
                Some(if t.enabled(s, row) { 1int } else { 0int })
            } else {
                None
            }
        },
        Expr::Neg(a) => match eval(t, *a, row) {
            Some(x) => Some(fmod(-x)),
            None => None,
        },
        Expr::Sum(a, b) => match (eval(t, *a, row), eval(t, *b, row)) {
            (Some(x), Some(y)) => Some(fmod(x + y)),
            _ => None,
        },
        Expr::Product(a, b) => match (eval(t, *a, row), eval(t, *b, row)) {
            (Some(x), Some(y)) => Some(fmod(x * y)),
            _ => None,
        },
    }
}

/// Some assigned row of column `c` holds the value `x`.
pub open spec fn table_contains(t: &Trace, c: Column, x: int) -> bool {
    exists|r: int| 0 <= r < t.n && (#[trigger] t.slot(c, r) matches Slot::Known(f) && f.val() == x)
}

/// The lookup is switched on at `row`.
pub open spec fn lookup_active(t: &Trace, l: Lookup, row: int) -> bool {
    match l.selector {
        Some(s) => t.enabled(s, row),
        None => true,
    }
}

/// The lookup's input at `row` has a value and the table holds it.
pub open spec fn lookup_holds(t: &Trace, l: Lookup, row: int) -> bool {
    eval(t, l.input, row) matches Some(x) && table_contains(t, l.table, x)
}

/// Both cells of copy `i` hold concrete, equal values.
pub open spec fn copy_holds(t: &Trace, i: int) -> bool {
    let (a, b) = t.copies@[i];
    t.slot(a.column, a.row as int) matches Slot::Known(x) && t.slot(b.column, b.row as int) matches Slot::Known(y)
        && x.val() == y.val()
}

/// `v` is a failure of `t` against `cs`.
pub open spec fn is_violation(cs: &ConstraintSystem, t: &Trace, v: Violation) -> bool {
    match v {
        Violation::ConstraintNotSatisfied { gate, constraint, row } => {
            &&& gate < cs.gates@.len()
            &&& constraint < cs.gates@[gate as int].constraints@.len()
            &&& row < t.n
            &&& t.enabled(cs.gates@[gate as int].selector, row as int)
            &&& eval(t, cs.gates@[gate as int].constraints@[constraint as int].poly, row as int) matches Some(x) && x != 0
        },
        Violation::CellNotAssigned { gate, constraint, row } => {
            &&& gate < cs.gates@.len()
            &&& constraint < cs.gates@[gate as int].constraints@.len()
            &&& row < t.n
            &&& t.enabled(cs.gates@[gate as int].selector, row as int)
            &&& eval(t, cs.gates@[gate as int].constraints@[constraint as int].poly, row as int) is None
        },
        Violation::LookupFailed { lookup, row } => {
            &&& lookup < cs.lookups@.len()
            &&& row < t.n
            &&& lookup_active(t, cs.lookups@[lookup as int], row as int)
            &&& !lookup_holds(t, cs.lookups@[lookup as int], row as int)
        },
        Violation::CopyFailed { copy } => copy < t.copies@.len() && !copy_holds(t, copy as int),
    }
}

/// The trace satisfies every constraint set, lookup and copy constraint.
pub open spec fn satisfied(cs: &ConstraintSystem, t: &Trace) -> bool {
    forall|v: Violation| !#[trigger] is_violation(cs, t, v)
}

pub open spec fn is_gate_violation(v: Violation, g: int, row: int) -> bool {
    match v {
        Violation::ConstraintNotSatisfied { gate, row: r, .. } => gate == g && r == row,
        Violation::CellNotAssigned { gate, row: r, .. } => gate == g && r == row,
        _ => false,
    }
}

pub open spec fn constraint_of(v: Violation) -> int {
    match v {
        Violation::ConstraintNotSatisfied { constraint, .. } => constraint as int,
        Violation::CellNotAssigned { constraint, .. } => constraint as int,
        _ => 0,
    }
}

/// The context that every check needs.
pub open spec fn ready(cs: &ConstraintSystem, t: &Trace) -> bool {
    cs.wf() && t.wf() && t.fits(cs)
}

proof fn lemma_push_contains(s: Seq<Violation>, x: Violation, y: Violation)
    ensures
        s.push(x).contains(y) <==> (s.contains(y) || y == x),
{
    if s.contains(y) {
        let k = choose|k: int| 0 <= k < s.len() && s[k] == y;
        assert(s.push(x)[k] == y);
    }
    if y == x {
        assert(s.push(x)[s.len() as int] == y);
    }
    if s.push(x).contains(y) {
        let k = choose|k: int| 0 <= k < s.len() + 1 && s.push(x)[k] == y;
        if k < s.len() {
            assert(s[k] == y);
        }
    }
}

proof fn lemma_push_no_dup(s: Seq<Violation>, x: Violation)
    requires
        s.no_duplicates(),
        !s.contains(x),
    ensures
        s.push(x).no_duplicates(),
{
    assert forall|i: int, j: int| 0 <= i < s.len() + 1 && 0 <= j < s.len() + 1 && i != j implies s.push(x)[i] != s.push(
        x,
    )[j] by {
        if i == s.len() {
            assert(s.contains(s[j]));
        } else if j == s.len() {
            assert(s.contains(s[i]));
        }
    }
}

/// The value of `e` at `row`.
pub fn evaluate(cs: &ConstraintSystem, t: &Trace, e: &Expr, row: usize) -> (r: Option<Fe>)
    requires
        ready(cs, t),
        cs.expr_declared(*e),
        row < t.n,
    ensures
        r is Some <==> eval(t, *e, row as int) is Some,
        r matches Some(f) ==> f.wf() && eval(t, *e, row as int) == Some(f.val()),
    decreases e,
{
    match e {
        Expr::Constant(f) => Some(*f),
        Expr::Query(c, rot) => {
            let r: i128 = row as i128 + *rot as i128;
            if r < 0 || r >= t.n as i128 {
                return None;
            }
            match t.read(*c, r as usize) {
                Slot::Known(f) => Some(f),
                _ => None,
            }
        },
        Expr::Select(s) => {
            if t.is_enabled(*s, row) {
                Some(Fe::one())
            } else {
                Some(Fe::zero())
            }
        },
        Expr::Neg(a) => match evaluate(cs, t, a, row) {
            Some(x) => Some(x.neg()),
            None => None,
        },
        Expr::Sum(a, b) => {
            let x = evaluate(cs, t, a, row);
            let y = evaluate(cs, t, b, row);
            match (x, y) {
                (Some(x), Some(y)) => Some(x.add(&y)),
                _ => None,
            }
        },
        Expr::Product(a, b) => {
            let x = evaluate(cs, t, a, row);
            let y = evaluate(cs, t, b, row);
            match (x, y) {
                (Some(x), Some(y)) => Some(x.mul(&y)),
                _ => None,
            }
        },
    }
}

/// Appends the failures of constraint set `g` at `row`.
fn check_gate_row(cs: &ConstraintSystem, t: &Trace, g: usize, row: usize, out: &mut Vec<Violation>)
    requires
        ready(cs, t),
        g < cs.gates@.len(),
        row < t.n,
        old(out)@.no_duplicates(),
        forall|v: Violation| #[trigger] old(out)@.contains(v) ==> !is_gate_violation(v, g as int, row as int),
    ensures
        forall|v: Violation| #[trigger] final(out)@.contains(v) <==> (old(out)@.contains(v)
            || (is_violation(cs, t, v) && is_gate_violation(v, g as int, row as int))),
        final(out)@.no_duplicates(),
{
    let gate = &cs.gates[g];
    assert(cs.gate_wf(cs.gates@[g as int]));
    if !t.is_enabled(gate.selector, row) {
        return;
    }
    let mut k: usize = 0;
    while k < gate.constraints.len()
        invariant
            ready(cs, t),
            g < cs.gates@.len(),
            row < t.n,
            *gate == cs.gates@[g as int],
            cs.gate_wf(*gate),
            t.enabled(gate.selector, row as int),
            k <= gate.constraints@.len(),
            forall|v: Violation| #[trigger] out@.contains(v) <==> (old(out)@.contains(v)
                || (is_violation(cs, t, v) && is_gate_violation(v, g as int, row as int) && constraint_of(v) < k)),
            out@.no_duplicates(),
            forall|v: Violation| #[trigger] old(out)@.contains(v) ==> !is_gate_violation(v, g as int, row as int),
        decreases gate.constraints@.len() - k,
    {
        assert(cs.expr_declared(gate.constraints@[k as int].poly));
        let x = evaluate(cs, t, &gate.constraints[k].poly, row);
        let found = match x {
            Some(f) => if f.is_zero() {
                None
            } else {
                Some(Violation::ConstraintNotSatisfied { gate: g, constraint: k, row })
            },
            None => Some(Violation::CellNotAssigned { gate: g, constraint: k, row }),
        };
        match found {
            Some(v) => {
                let ghost pre = out@;
                proof {
                    assert(!pre.contains(v));
                    lemma_push_no_dup(pre, v);
                }
                out.push(v);
                proof {
                    assert forall|w: Violation| #[trigger] out@.contains(w) <==> (old(out)@.contains(w)
                        || (is_violation(cs, t, w) && is_gate_violation(w, g as int, row as int) && constraint_of(w) < k + 1)) by {
                        lemma_push_contains(pre, v, w);
                    }
                }
            },
            None => {},
        }
        k = k + 1;
    }
}

/// Appends the failures of every constraint set.
fn check_gates(cs: &ConstraintSystem, t: &Trace, out: &mut Vec<Violation>)
    requires
        ready(cs, t),
        old(out)@.no_duplicates(),
        forall|v: Violation| #[trigger] old(out)@.contains(v) ==> !is_gate_kind(v),
    ensures
        forall|v: Violation| #[trigger] final(out)@.contains(v) <==> (old(out)@.contains(v)
            || (is_violation(cs, t, v) && is_gate_kind(v))),
        final(out)@.no_duplicates(),
{
    let mut g: usize = 0;
    while g < cs.gates.len()
        invariant
            ready(cs, t),
            g <= cs.gates@.len(),
            forall|v: Violation| #[trigger] out@.contains(v) <==> (old(out)@.contains(v)
                || (is_violation(cs, t, v) && is_gate_kind(v) && gate_of(v) < g)),
            out@.no_duplicates(),
            forall|v: Violation| #[trigger] old(out)@.contains(v) ==> !is_gate_kind(v),
        decreases cs.gates@.len() - g,
    {
        let mut row: usize = 0;
        while row < t.n
            invariant
                ready(cs, t),
                g < cs.gates@.len(),
                row <= t.n,
                forall|v: Violation| #[trigger] out@.contains(v) <==> (old(out)@.contains(v)
                    || (is_violation(cs, t, v) && is_gate_kind(v) && (gate_of(v) < g || (gate_of(v) == g && row_of(v) < row)))),
                out@.no_duplicates(),
                forall|v: Violation| #[trigger] old(out)@.contains(v) ==> !is_gate_kind(v),
            decreases t.n - row,
        {
            proof {
                assert forall|v: Violation| #[trigger] out@.contains(v) implies !is_gate_violation(v, g as int, row as int) by {
                    if old(out)@.contains(v) {
                        assert(!is_gate_kind(v));
                    }
                }
            }
            check_gate_row(cs, t, g, row, out);
            row = row + 1;
        }
        g = g + 1;
    }
}

pub open spec fn is_gate_kind(v: Violation) -> bool {
    v is ConstraintNotSatisfied || v is CellNotAssigned
}

pub open spec fn gate_of(v: Violation) -> int {
    match v {
        Violation::ConstraintNotSatisfied { gate, .. } => gate as int,
        Violation::CellNotAssigned { gate, .. } => gate as int,
        _ => 0,
    }
}

pub open spec fn row_of(v: Violation) -> int {
    match v {
        Violation::ConstraintNotSatisfied { row, .. } => row as int,
        Violation::CellNotAssigned { row, .. } => row as int,
        Violation::LookupFailed { row, .. } => row as int,
        _ => 0,
    }
}

/// Whether some assigned row of column `c` holds `x`.
fn table_has(t: &Trace, c: Column, x: &Fe) -> (r: bool)
    requires
        t.wf(),
        t.has_col(c),
        x.wf(),
    ensures
        r == table_contains(t, c, x.val()),
{
    let mut i: usize = 0;
    while i < t.n
        invariant
            t.wf(),
            t.has_col(c),
            x.wf(),
            i <= t.n,
            forall|r: int| 0 <= r < i ==> !(#[trigger] t.slot(c, r) matches Slot::Known(f) && f.val() == x.val()),
        decreases t.n - i,
    {
        match t.read(c, i) {
            Slot::Known(f) => {
                if f.equals(x) {
                    assert(t.slot(c, i as int) matches Slot::Known(f) && f.val() == x.val());
                    return true;
                }
            },
            _ => {},
        }
        i = i + 1;
    }
    false
}

pub open spec fn lookup_of(v: Violation) -> int {
    match v {
        Violation::LookupFailed { lookup, .. } => lookup as int,
        _ => 0,
    }
}

/// Appends the failures of every lookup.
fn check_lookups(cs: &ConstraintSystem, t: &Trace, out: &mut Vec<Violation>)
    requires
        ready(cs, t),
        old(out)@.no_duplicates(),
        forall|v: Violation| #[trigger] old(out)@.contains(v) ==> !(v is LookupFailed),
    ensures
        forall|v: Violation| #[trigger] final(out)@.contains(v) <==> (old(out)@.contains(v)
            || (is_violation(cs, t, v) && v is LookupFailed)),
        final(out)@.no_duplicates(),
{
    let mut l: usize = 0;
    while l < cs.lookups.len()
        invariant
            ready(cs, t),
            l <= cs.lookups@.len(),
            forall|v: Violation| #[trigger] out@.contains(v) <==> (old(out)@.contains(v)
                || (is_violation(cs, t, v) && v is LookupFailed && lookup_of(v) < l)),
            out@.no_duplicates(),
            forall|v: Violation| #[trigger] old(out)@.contains(v) ==> !(v is LookupFailed),
        decreases cs.lookups@.len() - l,
    {
        let lk = &cs.lookups[l];
        assert(cs.lookup_wf(cs.lookups@[l as int]));
        let mut row: usize = 0;
        while row < t.n
            invariant
                ready(cs, t),
                l < cs.lookups@.len(),
                *lk == cs.lookups@[l as int],
                cs.lookup_wf(*lk),
                row <= t.n,
                forall|v: Violation| #[trigger] out@.contains(v) <==> (old(out)@.contains(v)
                    || (is_violation(cs, t, v) && v is LookupFailed && (lookup_of(v) < l
                        || (lookup_of(v) == l && row_of(v) < row)))),
                out@.no_duplicates(),
                forall|v: Violation| #[trigger] old(out)@.contains(v) ==> !(v is LookupFailed),
            decreases t.n - row,
        {
            let active = match lk.selector {
                Some(s) => t.is_enabled(s, row),
                None => true,
            };
            if active {
                let holds = match evaluate(cs, t, &lk.input, row) {
                    Some(x) => table_has(t, lk.table, &x),
                    None => false,
                };
                if !holds {
                    let v = Violation::LookupFailed { lookup: l, row };
                    let ghost pre = out@;
                    proof {
                        assert(!pre.contains(v));
                        lemma_push_no_dup(pre, v);
                    }
                    out.push(v);
                    proof {
                        assert forall|w: Violation| #[trigger] out@.contains(w) <==> (old(out)@.contains(w)
                            || (is_violation(cs, t, w) && w is LookupFailed && (lookup_of(w) < l
                                || (lookup_of(w) == l && row_of(w) < row + 1)))) by {
                            lemma_push_contains(pre, v, w);
                        }
                    }
                }
            }
            row = row + 1;
        }
        l = l + 1;
    }
}

/// Appends the failures of every copy constraint.
fn check_copies(cs: &ConstraintSystem, t: &Trace, out: &mut Vec<Violation>)
    requires
        ready(cs, t),
        old(out)@.no_duplicates(),
        forall|v: Violation| #[trigger] old(out)@.contains(v) ==> !(v is CopyFailed),
    ensures
        forall|v: Violation| #[trigger] final(out)@.contains(v) <==> (old(out)@.contains(v)
            || (is_violation(cs, t, v) && v is CopyFailed)),
        final(out)@.no_duplicates(),
{
    let mut i: usize = 0;
    while i < t.copies.len()
        invariant
            ready(cs, t),
            i <= t.copies@.len(),
            forall|v: Violation| #[trigger] out@.contains(v) <==> (old(out)@.contains(v)
                || (is_violation(cs, t, v) && (v matches Violation::CopyFailed { copy } && copy < i))),
            out@.no_duplicates(),
            forall|v: Violation| #[trigger] old(out)@.contains(v) ==> !(v is CopyFailed),
        decreases t.copies@.len() - i,
    {
        let (a, b) = t.copies[i];
        assert(t.has_cell(t.copies@[i as int].0) && t.has_cell(t.copies@[i as int].1));
        let holds = match (t.read(a.column, a.row), t.read(b.column, b.row)) {
            (Slot::Known(x), Slot::Known(y)) => x.equals(&y),
            _ => false,
        };
        if !holds {
            let v = Violation::CopyFailed { copy: i };
            let ghost pre = out@;
            proof {
                assert(!pre.contains(v));
                lemma_push_no_dup(pre, v);
            }
            out.push(v);
            proof {
                assert forall|w: Violation| #[trigger] out@.contains(w) <==> (old(out)@.contains(w)
                    || (is_violation(cs, t, w) && (w matches Violation::CopyFailed { copy } && copy < i + 1))) by {
                    lemma_push_contains(pre, v, w);
                }
            }
        }
        i = i + 1;
    }
}

/// Every failure of `t` against `cs`: a violation is listed if and only if
/// it occurs, so an empty list means the trace satisfies the system.
pub fn check(cs: &ConstraintSystem, t: &Trace) -> (r: Vec<Violation>)
    requires
        ready(cs, t),
    ensures
        forall|v: Violation| #[trigger] r@.contains(v) <==> is_violation(cs, t, v),
        r@.no_duplicates(),
        r@.len() == 0 <==> satisfied(cs, t),
{
    let mut out: Vec<Violation> = Vec::new();
    check_gates(cs, t, &mut out);
    check_lookups(cs, t, &mut out);
    check_copies(cs, t, &mut out);
    proof {
        assert forall|v: Violation| #[trigger] out@.contains(v) <==> is_violation(cs, t, v) by {
            assert(!Seq::<Violation>::empty().contains(v));
        }
        if out@.len() > 0 {
            assert(out@.contains(out@[0]));
            assert(is_violation(cs, t, out@[0]));
        }
        if !satisfied(cs, t) {
            let v = choose|v: Violation| is_violation(cs, t, v);
            assert(out@.contains(v));
        }
    }
    out
}

} // verus!
