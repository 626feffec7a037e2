use fibonacci::checker::{check, evaluate, Violation};
use fibonacci::error::Error;
use fibonacci::expr::{ColumnKind, Expr};
use fibonacci::field::Fe;
use fibonacci::layout::{Slot, Trace};
use fibonacci::system::{Constraint, ConstraintSystem};

fn fe(n: u64) -> Fe {
    Fe::from_u64(n)
}

fn known(s: Slot) -> Fe {
    match s {
        Slot::Known(f) => f,
        other => panic!("expected a known value, found {:?}", other),
    }
}

#[test]
fn field_arithmetic() {
    assert!(fe(2).add(&fe(3)).equals(&fe(5)));
    assert!(fe(7).sub(&fe(3)).equals(&fe(4)));
    assert!(fe(6).mul(&fe(7)).equals(&fe(42)));
    assert!(fe(0).sub(&fe(1)).equals(&fe(1).neg()));
    assert!(fe(1).neg().add(&fe(1)).is_zero());
    assert!(!fe(1).is_zero());
    assert!(Fe::zero().is_zero());
    assert!(Fe::one().equals(&fe(1)));
    assert!(fe(5).is_canonical());
    assert!(!Fe { repr: [0xff; 32] }.is_canonical());
}

#[test]
fn field_inverse() {
    let inv = fe(2).invert().unwrap();
    assert!(inv.mul(&fe(2)).equals(&fe(1)));
    assert!(!inv.equals(&fe(2)));
    assert!(fe(0).invert().is_none());
}

#[test]
fn columns_get_distinct_indices() {
    let mut cs = ConstraintSystem::new();
    let a = cs.advice_column();
    let b = cs.advice_column();
    let i = cs.instance_column();
    let f = cs.lookup_table_column();
    let s = cs.selector();
    let q = cs.complex_selector();
    assert_eq!((a.kind, a.index), (ColumnKind::Advice, 0));
    assert_eq!((b.kind, b.index), (ColumnKind::Advice, 1));
    assert_eq!((i.kind, i.index), (ColumnKind::Instance, 0));
    assert_eq!((f.kind, f.index), (ColumnKind::Fixed, 0));
    assert!(!s.complex && q.complex && s.index != q.index);
}

#[test]
fn enable_equality_is_idempotent() {
    let mut cs = ConstraintSystem::new();
    let a = cs.advice_column();
    cs.enable_equality(a).unwrap();
    cs.enable_equality(a).unwrap();
    assert_eq!(cs.equality.len(), 1);
    assert!(cs.has_equality(a));
    let undeclared = fibonacci::expr::Column { kind: ColumnKind::Advice, index: 5 };
    assert!(matches!(cs.enable_equality(undeclared), Err(Error::UndeclaredReference)));
}

#[test]
fn lookup_table_side_must_be_a_fixed_column() {
    let mut cs = ConstraintSystem::new();
    let a = cs.advice_column();
    let f = cs.lookup_table_column();
    let r = cs.lookup(String::from("bad"), None, Expr::query(a, 0), Expr::query(a, 0));
    assert!(matches!(r, Err(Error::InvalidLookupTable)));
    let r = cs.lookup(String::from("bad"), None, Expr::query(a, 0), Expr::query(f, 1));
    assert!(matches!(r, Err(Error::InvalidLookupTable)));
    assert!(cs.lookups.is_empty());
    cs.lookup(String::from("good"), None, Expr::query(a, 0), Expr::query(f, 0)).unwrap();
    assert_eq!(cs.lookups.len(), 1);
}

#[test]
fn gate_with_undeclared_column_is_refused() {
    let mut cs = ConstraintSystem::new();
    let s = cs.selector();
    let ghost = fibonacci::expr::Column { kind: ColumnKind::Advice, index: 0 };
    let r = cs.create_gate(String::from("g"), s, vec![Constraint { label: String::from("x"), poly: Expr::query(ghost, 0) }]);
    assert!(matches!(r, Err(Error::UndeclaredReference)));
    assert!(cs.gates.is_empty());
}

#[test]
fn conflicting_assignment_is_an_error() {
    let mut cs = ConstraintSystem::new();
    let a = cs.advice_column();
    let mut t = Trace::new(&cs, 4);
    let region = t.assign_region(String::from("r"), 2).unwrap();
    t.assign_advice(&region, a, 1, Some(fe(3))).unwrap();
    t.assign_advice(&region, a, 1, Some(fe(3))).unwrap();
    t.assign_advice(&region, a, 1, None).unwrap();
    match t.assign_advice(&region, a, 1, Some(fe(4))) {
        Err(Error::ConflictingAssignment { region, offset }) => {
            assert_eq!(region, "r");
            assert_eq!(offset, 1);
        },
        other => panic!("expected a conflict, got {:?}", other),
    }
    assert!(known(t.read(a, 1)).equals(&fe(3)));
}

#[test]
fn conflicting_copy_is_an_error() {
    let mut cs = ConstraintSystem::new();
    let a = cs.advice_column();
    let b = cs.advice_column();
    cs.enable_equality(a).unwrap();
    cs.enable_equality(b).unwrap();
    let mut t = Trace::new(&cs, 4);
    let region = t.assign_region(String::from("r"), 1).unwrap();
    let src = t.assign_advice(&region, a, 0, Some(fe(1))).unwrap();
    t.assign_advice(&region, b, 0, Some(fe(2))).unwrap();
    assert!(matches!(t.copy_advice(&src, &region, b, 0), Err(Error::ConflictingAssignment { .. })));
    assert!(t.copies.is_empty());
}

#[test]
fn copy_needs_equality() {
    let mut cs = ConstraintSystem::new();
    let a = cs.advice_column();
    let b = cs.advice_column();
    cs.enable_equality(a).unwrap();
    let mut t = Trace::new(&cs, 4);
    let region = t.assign_region(String::from("r"), 1).unwrap();
    let src = t.assign_advice(&region, a, 0, Some(fe(1))).unwrap();
    assert!(matches!(t.copy_advice(&src, &region, b, 0), Err(Error::EqualityNotEnabled)));
}

#[test]
fn write_outside_region_is_an_error() {
    let mut cs = ConstraintSystem::new();
    let a = cs.advice_column();
    let s = cs.selector();
    let mut t = Trace::new(&cs, 8);
    let region = t.assign_region(String::from("small"), 2).unwrap();
    match t.assign_advice(&region, a, 2, Some(fe(1))) {
        Err(Error::OutOfRegion { region, offset }) => {
            assert_eq!(region, "small");
            assert_eq!(offset, 2);
        },
        other => panic!("expected out of region, got {:?}", other),
    }
    assert!(matches!(t.enable_selector(&region, s, 5), Err(Error::OutOfRegion { .. })));
    assert!(matches!(t.assign_region(String::from("big"), 7), Err(Error::NotEnoughRows)));
}

#[test]
fn regions_are_placed_one_after_another() {
    let cs = ConstraintSystem::new();
    let mut t = Trace::new(&cs, 10);
    let r1 = t.assign_region(String::from("one"), 3).unwrap();
    let r2 = t.assign_region(String::from("two"), 4).unwrap();
    assert_eq!((r1.start, r1.height), (0, 3));
    assert_eq!((r2.start, r2.height), (3, 4));
    assert_eq!(t.next_row, 7);
}

#[test]
fn unknown_value_is_kept_unknown() {
    let mut cs = ConstraintSystem::new();
    let a = cs.advice_column();
    let mut t = Trace::new(&cs, 4);
    let region = t.assign_region(String::from("r"), 1).unwrap();
    let cell = t.assign_advice(&region, a, 0, None).unwrap();
    assert!(cell.value.is_none());
    assert!(matches!(t.read(a, 0), Slot::Unknown));
}

/// A constraint set that reads an unknown cell reports the cell, not a failed sum.
#[test]
fn unassigned_cell_is_reported_apart_from_a_wrong_value() {
    let mut cs = ConstraintSystem::new();
    let a = cs.advice_column();
    let s = cs.selector();
    cs.create_gate(String::from("g"), s, vec![Constraint { label: String::from("a"), poly: Expr::query(a, 0) }]).unwrap();
    let mut t = Trace::new(&cs, 4);
    let region = t.assign_region(String::from("r"), 2).unwrap();
    t.enable_selector(&region, s, 0).unwrap();
    t.enable_selector(&region, s, 1).unwrap();
    t.assign_advice(&region, a, 1, Some(fe(5))).unwrap();
    let v = check(&cs, &t);
    assert_eq!(v, vec![
        Violation::CellNotAssigned { gate: 0, constraint: 0, row: 0 },
        Violation::ConstraintNotSatisfied { gate: 0, constraint: 0, row: 1 },
    ]);
}

#[test]
fn evaluate_expression() {
    let mut cs = ConstraintSystem::new();
    let a = cs.advice_column();
    let s = cs.selector();
    let mut t = Trace::new(&cs, 4);
    let region = t.assign_region(String::from("r"), 2).unwrap();
    t.assign_advice(&region, a, 0, Some(fe(3))).unwrap();
    t.assign_advice(&region, a, 1, Some(fe(4))).unwrap();
    t.enable_selector(&region, s, 0).unwrap();
    // (a[0] * a[1] - 2) * s = 10
    let e = Expr::query(a, 0).times(Expr::query(a, 1)).minus(Expr::constant(fe(2))).times(Expr::select(s));
    assert!(evaluate(&cs, &t, &e, 0).unwrap().equals(&fe(10)));
    assert!(evaluate(&cs, &t, &e, 1).is_none());
    let n = Expr::query(a, 0).negate().plus(Expr::query(a, 0));
    assert!(evaluate(&cs, &t, &n, 0).unwrap().is_zero());
    assert!(evaluate(&cs, &t, &Expr::query(a, -1), 0).is_none());
}

/// Two cells tied by a copy constraint and read by no constraint set: changing one
/// yields exactly the copy violation.
#[test]
fn copy_mismatch_is_exactly_one_violation() {
    let mut cs = ConstraintSystem::new();
    let a = cs.advice_column();
    let b = cs.advice_column();
    let c = cs.advice_column();
    let s = cs.selector();
    cs.enable_equality(a).unwrap();
    cs.enable_equality(b).unwrap();
    cs.create_gate(String::from("c is one"), s, vec![Constraint {
        label: String::from("c - 1"),
        poly: Expr::query(c, 0).minus(Expr::constant(fe(1))),
    }]).unwrap();
    let mut t = Trace::new(&cs, 4);
    let r1 = t.assign_region(String::from("one"), 1).unwrap();
    let src = t.assign_advice(&r1, a, 0, Some(fe(7))).unwrap();
    t.assign_advice(&r1, c, 0, Some(fe(1))).unwrap();
    t.enable_selector(&r1, s, 0).unwrap();
    let r2 = t.assign_region(String::from("two"), 1).unwrap();
    t.copy_advice(&src, &r2, b, 0).unwrap();
    assert!(check(&cs, &t).is_empty());
    t.advice[b.index][1] = Slot::Known(fe(8));
    assert_eq!(check(&cs, &t), vec![Violation::CopyFailed { copy: 0 }]);
}

fn lookup_run(range: u64, value: u64) -> Vec<Violation> {
    let mut cs = ConstraintSystem::new();
    let a = cs.advice_column();
    let q = cs.complex_selector();
    let table = cs.lookup_table_column();
    cs.lookup(String::from("in table"), Some(q), Expr::query(a, 0), Expr::query(table, 0)).unwrap();
    let mut t = Trace::new(&cs, 16);
    let tr = t.assign_region(String::from("table"), range as usize).unwrap();
    for i in 0..range {
        t.assign_fixed(&tr, table, i as usize, fe(i)).unwrap();
    }
    let r = t.assign_region(String::from("value"), 1).unwrap();
    t.enable_selector(&r, q, 0).unwrap();
    t.assign_advice(&r, a, 0, Some(fe(value))).unwrap();
    check(&cs, &t)
}

#[test]
fn lookup_containment() {
    for v in 0..8 {
        assert!(lookup_run(8, v).is_empty(), "value {}", v);
    }
    assert_eq!(lookup_run(8, 8), vec![Violation::LookupFailed { lookup: 0, row: 8 }]);
    assert_eq!(lookup_run(8, 1000), vec![Violation::LookupFailed { lookup: 0, row: 8 }]);
}

#[test]
fn instance_values_and_rows() {
    let mut cs = ConstraintSystem::new();
    let i = cs.instance_column();
    let a = cs.advice_column();
    let mut t = Trace::new(&cs, 2);
    assert!(matches!(t.set_instance(i, &vec![fe(1), fe(2), fe(3)]), Err(Error::RowOutOfRange)));
    assert!(matches!(t.set_instance(a, &vec![fe(1)]), Err(Error::WrongColumnKind)));
    t.set_instance(i, &vec![fe(1), fe(2)]).unwrap();
    assert!(known(t.read(i, 1)).equals(&fe(2)));
}
