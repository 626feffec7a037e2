use fibonacci::checker::{check, Violation};
use fibonacci::error::Error;
use fibonacci::field::Fe;
use fibonacci::layout::Trace;
use fibonacci::system::ConstraintSystem;
use fibonacci::{fib1, fib2, fib3, range_check, use_is_zero, use_is_zero2};

fn fe(n: u64) -> Fe {
    Fe::from_u64(n)
}

fn fib1_violations(a: Option<Fe>, b: Option<Fe>, n: usize, public: Vec<Fe>) -> Result<Vec<Violation>, Error> {
    fib1::FiboCircuit { a, b }.verify(n, &public)
}

#[test]
fn fib1_ten_steps_from_zero_one_is_89() {
    let v = fib1_violations(Some(fe(0)), Some(fe(1)), 16, vec![fe(89)]).unwrap();
    assert!(v.is_empty(), "{:?}", v);
}

#[test]
fn fib1_wrong_public_output_is_caught() {
    for wrong in [0u64, 1, 55, 88, 90, 144] {
        let v = fib1_violations(Some(fe(0)), Some(fe(1)), 16, vec![fe(wrong)]).unwrap();
        assert_eq!(v, vec![Violation::CopyFailed { copy: 18 }]);
    }
}

#[test]
fn fib1_missing_public_output_is_caught() {
    let v = fib1_violations(Some(fe(0)), Some(fe(1)), 16, vec![]).unwrap();
    assert_eq!(v.len(), 1);
}

#[test]
fn fib1_other_seeds() {
    // 2, 3, 5, 8, 13, 21, 34, 55, 89, 144, 233, 377
    let v = fib1_violations(Some(fe(2)), Some(fe(3)), 16, vec![fe(377)]).unwrap();
    assert!(v.is_empty(), "{:?}", v);
}

#[test]
fn fib1_shape_pass_without_witnesses() {
    let mut cs = ConstraintSystem::new();
    let config = fib1::FiboCircuit::configure(&mut cs);
    let mut t = Trace::new(&cs, 16);
    let circuit = fib1::FiboCircuit { a: Some(fe(0)), b: Some(fe(1)) }.without_witnesses();
    circuit.synthesize(config, &mut t).unwrap();
    assert!(matches!(t.read(config.col_c, 0), fibonacci::layout::Slot::Unknown));
    assert_eq!(t.next_row, 10);
    assert_eq!(t.copies.len(), 19);
}

#[test]
fn fib3_and_foo_shape_pass_without_witnesses() {
    let mut cs = ConstraintSystem::new();
    let config = fib3::FiboCircuit::configure(&mut cs);
    let mut t = Trace::new(&cs, 16);
    fib3::FiboCircuit { a: None, b: Some(fe(1)) }.synthesize(config, &mut t).unwrap();
    assert!(matches!(t.read(config.col, 1), fibonacci::layout::Slot::Known(_)));
    assert!(matches!(t.read(config.col, 5), fibonacci::layout::Slot::Unknown));

    let mut cs = ConstraintSystem::new();
    let config = use_is_zero2::FooCircuit::configure(&mut cs);
    let mut t = Trace::new(&cs, 16);
    use_is_zero2::FooCircuit { a: None, b: None, c: None }.synthesize(config, &mut t).unwrap();

    let mut cs = ConstraintSystem::new();
    let config = use_is_zero::FooCircuit::configure(&mut cs);
    let mut t = Trace::new(&cs, 16);
    use_is_zero::FooCircuit { a: None, b: None, c: None }.synthesize(config, &mut t).unwrap();

    let circuit = range_check::example2::RangeCheckCircuit { value: None, range: 8 };
    let mut cs = ConstraintSystem::new();
    let config = circuit.configure(&mut cs);
    let mut t = Trace::new(&cs, 16);
    circuit.synthesize(config, &mut t).unwrap();
}

#[test]
fn fib1_unknown_seed_is_a_missing_witness() {
    assert!(matches!(fib1_violations(None, Some(fe(1)), 16, vec![fe(89)]), Err(Error::MissingWitness)));
    assert!(matches!(fib1_violations(Some(fe(0)), None, 16, vec![fe(89)]), Err(Error::MissingWitness)));
}

#[test]
fn fib1_too_few_rows() {
    assert!(matches!(fib1_violations(Some(fe(0)), Some(fe(1)), 9, vec![fe(89)]), Err(Error::NotEnoughRows)));
}

#[test]
fn fib1_configures_without_witnesses() {
    let circuit = fib1::FiboCircuit { a: Some(fe(0)), b: Some(fe(1)) }.without_witnesses();
    assert!(circuit.a.is_none() && circuit.b.is_none());
    let mut cs = ConstraintSystem::new();
    let config = fib1::FiboCircuit::configure(&mut cs);
    assert_eq!(cs.num_advice, 3);
    assert_eq!(cs.num_instance, 1);
    assert_eq!(cs.gates.len(), 1);
    assert_eq!(cs.equality.len(), 4);
    assert_ne!(config.col_a, config.col_b);
}

#[test]
fn fib1_unknown_values_propagate() {
    let mut cs = ConstraintSystem::new();
    let config = fib1::FiboCircuit::configure(&mut cs);
    let mut t = Trace::new(&cs, 16);
    let chip = fib1::FiboChip::new(config);
    let (b, c) = chip.assign_init(&mut t, Some(fe(0)), Some(fe(1))).unwrap();
    let unknown = fibonacci::layout::AssignedCell { cell: b.cell, value: None };
    let next = chip.assign(&mut t, &unknown, &c).unwrap();
    assert!(next.value.is_none());
    let next2 = chip.assign(&mut t, &b, &c).unwrap();
    assert!(next2.value.unwrap().equals(&fe(2)));
}

/// A trace built by the chain, with every cell changed by `f`, is rejected
/// at the constraint set of the row whose sum no longer holds.
#[test]
fn fib1_wrong_intermediate_sum_is_caught() {
    let mut cs = ConstraintSystem::new();
    let config = fib1::FiboCircuit::configure(&mut cs);
    let mut t = Trace::new(&cs, 16);
    t.set_instance(config.instance, &vec![fe(89)]).unwrap();
    fib1::FiboCircuit { a: Some(fe(0)), b: Some(fe(1)) }.synthesize(config, &mut t).unwrap();
    assert!(check(&cs, &t).is_empty());
    // Row 4 holds 3 | 5 | 8; make its sum 9.
    t.advice[config.col_c.index][4] = fibonacci::layout::Slot::Known(fe(9));
    let v = check(&cs, &t);
    assert!(v.contains(&Violation::ConstraintNotSatisfied { gate: 0, constraint: 0, row: 4 }));
}

fn fib2_run(a: Option<Fe>, b: Option<Fe>, n: usize, public: u64) -> Result<Vec<Violation>, Error> {
    let mut cs = ConstraintSystem::new();
    let config = fib2::FiboCircuit::configure(&mut cs);
    let mut t = Trace::new(&cs, n);
    t.set_instance(config.instance, &vec![fe(public)])?;
    fib2::FiboCircuit { a, b }.synthesize(config, &mut t)?;
    Ok(check(&cs, &t))
}

#[test]
fn fib2_ten_steps_from_zero_one_is_89() {
    let v = fib2_run(Some(fe(0)), Some(fe(1)), 64, 89).unwrap();
    assert!(v.is_empty(), "{:?}", v);
}

#[test]
fn fib2_wrong_public_output_is_caught() {
    let v = fib2_run(Some(fe(0)), Some(fe(1)), 64, 34).unwrap();
    assert_eq!(v, vec![Violation::CopyFailed { copy: 18 }]);
}

#[test]
fn fib2_needs_thirty_rows() {
    assert!(matches!(fib2_run(Some(fe(0)), Some(fe(1)), 29, 89), Err(Error::NotEnoughRows)));
    assert!(fib2_run(Some(fe(0)), Some(fe(1)), 30, 89).unwrap().is_empty());
}

#[test]
fn fib2_unknown_seeds_give_unknown_cells() {
    let mut cs = ConstraintSystem::new();
    let config = fib2::FiboCircuit::configure(&mut cs);
    let mut t = Trace::new(&cs, 64);
    let circuit = fib2::FiboCircuit { a: Some(fe(0)), b: Some(fe(1)) }.without_witnesses();
    circuit.synthesize(config, &mut t).unwrap();
    assert!(matches!(t.read(config.col, 2), fibonacci::layout::Slot::Unknown));
    assert_eq!(t.next_row, 30);
}

fn fib3_run(a: u64, b: u64, n: usize, public: u64) -> Vec<Violation> {
    let mut cs = ConstraintSystem::new();
    let config = fib3::FiboCircuit::configure(&mut cs);
    let mut t = Trace::new(&cs, n);
    t.set_instance(config.instance, &vec![fe(public)]).unwrap();
    fib3::FiboCircuit { a: Some(fe(a)), b: Some(fe(b)) }.synthesize(config, &mut t).unwrap();
    check(&cs, &t)
}

#[test]
fn fib3_ten_rows_from_zero_one_is_34() {
    let v = fib3_run(0, 1, 16, 34);
    assert!(v.is_empty(), "{:?}", v);
}

#[test]
fn fib3_wrong_public_output_is_caught() {
    assert_eq!(fib3_run(0, 1, 16, 35), vec![Violation::CopyFailed { copy: 0 }]);
}

#[test]
fn fib3_short_table_uses_three_rows() {
    let mut cs = ConstraintSystem::new();
    let config = fib3::FiboCircuit::configure(&mut cs);
    let mut t = Trace::new(&cs, 4);
    let chip = fib3::FiboChip::new(config);
    let out = chip.assign(&mut t, Some(fe(4)), Some(fe(5)), 1).unwrap();
    assert_eq!(out.cell.row, 2);
    assert!(out.value.unwrap().equals(&fe(9)));
    assert_eq!(t.next_row, 3);
}

fn range1_run(range: usize, value: Fe) -> Vec<Violation> {
    let circuit = range_check::example1::RangeCheckCircuit { value: Some(value), range };
    let mut cs = ConstraintSystem::new();
    let config = circuit.configure(&mut cs);
    let mut t = Trace::new(&cs, 16);
    circuit.synthesize(config, &mut t).unwrap();
    check(&cs, &t)
}

#[test]
fn range_gate_accepts_values_below_range() {
    for v in 0..8u64 {
        assert!(range1_run(8, fe(v)).is_empty(), "value {}", v);
    }
}

#[test]
fn range_gate_rejects_range_and_minus_one() {
    let bad = vec![Violation::ConstraintNotSatisfied { gate: 0, constraint: 0, row: 0 }];
    assert_eq!(range1_run(8, fe(8)), bad);
    assert_eq!(range1_run(8, fe(100)), bad);
    let minus_one = Fe::zero().sub(&Fe::one());
    assert_eq!(range1_run(8, minus_one), bad);
}

#[test]
fn range_gate_value_formula() {
    // 10 * 9 * 8 = 720 for range 3.
    let r = range_check::example1::range_check_value(&fe(10), 3);
    assert!(r.equals(&fe(720)));
    assert!(range_check::example1::range_check_value(&fe(2), 3).is_zero());
    assert!(!range_check::example1::range_check_value(&fe(3), 3).is_zero());
    let minus_one = Fe::zero().sub(&Fe::one());
    assert!(!range_check::example1::range_check_value(&minus_one, 8).is_zero());
    assert!(range_check::example1::range_check_value(&fe(0), 1).is_zero());
}

#[test]
fn range_check_unknown_value_is_kept_unknown() {
    let circuit = range_check::example1::RangeCheckCircuit { value: Some(fe(3)), range: 8 }.without_witnesses();
    let mut cs = ConstraintSystem::new();
    let config = circuit.configure(&mut cs);
    let mut t = Trace::new(&cs, 16);
    circuit.synthesize(config, &mut t).unwrap();
    assert!(matches!(t.read(config.value, 0), fibonacci::layout::Slot::Unknown));
    assert_eq!(check(&cs, &t), vec![Violation::CellNotAssigned { gate: 0, constraint: 0, row: 0 }]);
}

fn range2_run(range: usize, value: u64, n: usize) -> Vec<Violation> {
    let circuit = range_check::example2::RangeCheckCircuit { value: Some(fe(value)), range };
    let mut cs = ConstraintSystem::new();
    let config = circuit.configure(&mut cs);
    let mut t = Trace::new(&cs, n);
    circuit.synthesize(config, &mut t).unwrap();
    check(&cs, &t)
}

#[test]
fn range_lookup_large_range() {
    assert!(range2_run(1024, 1023, 1 << 14).is_empty());
    assert!(range2_run(1024, 0, 2048).is_empty());
    assert_eq!(range2_run(1024, 1024, 2048), vec![Violation::LookupFailed { lookup: 0, row: 1024 }]);
    assert_eq!(range2_run(1024, 5000, 2048), vec![Violation::LookupFailed { lookup: 0, row: 1024 }]);
}

#[test]
fn range_lookup_small_range_uses_gate() {
    assert!(range2_run(8, 7, 16).is_empty());
    assert!(range2_run(8, 0, 16).is_empty());
    assert_eq!(range2_run(8, 8, 16), vec![Violation::ConstraintNotSatisfied { gate: 0, constraint: 0, row: 8 }]);
    assert_eq!(range2_run(8, 9, 16), vec![Violation::ConstraintNotSatisfied { gate: 0, constraint: 0, row: 8 }]);
}

#[test]
fn range_table_loads_values() {
    let mut cs = ConstraintSystem::new();
    let table = range_check::table::RangeCheckTable::new(&mut cs, 5);
    assert_eq!(table.table_column(), table.col);
    let mut t = Trace::new(&cs, 8);
    table.load(&mut t).unwrap();
    for i in 0..5 {
        match t.read(table.col, i) {
            fibonacci::layout::Slot::Known(f) => assert!(f.equals(&fe(i as u64))),
            _ => panic!("row {} not loaded", i),
        }
    }
    assert!(matches!(table.load(&mut t), Err(Error::NotEnoughRows)));
}

fn foo1_run(a: u64, b: u64, c: u64) -> Vec<Violation> {
    let circuit = use_is_zero::FooCircuit { a: Some(fe(a)), b: Some(fe(b)), c: Some(fe(c)) };
    let mut cs = ConstraintSystem::new();
    let config = use_is_zero::FooCircuit::configure(&mut cs);
    let mut t = Trace::new(&cs, 16);
    circuit.synthesize(config, &mut t).unwrap();
    check(&cs, &t)
}

#[test]
fn use_is_zero_equal_inputs() {
    assert!(foo1_run(11, 11, 22).is_empty());
}

#[test]
fn use_is_zero_distinct_inputs() {
    assert!(foo1_run(11, 5, 22).is_empty());
    assert!(foo1_run(5, 11, 0).is_empty());
}

#[test]
fn use_is_zero_wrong_output_is_caught() {
    let circuit = use_is_zero::FooCircuit { a: Some(fe(11)), b: Some(fe(5)), c: Some(fe(22)) };
    let mut cs = ConstraintSystem::new();
    let config = use_is_zero::FooCircuit::configure(&mut cs);
    let output = config.output;
    let mut t = Trace::new(&cs, 16);
    circuit.synthesize(config, &mut t).unwrap();
    t.advice[output.index][0] = fibonacci::layout::Slot::Known(fe(22));
    let v = check(&cs, &t);
    assert_eq!(v, vec![Violation::ConstraintNotSatisfied { gate: 1, constraint: 1, row: 0 }]);
}

fn foo2_run(a: u64, b: u64, c: u64, public: u64) -> Vec<Violation> {
    let circuit = use_is_zero2::FooCircuit { a: Some(fe(a)), b: Some(fe(b)), c: Some(fe(c)) };
    let mut cs = ConstraintSystem::new();
    let config = use_is_zero2::FooCircuit::configure(&mut cs);
    let mut t = Trace::new(&cs, 16);
    t.set_instance(config.instance, &vec![fe(public)]).unwrap();
    circuit.synthesize(config, &mut t).unwrap();
    check(&cs, &t)
}

#[test]
fn use_is_zero2_equal_inputs() {
    assert!(foo2_run(11, 11, 222, 222).is_empty());
}

#[test]
fn use_is_zero2_distinct_inputs() {
    assert!(foo2_run(20, 11, 222, 9).is_empty());
}

#[test]
fn use_is_zero2_wrong_public_is_caught() {
    let v = foo2_run(11, 11, 222, 221);
    assert!(v.contains(&Violation::CopyFailed { copy: 0 }));
    assert!(v.contains(&Violation::ConstraintNotSatisfied { gate: 1, constraint: 0, row: 0 }));
}
