use ccx::compat::{CallingConvention, CompatError};
use ccx::registry::RoutineTable;

#[test]
fn registers_and_calls_c_routine() {
    let mut table = RoutineTable::new();
    let handle = table.register("compare", CallingConvention::C, 2);
    assert_eq!(handle.symbol, "compare");
    assert_eq!(table.check_call("compare", 2).expect("call should succeed"), "compare");
}

#[test]
fn resolves_fortran_symbol_from_base_name() {
    let mut table = RoutineTable::new();
    let handle = table.register("NIDENT2", CallingConvention::Fortran, 1);
    assert_eq!(handle.symbol, "nident2_");
    assert_eq!(table.check_call("nident2", 1).expect("fortran symbol should resolve"), "nident2_");
}

#[test]
fn validates_argument_count() {
    let mut table = RoutineTable::new();
    table.register("stoi", CallingConvention::C, 3);
    let err = table.check_call("stoi", 2).expect_err("invalid arg count should fail");
    assert_eq!(
        err,
        CompatError::InvalidArgumentCount { symbol: "stoi".to_string(), expected: 3, got: 2 }
    );
    assert_eq!(err.to_string(), "invalid argument count for stoi: expected 3, got 2");
}

#[test]
fn returns_not_registered_error() {
    let table = RoutineTable::new();
    let err = table.check_call("missing_symbol", 0).expect_err("missing routine should fail");
    assert_eq!(
        err,
        CompatError::RoutineNotRegistered { symbol: "missing_symbol".to_string() }
    );
}

#[test]
fn exposes_registered_specs() {
    let mut table = RoutineTable::new();
    table.register("calc", CallingConvention::Fortran, 2);
    let spec = table.spec("calc_").expect("spec should exist");
    assert_eq!(spec.symbol, "calc_");
    assert_eq!(spec.expected_args, 2);
    assert_eq!(spec.convention, CallingConvention::Fortran);
    assert!(table.spec("calc").is_none());
}

#[test]
fn later_registration_replaces_earlier() {
    let mut table = RoutineTable::new();
    table.register("f", CallingConvention::C, 1);
    table.register(" f ", CallingConvention::C, 4);
    assert_eq!(table.spec("f").expect("registered").expected_args, 4);
    assert_eq!(table.resolve_symbol("f"), Some("f".to_string()));
    assert_eq!(table.resolve_symbol("F"), None);
}
