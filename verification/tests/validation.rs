use ccx::inp::Deck;
use ccx::model::ModelSummary;
use ccx::validation::{
    check_solved, has_validated_elements, reference_test, validation_gate, TestStatus, ValidationReport,
};

fn summary(has_static: bool, has_dynamic: bool, node_rows: usize, element_rows: usize) -> ModelSummary {
    ModelSummary {
        total_cards: 3,
        total_data_lines: node_rows + element_rows,
        keyword_counts: vec![],
        include_files: vec![],
        material_defs: 1,
        node_rows,
        element_rows,
        has_step: true,
        has_static,
        has_dynamic,
        has_frequency: false,
        has_heat_transfer: false,
    }
}

fn truss_deck() -> Deck {
    Deck::parse_str("*NODE\n1, 0, 0, 0\n2, 1, 0, 0\n*element, type=t3d2, elset=EALL\n1, 1, 2\n").expect("parse")
}

#[test]
fn reference_files_name_tests() {
    assert_eq!(reference_test("beam.dat.ref"), Some("beam".to_string()));
    assert_eq!(reference_test("beam.dat.dat.ref"), Some("beam".to_string()));
    assert_eq!(reference_test(".dat.ref"), Some(String::new()));
    assert_eq!(reference_test("beam.ref"), None);
    assert_eq!(reference_test("beam.dat"), None);
    assert_eq!(reference_test("beam.frd.ref"), None);
}

#[test]
fn validated_element_types_are_found() {
    assert!(has_validated_elements(&truss_deck()));
    let solid = Deck::parse_str("*ELEMENT, TYPE=C3D20\n1, 1, 2, 3, 4, 5, 6, 7, 8, 9, 10, 11, 12, 13, 14, 15, 16, 17, 18, 19, 20\n")
        .expect("parse");
    assert!(!has_validated_elements(&solid));
}

#[test]
fn validation_gate_reasons() {
    let deck = truss_deck();
    assert_eq!(validation_gate(&summary(false, false, 2, 1), &deck), Err("Not a static analysis".to_string()));
    assert_eq!(validation_gate(&summary(true, true, 2, 1), &deck), Err("Complex analysis type".to_string()));
    assert_eq!(validation_gate(&summary(true, false, 1, 1), &deck), Err("Insufficient geometry".to_string()));
    assert_eq!(validation_gate(&summary(true, false, 2, 0), &deck), Err("Insufficient geometry".to_string()));
    let solid = Deck::parse_str("*ELEMENT, TYPE=C3D20\n1, 1, 2\n").expect("parse");
    assert_eq!(
        validation_gate(&summary(true, false, 2, 1), &solid),
        Err("No supported elements (T3D2, B31, S4, or C3D8)".to_string())
    );
    assert_eq!(validation_gate(&summary(true, false, 2, 1), &deck), Ok(()));
}

#[test]
fn run_messages_are_judged() {
    assert_eq!(check_solved("Model initialized: 2 nodes [SOLVED]"), Ok(()));
    assert_eq!(check_solved("x [SOLVE FAILED: singular]"), Err("Solve failed".to_string()));
    assert_eq!(check_solved("x [ASSEMBLY FAILED: no material]"), Err("Assembly failed".to_string()));
    assert_eq!(check_solved("Model initialized: 2 nodes"), Err("Solver did not run".to_string()));
}

#[test]
fn report_tallies_outcomes() {
    let mut report = ValidationReport::new(4);
    report.record("a".to_string(), Ok(true));
    report.record("b".to_string(), Ok(false));
    report.record("c".to_string(), Err("Insufficient geometry".to_string()));
    report.record_missing_input("d".to_string());
    assert_eq!(report.total_tests, 4);
    assert_eq!(report.passed_tests, 1);
    assert_eq!(report.failed_tests, 1);
    assert_eq!(report.skipped_tests, 2);
    assert_eq!(report.passed_tests + report.failed_tests + report.skipped_tests, report.test_results.len());
    assert_eq!(report.test_results[1].status, TestStatus::Failed);
    assert_eq!(report.test_results[1].error_message, Some("Output mismatch".to_string()));
    assert_eq!(report.test_results[3].error_message, Some("No corresponding .inp file found".to_string()));
    assert_eq!(report.test_results[0].error_message, None);
}
