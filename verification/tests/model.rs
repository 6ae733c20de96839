use ccx::analysis::{classify_analysis, detect_analysis_type, has_b32r_elements, AnalysisType};
use ccx::inp;
use ccx::inp_basic::Deck;
use ccx::model::ModelSummary;

#[test]
fn summarizes_common_analysis_cards() {
    let src = r#"
*INCLUDE, INPUT=mesh.msh
*NODE
1,0,0,0
*ELEMENT
1,1,2,3,4
*MATERIAL, NAME=STEEL
*STEP
*STATIC
1.,1.
*END STEP
"#;
    let deck = Deck::parse_str(src).expect("parse should succeed");
    let s = ModelSummary::from_deck(&deck);
    assert_eq!(s.total_cards, 7);
    assert_eq!(s.node_rows, 1);
    assert_eq!(s.element_rows, 1);
    assert_eq!(s.material_defs, 1);
    assert!(s.has_step);
    assert!(s.has_static);
    assert_eq!(s.include_files, vec!["mesh.msh".to_string()]);
}

#[test]
fn keyword_counts_are_sorted_and_counted() {
    let src = "*NODE\n1,0,0,0\n*STEP\n*NODE\n2,0,0,0\n*Heat_Transfer\n*END STEP\n";
    let deck = Deck::parse_str(src).expect("parse should succeed");
    let s = ModelSummary::from_deck(&deck);
    assert_eq!(
        s.keyword_counts,
        vec![
            ("END STEP".to_string(), 1),
            ("HEAT_TRANSFER".to_string(), 1),
            ("NODE".to_string(), 2),
            ("STEP".to_string(), 1),
        ]
    );
    assert_eq!(s.total_data_lines, 2);
    assert!(s.has_heat_transfer);
    assert!(!s.has_frequency);
}

fn deck_with_keywords(extra_cards: &str) -> inp::Deck {
    let deck_src = format!(
        r#"
*NODE
1,0,0,0
2,1,0,0
3,1,1,0
4,0,1,0
5,0,0,1
6,1,0,1
7,1,1,1
8,0,1,1
*ELEMENT,TYPE=C3D8
1,1,2,3,4,5,6,7,8
*MATERIAL,NAME=STEEL
*STEP
{extra_cards}
*END STEP
"#
    );
    inp::Deck::parse_str(&deck_src).expect("deck should parse")
}

#[test]
fn detects_static_analysis() {
    assert_eq!(detect_analysis_type(&deck_with_keywords("*STATIC")), AnalysisType::LinearStatic);
}

#[test]
fn detects_frequency_analysis() {
    assert_eq!(detect_analysis_type(&deck_with_keywords("*FREQUENCY")), AnalysisType::Modal);
}

#[test]
fn detects_buckling_analysis() {
    assert_eq!(detect_analysis_type(&deck_with_keywords("*BUCKLE")), AnalysisType::Buckling);
}

#[test]
fn detects_complex_frequency_analysis() {
    assert_eq!(
        detect_analysis_type(&deck_with_keywords("*COMPLEX FREQUENCY")),
        AnalysisType::ComplexFrequency
    );
}

#[test]
fn detects_steady_state_dynamics_analysis() {
    assert_eq!(
        detect_analysis_type(&deck_with_keywords("*STEADY STATE DYNAMICS")),
        AnalysisType::SteadyStateDynamics
    );
}

#[test]
fn detects_modal_dynamic_analysis() {
    assert_eq!(
        detect_analysis_type(&deck_with_keywords("*MODAL DYNAMIC")),
        AnalysisType::ModalDynamic
    );
}

#[test]
fn detects_uncoupled_thermo_mechanical_analysis() {
    assert_eq!(
        detect_analysis_type(&deck_with_keywords("*UNCOUPLED TEMPERATURE-DISPLACEMENT")),
        AnalysisType::UncoupledThermoMechanical
    );
}

#[test]
fn detects_coupled_thermo_mechanical_analysis() {
    assert_eq!(
        detect_analysis_type(&deck_with_keywords("*HEAT TRANSFER\n*STATIC")),
        AnalysisType::CoupledThermoMechanical
    );
}

#[test]
fn frequency_takes_precedence_over_dynamic() {
    assert_eq!(
        detect_analysis_type(&deck_with_keywords("*FREQUENCY\n*DYNAMIC")),
        AnalysisType::Modal
    );
}

#[test]
fn detects_remaining_analysis_kinds() {
    assert_eq!(detect_analysis_type(&deck_with_keywords("*GREEN")), AnalysisType::Green);
    assert_eq!(detect_analysis_type(&deck_with_keywords("*SENSITIVITY")), AnalysisType::Sensitivity);
    assert_eq!(detect_analysis_type(&deck_with_keywords("*VISCO")), AnalysisType::Visco);
    assert_eq!(
        detect_analysis_type(&deck_with_keywords("*ELECTROMAGNETICS")),
        AnalysisType::Electromagnetic
    );
    assert_eq!(detect_analysis_type(&deck_with_keywords("*CFD")), AnalysisType::CFD);
    assert_eq!(detect_analysis_type(&deck_with_keywords("*DYNAMIC")), AnalysisType::Dynamic);
    assert_eq!(detect_analysis_type(&deck_with_keywords("*HEAT TRANSFER")), AnalysisType::HeatTransfer);
    assert_eq!(detect_analysis_type(&deck_with_keywords("")), AnalysisType::LinearStatic);
}

#[test]
fn classification_from_upper_cased_keywords() {
    let uppers = vec!["NODE".to_string(), "BUCKLE".to_string()];
    assert_eq!(classify_analysis(&uppers, true, true, true, true), AnalysisType::Buckling);
    let uppers = vec!["STEP".to_string()];
    assert_eq!(classify_analysis(&uppers, false, false, true, true), AnalysisType::CoupledThermoMechanical);
    assert_eq!(classify_analysis(&uppers, false, false, false, false), AnalysisType::LinearStatic);
    let lower = vec!["buckle".to_string()];
    assert_eq!(classify_analysis(&lower, false, false, false, false), AnalysisType::LinearStatic);
}

#[test]
fn finds_b32r_beam_elements() {
    let deck = inp::Deck::parse_str("*ELEMENT, TYPE=b32r\n1,1,2,3\n").expect("deck should parse");
    assert!(has_b32r_elements(&deck));
    let deck = inp::Deck::parse_str("*ELEMENT, TYPE=C3D8\n1,1,2,3,4,5,6,7,8\n").expect("deck should parse");
    assert!(!has_b32r_elements(&deck));
}

#[test]
fn keyword_counts_add_up_to_cards() {
    let src = "*NODE\n1,0,0,0\n*step\n*NODE\n*Frequency\n*END STEP\n";
    let deck = Deck::parse_str(src).expect("parse");
    let s = ModelSummary::from_deck(&deck);
    let sum: usize = s.keyword_counts.iter().map(|(_, n)| *n).sum();
    assert_eq!(sum, s.total_cards);
    assert!(deck.cards.iter().all(|c| !c.keyword.is_empty() && !c.keyword.chars().any(|ch| ch.is_ascii_lowercase())));
    let extended = inp::Deck::parse_str(src).expect("parse");
    assert!(s.has_frequency);
    assert_eq!(detect_analysis_type(&extended), AnalysisType::Modal);
}
