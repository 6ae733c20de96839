use ccx::analysis::AnalysisType;
use ccx::inp::Deck;
use ccx::mesh::{Element, ElementType};
use ccx::model::ModelSummary;
use ccx::pipeline::{
    beam_section_card, check_model, has_supported_elements, initialized_results,
    section_shape_kind, solve_note, use_sparse_assembly, SectionShapeKind,
};

fn summary(node_rows: usize, element_rows: usize) -> ModelSummary {
    ModelSummary {
        total_cards: 2,
        total_data_lines: node_rows + element_rows,
        keyword_counts: vec![],
        include_files: vec![],
        material_defs: 0,
        node_rows,
        element_rows,
        has_step: false,
        has_static: false,
        has_dynamic: false,
        has_frequency: false,
        has_heat_transfer: false,
    }
}

#[test]
fn model_without_nodes_is_refused() {
    assert_eq!(check_model(&summary(0, 4)), Err("No nodes defined in model".to_string()));
    assert_eq!(check_model(&summary(0, 0)), Err("No nodes defined in model".to_string()));
}

#[test]
fn model_without_elements_is_refused() {
    assert_eq!(check_model(&summary(3, 0)), Err("No elements defined in model".to_string()));
}

#[test]
fn model_with_nodes_and_elements_passes() {
    assert_eq!(check_model(&summary(3, 1)), Ok(()));
}

#[test]
fn initialized_message_counts_free_dofs() {
    let r = initialized_results(AnalysisType::LinearStatic, 3, 2, 4, 1, " [no materials defined]");
    assert!(r.success);
    assert_eq!(r.num_dofs, 9);
    assert_eq!(r.num_equations, 5);
    assert_eq!(r.analysis_type, AnalysisType::LinearStatic);
    assert_eq!(
        r.message,
        "Model initialized: 3 nodes, 2 elements, 9 DOFs (5 free, 4 constrained), 1 loads [no materials defined]"
    );
}

#[test]
fn fully_constrained_model_has_no_equations() {
    let r = initialized_results(AnalysisType::Modal, 12, 1, 36, 0, "");
    assert_eq!(r.num_dofs, 36);
    assert_eq!(r.num_equations, 0);
    assert_eq!(r.message, "Model initialized: 12 nodes, 1 elements, 36 DOFs (0 free, 36 constrained), 0 loads");
}

#[test]
fn only_linear_static_runs_try_the_solver() {
    assert_eq!(solve_note(AnalysisType::Modal, true, true), Some(String::new()));
    assert_eq!(solve_note(AnalysisType::HeatTransfer, false, false), Some(String::new()));
    assert_eq!(
        solve_note(AnalysisType::LinearStatic, false, true),
        Some(" [no materials defined]".to_string())
    );
    assert_eq!(
        solve_note(AnalysisType::LinearStatic, true, false),
        Some(
            " [no supported elements found - solver supports: T3D2, T3D3, B31, B32, S4, S8, C3D8, C3D10, C3D20]"
                .to_string()
        )
    );
    assert_eq!(solve_note(AnalysisType::LinearStatic, true, true), None);
}

#[test]
fn supported_elements_are_found() {
    let plane = vec![Element::new(1, ElementType::C3D4, vec![1, 2, 3, 4])];
    assert!(!has_supported_elements(&plane));
    let mixed = vec![
        Element::new(1, ElementType::C3D4, vec![1, 2, 3, 4]),
        Element::new(2, ElementType::T3D3, vec![1, 2, 3]),
    ];
    assert!(has_supported_elements(&mixed));
    assert!(!has_supported_elements(&vec![]));
}

#[test]
fn sparse_assembly_above_a_hundred_nodes() {
    assert!(!use_sparse_assembly(false, 100));
    assert!(use_sparse_assembly(false, 101));
    assert!(use_sparse_assembly(true, 2));
}

#[test]
fn beam_section_card_reads_section_name() {
    let deck = Deck::parse_str(
        "*NODE\n1, 0, 0, 0\n*beam section, elset=EB, material=STEEL, section=circ\n0.25\n1., 0., 0.\n",
    )
    .expect("parse");
    assert_eq!(beam_section_card(&deck), Ok((1, "circ".to_string())));
}

#[test]
fn beam_section_defaults_to_rect_and_last_section_wins() {
    let plain = Deck::parse_str("*BEAM SECTION, ELSET=EB, MATERIAL=STEEL\n0.1, 0.2\n").expect("parse");
    assert_eq!(beam_section_card(&plain), Ok((0, "RECT".to_string())));
    let twice = Deck::parse_str(
        "*BEAM SECTION, SECTION=CIRC, SECTION=PIPE, SECTION\n0.1, 0.2\n*BEAM SECTION, SECTION=RECT\n1, 2\n",
    )
    .expect("parse");
    assert_eq!(beam_section_card(&twice), Ok((0, "PIPE".to_string())));
}

#[test]
fn beam_section_errors() {
    let none = Deck::parse_str("*NODE\n1, 0, 0, 0\n").expect("parse");
    assert_eq!(beam_section_card(&none), Err("No BEAM SECTION card found in deck".to_string()));
    let empty = Deck::parse_str("*BEAM SECTION, SECTION=RECT\n*BEAM SECTION\n1, 2\n").expect("parse");
    assert_eq!(beam_section_card(&empty), Err("BEAM SECTION card missing dimension data".to_string()));
}

#[test]
fn section_shapes_by_name() {
    assert_eq!(section_shape_kind("RECT"), Ok(SectionShapeKind::Rectangular));
    assert_eq!(section_shape_kind("rect"), Ok(SectionShapeKind::Rectangular));
    assert_eq!(section_shape_kind("Circ"), Ok(SectionShapeKind::Circular));
    assert_eq!(section_shape_kind("PIPE"), Err("Unsupported beam section type: PIPE".to_string()));
}
