use ccx::elements::{BeamExpansionConfig, C3D10, C3D20, C3D8};
use ccx::mesh::{Element, ElementType};

#[test]
fn test_beam_expansion_config_default() {
    let config = BeamExpansionConfig::default();
    assert_eq!(config.next_node_id, 1_000_000);
    assert_eq!(config.next_element_id, 1_000_000);
}

#[test]
fn test_c3d10_creation() {
    let elem = C3D10::new(1, [1, 2, 3, 4, 5, 6, 7, 8, 9, 10]);
    assert_eq!(elem.id, 1);
    assert_eq!(elem.nodes.len(), 10);
}

#[test]
fn solid10_test_element_properties() {
    let elem = C3D10::new(1, [1, 2, 3, 4, 5, 6, 7, 8, 9, 10]);
    assert_eq!(elem.num_nodes(), 10);
    assert_eq!(elem.dofs_per_node(), 3);
}

#[test]
fn test_c3d20_creation() {
    let nodes = [1, 2, 3, 4, 5, 6, 7, 8, 9, 10, 11, 12, 13, 14, 15, 16, 17, 18, 19, 20];
    let elem = C3D20::new(1, nodes);
    assert_eq!(elem.id, 1);
    assert_eq!(elem.nodes.len(), 20);
    assert_eq!(elem.num_nodes(), 20);
    assert_eq!(elem.dofs_per_node(), 3);
}

#[test]
fn c3d8_has_eight_nodes() {
    let elem = C3D8::new(7, [1, 2, 3, 4, 5, 6, 7, 8]);
    assert_eq!(elem.id, 7);
    assert_eq!(elem.num_nodes(), 8);
    assert_eq!(elem.dofs_per_node(), 3);
}

#[test]
fn element_type_num_nodes() {
    assert_eq!(ElementType::C3D8.num_nodes(), 8);
    assert_eq!(ElementType::C3D20.num_nodes(), 20);
    assert_eq!(ElementType::C3D4.num_nodes(), 4);
    assert_eq!(ElementType::B31.num_nodes(), 2);
}

#[test]
fn element_type_parsing() {
    assert_eq!(ElementType::from_calculix_type("C3D8"), Some(ElementType::C3D8));
    assert_eq!(ElementType::from_calculix_type("c3d8"), Some(ElementType::C3D8));
    assert_eq!(ElementType::from_calculix_type("C3D8R"), Some(ElementType::C3D8));
    assert_eq!(ElementType::from_calculix_type("INVALID"), None);
}

#[test]
fn element_validation() {
    let elem = Element::new(1, ElementType::C3D8, vec![1, 2, 3, 4, 5, 6, 7, 8]);
    assert!(elem.validate().is_ok());
    let bad = Element::new(2, ElementType::C3D8, vec![1, 2, 3]);
    assert_eq!(
        bad.validate().unwrap_err(),
        "Element 2 of type C3D8 has 3 nodes but expected 8"
    );
}

use std::collections::HashSet;

use ccx::mesh::{check_references, statistics_of};

#[test]
fn statistics_count_each_type_once() {
    let elements = vec![
        Element::new(1, ElementType::C3D8, vec![1, 2, 3, 4, 5, 6, 7, 8]),
        Element::new(2, ElementType::B31, vec![1, 2]),
        Element::new(3, ElementType::C3D8, vec![1, 2, 3, 4, 5, 6, 7, 8]),
    ];
    let stats = statistics_of(8, &elements, 24);
    assert_eq!(stats.num_nodes, 8);
    assert_eq!(stats.num_elements, 3);
    assert_eq!(stats.num_dofs, 24);
    assert_eq!(
        stats.element_type_counts,
        vec![(ElementType::C3D8, 2), (ElementType::B31, 1)]
    );
    assert_eq!(
        stats.format(),
        "Nodes: 8\nElements: 3\nDOFs: 24\nElement types:\n  B31: 1\n  C3D8: 2"
    );
}

#[test]
fn dangling_node_references_are_reported() {
    let ids: HashSet<i32> = [1, 2, 3].into_iter().collect();
    let ok = vec![Element::new(1, ElementType::T3D2, vec![1, 2])];
    assert!(check_references(&ok, &ids).is_ok());
    let bad = vec![
        Element::new(1, ElementType::T3D2, vec![1, 2]),
        Element::new(7, ElementType::T3D2, vec![3, 9]),
    ];
    assert_eq!(
        check_references(&bad, &ids).unwrap_err(),
        "Element 7 references non-existent node 9"
    );
}

use ccx::elements::global_dof_indices;

#[test]
fn global_dof_indices_simple() {
    assert_eq!(global_dof_indices(&[1, 2], 3), vec![0, 1, 2, 3, 4, 5]);
    assert_eq!(global_dof_indices(&[1, 3], 3), vec![0, 1, 2, 6, 7, 8]);
    assert_eq!(global_dof_indices(&[2], 6), vec![6, 7, 8, 9, 10, 11]);
    assert!(global_dof_indices(&[], 3).is_empty());
}

#[test]
fn type_names_read_back() {
    let types = [
        ElementType::T3D2,
        ElementType::T3D3,
        ElementType::C3D8,
        ElementType::C3D20,
        ElementType::C3D4,
        ElementType::C3D10,
        ElementType::C3D6,
        ElementType::C3D15,
        ElementType::S4,
        ElementType::S8,
        ElementType::S3,
        ElementType::S6,
        ElementType::B31,
        ElementType::B32,
        ElementType::M3D4,
        ElementType::M3D8,
        ElementType::M3D3,
        ElementType::M3D6,
    ];
    for t in types {
        assert_eq!(ElementType::from_calculix_type(t.name()), Some(t));
        assert_eq!(ElementType::from_calculix_type(&t.name().to_lowercase()), Some(t));
    }
}
