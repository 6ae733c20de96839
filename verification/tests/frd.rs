use std::collections::HashMap;

use ccx::results::{FrdHeader, ResultLocation, VtkFormat};

#[test]
fn test_node_parsing() {
    let mut nodes = HashMap::new();
    nodes.insert(1, [0.0, 0.0, 0.0]);
    nodes.insert(2, [1.0, 0.0, 0.0]);

    assert_eq!(nodes.len(), 2);
    assert_eq!(nodes.get(&1), Some(&[0.0, 0.0, 0.0]));
    assert_eq!(nodes.get(&2), Some(&[1.0, 0.0, 0.0]));
}

#[test]
fn default_header_is_empty() {
    let h = FrdHeader::default();
    assert!(h.version.is_empty());
    assert!(h.job_name.is_empty());
    assert!(h.info.is_empty());
    assert_ne!(ResultLocation::Nodal, ResultLocation::Element);
    assert_ne!(VtkFormat::Ascii, VtkFormat::Binary);
}

use ccx::results::{frd_to_vtk_cell_type, FrdElement, VtkCellType};

#[test]
fn test_frd_to_vtk_cell_type() {
    let elem = FrdElement { id: 1, element_type: 1, nodes: vec![1, 2, 3, 4, 5, 6, 7, 8] };
    let vtk_type = frd_to_vtk_cell_type(&elem);
    assert_eq!(vtk_type.code(), VtkCellType::Hexahedron.code());

    let elem = FrdElement { id: 2, element_type: 3, nodes: vec![1, 2, 3, 4] };
    let vtk_type = frd_to_vtk_cell_type(&elem);
    assert_eq!(vtk_type.code(), VtkCellType::Tetra.code());
}

#[test]
fn unknown_frd_codes_fall_back_on_node_count() {
    let elem = FrdElement { id: 3, element_type: 99, nodes: vec![1, 2, 3, 4, 5, 6] };
    assert_eq!(frd_to_vtk_cell_type(&elem), VtkCellType::Wedge);
    let elem = FrdElement { id: 4, element_type: 0, nodes: vec![1, 2, 3, 4, 5] };
    assert_eq!(frd_to_vtk_cell_type(&elem), VtkCellType::Vertex);
    assert_eq!(VtkCellType::QuadraticHexahedron.code(), 25);
}

use ccx::results::vtk_cells;

#[test]
fn vtk_cells_sorts_elements_and_indexes_points() {
    let elements = vec![
        FrdElement { id: 9, element_type: 7, nodes: vec![30, 10] },
        FrdElement { id: 2, element_type: 3, nodes: vec![10, 20, 30, 40] },
    ];
    let order = vec![10, 20, 30];
    assert_eq!(
        vtk_cells(&elements, &order),
        "CELLS 2 8\n4 0 1 2\n2 2 0\nCELL_TYPES 2\n10\n3\n"
    );
}
