use ccx::converters::{BdfToInpConverter, IoError};

#[test]
fn test_element_type_mapping() {
    let converter = BdfToInpConverter::new();

    assert_eq!(converter.map_element_type("CROD").unwrap(), "T3D2");
    assert_eq!(converter.map_element_type("CBAR").unwrap(), "B31");
    assert_eq!(converter.map_element_type("CQUAD4").unwrap(), "S4");
    assert_eq!(converter.map_element_type("CHEXA").unwrap(), "C3D8");

    assert!(converter.map_element_type("UNKNOWN").is_err());
}

#[test]
fn unsupported_element_error_text() {
    let converter = BdfToInpConverter::default();
    match converter.map_element_type("CBUSH") {
        Err(e) => {
            assert_eq!(e, IoError::UnsupportedElement("Nastran element type 'CBUSH' not supported".to_string()));
            assert_eq!(
                e.to_string(),
                "Unsupported element type: Nastran element type 'CBUSH' not supported"
            );
        }
        Ok(_) => panic!("CBUSH is not supported"),
    }
    assert_eq!(converter.map_element_type("CPENTA6").unwrap(), "C3D6");
    assert_eq!(converter.map_element_type("CTETRA").unwrap(), "C3D4");
    assert_eq!(converter.map_element_type("CTRIA3").unwrap(), "S3");
}

#[test]
fn new_converter_has_converted_nothing() {
    let stats = BdfToInpConverter::new().stats();
    assert_eq!(stats.num_nodes_converted, 0);
    assert_eq!(stats.num_elements_converted, 0);
}

use ccx::converters::{BdfData, BdfElement, BdfMaterial, BdfNode};

fn node(id: i32, x: f64, y: f64, z: f64) -> BdfNode {
    BdfNode {
        id,
        x: format!("{:.6e}", x),
        y: format!("{:.6e}", y),
        z: format!("{:.6e}", z),
    }
}

#[test]
fn test_simple_conversion() {
    let mut converter = BdfToInpConverter::new();
    let bdf_data = BdfData {
        nodes: vec![node(2, 1.0, 0.0, 0.0), node(1, 0.0, 0.0, 0.0)],
        elements: vec![BdfElement { id: 1, elem_type: "CROD".to_string(), nodes: vec![1, 2], property_id: 1 }],
        materials: Vec::new(),
    };

    let inp = converter.convert(&bdf_data).unwrap();

    assert!(inp.contains("*NODE"));
    assert!(inp.contains("*ELEMENT, TYPE=T3D2"));
    assert!(inp.contains("1, 0.000000e0, 0.000000e0, 0.000000e0"));

    let stats = converter.stats();
    assert_eq!(stats.num_nodes_converted, 2);
    assert_eq!(stats.num_elements_converted, 1);
}

#[test]
fn conversion_text_is_complete() {
    let mut converter = BdfToInpConverter::new();
    let bdf_data = BdfData {
        nodes: vec![node(3, 0.0, 0.0, 1.5), node(1, 0.0, 0.0, 0.0)],
        elements: vec![
            BdfElement { id: 10, elem_type: "CQUAD4".to_string(), nodes: vec![1, 3, 1, 3], property_id: 1 },
            BdfElement { id: 11, elem_type: "CROD".to_string(), nodes: vec![1, 3], property_id: 1 },
            BdfElement { id: 12, elem_type: "CQUAD4".to_string(), nodes: vec![3, 1, 3, 1], property_id: 1 },
        ],
        materials: vec![BdfMaterial {
            name: "STEEL".to_string(),
            elastic: Some(("2.100000e11".to_string(), "3.000000e-1".to_string())),
            density: Some("7.850000e3".to_string()),
        }],
    };
    let inp = converter.convert(&bdf_data).unwrap();
    assert_eq!(
        inp,
        "** CalculiX Input File\n** Converted from Nastran BDF\n**\n*NODE\n\
         1, 0.000000e0, 0.000000e0, 0.000000e0\n\
         3, 0.000000e0, 0.000000e0, 1.500000e0\n\
         *ELEMENT, TYPE=S4\n10, 1, 3, 1, 3\n12, 3, 1, 3, 1\n\
         *ELEMENT, TYPE=T3D2\n11, 1, 3\n\
         *MATERIAL, NAME=STEEL\n*ELASTIC\n2.100000e11, 3.000000e-1\n*DENSITY\n7.850000e3\n\
         *ELSET, ELSET=ALL\n10, 11, 12, \n\
         *NSET, NSET=ALL\n3, 1, \n"
    );
    let stats = converter.stats();
    assert_eq!(stats.num_nodes_converted, 2);
    assert_eq!(stats.num_elements_converted, 3);
}

#[test]
fn conversion_stops_at_unsupported_type() {
    let mut converter = BdfToInpConverter::new();
    let bdf_data = BdfData {
        nodes: vec![node(1, 0.0, 0.0, 0.0)],
        elements: vec![
            BdfElement { id: 5, elem_type: "CROD".to_string(), nodes: vec![1, 1], property_id: 1 },
            BdfElement { id: 6, elem_type: "CELAS1".to_string(), nodes: vec![1], property_id: 1 },
            BdfElement { id: 7, elem_type: "CHEXA".to_string(), nodes: vec![1; 8], property_id: 1 },
        ],
        materials: Vec::new(),
    };
    let err = converter.convert(&bdf_data).unwrap_err();
    assert_eq!(
        err,
        IoError::UnsupportedElement("Nastran element type 'CELAS1' not supported".to_string())
    );
    let stats = converter.stats();
    assert_eq!(stats.num_nodes_converted, 1);
    assert_eq!(stats.num_elements_converted, 1);
}

#[test]
fn converted_types_are_readable_element_types() {
    let converter = BdfToInpConverter::new();
    for t in ["CROD", "CONROD", "CBAR", "CBEAM", "CQUAD4", "CTRIA3", "CHEXA", "CHEXA8", "CTETRA", "CTETRA4", "CPENTA", "CPENTA6"] {
        let ccx = converter.map_element_type(t).unwrap();
        assert!(ccx::mesh::ElementType::from_calculix_type(&ccx).is_some(), "{}", ccx);
    }
}
