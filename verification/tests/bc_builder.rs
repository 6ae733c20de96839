use ccx::bc_builder::{
    bc_entries, building_errors_message, boundary_line_entry, cload_line_entry, get_nodes, BcEntry,
    BoundaryEntry, LoadEntry, NodeSet,
};
use ccx::inp::Deck;
use ccx::mesh_builder::parse_usize;

fn parse_deck(input: &str) -> Deck {
    Deck::parse_str(input).expect("Failed to parse deck")
}

fn boundaries(entries: &[Result<BcEntry, String>]) -> Vec<BoundaryEntry> {
    entries
        .iter()
        .filter_map(|e| match e {
            Ok(BcEntry::Boundary(b)) => Some(b.clone()),
            _ => None,
        })
        .collect()
}

fn loads(entries: &[Result<BcEntry, String>]) -> Vec<LoadEntry> {
    entries
        .iter()
        .filter_map(|e| match e {
            Ok(BcEntry::Load(l)) => Some(l.clone()),
            _ => None,
        })
        .collect()
}

#[test]
fn parses_usize_like_std() {
    for s in ["0", "+7", "42", "-0", "-1", "", "+", "1x", " 1", "18446744073709551615", "18446744073709551616"] {
        let chars: Vec<char> = s.chars().collect();
        assert_eq!(parse_usize(&chars), s.parse::<usize>().ok(), "input {:?}", s);
    }
}

#[test]
fn parses_simple_boundary_conditions() {
    let deck = parse_deck("\n*NODE\n1, 0.0, 0.0, 0.0\n2, 1.0, 0.0, 0.0\n*BOUNDARY\n1, 1, 3, 0.0\n2, 3, 3\n");
    let entries = bc_entries(&deck, &Vec::new());
    let bcs = boundaries(&entries);
    assert_eq!(bcs.len(), 2);
    assert_eq!(bcs[0].nodes, vec![1]);
    assert_eq!(bcs[0].first_dof, 1);
    assert_eq!(bcs[0].last_dof, 3);
    assert_eq!(bcs[0].value.as_deref(), Some("0.0"));
    assert_eq!(bcs[1].nodes, vec![2]);
    assert_eq!(bcs[1].first_dof, 3);
    assert_eq!(bcs[1].last_dof, 3);
    assert_eq!(bcs[1].value, None);
}

#[test]
fn parses_concentrated_loads() {
    let deck = parse_deck("\n*NODE\n1, 0.0, 0.0, 0.0\n2, 1.0, 0.0, 0.0\n*CLOAD\n1, 1, 100.0\n2, 2, -50.5\n");
    let entries = bc_entries(&deck, &Vec::new());
    let ls = loads(&entries);
    assert_eq!(ls.len(), 2);
    assert_eq!(ls[0].nodes, vec![1]);
    assert_eq!(ls[0].dof, 1);
    assert_eq!(ls[0].magnitude, "100.0");
    assert_eq!(ls[1].nodes, vec![2]);
    assert_eq!(ls[1].dof, 2);
    assert_eq!(ls[1].magnitude, "-50.5");
}

#[test]
fn handles_boundary_with_prescribed_displacement() {
    let deck = parse_deck("\n*NODE\n10, 0.0, 0.0, 0.0\n*BOUNDARY\n10, 1, 1, 2.5\n");
    let bcs = boundaries(&bc_entries(&deck, &Vec::new()));
    assert_eq!(bcs.len(), 1);
    assert_eq!(bcs[0].nodes, vec![10]);
    assert_eq!(bcs[0].value.as_deref(), Some("2.5"));
}

#[test]
fn handles_boundary_with_default_value() {
    let deck = parse_deck("\n*NODE\n5, 0.0, 0.0, 0.0\n*BOUNDARY\n5, 2, 2\n");
    let bcs = boundaries(&bc_entries(&deck, &Vec::new()));
    assert_eq!(bcs.len(), 1);
    assert_eq!(bcs[0].value, None);
}

#[test]
fn handles_mixed_bcs_and_loads() {
    let deck = parse_deck(
        "\n*NODE\n1, 0.0, 0.0, 0.0\n2, 1.0, 0.0, 0.0\n3, 0.5, 1.0, 0.0\n*BOUNDARY\n1, 1, 3\n*CLOAD\n2, 2, 1000.0\n3, 1, 500.0\n",
    );
    let entries = bc_entries(&deck, &Vec::new());
    assert_eq!(boundaries(&entries).len(), 1);
    assert_eq!(loads(&entries).len(), 2);
}

#[test]
fn ignores_non_bc_cards() {
    let deck = parse_deck(
        "\n*NODE\n1, 0.0, 0.0, 0.0\n*MATERIAL, NAME=STEEL\n*ELASTIC\n210000, 0.3\n*BOUNDARY\n1, 1, 3\n*STEP\n*STATIC\n*END STEP\n",
    );
    let entries = bc_entries(&deck, &Vec::new());
    assert_eq!(entries.len(), 1);
    assert_eq!(boundaries(&entries).len(), 1);
    assert_eq!(loads(&entries).len(), 0);
}

#[test]
fn resolves_node_set_references() {
    let deck = parse_deck(
        "\n*NODE\n1, 0, 0, 0\n2, 1, 0, 0\n3, 2, 0, 0\n*NSET, NSET=Nfixz\n1, 2\n*NSET, NSET=LoadSet\n3\n*BOUNDARY\nNfixz, 1, 3\n*CLOAD\nLoadSet, 1, 100.0\n",
    );
    let sets = vec![
        NodeSet { name: "Nfixz".to_string(), nodes: vec![1, 2] },
        NodeSet { name: "LoadSet".to_string(), nodes: vec![3] },
    ];
    let entries = bc_entries(&deck, &sets);
    assert!(entries.iter().all(|e| e.is_ok()));
    let bcs = boundaries(&entries);
    assert_eq!(bcs.len(), 1);
    assert_eq!(bcs[0].nodes, vec![1, 2]);
    let ls = loads(&entries);
    assert_eq!(ls.len(), 1);
    assert_eq!(ls[0].nodes, vec![3]);
}

#[test]
fn handles_scientific_notation_in_loads() {
    let deck = parse_deck("\n*NODE\n1, 0.0, 0.0, 0.0\n*CLOAD\n1, 1, 1.5e3\n");
    let ls = loads(&bc_entries(&deck, &Vec::new()));
    assert_eq!(ls.len(), 1);
    assert_eq!(ls[0].magnitude, "1.5e3");
    assert!((ls[0].magnitude.parse::<f64>().unwrap() - 1500.0).abs() < 1e-10);
}

#[test]
fn keyword_is_compared_upper_cased() {
    let deck = parse_deck("*boundary\n4, 1\n*Cload\n4, 2, 1.0\n");
    let entries = bc_entries(&deck, &Vec::new());
    assert_eq!(boundaries(&entries).len(), 1);
    assert_eq!(loads(&entries).len(), 1);
}

#[test]
fn boundary_line_errors() {
    let sets: Vec<NodeSet> = Vec::new();
    assert_eq!(
        boundary_line_entry("1", &sets),
        Err("Invalid BOUNDARY line (expected at least 2 fields): 1".to_string())
    );
    assert_eq!(
        boundary_line_entry("NOSET, 1", &sets),
        Err("Unknown node or node set in BOUNDARY: NOSET".to_string())
    );
    assert_eq!(
        boundary_line_entry("1, x", &sets),
        Err("Invalid first DOF in BOUNDARY: x".to_string())
    );
    assert_eq!(
        boundary_line_entry("1, 1, -3", &sets),
        Err("Invalid last DOF in BOUNDARY: -3".to_string())
    );
    let ok = boundary_line_entry("7, 2, , ", &sets).unwrap();
    assert_eq!(ok.first_dof, 2);
    assert_eq!(ok.last_dof, 2);
    assert_eq!(ok.value, None);
}

#[test]
fn cload_line_errors() {
    let sets: Vec<NodeSet> = Vec::new();
    assert_eq!(
        cload_line_entry("1, 2", &sets),
        Err("Invalid CLOAD line (expected at least 3 fields): 1, 2".to_string())
    );
    assert_eq!(
        cload_line_entry("S, 1, 1.0", &sets),
        Err("Unknown node or node set in CLOAD: S".to_string())
    );
    assert_eq!(
        cload_line_entry("1, 0.5, 1.0", &sets),
        Err("Invalid DOF in CLOAD: 0.5".to_string())
    );
    let ok = cload_line_entry(" 3 , 1 ,  -2.0 ", &sets).unwrap();
    assert_eq!(ok.nodes, vec![3]);
    assert_eq!(ok.dof, 1);
    assert_eq!(ok.magnitude, "-2.0");
}

#[test]
fn first_set_of_a_name_wins() {
    let sets = vec![
        NodeSet { name: "A".to_string(), nodes: vec![1] },
        NodeSet { name: "A".to_string(), nodes: vec![2] },
    ];
    assert_eq!(get_nodes(&sets, "A"), Some(vec![1]));
    assert_eq!(get_nodes(&sets, "a"), None);
}

#[test]
fn errors_are_summed_up() {
    let errors = vec!["first".to_string(), "second".to_string()];
    assert_eq!(
        building_errors_message("BC", &errors),
        "BC building encountered 2 errors:\nfirst\nsecond"
    );
    assert_eq!(building_errors_message("Mesh", &Vec::new()), "Mesh building encountered 0 errors:\n");
}
