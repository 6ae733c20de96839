use ccx::inp_basic::Deck;
use ccx::mesh::ElementType;
use ccx::mesh_builder::{
    mesh_events, parse_i32, process_element_card, process_element_lines, split_fields, MeshEvent,
};

fn chars(s: &str) -> Vec<char> {
    s.chars().collect()
}

#[test]
fn parses_i32_like_std() {
    for s in ["0", "-0", "+7", "42", "-2147483648", "2147483647", "", "+", "-", "2147483648", "-2147483649", "1x", " 1", "99999999999999999999"] {
        assert_eq!(parse_i32(&chars(s)), s.parse::<i32>().ok(), "input {:?}", s);
    }
}

#[test]
fn splits_on_every_comma() {
    let parts = split_fields(&chars("1,,2,"));
    let parts: Vec<String> = parts.iter().map(|p| p.iter().collect()).collect();
    assert_eq!(parts, vec!["1", "", "2", ""]);
    assert_eq!(split_fields(&chars("")).len(), 1);
}

#[test]
fn reads_single_and_continued_elements() {
    let deck = Deck::parse_str(
        "*ELEMENT, TYPE=C3D20\n1,1,2,3,4,5,6,7,8,9,10,11,12,13,14,15\n16,17,18,19,20\n2,21,22,23,24,25,26,27,28,29,30,31,32,33,34,35\n36,37,38,39,40\n",
    )
    .expect("deck should parse");
    let (elements, errors) = process_element_card(&deck.cards[0]).expect("known type");
    assert!(errors.is_empty());
    assert_eq!(elements.len(), 2);
    assert_eq!(elements[0].id, 1);
    assert_eq!(elements[0].nodes, (1..=20).collect::<Vec<i32>>());
    assert_eq!(elements[1].id, 2);
    assert_eq!(elements[1].element_type, ElementType::C3D20);
}

#[test]
fn reports_bad_fields_and_short_elements() {
    let lines = vec![
        "x,1,2".to_string(),
        "5,1,2,q".to_string(),
        "6,1,2,3,4,5,6,7,8".to_string(),
    ];
    let (elements, errors) = process_element_lines(&lines, ElementType::C3D8);
    assert!(elements.is_empty());
    assert_eq!(
        errors,
        vec![
            "Invalid element ID: x".to_string(),
            "Invalid node ID in element 5: q".to_string(),
            "Element 5 of type C3D8 has 11 nodes but expected 8".to_string(),
        ]
    );
}

#[test]
fn last_element_is_finished_after_the_card() {
    let lines = vec!["3,1,2,3".to_string()];
    let (elements, errors) = process_element_lines(&lines, ElementType::C3D4);
    assert!(elements.is_empty());
    assert_eq!(errors, vec!["Element 3 of type C3D4 has 3 nodes but expected 4".to_string()]);
}

#[test]
fn element_card_type_errors() {
    let deck = Deck::parse_str("*ELEMENT\n1,1,2\n*ELEMENT, TYPE\n*ELEMENT, TYPE=XYZ\n").expect("parse");
    assert_eq!(
        process_element_card(&deck.cards[0]).unwrap_err(),
        "ELEMENT card missing TYPE parameter"
    );
    assert_eq!(
        process_element_card(&deck.cards[1]).unwrap_err(),
        "ELEMENT TYPE parameter has no value"
    );
    assert_eq!(process_element_card(&deck.cards[2]).unwrap_err(), "Unknown element type: XYZ");
}

#[test]
fn mesh_events_follow_the_deck() {
    let deck = Deck::parse_str(
        "*NODE\n1, 0, 0, 0\nx, 0, 0, 0\n*MATERIAL, NAME=S\n*element, type=T3D2\n7, 1, 2\n",
    )
    .expect("deck should parse");
    let events = mesh_events(&deck).expect("known element type");
    assert_eq!(events.len(), 3);
    match &events[0] {
        MeshEvent::Node(Ok(f)) => assert_eq!(f.id, 1),
        _ => panic!("node line expected"),
    }
    match &events[1] {
        MeshEvent::Node(Err(e)) => assert_eq!(e, "Invalid node ID: x"),
        _ => panic!("node error expected"),
    }
    match &events[2] {
        MeshEvent::Elements(es, errs) => {
            assert_eq!(es.len(), 1);
            assert_eq!(es[0].id, 7);
            assert_eq!(es[0].element_type, ccx::mesh::ElementType::T3D2);
            assert_eq!(es[0].nodes, vec![1, 2]);
            assert!(errs.is_empty());
        }
        _ => panic!("element card expected"),
    }
}

#[test]
fn mesh_events_stop_at_an_unknown_element_type() {
    let deck = Deck::parse_str("*NODE\n1, 0, 0, 0\n*ELEMENT, TYPE=XYZ\n1, 1\n").expect("deck should parse");
    assert!(mesh_events(&deck).is_err());
}

#[test]
fn single_line_elements_give_no_errors() {
    let lines = vec!["1, 1, 2".to_string(), " 2 ,2 , 3".to_string()];
    let (elements, errors) = process_element_lines(&lines, ElementType::T3D2);
    assert!(errors.is_empty());
    let got: Vec<(i32, Vec<i32>)> = elements.iter().map(|e| (e.id, e.nodes.clone())).collect();
    assert_eq!(got, vec![(1, vec![1, 2]), (2, vec![2, 3])]);
}
