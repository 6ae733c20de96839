use ccx::inp_basic::Deck;

#[test]
fn lib_parses_basic_cards_and_data() {
    let src = r#"
** comment
*HEADING
My model
*NODE, NSET=NALL
1,0,0,0
2,1,0,0
*ELEMENT, TYPE=C3D8, ELSET=EALL
1,1,2,3,4,5,6,7,8
"#;

    let deck = Deck::parse_str(src).expect("parser should succeed");
    assert_eq!(deck.cards.len(), 3);
    assert_eq!(deck.cards[1].keyword, "NODE");
    assert_eq!(deck.cards[1].data_lines.len(), 2);
    assert_eq!(deck.cards[2].keyword, "ELEMENT");
}

#[test]
fn lib_parses_header_continuation() {
    let src = r#"
*STEP, INC=100
, NLGEOM
*STATIC
1., 1.
"#;

    let deck = Deck::parse_str(src).expect("parser should succeed");
    assert_eq!(deck.cards.len(), 2);
    assert_eq!(deck.cards[0].keyword, "STEP");
    assert!(deck.cards[0]
        .parameters
        .iter()
        .any(|p| p.key == "NLGEOM" && p.value.is_none()));
}

#[test]
fn lib_fails_on_orphan_data_before_first_card() {
    let src = "1,2,3\n*NODE\n1,0,0,0\n";
    let err = Deck::parse_str(src).expect_err("should fail");
    assert_eq!(err.line, 1);
}

#[test]
fn basic_reader_rejects_bare_star_line() {
    let err = Deck::parse_str("*\n*NODE\n").expect_err("bare star has no keyword");
    assert_eq!(err.line, 1);
    assert_eq!(err.message, "empty card keyword");
}

#[test]
fn basic_reader_uppercases_keys_and_keeps_values() {
    let deck = Deck::parse_str("*node, nset = Nall , , x\n 1, 2 \r\n").expect("parse");
    let card = &deck.cards[0];
    assert_eq!(card.keyword, "NODE");
    assert_eq!(card.parameters.len(), 2);
    assert_eq!(card.parameters[0].key, "NSET");
    assert_eq!(card.parameters[0].value.as_deref(), Some("Nall"));
    assert_eq!(card.parameters[1].key, "X");
    assert_eq!(card.data_lines, vec!["1, 2".to_string()]);
    assert_eq!(card.line_start, 1);
}
