use ccx::inp::Deck;

#[test]
fn mod_parses_basic_cards_and_data() {
    let src = r#"
** comment
*HEADING
My model
*NODE, NSET=NALL
1,0,0,0
2,1,0,0
*ELEMENT, TYPE=C3D8, ELSET=EALL
1,1,2,3,4,5,6,7,8
"#;

    let deck = Deck::parse_str(src).expect("parser should succeed");
    assert_eq!(deck.cards.len(), 3);
    assert_eq!(deck.cards[1].keyword, "NODE");
    assert_eq!(deck.cards[1].data_lines.len(), 2);
    assert_eq!(deck.cards[2].keyword, "ELEMENT");
}

#[test]
fn mod_parses_header_continuation() {
    let src = r#"
*STEP, INC=100
, NLGEOM
*STATIC
1., 1.
"#;

    let deck = Deck::parse_str(src).expect("parser should succeed");
    assert_eq!(deck.cards.len(), 2);
    assert_eq!(deck.cards[0].keyword, "STEP");
    assert!(deck.cards[0]
        .parameters
        .iter()
        .any(|p| p.key == "NLGEOM" && p.value.is_none()));
}

#[test]
fn mod_fails_on_orphan_data_before_first_card() {
    let src = "1,2,3\n*NODE\n1,0,0,0\n";
    let err = Deck::parse_str(src).expect_err("should fail");
    assert_eq!(err.line, 1);
}

#[test]
fn accepts_prompt_prefixed_comments_and_separator_star_line() {
    let src = r#"
>**
** normal comment
*
*NODE
1,0,0,0
"#;
    let deck = Deck::parse_str(src).expect("parser should succeed");
    assert_eq!(deck.cards.len(), 1);
    assert_eq!(deck.cards[0].keyword, "NODE");
}

#[test]
fn quoted_header_values_keep_their_commas() {
    let deck = Deck::parse_str("*INCLUDE, INPUT=\"a,b.inc\"\n").expect("parse");
    let card = &deck.cards[0];
    assert_eq!(card.parameters.len(), 1);
    assert_eq!(card.parameters[0].key, "INPUT");
    assert_eq!(card.parameters[0].value.as_deref(), Some("\"a,b.inc\""));
}

#[test]
fn header_continuation_with_empty_keyword_reports_card_line() {
    let err = Deck::parse_str("\n\n* , A\n").expect_err("empty keyword");
    assert_eq!(err.line, 3);
    assert_eq!(err.message, "empty card keyword");
}

#[test]
fn card_lines_increase_and_errors_name_a_line() {
    let text = "** head\n*NODE\n1, 0, 0, 0\n\n*ELEMENT, TYPE=C3D8\n1,1,2,3,4,5,6,7,8\n*STEP\n";
    let deck = Deck::parse_str(text).expect("deck should parse");
    let starts: Vec<usize> = deck.cards.iter().map(|c| c.line_start).collect();
    assert_eq!(starts, vec![2, 5, 7]);
    let n = text.lines().count();
    let err = Deck::parse_str("*NODE\n1\n*\nstray\n").err();
    if let Some(e) = err {
        assert!(e.line >= 1 && e.line <= n);
    }
    let e = Deck::parse_str("stray\n").unwrap_err();
    assert_eq!(e.line, 1);
}
