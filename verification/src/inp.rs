//! Reader of CalculiX/Abaqus `.inp` input decks, with `*INCLUDE` expansion.
use vstd::prelude::*;
use crate::deck::{ParamView, CardView, ErrorView, Dialect, parse_deck, read_deck, cards_view};

verus! {

/// A parsed input deck.
#[derive(Debug, Clone, PartialEq, Eq)]
pub struct Deck {
    pub cards: Vec<Card>,
}

/// One keyword card.
#[derive(Debug, Clone, PartialEq, Eq)]
pub struct Card {
    pub keyword: String,
    pub parameters: Vec<Parameter>,
    pub data_lines: Vec<String>,
    pub line_start: usize,
}

/// A header parameter.
#[derive(Debug, Clone, PartialEq, Eq)]
pub struct Parameter {
    pub key: String,
    pub value: Option<String>,
}

/// A parse failure.
#[derive(Debug, Clone, PartialEq, Eq)]
pub struct ParseError {
    pub line: usize,
    pub message: String,
}

/// View of an optional string.
pub open spec fn opt_view(o: Option<String>) -> Option<Seq<char>> {
    match o {
        Some(s) => Some(s@),
        None => None,
    }
}

impl View for Parameter {
    type V = ParamView;

    open spec fn view(&self) -> ParamView {
        ParamView { key: self.key@, value: opt_view(self.value) }
    }
}

impl View for Card {
    type V = CardView;

    open spec fn view(&self) -> CardView {
        CardView {
            keyword: self.keyword@,
            parameters: self.parameters@.map_values(|p: Parameter| p@),
            data_lines: self.data_lines@.map_values(|s: String| s@),
            line_start: self.line_start as nat,
        }
    }
}

impl View for ParseError {
    type V = ErrorView;

    open spec fn view(&self) -> ErrorView {
        ErrorView { line: self.line as nat, message: self.message@ }
    }
}

impl View for Deck {
    type V = Seq<CardView>;

    open spec fn view(&self) -> Seq<CardView> {
        self.cards@.map_values(|c: Card| c@)
    }
}

impl Deck {
    /// Parses deck text: quote-aware headers, `>`-prefixed comments and bare
    /// `*` separator lines are accepted.
    pub fn parse_str(raw: &str) -> (r: Result<Deck, ParseError>)
        ensures
            match r {
                Ok(deck) => parse_deck(Dialect::Extended, raw@) == Ok::<Seq<CardView>, ErrorView>(deck@),
                Err(e) => parse_deck(Dialect::Extended, raw@) == Err::<Seq<CardView>, ErrorView>(e@),
            },
    {
        match read_deck(Dialect::Extended, raw) {
            Ok(cards) => Ok(Deck { cards }),
            Err(e) => Err(e),
        }
    }
}

/// A copy of a card.
pub fn copy_card(c: &Card) -> (r: Card)
    ensures
        r@ == c@,
{
    let mut parameters: Vec<Parameter> = Vec::new();
    let mut i: usize = 0;
    while i < c.parameters.len()
        invariant
            i <= c.parameters@.len(),
            parameters@.map_values(|p: Parameter| p@) == c.parameters@.subrange(0, i as int).map_values(|p: Parameter| p@),
        decreases c.parameters.len() - i,
    {
        let p = &c.parameters[i];
        let value = match &p.value {
            Some(v) => Some(v.clone()),
            None => None,
        };
        let q = Parameter { key: p.key.clone(), value };
        let ghost before = parameters@.map_values(|p: Parameter| p@);
        parameters.push(q);
        assert(parameters@.map_values(|p: Parameter| p@) =~= before.push(q@));
        assert(c.parameters@.subrange(0, i + 1).map_values(|p: Parameter| p@)
            =~= c.parameters@.subrange(0, i as int).map_values(|p: Parameter| p@).push(c.parameters@[i as int]@));
        i += 1;
    }
    assert(c.parameters@.subrange(0, c.parameters@.len() as int) =~= c.parameters@);
    let data_lines = crate::inp_basic::copy_strings(&c.data_lines);
    Card { keyword: c.keyword.clone(), parameters, data_lines, line_start: c.line_start }
}

} // verus!
