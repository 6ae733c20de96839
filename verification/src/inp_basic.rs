//! The minimal deck reader of the bootstrap input crate: plain `,`-separated
//! headers and `**` comments only.
use vstd::prelude::*;
use crate::deck::{ParamView, CardView, ErrorView, Dialect, parse_deck, read_deck};
use crate::inp;

verus! {

/// A parsed input deck.
#[derive(Debug, Clone, PartialEq, Eq)]
pub struct Deck {
    pub cards: Vec<Card>,
}

/// One keyword card.
#[derive(Debug, Clone, PartialEq, Eq)]
pub struct Card {
    pub keyword: String,
    pub parameters: Vec<Parameter>,
    pub data_lines: Vec<String>,
    pub line_start: usize,
}

/// A header parameter.
#[derive(Debug, Clone, PartialEq, Eq)]
pub struct Parameter {
    pub key: String,
    pub value: Option<String>,
}

/// A parse failure.
#[derive(Debug, Clone, PartialEq, Eq)]
pub struct ParseError {
    pub line: usize,
    pub message: String,
}

impl View for Parameter {
    type V = ParamView;

    open spec fn view(&self) -> ParamView {
        ParamView { key: self.key@, value: inp::opt_view(self.value) }
    }
}

impl View for Card {
    type V = CardView;

    open spec fn view(&self) -> CardView {
        CardView {
            keyword: self.keyword@,
            parameters: self.parameters@.map_values(|p: Parameter| p@),
            data_lines: self.data_lines@.map_values(|s: String| s@),
            line_start: self.line_start as nat,
        }
    }
}

impl View for ParseError {
    type V = ErrorView;

    open spec fn view(&self) -> ErrorView {
        ErrorView { line: self.line as nat, message: self.message@ }
    }
}

impl View for Deck {
    type V = Seq<CardView>;

    open spec fn view(&self) -> Seq<CardView> {
        self.cards@.map_values(|c: Card| c@)
    }
}

/// A copy of a vector of strings.
pub(crate) fn copy_strings(v: &Vec<String>) -> (r: Vec<String>)
    ensures
        r@.map_values(|s: String| s@) == v@.map_values(|s: String| s@),
{
    let mut r: Vec<String> = Vec::new();
    let mut i: usize = 0;
    while i < v.len()
        invariant
            i <= v@.len(),
            r@.map_values(|s: String| s@) == v@.subrange(0, i as int).map_values(|s: String| s@),
        decreases v.len() - i,
    {
        let ghost before = r@.map_values(|s: String| s@);
        r.push(v[i].clone());
        assert(r@.map_values(|s: String| s@) =~= before.push(v@[i as int]@));
        assert(v@.subrange(0, i + 1).map_values(|s: String| s@)
            =~= v@.subrange(0, i as int).map_values(|s: String| s@).push(v@[i as int]@));
        i += 1;
    }
    assert(v@.subrange(0, v@.len() as int) =~= v@);
    r
}

/// The same card in this module's own types.
fn card_from(c: &inp::Card) -> (r: Card)
    ensures
        r@ == c@,
{
    let mut parameters: Vec<Parameter> = Vec::new();
    let mut i: usize = 0;
    while i < c.parameters.len()
        invariant
            i <= c.parameters@.len(),
            parameters@.map_values(|p: Parameter| p@) == c.parameters@.subrange(0, i as int).map_values(|p: inp::Parameter| p@),
        decreases c.parameters.len() - i,
    {
        let p = &c.parameters[i];
        let value = match &p.value {
            Some(v) => Some(v.clone()),
            None => None,
        };
        let q = Parameter { key: p.key.clone(), value };
        let ghost before = parameters@.map_values(|p: Parameter| p@);
        parameters.push(q);
        assert(parameters@.map_values(|p: Parameter| p@) =~= before.push(q@));
        assert(c.parameters@.subrange(0, i + 1).map_values(|p: inp::Parameter| p@)
            =~= c.parameters@.subrange(0, i as int).map_values(|p: inp::Parameter| p@).push(c.parameters@[i as int]@));
        i += 1;
    }
    assert(c.parameters@.subrange(0, c.parameters@.len() as int) =~= c.parameters@);
    let data_lines = copy_strings(&c.data_lines);
    Card { keyword: c.keyword.clone(), parameters, data_lines, line_start: c.line_start }
}

impl Deck {
    /// Parses deck text (see `parse_deck` with the basic dialect).
    pub fn parse_str(raw: &str) -> (r: Result<Deck, ParseError>)
        ensures
            match r {
                Ok(deck) => parse_deck(Dialect::Basic, raw@) == Ok::<Seq<CardView>, ErrorView>(deck@),
                Err(e) => parse_deck(Dialect::Basic, raw@) == Err::<Seq<CardView>, ErrorView>(e@),
            },
    {
        match read_deck(Dialect::Basic, raw) {
            Err(e) => Err(ParseError { line: e.line, message: e.message }),
            Ok(cards) => {
                let mut out: Vec<Card> = Vec::new();
                let mut i: usize = 0;
                while i < cards.len()
                    invariant
                        i <= cards@.len(),
                        out@.map_values(|c: Card| c@) == cards@.subrange(0, i as int).map_values(|c: inp::Card| c@),
                    decreases cards.len() - i,
                {
                    let c = card_from(&cards[i]);
                    let ghost before = out@.map_values(|c: Card| c@);
                    out.push(c);
                    assert(out@.map_values(|c: Card| c@) =~= before.push(c@));
                    assert(cards@.subrange(0, i + 1).map_values(|c: inp::Card| c@)
                        =~= cards@.subrange(0, i as int).map_values(|c: inp::Card| c@).push(cards@[i as int]@));
                    i += 1;
                }
                assert(cards@.subrange(0, cards@.len() as int) =~= cards@);
                Ok(Deck { cards: out })
            },
        }
    }
}

/// The same deck in this module's own types.
pub fn from_extended(deck: &inp::Deck) -> (r: Deck)
    ensures
        r@ == deck@,
{
    let mut out: Vec<Card> = Vec::new();
    let mut i: usize = 0;
    while i < deck.cards.len()
        invariant
            i <= deck.cards@.len(),
            out@.map_values(|c: Card| c@) == deck.cards@.subrange(0, i as int).map_values(|c: inp::Card| c@),
        decreases deck.cards.len() - i,
    {
        let c = card_from(&deck.cards[i]);
        let ghost before = out@.map_values(|c: Card| c@);
        out.push(c);
        assert(out@.map_values(|c: Card| c@) =~= before.push(c@));
        assert(deck.cards@.subrange(0, i + 1).map_values(|c: inp::Card| c@)
            =~= deck.cards@.subrange(0, i as int).map_values(|c: inp::Card| c@).push(deck.cards@[i as int]@));
        i += 1;
    }
    assert(deck.cards@.subrange(0, deck.cards@.len() as int) =~= deck.cards@);
    Deck { cards: out }
}

} // verus!
