//! Which kind of analysis a deck asks for, read from its card keywords.
use vstd::prelude::*;
use crate::deck::CardView;
use crate::inp::{Card, Deck};
use crate::model::{normalized, normalized_view, tally_run, deck_tally};
use crate::text::{chars_of, to_uppercase, unicode_uppercase, str_eq};

verus! {

broadcast use vstd::string::group_string_axioms;

/// Analysis types of CalculiX.
#[derive(Debug, Clone, Copy, PartialEq, Eq, Structural)]
pub enum AnalysisType {
    /// Linear static structural analysis (`*STATIC`).
    LinearStatic,
    /// Nonlinear static analysis.
    NonlinearStatic,
    /// Modal/frequency analysis (`*FREQUENCY`).
    Modal,
    /// Steady-state dynamics (`*STEADY STATE DYNAMICS`).
    SteadyStateDynamics,
    /// Dynamic time integration (`*DYNAMIC`).
    Dynamic,
    /// Heat transfer analysis (`*HEAT TRANSFER`).
    HeatTransfer,
    /// Coupled thermomechanical analysis.
    CoupledThermoMechanical,
    /// Buckling analysis (`*BUCKLE`).
    Buckling,
    /// Complex frequency analysis (`*COMPLEX FREQUENCY`).
    ComplexFrequency,
    /// Green's function analysis (`*GREEN`).
    Green,
    /// Sensitivity analysis (`*SENSITIVITY`).
    Sensitivity,
    /// Modal dynamics by superposition (`*MODAL DYNAMIC`).
    ModalDynamic,
    /// Visco analysis (`*VISCO`).
    Visco,
    /// Electromagnetic analysis (`*ELECTROMAGNETICS`).
    Electromagnetic,
    /// Uncoupled temperature-displacement (`*UNCOUPLED TEMPERATURE-DISPLACEMENT`).
    UncoupledThermoMechanical,
    /// CFD analysis (`*CFD`).
    CFD,
}

/// `pat` occurs in `s` as a contiguous run of characters.
pub open spec fn has_run(s: Seq<char>, pat: Seq<char>) -> bool {
    exists|i: int| 0 <= i <= s.len() - pat.len() && #[trigger] s.subrange(i, i + pat.len()) == pat
}

fn matches_at(s: &Vec<char>, pat: &Vec<char>, i: usize) -> (r: bool)
    requires
        i + pat@.len() <= s@.len(),
    ensures
        r == (s@.subrange(i as int, i + pat@.len()) == pat@),
{
    let n = s.len();
    let mut k: usize = 0;
    while k < pat.len()
        invariant
            n == s@.len(),
            i + pat@.len() <= s@.len(),
            k <= pat@.len(),
            forall|j: int| 0 <= j < k ==> s@[i + j] == pat@[j],
        decreases pat.len() - k,
    {
        if s[i + k] != pat[k] {
            assert(s@.subrange(i as int, i + pat@.len())[k as int] != pat@[k as int]);
            return false;
        }
        k += 1;
    }
    assert(s@.subrange(i as int, i + pat@.len()) =~= pat@);
    true
}

/// Whether `pat` occurs in `s` (`str::contains` with a string pattern).
pub fn contains_str(s: &str, pat: &str) -> (r: bool)
    ensures
        r == has_run(s@, pat@),
{
    let sv = chars_of(s);
    let pv = chars_of(pat);
    if pv.len() > sv.len() {
        return false;
    }
    if pv.len() == 0 {
        assert(s@.subrange(0int, 0int + pat@.len()) =~= pat@);
        return true;
    }
    let last = sv.len() - pv.len();
    let mut i: usize = 0;
    while i <= last
        invariant
            sv@ == s@,
            pv@ == pat@,
            last == sv@.len() - pv@.len(),
            pv@.len() >= 1,
            sv@.len() <= usize::MAX,
            i <= last + 1,
            forall|j: int| 0 <= j < i ==> #[trigger] sv@.subrange(j, j + pv@.len()) != pv@,
        decreases last + 1 - i,
    {
        if matches_at(&sv, &pv, i) {
            return true;
        }
        i += 1;
    }
    false
}

/// An upper-cased keyword holds both `a` and `b`.
pub open spec fn holds_both(k: Seq<char>, a: Seq<char>, b: Seq<char>) -> bool {
    has_run(k, a) && has_run(k, b)
}

/// Some upper-cased keyword holds both `a` and `b`.
pub open spec fn some_holds(uppers: Seq<Seq<char>>, a: Seq<char>, b: Seq<char>) -> bool {
    exists|j: int| 0 <= j < uppers.len() && holds_both(#[trigger] uppers[j], a, b)
}

/// The analysis chosen from the upper-cased keywords of a deck and from
/// whether it has `*FREQUENCY`, `*DYNAMIC`, `*HEAT TRANSFER` and `*STATIC`
/// cards; the first rule that applies decides.
pub open spec fn classify(
    uppers: Seq<Seq<char>>,
    frequency: bool,
    dynamic: bool,
    heat_transfer: bool,
    statik: bool,
) -> AnalysisType {
    if some_holds(uppers, "BUCKLE"@, "BUCKLE"@) {
        AnalysisType::Buckling
    } else if some_holds(uppers, "COMPLEX"@, "FREQUENCY"@) {
        AnalysisType::ComplexFrequency
    } else if some_holds(uppers, "GREEN"@, "GREEN"@) {
        AnalysisType::Green
    } else if some_holds(uppers, "SENSITIVITY"@, "SENSITIVITY"@) {
        AnalysisType::Sensitivity
    } else if some_holds(uppers, "MODAL"@, "DYNAMIC"@) {
        AnalysisType::ModalDynamic
    } else if some_holds(uppers, "STEADY"@, "STATE"@) {
        AnalysisType::SteadyStateDynamics
    } else if some_holds(uppers, "VISCO"@, "VISCO"@) {
        AnalysisType::Visco
    } else if some_holds(uppers, "ELECTROMAGNETIC"@, "ELECTROMAGNETIC"@) {
        AnalysisType::Electromagnetic
    } else if some_holds(uppers, "CFD"@, "CFD"@) {
        AnalysisType::CFD
    } else if some_holds(uppers, "UNCOUPLED"@, "TEMPERATURE"@) {
        AnalysisType::UncoupledThermoMechanical
    } else if frequency {
        AnalysisType::Modal
    } else if dynamic {
        AnalysisType::Dynamic
    } else if heat_transfer && statik {
        AnalysisType::CoupledThermoMechanical
    } else if heat_transfer {
        AnalysisType::HeatTransfer
    } else {
        AnalysisType::LinearStatic
    }
}

fn some_upper_holds(uppers: &Vec<String>, a: &str, b: &str) -> (r: bool)
    ensures
        r == some_holds(uppers@.map_values(|s: String| s@), a@, b@),
{
    let ghost us = uppers@.map_values(|s: String| s@);
    let mut j: usize = 0;
    while j < uppers.len()
        invariant
            us == uppers@.map_values(|s: String| s@),
            j <= uppers@.len(),
            forall|i: int| 0 <= i < j ==> !holds_both(#[trigger] us[i], a@, b@),
        decreases uppers.len() - j,
    {
        let u = &uppers[j];
        if contains_str(u.as_str(), a) && contains_str(u.as_str(), b) {
            assert(holds_both(us[j as int], a@, b@));
            return true;
        }
        j += 1;
    }
    false
}

/// The analysis chosen from upper-cased keywords and step flags (see
/// `classify`).
pub fn classify_analysis(
    uppers: &Vec<String>,
    has_frequency: bool,
    has_dynamic: bool,
    has_heat_transfer: bool,
    has_static: bool,
) -> (r: AnalysisType)
    ensures
        r == classify(
            uppers@.map_values(|s: String| s@),
            has_frequency,
            has_dynamic,
            has_heat_transfer,
            has_static,
        ),
{
    if some_upper_holds(uppers, "BUCKLE", "BUCKLE") {
        AnalysisType::Buckling
    } else if some_upper_holds(uppers, "COMPLEX", "FREQUENCY") {
        AnalysisType::ComplexFrequency
    } else if some_upper_holds(uppers, "GREEN", "GREEN") {
        AnalysisType::Green
    } else if some_upper_holds(uppers, "SENSITIVITY", "SENSITIVITY") {
        AnalysisType::Sensitivity
    } else if some_upper_holds(uppers, "MODAL", "DYNAMIC") {
        AnalysisType::ModalDynamic
    } else if some_upper_holds(uppers, "STEADY", "STATE") {
        AnalysisType::SteadyStateDynamics
    } else if some_upper_holds(uppers, "VISCO", "VISCO") {
        AnalysisType::Visco
    } else if some_upper_holds(uppers, "ELECTROMAGNETIC", "ELECTROMAGNETIC") {
        AnalysisType::Electromagnetic
    } else if some_upper_holds(uppers, "CFD", "CFD") {
        AnalysisType::CFD
    } else if some_upper_holds(uppers, "UNCOUPLED", "TEMPERATURE") {
        AnalysisType::UncoupledThermoMechanical
    } else if has_frequency {
        AnalysisType::Modal
    } else if has_dynamic {
        AnalysisType::Dynamic
    } else if has_heat_transfer && has_static {
        AnalysisType::CoupledThermoMechanical
    } else if has_heat_transfer {
        AnalysisType::HeatTransfer
    } else {
        AnalysisType::LinearStatic
    }
}

/// Some card's keyword, normalized, is `n`.
pub open spec fn has_normalized(cards: Seq<CardView>, n: Seq<char>) -> bool {
    exists|j: int| 0 <= j < cards.len() && normalized_view(#[trigger] cards[j].keyword) == n
}

/// The Unicode upper-case forms of the card keywords.
pub open spec fn deck_uppers(cards: Seq<CardView>) -> Seq<Seq<char>> {
    cards.map_values(|c: CardView| unicode_uppercase(c.keyword))
}

/// The analysis a deck asks for.
pub open spec fn detected_analysis(cards: Seq<CardView>) -> AnalysisType {
    classify(
        deck_uppers(cards),
        has_normalized(cards, "FREQUENCY"@),
        has_normalized(cards, "DYNAMIC"@),
        has_normalized(cards, "HEATTRANSFER"@),
        has_normalized(cards, "STATIC"@),
    )
}

fn cards_have_normalized(cards: &Vec<Card>, n: &str) -> (r: bool)
    ensures
        r == has_normalized(cards@.map_values(|c: Card| c@), n@),
{
    let ghost cv = cards@.map_values(|c: Card| c@);
    let mut j: usize = 0;
    while j < cards.len()
        invariant
            cv == cards@.map_values(|c: Card| c@),
            j <= cards@.len(),
            forall|i: int| 0 <= i < j ==> normalized_view(#[trigger] cv[i].keyword) != n@,
        decreases cards.len() - j,
    {
        let k = normalized(cards[j].keyword.as_str());
        if str_eq(k.as_str(), n) {
            assert(normalized_view(cv[j as int].keyword) == n@);
            return true;
        }
        j += 1;
    }
    false
}

/// Detects the analysis a deck asks for from its keywords (see
/// `detected_analysis`).
pub fn detect_analysis_type(deck: &Deck) -> (r: AnalysisType)
    ensures
        r == detected_analysis(deck@),
{
    let ghost cv = deck@;
    let mut uppers: Vec<String> = Vec::new();
    let mut j: usize = 0;
    while j < deck.cards.len()
        invariant
            cv == deck.cards@.map_values(|c: Card| c@),
            j <= deck.cards@.len(),
            uppers@.map_values(|s: String| s@) =~= deck_uppers(cv).subrange(0, j as int),
        decreases deck.cards.len() - j,
    {
        let u = to_uppercase(deck.cards[j].keyword.as_str());
        let ghost before = uppers@.map_values(|s: String| s@);
        uppers.push(u);
        assert(uppers@.map_values(|s: String| s@) =~= before.push(u@));
        assert(deck_uppers(cv).subrange(0, j + 1) =~= deck_uppers(cv).subrange(0, j as int).push(u@));
        j += 1;
    }
    assert(deck_uppers(cv).subrange(0, cv.len() as int) =~= deck_uppers(cv));
    let freq = cards_have_normalized(&deck.cards, "FREQUENCY");
    let dynamic = cards_have_normalized(&deck.cards, "DYNAMIC");
    let heat = cards_have_normalized(&deck.cards, "HEATTRANSFER");
    let stat = cards_have_normalized(&deck.cards, "STATIC");
    classify_analysis(&uppers, freq, dynamic, heat, stat)
}

/// A card whose upper-cased keyword is `ELEMENT` carries a `TYPE` parameter
/// whose upper-cased value is `B32R` or `B32`.
pub open spec fn declares_b32r(cards: Seq<CardView>) -> bool {
    exists|j: int, p: int|
        0 <= j < cards.len() && 0 <= p < cards[j].parameters.len()
        && unicode_uppercase(cards[j].keyword) == "ELEMENT"@
        && unicode_uppercase(#[trigger] cards[j].parameters[p].key) == "TYPE"@
        && cards[j].parameters[p].value is Some
        && (unicode_uppercase(cards[j].parameters[p].value->0) == "B32R"@
            || unicode_uppercase(cards[j].parameters[p].value->0) == "B32"@)
}

fn card_declares_b32r(card: &Card) -> (r: bool)
    ensures
        r == (exists|p: int|
            0 <= p < card@.parameters.len()
            && unicode_uppercase(card@.keyword) == "ELEMENT"@
            && unicode_uppercase(#[trigger] card@.parameters[p].key) == "TYPE"@
            && card@.parameters[p].value is Some
            && (unicode_uppercase(card@.parameters[p].value->0) == "B32R"@
                || unicode_uppercase(card@.parameters[p].value->0) == "B32"@)),
{
    let kw = to_uppercase(card.keyword.as_str());
    if !str_eq(kw.as_str(), "ELEMENT") {
        return false;
    }
    let ghost pv = card@.parameters;
    let mut p: usize = 0;
    while p < card.parameters.len()
        invariant
            pv == card@.parameters,
            pv == card.parameters@.map_values(|q: crate::inp::Parameter| q@),
            unicode_uppercase(card@.keyword) == "ELEMENT"@,
            p <= card.parameters@.len(),
            forall|i: int| 0 <= i < p ==> !(unicode_uppercase(#[trigger] pv[i].key) == "TYPE"@
                && pv[i].value is Some
                && (unicode_uppercase(pv[i].value->0) == "B32R"@
                    || unicode_uppercase(pv[i].value->0) == "B32"@)),
        decreases card.parameters.len() - p,
    {
        let param = &card.parameters[p];
        let key = to_uppercase(param.key.as_str());
        if str_eq(key.as_str(), "TYPE") {
            match &param.value {
                Some(v) => {
                    let t = to_uppercase(v.as_str());
                    if str_eq(t.as_str(), "B32R") || str_eq(t.as_str(), "B32") {
                        assert(unicode_uppercase(pv[p as int].key) == "TYPE"@);
                        return true;
                    }
                },
                None => {},
            }
        }
        p += 1;
    }
    false
}

/// Whether the deck declares `B32R` (or `B32`) beam elements (see
/// `declares_b32r`).
pub fn has_b32r_elements(deck: &Deck) -> (r: bool)
    ensures
        r == declares_b32r(deck@),
{
    let ghost cv = deck@;
    let mut j: usize = 0;
    while j < deck.cards.len()
        invariant
            cv == deck.cards@.map_values(|c: Card| c@),
            j <= deck.cards@.len(),
            forall|i: int, p: int| 0 <= i < j && 0 <= p < cv[i].parameters.len() ==> !(
                unicode_uppercase(cv[i].keyword) == "ELEMENT"@
                && unicode_uppercase(#[trigger] cv[i].parameters[p].key) == "TYPE"@
                && cv[i].parameters[p].value is Some
                && (unicode_uppercase(cv[i].parameters[p].value->0) == "B32R"@
                    || unicode_uppercase(cv[i].parameters[p].value->0) == "B32"@)),
        decreases deck.cards.len() - j,
    {
        if card_declares_b32r(&deck.cards[j]) {
            assert(deck.cards@[j as int]@ == cv[j as int]);
            return true;
        }
        j += 1;
    }
    false
}

proof fn lemma_tally_flags(cards: Seq<CardView>, n: int)
    requires
        0 <= n <= cards.len(),
    ensures
        tally_run(cards, n).has_frequency == has_normalized(cards.take(n), "FREQUENCY"@),
        tally_run(cards, n).has_dynamic == has_normalized(cards.take(n), "DYNAMIC"@),
        tally_run(cards, n).has_heat_transfer == has_normalized(cards.take(n), "HEATTRANSFER"@),
        tally_run(cards, n).has_static == has_normalized(cards.take(n), "STATIC"@),
    decreases n,
{
    reveal_strlit("STEP");
    reveal_strlit("STATIC");
    reveal_strlit("DYNAMIC");
    reveal_strlit("FREQUENCY");
    reveal_strlit("HEATTRANSFER");
    assert("STEP"@.len() == 4 && "STATIC"@.len() == 6 && "DYNAMIC"@.len() == 7);
    assert("FREQUENCY"@.len() == 9 && "HEATTRANSFER"@.len() == 12);
    let t = cards.take(n);
    if n > 0 {
        lemma_tally_flags(cards, n - 1);
        let p = cards.take(n - 1);
        assert(t.drop_last() =~= p);
        let k = normalized_view(cards[n - 1].keyword);
        assert(t[n - 1] == cards[n - 1]);
        assert forall|w: Seq<char>| has_normalized(t, w) == (has_normalized(p, w) || k == w) by {
            if has_normalized(p, w) {
                let j = choose|j: int| 0 <= j < p.len() && normalized_view(#[trigger] p[j].keyword) == w;
                assert(t[j] == p[j]);
            }
            if has_normalized(t, w) {
                let j = choose|j: int| 0 <= j < t.len() && normalized_view(#[trigger] t[j].keyword) == w;
                if j < n - 1 {
                    assert(p[j] == t[j]);
                }
            }
        }
    } else {
        assert(t =~= Seq::<CardView>::empty());
    }
}

/// The step flags the detection reads are those of the deck summary:
/// `*FREQUENCY`, `*DYNAMIC`, `*HEAT TRANSFER` and `*STATIC` cards, by
/// normalized keyword.
pub proof fn lemma_detection_uses_summary_flags(cards: Seq<CardView>)
    ensures
        deck_tally(cards).has_frequency == has_normalized(cards, "FREQUENCY"@),
        deck_tally(cards).has_dynamic == has_normalized(cards, "DYNAMIC"@),
        deck_tally(cards).has_heat_transfer == has_normalized(cards, "HEATTRANSFER"@),
        deck_tally(cards).has_static == has_normalized(cards, "STATIC"@),
{
    lemma_tally_flags(cards, cards.len() as int);
    assert(cards.take(cards.len() as int) =~= cards);
}


/// A `*FREQUENCY` card makes the analysis modal whatever other step cards
/// the deck has, unless a keyword names one of the specialised analyses
/// (buckling, complex frequency, Green, sensitivity, modal dynamics,
/// steady-state dynamics, visco, electromagnetics, CFD, uncoupled
/// temperature-displacement): the static, dynamic and heat-transfer step
/// flags then do not matter.
pub proof fn lemma_frequency_step_is_modal(cards: Seq<CardView>)
    requires
        has_normalized(cards, "FREQUENCY"@),
        forall|j: int| 0 <= j < cards.len() ==> {
            let u = #[trigger] unicode_uppercase(cards[j].keyword);
            &&& !has_run(u, "BUCKLE"@)
            &&& !(has_run(u, "COMPLEX"@) && has_run(u, "FREQUENCY"@))
            &&& !has_run(u, "GREEN"@)
            &&& !has_run(u, "SENSITIVITY"@)
            &&& !(has_run(u, "MODAL"@) && has_run(u, "DYNAMIC"@))
            &&& !(has_run(u, "STEADY"@) && has_run(u, "STATE"@))
            &&& !has_run(u, "VISCO"@)
            &&& !has_run(u, "ELECTROMAGNETIC"@)
            &&& !has_run(u, "CFD"@)
            &&& !(has_run(u, "UNCOUPLED"@) && has_run(u, "TEMPERATURE"@))
        },
    ensures
        detected_analysis(cards) == AnalysisType::Modal,
        forall|d: bool, h: bool, st: bool|
            classify(deck_uppers(cards), true, d, h, st) == AnalysisType::Modal,
{
    let us = deck_uppers(cards);
    assert forall|j: int| 0 <= j < us.len() implies us[j] == unicode_uppercase(cards[j].keyword) by {}
}

} // verus!
