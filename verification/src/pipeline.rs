//! The decisions of an analysis run that need no arithmetic on reals: the
//! model check, the degree-of-freedom bookkeeping and the status message,
//! whether the linear solver is tried, and which `*BEAM SECTION` card and
//! section shape a beam expansion reads.
use vstd::prelude::*;
use crate::analysis::AnalysisType;
use crate::deck::{CardView, ParamView};
use crate::inp::{Card, Deck, Parameter};
use crate::mesh::{Element, ElementType, element_type_name, type_of_name, lemma_type_name_round_trip};
use crate::expansion::joined;
use crate::model::ModelSummary;
use crate::text::{decimal, owned, push_decimal, push_str, str_eq, to_uppercase, unicode_uppercase};

verus! {

broadcast use vstd::string::group_string_axioms;

/// The counts and status of an analysis run. The displacement solution,
/// when there is one, is kept beside it by the caller.
#[derive(Debug, Clone)]
pub struct AnalysisResults {
    /// Whether the model was set up.
    pub success: bool,
    /// Number of degrees of freedom (three per node).
    pub num_dofs: usize,
    /// Number of equations solved: the free degrees of freedom.
    pub num_equations: usize,
    /// The analysis that was run.
    pub analysis_type: AnalysisType,
    /// Human-readable status message.
    pub message: String,
}

/// Error of a model without nodes.
pub open spec fn msg_no_nodes() -> Seq<char> {
    "No nodes defined in model"@
}

/// Error of a model without elements.
pub open spec fn msg_no_elements() -> Seq<char> {
    "No elements defined in model"@
}

/// Checks that a model has node and element rows before it is set up:
/// an error without node rows, else one without element rows.
pub fn check_model(summary: &ModelSummary) -> (r: Result<(), String>)
    ensures
        r is Ok <==> summary.node_rows != 0 && summary.element_rows != 0,
        match r {
            Ok(_) => true,
            Err(e) => e@ == (if summary.node_rows == 0 { msg_no_nodes() } else { msg_no_elements() }),
        },
{
    if summary.node_rows == 0 {
        return Err(owned("No nodes defined in model"));
    }
    if summary.element_rows == 0 {
        return Err(owned("No elements defined in model"));
    }
    Ok(())
}


/// The element types the linear solver assembles.
pub open spec fn solver_supports(t: ElementType) -> bool {
    match t {
        ElementType::T3D2 | ElementType::T3D3 | ElementType::B31 | ElementType::B32
        | ElementType::S4 | ElementType::S8 | ElementType::C3D8 | ElementType::C3D10
        | ElementType::C3D20 => true,
        _ => false,
    }
}

/// Whether the linear solver assembles elements of type `t`.
pub fn is_solver_supported(t: ElementType) -> (r: bool)
    ensures
        r == solver_supports(t),
{
    match t {
        ElementType::T3D2 | ElementType::T3D3 | ElementType::B31 | ElementType::B32
        | ElementType::S4 | ElementType::S8 | ElementType::C3D8 | ElementType::C3D10
        | ElementType::C3D20 => true,
        _ => false,
    }
}

/// Whether some element is of a type the linear solver assembles.
pub fn has_supported_elements(elements: &Vec<Element>) -> (r: bool)
    ensures
        r == exists|i: int| 0 <= i < elements@.len() && solver_supports(#[trigger] elements@[i].element_type),
{
    let mut i: usize = 0;
    while i < elements.len()
        invariant
            i <= elements@.len(),
            forall|k: int| 0 <= k < i ==> !solver_supports(#[trigger] elements@[k].element_type),
        decreases elements.len() - i,
    {
        if is_solver_supported(elements[i].element_type) {
            return true;
        }
        i += 1;
    }
    false
}

/// Note of a linear static run without materials.
pub open spec fn msg_no_materials() -> Seq<char> {
    " [no materials defined]"@
}

/// Note of a linear static run whose mesh has no element the solver
/// assembles.
pub open spec fn msg_no_supported() -> Seq<char> {
    " [no supported elements found - solver supports: T3D2, T3D3, B31, B32, S4, S8, C3D8, C3D10, C3D20]"@
}

/// The note that ends the status message when the linear solve is not
/// tried, or `None` when it is: only a linear static analysis solves, and
/// only with materials and with an element the solver assembles.
pub open spec fn pre_solve_note(analysis: AnalysisType, materials_built: bool, has_supported: bool) -> Option<Seq<char>> {
    if analysis != AnalysisType::LinearStatic {
        Some(Seq::empty())
    } else if !materials_built {
        Some(msg_no_materials())
    } else if !has_supported {
        Some(msg_no_supported())
    } else {
        None
    }
}

/// Decides whether the linear solve is tried (see `pre_solve_note`).
pub fn solve_note(analysis: AnalysisType, materials_built: bool, has_supported: bool) -> (r: Option<String>)
    ensures
        match r {
            Some(s) => pre_solve_note(analysis, materials_built, has_supported) == Some(s@),
            None => pre_solve_note(analysis, materials_built, has_supported) is None,
        },
{
    if analysis != AnalysisType::LinearStatic {
        Some(String::new())
    } else if !materials_built {
        Some(owned(" [no materials defined]"))
    } else if !has_supported {
        Some(owned(" [no supported elements found - solver supports: T3D2, T3D3, B31, B32, S4, S8, C3D8, C3D10, C3D20]"))
    } else {
        None
    }
}

/// Whether the solve assembles a sparse system: for expanded beams and for
/// meshes of more than a hundred nodes.
pub fn use_sparse_assembly(expanded: bool, num_nodes: usize) -> (r: bool)
    ensures
        r == (expanded || num_nodes > 100),
{
    expanded || num_nodes > 100
}

/// The status message of a model that was set up.
pub open spec fn initialized_message(num_nodes: nat, num_elements: nat, num_dofs: nat, free: nat, constrained: nat, loads: nat, note: Seq<char>) -> Seq<char> {
    "Model initialized: "@ + decimal(num_nodes) + " nodes, "@ + decimal(num_elements) + " elements, "@
        + decimal(num_dofs) + " DOFs ("@ + decimal(free) + " free, "@ + decimal(constrained) + " constrained), "@
        + decimal(loads) + " loads"@ + note
}

/// The results of a model of `num_nodes` nodes and `num_elements`
/// elements, three degrees of freedom per node, of which `constrained`
/// are constrained, with `loads` concentrated loads; `note` ends the
/// message (the solve outcome).
pub fn initialized_results(
    analysis: AnalysisType,
    num_nodes: usize,
    num_elements: usize,
    constrained: usize,
    loads: usize,
    note: &str,
) -> (r: AnalysisResults)
    requires
        3 * num_nodes <= usize::MAX,
        constrained <= 3 * num_nodes,
    ensures
        r.success,
        r.num_dofs == 3 * num_nodes,
        r.num_equations == 3 * num_nodes - constrained,
        r.analysis_type == analysis,
        r.message@ == initialized_message(
            num_nodes as nat, num_elements as nat, (3 * num_nodes) as nat,
            (3 * num_nodes - constrained) as nat, constrained as nat, loads as nat, note@),
{
    let num_dofs = 3 * num_nodes;
    let free = num_dofs - constrained;
    let mut m = String::new();
    push_str(&mut m, "Model initialized: ");
    push_decimal(&mut m, num_nodes);
    push_str(&mut m, " nodes, ");
    push_decimal(&mut m, num_elements);
    push_str(&mut m, " elements, ");
    push_decimal(&mut m, num_dofs);
    push_str(&mut m, " DOFs (");
    push_decimal(&mut m, free);
    push_str(&mut m, " free, ");
    push_decimal(&mut m, constrained);
    push_str(&mut m, " constrained), ");
    push_decimal(&mut m, loads);
    push_str(&mut m, " loads");
    push_str(&mut m, note);
    AnalysisResults { success: true, num_dofs, num_equations: free, analysis_type: analysis, message: m }
}


/// The card is a `*BEAM SECTION` card, by upper-cased keyword.
pub open spec fn is_beam_section(c: CardView) -> bool {
    unicode_uppercase(c.keyword) == "BEAM SECTION"@
}

/// The index of the first `*BEAM SECTION` card at or after `i`.
pub open spec fn first_beam_section_from(cards: Seq<CardView>, i: int) -> Option<int>
    decreases cards.len() - i,
{
    if i < 0 || i >= cards.len() {
        None
    } else if is_beam_section(cards[i]) {
        Some(i)
    } else {
        first_beam_section_from(cards, i + 1)
    }
}

/// The section shape the parameters name: the value of the last `SECTION`
/// parameter (upper-cased key) that has one, else `RECT`.
pub open spec fn section_param(ps: Seq<ParamView>) -> Seq<char>
    decreases ps.len(),
{
    if ps.len() == 0 {
        "RECT"@
    } else if unicode_uppercase(ps.last().key) == "SECTION"@ && ps.last().value is Some {
        ps.last().value->0
    } else {
        section_param(ps.drop_last())
    }
}

/// Error of a deck without a `*BEAM SECTION` card.
pub open spec fn msg_no_beam_section() -> Seq<char> {
    "No BEAM SECTION card found in deck"@
}

/// Error of a `*BEAM SECTION` card without data lines.
pub open spec fn msg_beam_section_no_data() -> Seq<char> {
    "BEAM SECTION card missing dimension data"@
}

/// The `*BEAM SECTION` card a beam expansion reads, with its section
/// name: the first such card, which must have a data line.
pub open spec fn beam_section_choice(cards: Seq<CardView>) -> Result<(int, Seq<char>), Seq<char>> {
    match first_beam_section_from(cards, 0) {
        None => Err(msg_no_beam_section()),
        Some(j) => if cards[j].data_lines.len() == 0 {
            Err(msg_beam_section_no_data())
        } else {
            Ok((j, section_param(cards[j].parameters)))
        },
    }
}

fn card_section_param(card: &Card) -> (r: String)
    ensures
        r@ == section_param(card@.parameters),
{
    let ghost pv = card@.parameters;
    let mut cur = owned("RECT");
    let mut p: usize = 0;
    assert(pv.take(0) =~= Seq::<ParamView>::empty());
    while p < card.parameters.len()
        invariant
            pv == card.parameters@.map_values(|q: Parameter| q@),
            p <= pv.len(),
            cur@ == section_param(pv.take(p as int)),
        decreases card.parameters.len() - p,
    {
        let param = &card.parameters[p];
        assert(pv.take(p + 1).drop_last() =~= pv.take(p as int));
        assert(pv.take(p + 1).last() == param@);
        let key = to_uppercase(param.key.as_str());
        if str_eq(key.as_str(), "SECTION") {
            match &param.value {
                Some(v) => {
                    cur = owned(v.as_str());
                },
                None => {},
            }
        }
        p += 1;
    }
    assert(pv.take(pv.len() as int) =~= pv);
    cur
}

/// Picks the `*BEAM SECTION` card and its section name (see
/// `beam_section_choice`); the caller reads the dimensions and the normal
/// from the card's data lines.
pub fn beam_section_card(deck: &Deck) -> (r: Result<(usize, String), String>)
    ensures
        match r {
            Ok((j, name)) => beam_section_choice(deck@) == Ok::<(int, Seq<char>), Seq<char>>((j as int, name@)),
            Err(e) => beam_section_choice(deck@) == Err::<(int, Seq<char>), Seq<char>>(e@),
        },
{
    let ghost cv = deck@;
    let mut j: usize = 0;
    while j < deck.cards.len()
        invariant
            cv == deck.cards@.map_values(|c: Card| c@),
            j <= cv.len(),
            first_beam_section_from(cv, 0) == first_beam_section_from(cv, j as int),
        decreases deck.cards.len() - j,
    {
        let card = &deck.cards[j];
        assert(cv[j as int] == card@);
        let kw = to_uppercase(card.keyword.as_str());
        if str_eq(kw.as_str(), "BEAM SECTION") {
            if card.data_lines.len() == 0 {
                return Err(owned("BEAM SECTION card missing dimension data"));
            }
            let name = card_section_param(card);
            return Ok((j, name));
        }
        j += 1;
    }
    Err(owned("No BEAM SECTION card found in deck"))
}

/// The section shapes a beam expansion knows.
#[derive(Debug, Clone, Copy, PartialEq, Eq, Structural)]
pub enum SectionShapeKind {
    /// `RECT`: width and height.
    Rectangular,
    /// `CIRC`: radius.
    Circular,
}

/// Error of a section name that is neither `RECT` nor `CIRC`.
pub open spec fn msg_unsupported_section(name: Seq<char>) -> Seq<char> {
    "Unsupported beam section type: "@ + name
}

/// The shape a section name denotes, by its upper-cased form.
pub fn section_shape_kind(name: &str) -> (r: Result<SectionShapeKind, String>)
    ensures
        unicode_uppercase(name@) == "RECT"@ ==> r == Ok::<SectionShapeKind, String>(SectionShapeKind::Rectangular),
        unicode_uppercase(name@) == "CIRC"@ ==> r == Ok::<SectionShapeKind, String>(SectionShapeKind::Circular),
        unicode_uppercase(name@) != "RECT"@ && unicode_uppercase(name@) != "CIRC"@ ==> match r {
            Ok(_) => false,
            Err(e) => e@ == msg_unsupported_section(name@),
        },
{
    proof {
        reveal_strlit("RECT");
        reveal_strlit("CIRC");
        assert("RECT"@[0] != "CIRC"@[0]);
    }
    let u = to_uppercase(name);
    if str_eq(u.as_str(), "RECT") {
        Ok(SectionShapeKind::Rectangular)
    } else if str_eq(u.as_str(), "CIRC") {
        Ok(SectionShapeKind::Circular)
    } else {
        let mut e = owned("Unsupported beam section type: ");
        push_str(&mut e, name);
        Err(e)
    }
}


/// The element type names the no-supported-elements note lists, in order.
pub open spec fn listed_supported_names() -> Seq<Seq<char>> {
    seq!["T3D2"@, "T3D3"@, "B31"@, "B32"@, "S4"@, "S8"@, "C3D8"@, "C3D10"@, "C3D20"@]
}

/// The no-supported-elements note names exactly the listed types, and every
/// type it names is one the solver assembles: a mesh holding an element of
/// any of them has supported elements, so the solve is tried.
pub proof fn lemma_listed_types_are_supported()
    ensures
        msg_no_supported() == " [no supported elements found - solver supports: "@
            + joined(listed_supported_names(), ", "@) + "]"@,
        forall|i: int| 0 <= i < listed_supported_names().len() ==>
            ((#[trigger] type_of_name(listed_supported_names()[i])) matches Some(t) && solver_supports(t)),
        forall|es: Seq<Element>, i: int| 0 <= i < es.len()
            && listed_supported_names().contains(element_type_name(#[trigger] es[i].element_type))
            ==> exists|k: int| 0 <= k < es.len() && solver_supports(#[trigger] es[k].element_type),
{
    let names = listed_supported_names();
    let ts = seq![ElementType::T3D2, ElementType::T3D3, ElementType::B31, ElementType::B32, ElementType::S4,
        ElementType::S8, ElementType::C3D8, ElementType::C3D10, ElementType::C3D20];
    assert forall|i: int| 0 <= i < names.len() implies names[i] == element_type_name(ts[i]) && solver_supports(ts[i]) by {}
    assert forall|i: int| 0 <= i < names.len() implies
        ((#[trigger] type_of_name(names[i])) matches Some(t) && solver_supports(t)) by {
        lemma_type_name_round_trip(ts[i]);
    }
    assert forall|es: Seq<Element>, i: int| 0 <= i < es.len()
        && names.contains(element_type_name(#[trigger] es[i].element_type))
        implies exists|k: int| 0 <= k < es.len() && solver_supports(#[trigger] es[k].element_type) by {
        let j = choose|j: int| 0 <= j < names.len() && names[j] == element_type_name(es[i].element_type);
        lemma_type_name_round_trip(es[i].element_type);
        lemma_type_name_round_trip(ts[j]);
        assert(solver_supports(es[i].element_type));
    }
    reveal_strlit(" [no supported elements found - solver supports: T3D2, T3D3, B31, B32, S4, S8, C3D8, C3D10, C3D20]");
    reveal_strlit(" [no supported elements found - solver supports: ");
    reveal_strlit(", ");
    reveal_strlit("]");
    reveal_strlit("T3D2");
    reveal_strlit("T3D3");
    reveal_strlit("B31");
    reveal_strlit("B32");
    reveal_strlit("S4");
    reveal_strlit("S8");
    reveal_strlit("C3D8");
    reveal_strlit("C3D10");
    reveal_strlit("C3D20");
    reveal_with_fuel(joined, 10);
    assert(joined(names, ", "@) =~= "T3D2, T3D3, B31, B32, S4, S8, C3D8, C3D10, C3D20"@) by {
        reveal_strlit("T3D2, T3D3, B31, B32, S4, S8, C3D8, C3D10, C3D20");
        assert(names.drop_last().drop_last().drop_last().drop_last().drop_last().drop_last().drop_last().drop_last() =~= seq!["T3D2"@]);
    }
    reveal_strlit("T3D2, T3D3, B31, B32, S4, S8, C3D8, C3D10, C3D20");
    assert(msg_no_supported() =~= " [no supported elements found - solver supports: "@
        + "T3D2, T3D3, B31, B32, S4, S8, C3D8, C3D10, C3D20"@ + "]"@);
}

} // verus!
