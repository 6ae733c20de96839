//! Material models, the reading of material cards from a deck,
//! material-library statistics, and the status words of the iterative
//! solvers.
use vstd::prelude::*;
use crate::deck::{CardView, ParamView};
use crate::inp::{Card, Deck, Parameter};
use crate::mesh_builder::{split_commas, split_fields, fields_view};
use crate::text::{chars_of, trim, trim_chars, string_from, owned, push_str, to_uppercase, unicode_uppercase, str_eq};

verus! {

/// Constitutive model of a material.
#[derive(Debug, Clone, Copy, PartialEq, Eq, Structural)]
pub enum MaterialModel {
    /// Linear elastic isotropic.
    LinearElastic,
    /// Elasto-plastic.
    Plastic,
    /// Hyperelastic (rubber-like).
    Hyperelastic,
    /// Viscoplastic.
    Viscoplastic,
}

impl Default for MaterialModel {
    fn default() -> (r: MaterialModel)
        ensures
            r == MaterialModel::LinearElastic,
    {
        MaterialModel::LinearElastic
    }
}

/// Counts over a material library.
#[derive(Debug, Clone)]
pub struct MaterialStatistics {
    /// Materials defined.
    pub num_materials: usize,
    /// Materials with what a structural analysis needs.
    pub num_valid_structural: usize,
    /// Element-material assignments.
    pub num_element_assignments: usize,
}

/// Convergence status of a nonlinear solve.
#[derive(Debug, Clone, Copy, PartialEq, Eq, Structural)]
pub enum ConvergenceStatus {
    /// All criteria met.
    Converged,
    /// Not converged yet.
    NotConverged,
    /// Residual increasing.
    Diverged,
}

/// Which eigenvalues a frequency analysis extracts.
#[derive(Debug, Clone, Copy, PartialEq, Eq, Structural)]
pub enum WhichEigenvalues {
    /// Smallest magnitude (lowest frequencies).
    SmallestMagnitude,
    /// Largest magnitude (highest frequencies).
    LargestMagnitude,
    /// Around a target eigenvalue.
    Target,
}

/// A material property given by one number.
#[derive(Debug, Clone, Copy, PartialEq, Eq, Structural)]
pub enum ScalarProperty {
    Density,
    Expansion,
    Conductivity,
    SpecificHeat,
}

/// The keyword of the card that gives a property.
pub open spec fn property_keyword(p: ScalarProperty) -> Seq<char> {
    match p {
        ScalarProperty::Density => "DENSITY"@,
        ScalarProperty::Expansion => "EXPANSION"@,
        ScalarProperty::Conductivity => "CONDUCTIVITY"@,
        ScalarProperty::SpecificHeat => "SPECIFIC HEAT"@,
    }
}

impl ScalarProperty {
    /// The keyword of the card that gives this property.
    pub fn keyword(&self) -> (r: &'static str)
        ensures
            r@ == property_keyword(*self),
    {
        match self {
            ScalarProperty::Density => "DENSITY",
            ScalarProperty::Expansion => "EXPANSION",
            ScalarProperty::Conductivity => "CONDUCTIVITY",
            ScalarProperty::SpecificHeat => "SPECIFIC HEAT",
        }
    }
}

/// One step of reading the material cards of a deck. The numbers are kept
/// as written: a `Define` starts (or restarts) a material, the others set
/// properties of the material named.
#[derive(Debug, Clone, PartialEq, Eq)]
pub enum MaterialStep {
    /// A `*MATERIAL` card with this name.
    Define(String),
    /// An `*ELASTIC` card: Young's modulus and Poisson's ratio fields.
    Elastic { material: String, modulus: String, ratio: String },
    /// A one-number property card: its first field, and its first data
    /// line trimmed (which an error message quotes).
    Scalar { material: String, property: ScalarProperty, field: String, line: String },
}

/// Model of a step.
pub enum StepView {
    Define(Seq<char>),
    Elastic(Seq<char>, Seq<char>, Seq<char>),
    Scalar(Seq<char>, ScalarProperty, Seq<char>, Seq<char>),
}

impl View for MaterialStep {
    type V = StepView;

    open spec fn view(&self) -> StepView {
        match self {
            MaterialStep::Define(n) => StepView::Define(n@),
            MaterialStep::Elastic { material, modulus, ratio } => StepView::Elastic(material@, modulus@, ratio@),
            MaterialStep::Scalar { material, property, field, line } => StepView::Scalar(material@, *property, field@, line@),
        }
    }
}

/// The first parameter whose upper-cased key is `NAME`.
pub open spec fn first_name_param(ps: Seq<ParamView>) -> Option<ParamView>
    decreases ps.len(),
{
    if ps.len() == 0 {
        None
    } else if unicode_uppercase(ps[0].key) == "NAME"@ {
        Some(ps[0])
    } else {
        first_name_param(ps.drop_first())
    }
}

/// The name a `*MATERIAL` card gives, or why it gives none.
pub open spec fn material_name_of(c: CardView) -> Result<Seq<char>, Seq<char>> {
    match first_name_param(c.parameters) {
        None => Err("MATERIAL card missing NAME parameter"@),
        Some(p) => match p.value {
            None => Err("MATERIAL parameter missing NAME value"@),
            Some(v) => Ok(v),
        },
    }
}

/// What an `*ELASTIC` card gives for material `m`: the first two fields of
/// its first data line.
pub open spec fn elastic_step(c: CardView, m: Seq<char>) -> Result<StepView, Seq<char>> {
    if c.data_lines.len() == 0 {
        Err("ELASTIC card has no data lines"@)
    } else {
        let line = c.data_lines[0];
        let parts = split_commas(line);
        if parts.len() < 2 {
            Err("ELASTIC data line needs at least 2 values: "@ + line)
        } else {
            Ok(StepView::Elastic(m, trim(parts[0]), trim(parts[1])))
        }
    }
}

/// What a one-number property card gives for material `m`: the first
/// field of its trimmed first data line.
pub open spec fn scalar_step(c: CardView, m: Seq<char>, p: ScalarProperty) -> Result<StepView, Seq<char>> {
    if c.data_lines.len() == 0 {
        Err(property_keyword(p) + " card has no data lines"@)
    } else {
        let line = trim(c.data_lines[0]);
        Ok(StepView::Scalar(m, p, trim(split_commas(line)[0]), line))
    }
}

/// What one card gives while `current` is the material last defined: a
/// `MATERIAL` card defines one, a property card sets a property of the
/// current material (and is passed over when there is none), other cards
/// give nothing. Keywords are compared upper-cased.
pub open spec fn card_step(c: CardView, current: Option<Seq<char>>) -> Option<Result<StepView, Seq<char>>> {
    let k = unicode_uppercase(c.keyword);
    if k == "MATERIAL"@ {
        Some(match material_name_of(c) {
            Ok(n) => Ok(StepView::Define(n)),
            Err(e) => Err(e),
        })
    } else if k == "ELASTIC"@ {
        match current {
            Some(m) => Some(elastic_step(c, m)),
            None => None,
        }
    } else {
        let p = if k == "DENSITY"@ {
            Some(ScalarProperty::Density)
        } else if k == "EXPANSION"@ {
            Some(ScalarProperty::Expansion)
        } else if k == "CONDUCTIVITY"@ {
            Some(ScalarProperty::Conductivity)
        } else if k == "SPECIFIC HEAT"@ {
            Some(ScalarProperty::SpecificHeat)
        } else {
            None
        };
        match (p, current) {
            (Some(p), Some(m)) => Some(scalar_step(c, m, p)),
            _ => None,
        }
    }
}

/// The steps of the cards `cards`, read in order from material `current`;
/// reading stops at the first error, which is the last entry.
pub open spec fn steps_from(cards: Seq<CardView>, current: Option<Seq<char>>) -> Seq<Result<StepView, Seq<char>>>
    decreases cards.len(),
{
    if cards.len() == 0 {
        Seq::empty()
    } else {
        match card_step(cards[0], current) {
            None => steps_from(cards.drop_first(), current),
            Some(Err(e)) => seq![Err(e)],
            Some(Ok(s)) => seq![Ok(s)] + steps_from(
                cards.drop_first(),
                match s {
                    StepView::Define(n) => Some(n),
                    _ => current,
                },
            ),
        }
    }
}

/// Models of steps read.
pub open spec fn steps_view(v: Seq<Result<MaterialStep, String>>) -> Seq<Result<StepView, Seq<char>>> {
    v.map_values(|r: Result<MaterialStep, String>| match r {
        Ok(s) => Ok(s@),
        Err(m) => Err(m@),
    })
}

/// The name a `*MATERIAL` card gives (see `material_name_of`).
pub fn material_name(card: &Card) -> (r: Result<String, String>)
    ensures
        match r {
            Ok(n) => material_name_of(card@) == Ok::<Seq<char>, Seq<char>>(n@),
            Err(m) => material_name_of(card@) == Err::<Seq<char>, Seq<char>>(m@),
        },
{
    let ps = &card.parameters;
    let ghost pv = card@.parameters;
    assert(pv.skip(0) =~= pv);
    let mut i: usize = 0;
    while i < ps.len()
        invariant
            pv == ps@.map_values(|p: Parameter| p@),
            pv == card@.parameters,
            i <= ps@.len(),
            first_name_param(pv) == first_name_param(pv.skip(i as int)),
        decreases ps.len() - i,
    {
        let key = to_uppercase(ps[i].key.as_str());
        assert(pv.skip(i as int)[0] == pv[i as int]);
        assert(pv[i as int] == ps@[i as int]@);
        if str_eq(key.as_str(), "NAME") {
            assert(first_name_param(pv.skip(i as int)) == Some(pv[i as int]));
            match &ps[i].value {
                Some(v) => {
                    let n = v.clone();
                    assert(pv[i as int].value == Some(v@));
                    assert(n@ == v@);
                    return Ok(n);
                },
                None => {
                    return Err(owned("MATERIAL parameter missing NAME value"));
                },
            }
        }
        assert(pv.skip(i as int).drop_first() =~= pv.skip(i + 1));
        i += 1;
    }
    assert(pv.skip(i as int) =~= Seq::<ParamView>::empty());
    Err(owned("MATERIAL card missing NAME parameter"))
}

fn elastic_exec(card: &Card, m: &String) -> (r: Result<MaterialStep, String>)
    ensures
        match r {
            Ok(s) => elastic_step(card@, m@) == Ok::<StepView, Seq<char>>(s@),
            Err(e) => elastic_step(card@, m@) == Err::<StepView, Seq<char>>(e@),
        },
{
    if card.data_lines.len() == 0 {
        return Err(owned("ELASTIC card has no data lines"));
    }
    let line = card.data_lines[0].as_str();
    assert(card@.data_lines[0] == line@);
    let chars = chars_of(line);
    let parts = split_fields(chars.as_slice());
    if parts.len() < 2 {
        let mut e = owned("ELASTIC data line needs at least 2 values: ");
        push_str(&mut e, line);
        return Err(e);
    }
    assert(fields_view(parts@)[0] == parts@[0]@ && fields_view(parts@)[1] == parts@[1]@);
    let modulus = string_from(trim_chars(parts[0].as_slice()).as_slice());
    let ratio = string_from(trim_chars(parts[1].as_slice()).as_slice());
    Ok(MaterialStep::Elastic { material: m.clone(), modulus, ratio })
}

fn scalar_exec(card: &Card, m: &String, p: ScalarProperty) -> (r: Result<MaterialStep, String>)
    ensures
        match r {
            Ok(s) => scalar_step(card@, m@, p) == Ok::<StepView, Seq<char>>(s@),
            Err(e) => scalar_step(card@, m@, p) == Err::<StepView, Seq<char>>(e@),
        },
{
    if card.data_lines.len() == 0 {
        let mut e = owned(p.keyword());
        push_str(&mut e, " card has no data lines");
        return Err(e);
    }
    assert(card@.data_lines[0] == card.data_lines@[0]@);
    let line = trim_chars(chars_of(card.data_lines[0].as_str()).as_slice());
    let parts = split_fields(line.as_slice());
    assert(fields_view(parts@)[0] == parts@[0]@);
    let field = string_from(trim_chars(parts[0].as_slice()).as_slice());
    Ok(MaterialStep::Scalar { material: m.clone(), property: p, field, line: string_from(line.as_slice()) })
}

/// Reads the material cards of a deck (see `steps_from`): one step per
/// card that defines a material or sets a property of the current one,
/// in deck order, ending at the first card that cannot be read.
pub fn material_steps(deck: &Deck) -> (r: Vec<Result<MaterialStep, String>>)
    ensures
        steps_view(r@) == steps_from(deck@, None),
{
    let ghost dv = deck@;
    let mut out: Vec<Result<MaterialStep, String>> = Vec::new();
    let mut current: Option<String> = None;
    let mut i: usize = 0;
    let mut failed = false;
    assert(dv.skip(0) =~= dv);
    assert(steps_view(out@) =~= Seq::<Result<StepView, Seq<char>>>::empty());
    while i < deck.cards.len() && !failed
        invariant
            dv == deck@,
            dv.len() == deck.cards@.len(),
            i <= dv.len(),
            !failed ==> steps_from(dv, None) == steps_view(out@) + steps_from(dv.skip(i as int), opt_name(current)),
            failed ==> steps_from(dv, None) == steps_view(out@),
        decreases deck.cards.len() - i + (if failed { 0int } else { 1int }),
    {
        let card = &deck.cards[i];
        let ghost rest = dv.skip(i as int);
        assert(rest[0] == card@);
        assert(rest.drop_first() =~= dv.skip(i + 1));
        let ghost cur = opt_name(current);
        let k = to_uppercase(card.keyword.as_str());
        let step: Option<Result<MaterialStep, String>> = if str_eq(k.as_str(), "MATERIAL") {
            match material_name(card) {
                Ok(n) => Some(Ok(MaterialStep::Define(n))),
                Err(e) => Some(Err(e)),
            }
        } else if str_eq(k.as_str(), "ELASTIC") {
            match &current {
                Some(m) => Some(elastic_exec(card, m)),
                None => None,
            }
        } else {
            let p = if str_eq(k.as_str(), "DENSITY") {
                Some(ScalarProperty::Density)
            } else if str_eq(k.as_str(), "EXPANSION") {
                Some(ScalarProperty::Expansion)
            } else if str_eq(k.as_str(), "CONDUCTIVITY") {
                Some(ScalarProperty::Conductivity)
            } else if str_eq(k.as_str(), "SPECIFIC HEAT") {
                Some(ScalarProperty::SpecificHeat)
            } else {
                None
            };
            match (p, &current) {
                (Some(p), Some(m)) => Some(scalar_exec(card, m, p)),
                _ => None,
            }
        };
        assert(card_step(card@, cur) == match step {
            Some(Ok(s)) => Some(Ok::<StepView, Seq<char>>(s@)),
            Some(Err(e)) => Some(Err::<StepView, Seq<char>>(e@)),
            None => None::<Result<StepView, Seq<char>>>,
        });
        match step {
            None => {},
            Some(Ok(s)) => {
                let ghost before = steps_view(out@);
                let ghost sv = s@;
                let next = match &s {
                    MaterialStep::Define(n) => Some(n.clone()),
                    _ => current,
                };
                out.push(Ok(s));
                assert(steps_view(out@) =~= before.push(Ok(sv)));
                assert(seq![Ok::<StepView, Seq<char>>(sv)] + steps_from(dv.skip(i + 1), opt_name(next))
                    =~= steps_from(rest, cur));
                assert(before + steps_from(rest, cur) =~= steps_view(out@) + steps_from(dv.skip(i + 1), opt_name(next)));
                current = next;
            },
            Some(Err(e)) => {
                let ghost before = steps_view(out@);
                let ghost ev = e@;
                out.push(Err(e));
                assert(steps_view(out@) =~= before.push(Err(ev)));
                assert(steps_from(rest, cur) =~= seq![Err::<StepView, Seq<char>>(ev)]);
                assert(before + steps_from(rest, cur) =~= steps_view(out@));
                failed = true;
            },
        }
        i += 1;
    }
    if !failed {
        assert(dv.skip(i as int) =~= Seq::<CardView>::empty());
        assert(steps_view(out@) + Seq::<Result<StepView, Seq<char>>>::empty() =~= steps_view(out@));
    }
    out
}

/// View of the current material's name.
pub open spec fn opt_name(o: Option<String>) -> Option<Seq<char>> {
    match o {
        Some(s) => Some(s@),
        None => None,
    }
}

/// Before any `*MATERIAL` card, property cards are passed over: a deck
/// without material cards gives no steps.
pub proof fn lemma_no_material_no_steps(cards: Seq<CardView>)
    requires
        forall|i: int| 0 <= i < cards.len() ==> unicode_uppercase(#[trigger] cards[i].keyword) != "MATERIAL"@,
    ensures
        steps_from(cards, None) == Seq::<Result<StepView, Seq<char>>>::empty(),
    decreases cards.len(),
{
    if cards.len() > 0 {
        assert(unicode_uppercase(cards[0].keyword) != "MATERIAL"@);
        assert(card_step(cards[0], None) is None);
        let rest = cards.drop_first();
        assert forall|i: int| 0 <= i < rest.len() implies unicode_uppercase(#[trigger] rest[i].keyword) != "MATERIAL"@ by {
            assert(rest[i] == cards[i + 1]);
        }
        lemma_no_material_no_steps(rest);
    }
}

} // verus!
