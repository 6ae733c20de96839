//! Boundary conditions read from the `*BOUNDARY` and `*CLOAD` cards of a
//! deck. Each data line gives its nodes (a node id or the name of a node
//! set), its degrees of freedom and, as written, the number it prescribes;
//! lines that cannot be read give their error message instead.
use vstd::prelude::*;
use crate::deck::CardView;
use crate::expansion::joined;
use crate::inp::{Card, Deck, opt_view};
use crate::mesh_builder::{split_commas, split_fields, fields_view, parse_i32, parse_i32_view, parse_usize,
    parse_usize_view, strings_view};
use crate::text::{chars_of, trim, trim_chars, string_from, owned, push_str, push_decimal, decimal,
    to_uppercase, unicode_uppercase, str_eq};

verus! {

broadcast use vstd::string::group_string_axioms;

/// A named set of nodes.
#[derive(Debug, Clone, PartialEq, Eq)]
pub struct NodeSet {
    pub name: String,
    pub nodes: Vec<i32>,
}

/// Names and nodes of the sets.
pub open spec fn sets_view(v: Seq<NodeSet>) -> Seq<(Seq<char>, Seq<i32>)> {
    v.map_values(|s: NodeSet| (s.name@, s.nodes@))
}

/// The nodes of the first set called `name`.
pub open spec fn set_nodes(sets: Seq<(Seq<char>, Seq<i32>)>, name: Seq<char>) -> Option<Seq<i32>>
    decreases sets.len(),
{
    if sets.len() == 0 {
        None
    } else if sets[0].0 == name {
        Some(sets[0].1)
    } else {
        set_nodes(sets.drop_first(), name)
    }
}

/// The nodes a node field stands for: the node itself when the field is an
/// integer, else the nodes of the set of that name.
pub open spec fn field_nodes(field: Seq<char>, sets: Seq<(Seq<char>, Seq<i32>)>) -> Option<Seq<i32>> {
    match parse_i32_view(field) {
        Some(n) => Some(seq![n]),
        None => set_nodes(sets, field),
    }
}

/// A prescribed displacement: nodes, first and last degree of freedom, and
/// the prescribed value as written (none when the line gives none).
#[derive(Debug, Clone, PartialEq, Eq)]
pub struct BoundaryEntry {
    pub nodes: Vec<i32>,
    pub first_dof: usize,
    pub last_dof: usize,
    pub value: Option<String>,
}

/// A concentrated load: nodes, degree of freedom and magnitude as written.
#[derive(Debug, Clone, PartialEq, Eq)]
pub struct LoadEntry {
    pub nodes: Vec<i32>,
    pub dof: usize,
    pub magnitude: String,
}

/// One data line read from a boundary-condition card.
#[derive(Debug, Clone, PartialEq, Eq)]
pub enum BcEntry {
    Boundary(BoundaryEntry),
    Load(LoadEntry),
}

/// Model of a prescribed displacement.
pub struct BoundaryView {
    pub nodes: Seq<i32>,
    pub first_dof: usize,
    pub last_dof: usize,
    pub value: Option<Seq<char>>,
}

/// Model of a concentrated load.
pub struct LoadView {
    pub nodes: Seq<i32>,
    pub dof: usize,
    pub magnitude: Seq<char>,
}

/// Model of a data line read.
pub enum EntryView {
    Boundary(BoundaryView),
    Load(LoadView),
}

impl View for BoundaryEntry {
    type V = BoundaryView;

    open spec fn view(&self) -> BoundaryView {
        BoundaryView {
            nodes: self.nodes@,
            first_dof: self.first_dof,
            last_dof: self.last_dof,
            value: opt_view(self.value),
        }
    }
}

impl View for LoadEntry {
    type V = LoadView;

    open spec fn view(&self) -> LoadView {
        LoadView { nodes: self.nodes@, dof: self.dof, magnitude: self.magnitude@ }
    }
}

impl View for BcEntry {
    type V = EntryView;

    open spec fn view(&self) -> EntryView {
        match self {
            BcEntry::Boundary(b) => EntryView::Boundary(b@),
            BcEntry::Load(l) => EntryView::Load(l@),
        }
    }
}

/// Model of a result whose error is a message.
pub open spec fn result_view<T: View>(r: Result<T, String>) -> Result<T::V, Seq<char>> {
    match r {
        Ok(v) => Ok(v@),
        Err(m) => Err(m@),
    }
}

/// What a `*BOUNDARY` data line gives. It needs a node field and a first
/// degree of freedom; the last degree of freedom defaults to the first and
/// the value is kept only when its field is not blank.
pub open spec fn boundary_line(line: Seq<char>, sets: Seq<(Seq<char>, Seq<i32>)>) -> Result<BoundaryView, Seq<char>> {
    let parts = split_commas(line);
    if parts.len() < 2 {
        Err("Invalid BOUNDARY line (expected at least 2 fields): "@ + line)
    } else {
        let node_field = trim(parts[0]);
        match field_nodes(node_field, sets) {
            None => Err("Unknown node or node set in BOUNDARY: "@ + node_field),
            Some(nodes) => match parse_usize_view(trim(parts[1])) {
                None => Err("Invalid first DOF in BOUNDARY: "@ + trim(parts[1])),
                Some(first) => {
                    let last_field = if parts.len() >= 3 { trim(parts[2]) } else { Seq::<char>::empty() };
                    let last = if last_field.len() > 0 { parse_usize_view(last_field) } else { Some(first) };
                    match last {
                        None => Err("Invalid last DOF in BOUNDARY: "@ + last_field),
                        Some(last) => Ok(BoundaryView {
                            nodes,
                            first_dof: first,
                            last_dof: last,
                            value: if parts.len() >= 4 && trim(parts[3]).len() > 0 {
                                Some(trim(parts[3]))
                            } else {
                                None
                            },
                        }),
                    }
                },
            },
        }
    }
}

/// What a `*CLOAD` data line gives: nodes, degree of freedom and magnitude.
pub open spec fn cload_line(line: Seq<char>, sets: Seq<(Seq<char>, Seq<i32>)>) -> Result<LoadView, Seq<char>> {
    let parts = split_commas(line);
    if parts.len() < 3 {
        Err("Invalid CLOAD line (expected at least 3 fields): "@ + line)
    } else {
        let node_field = trim(parts[0]);
        match field_nodes(node_field, sets) {
            None => Err("Unknown node or node set in CLOAD: "@ + node_field),
            Some(nodes) => match parse_usize_view(trim(parts[1])) {
                None => Err("Invalid DOF in CLOAD: "@ + trim(parts[1])),
                Some(dof) => Ok(LoadView { nodes, dof, magnitude: trim(parts[2]) }),
            },
        }
    }
}

/// The boundary line as an entry.
pub open spec fn boundary_entry(line: Seq<char>, sets: Seq<(Seq<char>, Seq<i32>)>) -> Result<EntryView, Seq<char>> {
    match boundary_line(line, sets) {
        Ok(b) => Ok(EntryView::Boundary(b)),
        Err(m) => Err(m),
    }
}

/// The load line as an entry.
pub open spec fn cload_entry(line: Seq<char>, sets: Seq<(Seq<char>, Seq<i32>)>) -> Result<EntryView, Seq<char>> {
    match cload_line(line, sets) {
        Ok(l) => Ok(EntryView::Load(l)),
        Err(m) => Err(m),
    }
}

/// What the data lines of one card give: those of a `BOUNDARY` or `CLOAD`
/// card (keyword compared upper-cased) one entry each, others nothing.
pub open spec fn card_entries(c: CardView, sets: Seq<(Seq<char>, Seq<i32>)>) -> Seq<Result<EntryView, Seq<char>>> {
    let k = unicode_uppercase(c.keyword);
    if k == "BOUNDARY"@ {
        c.data_lines.map_values(|l: Seq<char>| boundary_entry(l, sets))
    } else if k == "CLOAD"@ {
        c.data_lines.map_values(|l: Seq<char>| cload_entry(l, sets))
    } else {
        Seq::empty()
    }
}

/// The entries of all cards, in deck order.
pub open spec fn deck_entries(cards: Seq<CardView>, sets: Seq<(Seq<char>, Seq<i32>)>) -> Seq<Result<EntryView, Seq<char>>>
    decreases cards.len(),
{
    if cards.len() == 0 {
        Seq::empty()
    } else {
        deck_entries(cards.drop_last(), sets) + card_entries(cards.last(), sets)
    }
}

/// Models of the entries read.
pub open spec fn entries_view(v: Seq<Result<BcEntry, String>>) -> Seq<Result<EntryView, Seq<char>>> {
    v.map_values(|r: Result<BcEntry, String>| result_view(r))
}

/// The message that sums up the errors met building `subject` from a deck.
pub open spec fn errors_message(subject: Seq<char>, errors: Seq<Seq<char>>) -> Seq<char> {
    subject + " building encountered "@ + decimal(errors.len()) + " errors:\n"@ + joined(errors, "\n"@)
}

fn copy_nodes(v: &Vec<i32>) -> (r: Vec<i32>)
    ensures
        r@ == v@,
{
    let mut r: Vec<i32> = Vec::new();
    let mut i: usize = 0;
    while i < v.len()
        invariant
            i <= v@.len(),
            r@ == v@.take(i as int),
        decreases v.len() - i,
    {
        r.push(v[i]);
        assert(v@.take(i + 1) =~= v@.take(i as int).push(v@[i as int]));
        i += 1;
    }
    assert(v@.take(v@.len() as int) =~= v@);
    r
}

/// The nodes of the first set called `name` (see `set_nodes`).
pub fn get_nodes(sets: &Vec<NodeSet>, name: &str) -> (r: Option<Vec<i32>>)
    ensures
        match r {
            Some(v) => set_nodes(sets_view(sets@), name@) == Some(v@),
            None => set_nodes(sets_view(sets@), name@) is None,
        },
{
    let ghost sv = sets_view(sets@);
    let mut i: usize = 0;
    assert(sv.skip(0) =~= sv);
    while i < sets.len()
        invariant
            sv == sets_view(sets@),
            i <= sets@.len(),
            set_nodes(sv, name@) == set_nodes(sv.skip(i as int), name@),
        decreases sets.len() - i,
    {
        assert(sv.skip(i as int)[0] == sv[i as int]);
        if str_eq(sets[i].name.as_str(), name) {
            return Some(copy_nodes(&sets[i].nodes));
        }
        assert(sv.skip(i as int).drop_first() =~= sv.skip(i + 1));
        i += 1;
    }
    assert(sv.skip(i as int) =~= Seq::<(Seq<char>, Seq<i32>)>::empty());
    None
}

/// The nodes a node field stands for (see `field_nodes`).
pub fn resolve_nodes(field: &str, sets: &Vec<NodeSet>) -> (r: Option<Vec<i32>>)
    ensures
        match r {
            Some(v) => field_nodes(field@, sets_view(sets@)) == Some(v@),
            None => field_nodes(field@, sets_view(sets@)) is None,
        },
{
    let chars = chars_of(field);
    match parse_i32(chars.as_slice()) {
        Some(n) => {
            let mut v: Vec<i32> = Vec::new();
            v.push(n);
            assert(v@ =~= seq![n]);
            Some(v)
        },
        None => get_nodes(sets, field),
    }
}

/// Reads a `*BOUNDARY` data line (see `boundary_line`).
pub fn boundary_line_entry(line: &str, sets: &Vec<NodeSet>) -> (r: Result<BoundaryEntry, String>)
    ensures
        result_view(r) == boundary_line(line@, sets_view(sets@)),
{
    let chars = chars_of(line);
    let parts = split_fields(chars.as_slice());
    let ghost pv = fields_view(parts@);
    assert(pv == split_commas(line@));
    if parts.len() < 2 {
        let mut m = owned("Invalid BOUNDARY line (expected at least 2 fields): ");
        push_str(&mut m, line);
        return Err(m);
    }
    assert(pv[0] == parts@[0]@ && pv[1] == parts@[1]@);
    let node_field = string_from(trim_chars(parts[0].as_slice()).as_slice());
    let nodes = match resolve_nodes(node_field.as_str(), sets) {
        Some(v) => v,
        None => {
            let mut m = owned("Unknown node or node set in BOUNDARY: ");
            push_str(&mut m, node_field.as_str());
            return Err(m);
        },
    };
    let f1 = trim_chars(parts[1].as_slice());
    let first = match parse_usize(f1.as_slice()) {
        Some(d) => d,
        None => {
            let mut m = owned("Invalid first DOF in BOUNDARY: ");
            let fs = string_from(f1.as_slice());
            push_str(&mut m, fs.as_str());
            return Err(m);
        },
    };
    let mut last = first;
    if parts.len() >= 3 {
        assert(pv[2] == parts@[2]@);
        let f2 = trim_chars(parts[2].as_slice());
        if f2.len() > 0 {
            match parse_usize(f2.as_slice()) {
                Some(d) => {
                    last = d;
                },
                None => {
                    let mut m = owned("Invalid last DOF in BOUNDARY: ");
                    let fs = string_from(f2.as_slice());
                    push_str(&mut m, fs.as_str());
                    return Err(m);
                },
            }
        }
    }
    let mut value: Option<String> = None;
    if parts.len() >= 4 {
        assert(pv[3] == parts@[3]@);
        let f3 = trim_chars(parts[3].as_slice());
        if f3.len() > 0 {
            value = Some(string_from(f3.as_slice()));
        }
    }
    Ok(BoundaryEntry { nodes, first_dof: first, last_dof: last, value })
}

/// Reads a `*CLOAD` data line (see `cload_line`).
pub fn cload_line_entry(line: &str, sets: &Vec<NodeSet>) -> (r: Result<LoadEntry, String>)
    ensures
        result_view(r) == cload_line(line@, sets_view(sets@)),
{
    let chars = chars_of(line);
    let parts = split_fields(chars.as_slice());
    let ghost pv = fields_view(parts@);
    assert(pv == split_commas(line@));
    if parts.len() < 3 {
        let mut m = owned("Invalid CLOAD line (expected at least 3 fields): ");
        push_str(&mut m, line);
        return Err(m);
    }
    assert(pv[0] == parts@[0]@ && pv[1] == parts@[1]@ && pv[2] == parts@[2]@);
    let node_field = string_from(trim_chars(parts[0].as_slice()).as_slice());
    let nodes = match resolve_nodes(node_field.as_str(), sets) {
        Some(v) => v,
        None => {
            let mut m = owned("Unknown node or node set in CLOAD: ");
            push_str(&mut m, node_field.as_str());
            return Err(m);
        },
    };
    let f1 = trim_chars(parts[1].as_slice());
    let dof = match parse_usize(f1.as_slice()) {
        Some(d) => d,
        None => {
            let mut m = owned("Invalid DOF in CLOAD: ");
            let fs = string_from(f1.as_slice());
            push_str(&mut m, fs.as_str());
            return Err(m);
        },
    };
    let magnitude = string_from(trim_chars(parts[2].as_slice()).as_slice());
    Ok(LoadEntry { nodes, dof, magnitude })
}

fn card_entries_exec(card: &Card, sets: &Vec<NodeSet>, out: &mut Vec<Result<BcEntry, String>>)
    ensures
        entries_view(final(out)@) == entries_view(old(out)@) + card_entries(card@, sets_view(sets@)),
{
    let ghost sv = sets_view(sets@);
    let ghost lv = card@.data_lines;
    let ghost o0 = entries_view(out@);
    let k = to_uppercase(card.keyword.as_str());
    let is_boundary = str_eq(k.as_str(), "BOUNDARY");
    let is_load = !is_boundary && str_eq(k.as_str(), "CLOAD");
    if !is_boundary && !is_load {
        assert(card_entries(card@, sv) =~= Seq::<Result<EntryView, Seq<char>>>::empty());
        assert(entries_view(out@) =~= o0 + card_entries(card@, sv));
        return;
    }
    let mut i: usize = 0;
    while i < card.data_lines.len()
        invariant
            sv == sets_view(sets@),
            lv == card@.data_lines,
            lv == strings_view(card.data_lines@),
            i <= lv.len(),
            is_boundary ==> card_entries(card@, sv) == lv.map_values(|l: Seq<char>| boundary_entry(l, sv)),
            !is_boundary ==> card_entries(card@, sv) == lv.map_values(|l: Seq<char>| cload_entry(l, sv)),
            entries_view(out@) == o0 + card_entries(card@, sv).take(i as int),
        decreases card.data_lines.len() - i,
    {
        let line = card.data_lines[i].as_str();
        let e: Result<BcEntry, String> = if is_boundary {
            match boundary_line_entry(line, sets) {
                Ok(b) => Ok(BcEntry::Boundary(b)),
                Err(m) => Err(m),
            }
        } else {
            match cload_line_entry(line, sets) {
                Ok(l) => Ok(BcEntry::Load(l)),
                Err(m) => Err(m),
            }
        };
        assert(result_view(e) == card_entries(card@, sv)[i as int]);
        let ghost before = entries_view(out@);
        out.push(e);
        assert(entries_view(out@) =~= before.push(result_view(e)));
        assert(card_entries(card@, sv).take(i + 1) =~= card_entries(card@, sv).take(i as int).push(card_entries(card@, sv)[i as int]));
        i += 1;
    }
    assert(card_entries(card@, sv).take(lv.len() as int) =~= card_entries(card@, sv));
}

/// Reads the boundary conditions of a deck: one entry per data line of its
/// `*BOUNDARY` and `*CLOAD` cards, in deck order (see `deck_entries`).
pub fn bc_entries(deck: &Deck, sets: &Vec<NodeSet>) -> (r: Vec<Result<BcEntry, String>>)
    ensures
        entries_view(r@) == deck_entries(deck@, sets_view(sets@)),
{
    let mut out: Vec<Result<BcEntry, String>> = Vec::new();
    let mut i: usize = 0;
    assert(entries_view(out@) =~= Seq::<Result<EntryView, Seq<char>>>::empty());
    assert(deck@.take(0) =~= Seq::<CardView>::empty());
    while i < deck.cards.len()
        invariant
            i <= deck@.len(),
            deck@.len() == deck.cards@.len(),
            entries_view(out@) == deck_entries(deck@.take(i as int), sets_view(sets@)),
        decreases deck.cards.len() - i,
    {
        card_entries_exec(&deck.cards[i], sets, &mut out);
        assert(deck@.take(i + 1).drop_last() =~= deck@.take(i as int));
        assert(deck@[i as int] == deck.cards@[i as int]@);
        i += 1;
    }
    assert(deck@.take(deck@.len() as int) =~= deck@);
    out
}

/// The message that sums up the errors met building `subject` (see
/// `errors_message`).
pub fn building_errors_message(subject: &str, errors: &Vec<String>) -> (r: String)
    ensures
        r@ == errors_message(subject@, strings_view(errors@)),
{
    let ghost ev = strings_view(errors@);
    let mut m = owned(subject);
    push_str(&mut m, " building encountered ");
    push_decimal(&mut m, errors.len());
    push_str(&mut m, " errors:\n");
    let ghost base = m@;
    let mut i: usize = 0;
    while i < errors.len()
        invariant
            ev == strings_view(errors@),
            i <= ev.len(),
            m@ == base + joined(ev.take(i as int), "\n"@),
        decreases errors.len() - i,
    {
        let ghost pre = m@;
        if i > 0 {
            push_str(&mut m, "\n");
        }
        push_str(&mut m, errors[i].as_str());
        proof {
            let t = ev.take(i + 1);
            assert(t.drop_last() =~= ev.take(i as int));
            assert(t.last() == errors@[i as int]@);
            if i == 0 {
                assert(joined(ev.take(0), "\n"@) =~= Seq::<char>::empty());
                assert(m@ =~= base + joined(t, "\n"@));
            } else {
                assert(m@ =~= base + joined(t, "\n"@));
            }
        }
        i += 1;
    }
    assert(ev.take(ev.len() as int) =~= ev);
    m
}

/// Cards other than `*BOUNDARY` and `*CLOAD` add nothing to what a deck
/// gives.
pub proof fn lemma_other_cards_add_nothing(cards: Seq<CardView>, c: CardView, sets: Seq<(Seq<char>, Seq<i32>)>)
    requires
        unicode_uppercase(c.keyword) != "BOUNDARY"@,
        unicode_uppercase(c.keyword) != "CLOAD"@,
    ensures
        deck_entries(cards.push(c), sets) == deck_entries(cards, sets),
{
    assert(cards.push(c).drop_last() =~= cards);
    assert(card_entries(c, sets) =~= Seq::<Result<EntryView, Seq<char>>>::empty());
    assert(deck_entries(cards, sets) + Seq::<Result<EntryView, Seq<char>>>::empty() =~= deck_entries(cards, sets));
}

/// A `*BOUNDARY` or `*CLOAD` card adds one entry per data line, the entry
/// of line `i` read from that line alone.
pub proof fn lemma_one_entry_per_line(cards: Seq<CardView>, c: CardView, sets: Seq<(Seq<char>, Seq<i32>)>, i: int)
    requires
        0 <= i < c.data_lines.len(),
    ensures
        unicode_uppercase(c.keyword) == "BOUNDARY"@ ==> deck_entries(cards.push(c), sets)
            == deck_entries(cards, sets) + c.data_lines.map_values(|l: Seq<char>| boundary_entry(l, sets))
            && deck_entries(cards.push(c), sets)[deck_entries(cards, sets).len() + i] == boundary_entry(c.data_lines[i], sets),
        unicode_uppercase(c.keyword) == "CLOAD"@ ==> deck_entries(cards.push(c), sets)
            == deck_entries(cards, sets) + c.data_lines.map_values(|l: Seq<char>| cload_entry(l, sets))
            && deck_entries(cards.push(c), sets)[deck_entries(cards, sets).len() + i] == cload_entry(c.data_lines[i], sets),
{
    assert(cards.push(c).drop_last() =~= cards);
    reveal_strlit("CLOAD");
    reveal_strlit("BOUNDARY");
    assert("CLOAD"@ != "BOUNDARY"@) by {
        assert("CLOAD"@.len() != "BOUNDARY"@.len());
    }
}

} // verus!
