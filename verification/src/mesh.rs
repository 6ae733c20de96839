//! Element types of the mesh, element records and mesh statistics.
use vstd::prelude::*;
use std::collections::HashSet;
use crate::catalog::ascii_lower_seq;
use crate::text::{ascii_upper, ascii_upper_seq, owned, push_str, push_decimal, push_signed, decimal, signed_decimal, to_uppercase, unicode_uppercase, str_eq};

verus! {

broadcast use {vstd::std_specs::hash::group_hash_axioms, vstd::string::group_string_axioms};

/// Element types.
#[derive(Debug, Clone, Copy, PartialEq, Eq, Hash, Structural)]
pub enum ElementType {
    T3D2,
    T3D3,
    C3D8,
    C3D20,
    C3D4,
    C3D10,
    C3D6,
    C3D15,
    S4,
    S8,
    S3,
    S6,
    B31,
    B32,
    M3D4,
    M3D8,
    M3D3,
    M3D6,
}

/// Number of nodes of an element type.
pub open spec fn nodes_of(t: ElementType) -> nat {
    match t {
        ElementType::T3D2 => 2,
        ElementType::T3D3 => 3,
        ElementType::C3D8 => 8,
        ElementType::C3D20 => 20,
        ElementType::C3D4 => 4,
        ElementType::C3D10 => 10,
        ElementType::C3D6 => 6,
        ElementType::C3D15 => 15,
        ElementType::S4 => 4,
        ElementType::S8 => 8,
        ElementType::S3 => 3,
        ElementType::S6 => 6,
        ElementType::B31 => 2,
        ElementType::B32 => 3,
        ElementType::M3D4 => 4,
        ElementType::M3D8 => 8,
        ElementType::M3D3 => 3,
        ElementType::M3D6 => 6,
    }
}

/// Degrees of freedom per node of an element type: 6 for shells and beams, 3 otherwise.
pub open spec fn dofs_of(t: ElementType) -> nat {
    match t {
        ElementType::T3D2 => 3,
        ElementType::T3D3 => 3,
        ElementType::C3D8 => 3,
        ElementType::C3D20 => 3,
        ElementType::C3D4 => 3,
        ElementType::C3D10 => 3,
        ElementType::C3D6 => 3,
        ElementType::C3D15 => 3,
        ElementType::S4 => 6,
        ElementType::S8 => 6,
        ElementType::S3 => 6,
        ElementType::S6 => 6,
        ElementType::B31 => 6,
        ElementType::B32 => 6,
        ElementType::M3D4 => 3,
        ElementType::M3D8 => 3,
        ElementType::M3D3 => 3,
        ElementType::M3D6 => 3,
    }
}

/// The name of an element type, as its debug form prints it.
pub open spec fn element_type_name(t: ElementType) -> Seq<char> {
    match t {
        ElementType::T3D2 => "T3D2"@,
        ElementType::T3D3 => "T3D3"@,
        ElementType::C3D8 => "C3D8"@,
        ElementType::C3D20 => "C3D20"@,
        ElementType::C3D4 => "C3D4"@,
        ElementType::C3D10 => "C3D10"@,
        ElementType::C3D6 => "C3D6"@,
        ElementType::C3D15 => "C3D15"@,
        ElementType::S4 => "S4"@,
        ElementType::S8 => "S8"@,
        ElementType::S3 => "S3"@,
        ElementType::S6 => "S6"@,
        ElementType::B31 => "B31"@,
        ElementType::B32 => "B32"@,
        ElementType::M3D4 => "M3D4"@,
        ElementType::M3D8 => "M3D8"@,
        ElementType::M3D3 => "M3D3"@,
        ElementType::M3D6 => "M3D6"@,
    }
}

/// Position of the type's name in the alphabetical order of all names.
pub open spec fn name_rank(t: ElementType) -> nat {
    match t {
        ElementType::T3D2 => 16,
        ElementType::T3D3 => 17,
        ElementType::C3D8 => 7,
        ElementType::C3D20 => 4,
        ElementType::C3D4 => 5,
        ElementType::C3D10 => 2,
        ElementType::C3D6 => 6,
        ElementType::C3D15 => 3,
        ElementType::S4 => 13,
        ElementType::S8 => 15,
        ElementType::S3 => 12,
        ElementType::S6 => 14,
        ElementType::B31 => 0,
        ElementType::B32 => 1,
        ElementType::M3D4 => 9,
        ElementType::M3D8 => 11,
        ElementType::M3D3 => 8,
        ElementType::M3D6 => 10,
    }
}

/// The element type a CalculiX type name (already upper-cased) denotes.
pub open spec fn type_of_name(name: Seq<char>) -> Option<ElementType> {
    if name == "T3D2"@ {
        Some(ElementType::T3D2)
    } else if name == "T3D3"@ {
        Some(ElementType::T3D3)
    } else if name == "C3D8"@ {
        Some(ElementType::C3D8)
    } else if name == "C3D8R"@ {
        Some(ElementType::C3D8)
    } else if name == "C3D8I"@ {
        Some(ElementType::C3D8)
    } else if name == "C3D20"@ {
        Some(ElementType::C3D20)
    } else if name == "C3D20R"@ {
        Some(ElementType::C3D20)
    } else if name == "C3D4"@ {
        Some(ElementType::C3D4)
    } else if name == "C3D10"@ {
        Some(ElementType::C3D10)
    } else if name == "C3D10T"@ {
        Some(ElementType::C3D10)
    } else if name == "C3D6"@ {
        Some(ElementType::C3D6)
    } else if name == "C3D15"@ {
        Some(ElementType::C3D15)
    } else if name == "S4"@ {
        Some(ElementType::S4)
    } else if name == "S4R"@ {
        Some(ElementType::S4)
    } else if name == "S8"@ {
        Some(ElementType::S8)
    } else if name == "S8R"@ {
        Some(ElementType::S8)
    } else if name == "S3"@ {
        Some(ElementType::S3)
    } else if name == "S3R"@ {
        Some(ElementType::S3)
    } else if name == "S6"@ {
        Some(ElementType::S6)
    } else if name == "B31"@ {
        Some(ElementType::B31)
    } else if name == "B31R"@ {
        Some(ElementType::B31)
    } else if name == "B32"@ {
        Some(ElementType::B32)
    } else if name == "B32R"@ {
        Some(ElementType::B32)
    } else if name == "M3D4"@ {
        Some(ElementType::M3D4)
    } else if name == "M3D4R"@ {
        Some(ElementType::M3D4)
    } else if name == "M3D8"@ {
        Some(ElementType::M3D8)
    } else if name == "M3D8R"@ {
        Some(ElementType::M3D8)
    } else if name == "M3D3"@ {
        Some(ElementType::M3D3)
    } else if name == "M3D6"@ {
        Some(ElementType::M3D6)
    } else {
        None
    }
}

impl ElementType {
    /// Number of nodes of this element type.
    pub fn num_nodes(&self) -> (r: usize)
        ensures
            r == nodes_of(*self),
    {
        match self {
            ElementType::T3D2 => 2,
            ElementType::T3D3 => 3,
            ElementType::C3D8 => 8,
            ElementType::C3D20 => 20,
            ElementType::C3D4 => 4,
            ElementType::C3D10 => 10,
            ElementType::C3D6 => 6,
            ElementType::C3D15 => 15,
            ElementType::S4 => 4,
            ElementType::S8 => 8,
            ElementType::S3 => 3,
            ElementType::S6 => 6,
            ElementType::B31 => 2,
            ElementType::B32 => 3,
            ElementType::M3D4 => 4,
            ElementType::M3D8 => 8,
            ElementType::M3D3 => 3,
            ElementType::M3D6 => 6,
        }
    }

    /// Degrees of freedom per node of this element type.
    pub fn dofs_per_node(&self) -> (r: usize)
        ensures
            r == dofs_of(*self),
    {
        match self {
            ElementType::T3D2 => 3,
            ElementType::T3D3 => 3,
            ElementType::C3D8 => 3,
            ElementType::C3D20 => 3,
            ElementType::C3D4 => 3,
            ElementType::C3D10 => 3,
            ElementType::C3D6 => 3,
            ElementType::C3D15 => 3,
            ElementType::S4 => 6,
            ElementType::S8 => 6,
            ElementType::S3 => 6,
            ElementType::S6 => 6,
            ElementType::B31 => 6,
            ElementType::B32 => 6,
            ElementType::M3D4 => 3,
            ElementType::M3D8 => 3,
            ElementType::M3D3 => 3,
            ElementType::M3D6 => 3,
        }
    }

    /// The name of this element type.
    pub fn name(&self) -> (r: &'static str)
        ensures
            r@ == element_type_name(*self),
    {
        match self {
            ElementType::T3D2 => "T3D2",
            ElementType::T3D3 => "T3D3",
            ElementType::C3D8 => "C3D8",
            ElementType::C3D20 => "C3D20",
            ElementType::C3D4 => "C3D4",
            ElementType::C3D10 => "C3D10",
            ElementType::C3D6 => "C3D6",
            ElementType::C3D15 => "C3D15",
            ElementType::S4 => "S4",
            ElementType::S8 => "S8",
            ElementType::S3 => "S3",
            ElementType::S6 => "S6",
            ElementType::B31 => "B31",
            ElementType::B32 => "B32",
            ElementType::M3D4 => "M3D4",
            ElementType::M3D8 => "M3D8",
            ElementType::M3D3 => "M3D3",
            ElementType::M3D6 => "M3D6",
        }
    }

    /// The element type of a CalculiX type name, after upper-casing it
    /// (`str::to_uppercase`); reduced-integration and other variants map to
    /// their base type. For an ASCII name the case of its letters does not
    /// matter.
    pub fn from_calculix_type(type_str: &str) -> (r: Option<ElementType>)
        ensures
            r == type_of_name(unicode_uppercase(type_str@)),
            vstd::utf8::is_ascii_chars(type_str@) ==> r == type_of_name(ascii_upper_seq(type_str@)),
    {
        let upper = to_uppercase(type_str);
        Self::from_upper_name(upper.as_str())
    }

    /// The element type of an upper-case CalculiX type name.
    pub fn from_upper_name(name: &str) -> (r: Option<ElementType>)
        ensures
            r == type_of_name(name@),
    {
        if str_eq(name, "T3D2") {
            Some(ElementType::T3D2)
        } else if str_eq(name, "T3D3") {
            Some(ElementType::T3D3)
        } else if str_eq(name, "C3D8") {
            Some(ElementType::C3D8)
        } else if str_eq(name, "C3D8R") {
            Some(ElementType::C3D8)
        } else if str_eq(name, "C3D8I") {
            Some(ElementType::C3D8)
        } else if str_eq(name, "C3D20") {
            Some(ElementType::C3D20)
        } else if str_eq(name, "C3D20R") {
            Some(ElementType::C3D20)
        } else if str_eq(name, "C3D4") {
            Some(ElementType::C3D4)
        } else if str_eq(name, "C3D10") {
            Some(ElementType::C3D10)
        } else if str_eq(name, "C3D10T") {
            Some(ElementType::C3D10)
        } else if str_eq(name, "C3D6") {
            Some(ElementType::C3D6)
        } else if str_eq(name, "C3D15") {
            Some(ElementType::C3D15)
        } else if str_eq(name, "S4") {
            Some(ElementType::S4)
        } else if str_eq(name, "S4R") {
            Some(ElementType::S4)
        } else if str_eq(name, "S8") {
            Some(ElementType::S8)
        } else if str_eq(name, "S8R") {
            Some(ElementType::S8)
        } else if str_eq(name, "S3") {
            Some(ElementType::S3)
        } else if str_eq(name, "S3R") {
            Some(ElementType::S3)
        } else if str_eq(name, "S6") {
            Some(ElementType::S6)
        } else if str_eq(name, "B31") {
            Some(ElementType::B31)
        } else if str_eq(name, "B31R") {
            Some(ElementType::B31)
        } else if str_eq(name, "B32") {
            Some(ElementType::B32)
        } else if str_eq(name, "B32R") {
            Some(ElementType::B32)
        } else if str_eq(name, "M3D4") {
            Some(ElementType::M3D4)
        } else if str_eq(name, "M3D4R") {
            Some(ElementType::M3D4)
        } else if str_eq(name, "M3D8") {
            Some(ElementType::M3D8)
        } else if str_eq(name, "M3D8R") {
            Some(ElementType::M3D8)
        } else if str_eq(name, "M3D3") {
            Some(ElementType::M3D3)
        } else if str_eq(name, "M3D6") {
            Some(ElementType::M3D6)
        } else {
            None
        }
    }

    /// Position of this type's name in the alphabetical order of all names.
    pub fn rank(&self) -> (r: usize)
        ensures
            r == name_rank(*self),
    {
        match self {
            ElementType::T3D2 => 16,
            ElementType::T3D3 => 17,
            ElementType::C3D8 => 7,
            ElementType::C3D20 => 4,
            ElementType::C3D4 => 5,
            ElementType::C3D10 => 2,
            ElementType::C3D6 => 6,
            ElementType::C3D15 => 3,
            ElementType::S4 => 13,
            ElementType::S8 => 15,
            ElementType::S3 => 12,
            ElementType::S6 => 14,
            ElementType::B31 => 0,
            ElementType::B32 => 1,
            ElementType::M3D4 => 9,
            ElementType::M3D8 => 11,
            ElementType::M3D3 => 8,
            ElementType::M3D6 => 10,
        }
    }
}

/// An element: id, type and node ids.
#[derive(Debug, Clone, PartialEq)]
pub struct Element {
    pub id: i32,
    pub element_type: ElementType,
    pub nodes: Vec<i32>,
}

/// Message for an element whose node count does not fit its type.
pub open spec fn node_count_message(id: i32, t: ElementType, actual: nat) -> Seq<char> {
    "Element "@ + signed_decimal(id as int) + " of type "@ + element_type_name(t) + " has "@ + decimal(actual)
        + " nodes but expected "@ + decimal(nodes_of(t))
}

impl Element {
    /// An element with the given id, type and nodes.
    pub fn new(id: i32, element_type: ElementType, nodes: Vec<i32>) -> (r: Element)
        ensures
            r.id == id,
            r.element_type == element_type,
            r.nodes@ == nodes@,
    {
        Element { id, element_type, nodes }
    }

    /// Checks that the element has as many nodes as its type asks for.
    pub fn validate(&self) -> (r: Result<(), String>)
        ensures
            r is Ok <==> self.nodes@.len() == nodes_of(self.element_type),
            r matches Err(m) ==> m@ == node_count_message(self.id, self.element_type, self.nodes@.len()),
    {
        let expected = self.element_type.num_nodes();
        let actual = self.nodes.len();
        if actual != expected {
            let mut m = owned("Element ");
            push_signed(&mut m, self.id);
            push_str(&mut m, " of type ");
            push_str(&mut m, self.element_type.name());
            push_str(&mut m, " has ");
            push_decimal(&mut m, actual);
            push_str(&mut m, " nodes but expected ");
            push_decimal(&mut m, expected);
            return Err(m);
        }
        Ok(())
    }
}

/// Mesh statistics: node, element and DOF counts, and the number of
/// elements of each type present.
#[derive(Debug, Clone)]
pub struct MeshStatistics {
    pub num_nodes: usize,
    pub num_elements: usize,
    pub num_dofs: usize,
    /// Each element type present with its count, one entry per type (see
    /// `is_type_tally`).
    pub element_type_counts: Vec<(ElementType, usize)>,
}

/// The entries whose type name is among the first `r` in alphabetical order,
/// grouped by name in that order, each group in the order given.
pub open spec fn entries_upto_rank(e: Seq<(ElementType, usize)>, r: int) -> Seq<(ElementType, usize)>
    decreases r,
{
    if r <= 0 {
        seq![]
    } else {
        entries_upto_rank(e, r - 1) + e.filter(|x: (ElementType, usize)| name_rank(x.0) == r - 1)
    }
}

/// The entries ordered by type name (stably).
pub open spec fn entries_by_name(e: Seq<(ElementType, usize)>) -> Seq<(ElementType, usize)> {
    entries_upto_rank(e, 18)
}

/// The report line of one entry, with the line break before it.
pub open spec fn type_line(x: (ElementType, usize)) -> Seq<char> {
    "\n  "@ + element_type_name(x.0) + ": "@ + decimal(x.1 as nat)
}

/// The report lines of the entries, in order.
pub open spec fn type_lines(es: Seq<(ElementType, usize)>) -> Seq<char>
    decreases es.len(),
{
    if es.len() == 0 {
        seq![]
    } else {
        type_lines(es.drop_last()) + type_line(es.last())
    }
}

/// The text `MeshStatistics::format` renders.
pub open spec fn mesh_statistics_text(s: MeshStatistics) -> Seq<char> {
    "Nodes: "@ + decimal(s.num_nodes as nat) + "\nElements: "@ + decimal(s.num_elements as nat) + "\nDOFs: "@
        + decimal(s.num_dofs as nat) + if s.element_type_counts@.len() > 0 {
        "\nElement types:"@ + type_lines(entries_by_name(s.element_type_counts@))
    } else {
        seq![]
    }
}

impl MeshStatistics {
    /// The statistics as text: one line per count, then one line per element
    /// type, ordered by type name.
    pub fn format(&self) -> (r: String)
        ensures
            r@ == mesh_statistics_text(*self),
    {
        let mut out = owned("Nodes: ");
        push_decimal(&mut out, self.num_nodes);
        push_str(&mut out, "\nElements: ");
        push_decimal(&mut out, self.num_elements);
        push_str(&mut out, "\nDOFs: ");
        push_decimal(&mut out, self.num_dofs);
        let e = &self.element_type_counts;
        if e.len() > 0 {
            push_str(&mut out, "\nElement types:");
            let ghost prefix = out@;
            let mut r: usize = 0;
            assert(type_lines(entries_upto_rank(e@, 0)) =~= Seq::<char>::empty());
            while r < 18
                invariant
                    r <= 18,
                    out@ == prefix + type_lines(entries_upto_rank(e@, r as int)),
                decreases 18 - r,
            {
                let ghost base = entries_upto_rank(e@, r as int);
                let ghost pr = |x: (ElementType, usize)| name_rank(x.0) == r as nat;
                let mut i: usize = 0;
                assert(e@.subrange(0, 0).filter(pr) =~= Seq::<(ElementType, usize)>::empty());
                assert(base + e@.subrange(0, 0).filter(pr) =~= base);
                while i < e.len()
                    invariant
                        i <= e@.len(),
                        r < 18,
                        base == entries_upto_rank(e@, r as int),
                        pr == (|x: (ElementType, usize)| name_rank(x.0) == r as nat),
                        out@ == prefix + type_lines(base + e@.subrange(0, i as int).filter(pr)),
                    decreases e.len() - i,
                {
                    let (t, c) = e[i];
                    proof {
                        reveal_with_fuel(Seq::filter, 1);
                        assert(e@.subrange(0, i + 1).drop_last() =~= e@.subrange(0, i as int));
                    }
                    if t.rank() == r {
                        push_str(&mut out, "\n  ");
                        push_str(&mut out, t.name());
                        push_str(&mut out, ": ");
                        push_decimal(&mut out, c);
                        proof {
                            let old_seq = base + e@.subrange(0, i as int).filter(pr);
                            let new_seq = base + e@.subrange(0, i + 1).filter(pr);
                            assert(new_seq =~= old_seq.push((t, c)));
                            assert(new_seq.drop_last() =~= old_seq);
                        }
                    } else {
                        assert(base + e@.subrange(0, i + 1).filter(pr) =~= base + e@.subrange(0, i as int).filter(pr));
                    }
                    i += 1;
                }
                assert(e@.subrange(0, e@.len() as int) =~= e@);
                r += 1;
            }
        }
        out
    }
}

/// Number of elements of type `t`.
pub open spec fn type_count(es: Seq<Element>, t: ElementType) -> nat {
    es.filter(|e: Element| e.element_type == t).len()
}

/// `c` lists each element type of `es` once, with the number of elements
/// of that type.
pub open spec fn is_type_tally(c: Seq<(ElementType, usize)>, es: Seq<Element>) -> bool {
    &&& forall|i: int, j: int| 0 <= i < j < c.len() ==> #[trigger] c[i].0 != #[trigger] c[j].0
    &&& forall|i: int| 0 <= i < c.len() ==> (#[trigger] c[i]).1 == type_count(es, c[i].0) && c[i].1 >= 1
    &&& forall|j: int| 0 <= j < es.len() ==> exists|i: int| 0 <= i < c.len() && c[i].0 == (#[trigger] es[j]).element_type
}

proof fn lemma_type_count_step(es: Seq<Element>, t: ElementType)
    requires
        es.len() > 0,
    ensures
        type_count(es, t) == type_count(es.drop_last(), t) + if es.last().element_type == t { 1nat } else { 0nat },
{
    reveal_with_fuel(Seq::filter, 1);
}

proof fn lemma_type_count_zero(es: Seq<Element>, t: ElementType)
    requires
        forall|j: int| 0 <= j < es.len() ==> (#[trigger] es[j]).element_type != t,
    ensures
        type_count(es, t) == 0,
    decreases es.len(),
{
    if es.len() > 0 {
        lemma_type_count_step(es, t);
        assert forall|j: int| 0 <= j < es.drop_last().len() implies (#[trigger] es.drop_last()[j]).element_type != t by {
            assert(es.drop_last()[j] == es[j]);
        }
        lemma_type_count_zero(es.drop_last(), t);
    } else {
        reveal_with_fuel(Seq::filter, 1);
    }
}

proof fn lemma_type_count_bound(es: Seq<Element>, t: ElementType)
    ensures
        type_count(es, t) <= es.len(),
{
    es.lemma_filter_len(|e: Element| e.element_type == t);
}

/// Statistics of a mesh with `num_nodes` nodes, the elements `elements`
/// and `num_dofs` degrees of freedom; the element types in the order they
/// first occur.
pub fn statistics_of(num_nodes: usize, elements: &Vec<Element>, num_dofs: usize) -> (r: MeshStatistics)
    ensures
        r.num_nodes == num_nodes,
        r.num_elements == elements@.len(),
        r.num_dofs == num_dofs,
        is_type_tally(r.element_type_counts@, elements@),
{
    let mut counts: Vec<(ElementType, usize)> = Vec::new();
    let mut i: usize = 0;
    while i < elements.len()
        invariant
            i <= elements@.len(),
            is_type_tally(counts@, elements@.take(i as int)),
        decreases elements.len() - i,
    {
        let t = elements[i].element_type;
        let ghost pre = elements@.take(i as int);
        let ghost post = elements@.take(i + 1);
        proof {
            assert(post.drop_last() =~= pre);
            assert(post.last() == elements@[i as int]);
            assert forall|u: ElementType| #[trigger] type_count(post, u) == type_count(pre, u) + if u == t { 1nat } else { 0nat } by {
                lemma_type_count_step(post, u);
            }
            lemma_type_count_bound(pre, t);
        }
        let mut k: usize = 0;
        let mut found = false;
        while k < counts.len() && !found
            invariant
                k <= counts@.len(),
                !found ==> forall|q: int| 0 <= q < k ==> counts@[q].0 != t,
                found ==> k < counts@.len() && counts@[k as int].0 == t,
            decreases counts.len() - k + (if found { 0int } else { 1int }),
        {
            if counts[k].0 == t {
                found = true;
            } else {
                k += 1;
            }
        }
        let ghost old_counts = counts@;
        if found {
            let n = counts[k].1;
            assert(n == type_count(pre, t));
            counts.set(k, (t, n + 1));
            assert forall|j: int| 0 <= j < post.len() implies exists|q: int| 0 <= q < counts@.len() && counts@[q].0 == (#[trigger] post[j]).element_type by {
                if j < pre.len() {
                    assert(post[j] == pre[j]);
                    let q = choose|q: int| 0 <= q < old_counts.len() && old_counts[q].0 == (#[trigger] pre[j]).element_type;
                    assert(counts@[q].0 == old_counts[q].0);
                } else {
                    assert(counts@[k as int].0 == post[j].element_type);
                }
            }
        } else {
            counts.push((t, 1));
            assert forall|j: int| 0 <= j < post.len() implies exists|q: int| 0 <= q < counts@.len() && counts@[q].0 == (#[trigger] post[j]).element_type by {
                if j < pre.len() {
                    assert(post[j] == pre[j]);
                    let q = choose|q: int| 0 <= q < old_counts.len() && old_counts[q].0 == (#[trigger] pre[j]).element_type;
                    assert(counts@[q].0 == old_counts[q].0);
                } else {
                    assert(counts@[old_counts.len() as int].0 == post[j].element_type);
                }
            }
            assert forall|q: int| 0 <= q < old_counts.len() implies type_count(pre, #[trigger] old_counts[q].0) >= 1 by {}
            assert(type_count(pre, t) == 0) by {
                assert forall|j: int| 0 <= j < pre.len() implies (#[trigger] pre[j]).element_type != t by {
                    let q = choose|q: int| 0 <= q < old_counts.len() && old_counts[q].0 == (#[trigger] pre[j]).element_type;
                }
                lemma_type_count_zero(pre, t);
            }
        }
        i += 1;
    }
    assert(elements@.take(elements@.len() as int) =~= elements@);
    MeshStatistics {
        num_nodes,
        num_elements: elements.len(),
        num_dofs,
        element_type_counts: counts,
    }
}

/// The first node of `nodes` that is not in `ids`.
pub open spec fn first_missing_node(nodes: Seq<i32>, ids: Set<i32>) -> Option<i32>
    decreases nodes.len(),
{
    if nodes.len() == 0 {
        None
    } else if !ids.contains(nodes[0]) {
        Some(nodes[0])
    } else {
        first_missing_node(nodes.drop_first(), ids)
    }
}

/// The first element, in the order given, that names a node not in `ids`,
/// with the first such node.
pub open spec fn first_dangling(es: Seq<Element>, ids: Set<i32>) -> Option<(i32, i32)>
    decreases es.len(),
{
    if es.len() == 0 {
        None
    } else {
        match first_missing_node(es[0].nodes@, ids) {
            Some(n) => Some((es[0].id, n)),
            None => first_dangling(es.drop_first(), ids),
        }
    }
}

/// The message for an element that names a missing node.
pub open spec fn dangling_message(element: i32, node: i32) -> Seq<char> {
    "Element "@ + signed_decimal(element as int) + " references non-existent node "@ + signed_decimal(node as int)
}

fn missing_in(nodes: &Vec<i32>, ids: &HashSet<i32>) -> (r: Option<i32>)
    ensures
        r == first_missing_node(nodes@, ids@),
{
    let mut k: usize = 0;
    assert(nodes@.skip(0) =~= nodes@);
    while k < nodes.len()
        invariant
            k <= nodes@.len(),
            first_missing_node(nodes@, ids@) == first_missing_node(nodes@.skip(k as int), ids@),
        decreases nodes.len() - k,
    {
        assert(nodes@.skip(k as int)[0] == nodes@[k as int]);
        if !ids.contains(&nodes[k]) {
            return Some(nodes[k]);
        }
        assert(nodes@.skip(k as int).drop_first() =~= nodes@.skip(k + 1));
        k += 1;
    }
    assert(nodes@.skip(k as int) =~= Seq::<i32>::empty());
    None
}

/// Checks that every element names only nodes in `ids` (see
/// `first_dangling`).
pub fn check_references(elements: &Vec<Element>, ids: &HashSet<i32>) -> (r: Result<(), String>)
    ensures
        match first_dangling(elements@, ids@) {
            None => r is Ok,
            Some((e, n)) => r matches Err(m) && m@ == dangling_message(e, n),
        },
{
    let mut i: usize = 0;
    assert(elements@.skip(0) =~= elements@);
    while i < elements.len()
        invariant
            i <= elements@.len(),
            first_dangling(elements@, ids@) == first_dangling(elements@.skip(i as int), ids@),
        decreases elements.len() - i,
    {
        assert(elements@.skip(i as int)[0] == elements@[i as int]);
        match missing_in(&elements[i].nodes, ids) {
            Some(n) => {
                let mut m = owned("Element ");
                push_signed(&mut m, elements[i].id);
                push_str(&mut m, " references non-existent node ");
                push_signed(&mut m, n);
                return Err(m);
            },
            None => {},
        }
        assert(elements@.skip(i as int).drop_first() =~= elements@.skip(i + 1));
        i += 1;
    }
    assert(elements@.skip(i as int) =~= Seq::<Element>::empty());
    Ok(())
}

/// Every element type is read back from its own name.
pub proof fn lemma_type_name_round_trip(t: ElementType)
    ensures
        type_of_name(element_type_name(t)) == Some(t),
{
    reveal_strlit("T3D2");
    assert("T3D2"@ =~= seq!['T', '3', 'D', '2']);
    reveal_strlit("C3D8");
    assert("C3D8"@ =~= seq!['C', '3', 'D', '8']);
    reveal_strlit("C3D8R");
    assert("C3D8R"@ =~= seq!['C', '3', 'D', '8', 'R']);
    reveal_strlit("C3D8I");
    assert("C3D8I"@ =~= seq!['C', '3', 'D', '8', 'I']);
    reveal_strlit("C3D20");
    assert("C3D20"@ =~= seq!['C', '3', 'D', '2', '0']);
    reveal_strlit("C3D20R");
    assert("C3D20R"@ =~= seq!['C', '3', 'D', '2', '0', 'R']);
    reveal_strlit("C3D4");
    assert("C3D4"@ =~= seq!['C', '3', 'D', '4']);
    reveal_strlit("C3D10");
    assert("C3D10"@ =~= seq!['C', '3', 'D', '1', '0']);
    reveal_strlit("C3D10T");
    assert("C3D10T"@ =~= seq!['C', '3', 'D', '1', '0', 'T']);
    reveal_strlit("C3D6");
    assert("C3D6"@ =~= seq!['C', '3', 'D', '6']);
    reveal_strlit("C3D15");
    assert("C3D15"@ =~= seq!['C', '3', 'D', '1', '5']);
    reveal_strlit("S4");
    assert("S4"@ =~= seq!['S', '4']);
    reveal_strlit("S4R");
    assert("S4R"@ =~= seq!['S', '4', 'R']);
    reveal_strlit("S8");
    assert("S8"@ =~= seq!['S', '8']);
    reveal_strlit("S8R");
    assert("S8R"@ =~= seq!['S', '8', 'R']);
    reveal_strlit("S3");
    assert("S3"@ =~= seq!['S', '3']);
    reveal_strlit("S3R");
    assert("S3R"@ =~= seq!['S', '3', 'R']);
    reveal_strlit("S6");
    assert("S6"@ =~= seq!['S', '6']);
    reveal_strlit("B31");
    assert("B31"@ =~= seq!['B', '3', '1']);
    reveal_strlit("B31R");
    assert("B31R"@ =~= seq!['B', '3', '1', 'R']);
    reveal_strlit("B32");
    assert("B32"@ =~= seq!['B', '3', '2']);
    reveal_strlit("B32R");
    assert("B32R"@ =~= seq!['B', '3', '2', 'R']);
    reveal_strlit("M3D4");
    assert("M3D4"@ =~= seq!['M', '3', 'D', '4']);
    reveal_strlit("M3D4R");
    assert("M3D4R"@ =~= seq!['M', '3', 'D', '4', 'R']);
    reveal_strlit("M3D8");
    assert("M3D8"@ =~= seq!['M', '3', 'D', '8']);
    reveal_strlit("M3D8R");
    assert("M3D8R"@ =~= seq!['M', '3', 'D', '8', 'R']);
    reveal_strlit("M3D3");
    assert("M3D3"@ =~= seq!['M', '3', 'D', '3']);
    reveal_strlit("M3D6");
    assert("M3D6"@ =~= seq!['M', '3', 'D', '6']);
    reveal_strlit("T3D3");
    assert("T3D3"@ =~= seq!['T', '3', 'D', '3']);
}

/// Text made of upper-case ASCII letters and digits.
pub open spec fn upper_alnum(s: Seq<char>) -> bool {
    forall|i: int| 0 <= i < s.len() ==> ('A' <= #[trigger] s[i] && s[i] <= 'Z') || ('0' <= s[i] && s[i] <= '9')
}

proof fn lemma_upper_alnum_cases(s: Seq<char>)
    requires
        upper_alnum(s),
    ensures
        vstd::utf8::is_ascii_chars(s),
        vstd::utf8::is_ascii_chars(ascii_lower_seq(s)),
        ascii_upper_seq(s) == s,
        ascii_upper_seq(ascii_lower_seq(s)) == s,
{
    let l = ascii_lower_seq(s);
    assert forall|i: int| 0 <= i < l.len() implies '\0' <= #[trigger] l[i] <= '\u{7f}' && ascii_upper(l[i]) == s[i] by {
        let c = s[i];
        if 'A' <= c && c <= 'Z' {
            assert(l[i] == ((c as u32) + 32) as char);
            assert('a' <= l[i] && l[i] <= 'z');
            assert(ascii_upper(l[i]) == ((l[i] as u32) - 32) as char);
        }
    }
    assert(ascii_upper_seq(s) =~= s);
    assert(ascii_upper_seq(l) =~= s);
}

/// Every element type is read back from its name in upper or lower case:
/// both are ASCII, so `from_calculix_type` upper-cases them to the name.
pub proof fn lemma_type_name_any_case(t: ElementType)
    ensures
        vstd::utf8::is_ascii_chars(element_type_name(t)),
        vstd::utf8::is_ascii_chars(ascii_lower_seq(element_type_name(t))),
        type_of_name(ascii_upper_seq(element_type_name(t))) == Some(t),
        type_of_name(ascii_upper_seq(ascii_lower_seq(element_type_name(t)))) == Some(t),
{
    reveal_strlit("T3D2");
    assert("T3D2"@ =~= seq!['T', '3', 'D', '2']);
    reveal_strlit("T3D3");
    assert("T3D3"@ =~= seq!['T', '3', 'D', '3']);
    reveal_strlit("C3D8");
    assert("C3D8"@ =~= seq!['C', '3', 'D', '8']);
    reveal_strlit("C3D20");
    assert("C3D20"@ =~= seq!['C', '3', 'D', '2', '0']);
    reveal_strlit("C3D4");
    assert("C3D4"@ =~= seq!['C', '3', 'D', '4']);
    reveal_strlit("C3D10");
    assert("C3D10"@ =~= seq!['C', '3', 'D', '1', '0']);
    reveal_strlit("C3D6");
    assert("C3D6"@ =~= seq!['C', '3', 'D', '6']);
    reveal_strlit("C3D15");
    assert("C3D15"@ =~= seq!['C', '3', 'D', '1', '5']);
    reveal_strlit("S4");
    assert("S4"@ =~= seq!['S', '4']);
    reveal_strlit("S8");
    assert("S8"@ =~= seq!['S', '8']);
    reveal_strlit("S3");
    assert("S3"@ =~= seq!['S', '3']);
    reveal_strlit("S6");
    assert("S6"@ =~= seq!['S', '6']);
    reveal_strlit("B31");
    assert("B31"@ =~= seq!['B', '3', '1']);
    reveal_strlit("B32");
    assert("B32"@ =~= seq!['B', '3', '2']);
    reveal_strlit("M3D4");
    assert("M3D4"@ =~= seq!['M', '3', 'D', '4']);
    reveal_strlit("M3D8");
    assert("M3D8"@ =~= seq!['M', '3', 'D', '8']);
    reveal_strlit("M3D3");
    assert("M3D3"@ =~= seq!['M', '3', 'D', '3']);
    reveal_strlit("M3D6");
    assert("M3D6"@ =~= seq!['M', '3', 'D', '6']);
    assert(upper_alnum(element_type_name(t)));
    lemma_upper_alnum_cases(element_type_name(t));
    lemma_type_name_round_trip(t);
}

} // verus!
