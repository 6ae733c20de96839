//! Conversion from Nastran bulk data to CalculiX input: the element-type map
//! and the bookkeeping of converted nodes and elements.
use vstd::prelude::*;
use std::collections::HashMap;
use crate::mesh::ElementType;
use crate::text::{owned, push_str, str_eq, push_signed, signed_decimal};
use crate::order::{first_after_id, lemma_first_after_id_at, lemma_first_after_id_bounds, lemma_first_after_id_before, lemma_first_after_id_at_end};

verus! {

broadcast use vstd::string::group_string_axioms;

/// Errors of the file-format layer.
#[derive(Debug, Clone, PartialEq, Eq)]
pub enum IoError {
    Python(String),
    FileNotFound(String),
    Parse(String),
    Conversion(String),
    UnsupportedElement(String),
    InvalidData(String),
}

impl IoError {
    /// The human-readable message of the error.
    pub open spec fn message_view(&self) -> Seq<char> {
        match self {
            IoError::Python(m) => "Python error: "@ + m@,
            IoError::FileNotFound(m) => "File not found: "@ + m@,
            IoError::Parse(m) => "Parse error: "@ + m@,
            IoError::Conversion(m) => "Conversion error: "@ + m@,
            IoError::UnsupportedElement(m) => "Unsupported element type: "@ + m@,
            IoError::InvalidData(m) => "Invalid data: "@ + m@,
        }
    }

    /// The human-readable message of the error.
    pub fn to_string(&self) -> (r: String)
        ensures
            r@ == self.message_view(),
    {
        let (prefix, m) = match self {
            IoError::Python(m) => ("Python error: ", m),
            IoError::FileNotFound(m) => ("File not found: ", m),
            IoError::Parse(m) => ("Parse error: ", m),
            IoError::Conversion(m) => ("Conversion error: ", m),
            IoError::UnsupportedElement(m) => ("Unsupported element type: ", m),
            IoError::InvalidData(m) => ("Invalid data: ", m),
        };
        let mut s = owned(prefix);
        push_str(&mut s, m.as_str());
        s
    }
}

/// Counts of converted entities.
#[derive(Debug, Clone)]
pub struct ConversionStats {
    pub num_nodes_converted: usize,
    pub num_elements_converted: usize,
}

/// The CalculiX element type for a Nastran element type, if there is one.
pub open spec fn ccx_element_type(nastran: Seq<char>) -> Option<Seq<char>> {
    if nastran == "CROD"@ || nastran == "CONROD"@ {
        Some("T3D2"@)
    } else if nastran == "CBAR"@ || nastran == "CBEAM"@ {
        Some("B31"@)
    } else if nastran == "CQUAD4"@ {
        Some("S4"@)
    } else if nastran == "CTRIA3"@ {
        Some("S3"@)
    } else if nastran == "CHEXA"@ || nastran == "CHEXA8"@ {
        Some("C3D8"@)
    } else if nastran == "CTETRA"@ || nastran == "CTETRA4"@ {
        Some("C3D4"@)
    } else if nastran == "CPENTA"@ || nastran == "CPENTA6"@ {
        Some("C3D6"@)
    } else {
        None
    }
}

/// The message of the error for an unsupported Nastran element type.
pub open spec fn unsupported_message(nastran: Seq<char>) -> Seq<char> {
    "Nastran element type '"@ + nastran + "' not supported"@
}

/// Converter from Nastran BDF data to CalculiX input.
pub struct BdfToInpConverter {
    node_map: HashMap<i32, i32>,
    element_map: HashMap<i32, i32>,
}

impl BdfToInpConverter {
    /// Nastran node ids converted so far, each mapped to its CalculiX id.
    pub closed spec fn nodes(&self) -> Map<i32, i32> {
        self.node_map@
    }

    /// Nastran element ids converted so far, each mapped to its CalculiX id.
    pub closed spec fn elements(&self) -> Map<i32, i32> {
        self.element_map@
    }

    /// A converter that has converted nothing yet.
    pub fn new() -> (r: BdfToInpConverter)
        ensures
            r.nodes() == Map::<i32, i32>::empty(),
            r.elements() == Map::<i32, i32>::empty(),
    {
        BdfToInpConverter { node_map: HashMap::new(), element_map: HashMap::new() }
    }

    /// The CalculiX element type for a Nastran element type, or
    /// `UnsupportedElement` when there is none.
    pub fn map_element_type(&self, nastran_type: &str) -> (r: Result<String, IoError>)
        ensures
            match ccx_element_type(nastran_type@) {
                Some(t) => r == Ok::<String, IoError>(r->Ok_0) && r->Ok_0@ == t,
                None => r matches Err(IoError::UnsupportedElement(m)) && m@ == unsupported_message(nastran_type@),
            },
    {
        let t = if str_eq(nastran_type, "CROD") || str_eq(nastran_type, "CONROD") {
            "T3D2"
        } else if str_eq(nastran_type, "CBAR") || str_eq(nastran_type, "CBEAM") {
            "B31"
        } else if str_eq(nastran_type, "CQUAD4") {
            "S4"
        } else if str_eq(nastran_type, "CTRIA3") {
            "S3"
        } else if str_eq(nastran_type, "CHEXA") || str_eq(nastran_type, "CHEXA8") {
            "C3D8"
        } else if str_eq(nastran_type, "CTETRA") || str_eq(nastran_type, "CTETRA4") {
            "C3D4"
        } else if str_eq(nastran_type, "CPENTA") || str_eq(nastran_type, "CPENTA6") {
            "C3D6"
        } else {
            let mut m = owned("Nastran element type '");
            push_str(&mut m, nastran_type);
            push_str(&mut m, "' not supported");
            return Err(IoError::UnsupportedElement(m));
        };
        Ok(owned(t))
    }

    /// How many nodes and elements have been converted.
    pub fn stats(&self) -> (r: ConversionStats)
        ensures
            r.num_nodes_converted == self.nodes().len(),
            r.num_elements_converted == self.elements().len(),
    {
        ConversionStats {
            num_nodes_converted: self.node_map.len(),
            num_elements_converted: self.element_map.len(),
        }
    }
}

impl Default for BdfToInpConverter {
    fn default() -> (r: BdfToInpConverter)
        ensures
            r.nodes() == Map::<i32, i32>::empty(),
            r.elements() == Map::<i32, i32>::empty(),
    {
        BdfToInpConverter::new()
    }
}

/// Every element type a Nastran type converts to is one the element
/// reader knows, and it has as many nodes as the Nastran element.
pub proof fn lemma_converted_types_are_known(nastran: Seq<char>)
    ensures
        ccx_element_type(nastran) matches Some(t) ==> crate::mesh::type_of_name(t) is Some,
{
}

/// A Nastran grid point, its coordinates in the text the converter writes
/// for them (scientific notation, six decimals).
#[derive(Debug, Clone)]
pub struct BdfNode {
    pub id: i32,
    pub x: String,
    pub y: String,
    pub z: String,
}

/// A Nastran element.
#[derive(Debug, Clone)]
pub struct BdfElement {
    pub id: i32,
    pub elem_type: String,
    pub nodes: Vec<i32>,
    /// The property card the element refers to; the converter writes no
    /// section cards, so it carries the id through unread.
    pub property_id: i32,
}

/// A Nastran material, its constants in the text the converter writes.
#[derive(Debug, Clone)]
pub struct BdfMaterial {
    pub name: String,
    /// Young's modulus and Poisson's ratio, when both are given.
    pub elastic: Option<(String, String)>,
    pub density: Option<String>,
}

/// Nastran bulk data to convert, in the order the reader produced it. Bulk
/// data is keyed by id: no two grid points and no two elements share an id
/// (see `bdf_ids_unique`).
#[derive(Debug, Clone)]
pub struct BdfData {
    pub nodes: Vec<BdfNode>,
    pub elements: Vec<BdfElement>,
    pub materials: Vec<BdfMaterial>,
}

/// No two grid points share an id, and no two elements do.
pub open spec fn bdf_ids_unique(d: BdfData) -> bool {
    &&& forall|i: int, j: int| 0 <= i < j < d.nodes@.len() ==> (#[trigger] d.nodes@[i]).id != (#[trigger] d.nodes@[j]).id
    &&& forall|i: int, j: int| 0 <= i < j < d.elements@.len() ==> (#[trigger] d.elements@[i]).id != (#[trigger] d.elements@[j]).id
}

/// View of a grid point.
pub struct NodeV {
    pub id: i32,
    pub x: Seq<char>,
    pub y: Seq<char>,
    pub z: Seq<char>,
}

/// View of an element.
pub struct ElemV {
    pub id: i32,
    pub ty: Seq<char>,
    pub nodes: Seq<i32>,
    pub property_id: i32,
}

/// View of a material.
pub struct MatV {
    pub name: Seq<char>,
    pub elastic: Option<(Seq<char>, Seq<char>)>,
    pub density: Option<Seq<char>>,
}

impl View for BdfNode {
    type V = NodeV;

    open spec fn view(&self) -> NodeV {
        NodeV { id: self.id, x: self.x@, y: self.y@, z: self.z@ }
    }
}

impl View for BdfElement {
    type V = ElemV;

    open spec fn view(&self) -> ElemV {
        ElemV { id: self.id, ty: self.elem_type@, nodes: self.nodes@, property_id: self.property_id }
    }
}

impl View for BdfMaterial {
    type V = MatV;

    open spec fn view(&self) -> MatV {
        MatV {
            name: self.name@,
            elastic: match self.elastic {
                Some((e, nu)) => Some((e@, nu@)),
                None => None,
            },
            density: match self.density {
                Some(r) => Some(r@),
                None => None,
            },
        }
    }
}

/// The line of a grid point.
pub open spec fn node_text(n: NodeV) -> Seq<char> {
    signed_decimal(n.id as int) + ", "@ + n.x + ", "@ + n.y + ", "@ + n.z + "\n"@
}

/// The lines of grid points, in order.
pub open spec fn nodes_text(ns: Seq<NodeV>) -> Seq<char>
    decreases ns.len(),
{
    if ns.len() == 0 {
        seq![]
    } else {
        nodes_text(ns.drop_last()) + node_text(ns.last())
    }
}

/// `, n` for each node id.
pub open spec fn node_ids_suffix(ns: Seq<i32>) -> Seq<char>
    decreases ns.len(),
{
    if ns.len() == 0 {
        seq![]
    } else {
        node_ids_suffix(ns.drop_last()) + ", "@ + signed_decimal(ns.last() as int)
    }
}

/// The line of an element: its id and its nodes.
pub open spec fn elem_text(e: ElemV) -> Seq<char> {
    signed_decimal(e.id as int) + node_ids_suffix(e.nodes) + "\n"@
}

/// The lines of elements, in order.
pub open spec fn elems_text(es: Seq<ElemV>) -> Seq<char>
    decreases es.len(),
{
    if es.len() == 0 {
        seq![]
    } else {
        elems_text(es.drop_last()) + elem_text(es.last())
    }
}

/// The Nastran element types of `es`, each once, in order of first
/// appearance.
pub open spec fn type_order(es: Seq<ElemV>) -> Seq<Seq<char>>
    decreases es.len(),
{
    if es.len() == 0 {
        seq![]
    } else {
        let o = type_order(es.drop_last());
        if o.contains(es.last().ty) {
            o
        } else {
            o.push(es.last().ty)
        }
    }
}

/// The elements of Nastran type `t`, in order.
pub open spec fn elems_of_type(es: Seq<ElemV>, t: Seq<char>) -> Seq<ElemV> {
    es.filter(|e: ElemV| e.ty == t)
}

/// The `*ELEMENT` block of the elements of Nastran type `t`.
pub open spec fn group_text(es: Seq<ElemV>, t: Seq<char>, ccx: Seq<char>) -> Seq<char> {
    "*ELEMENT, TYPE="@ + ccx + "\n"@ + elems_text(elems_of_type(es, t))
}

/// The element blocks for types `ts`, or the first of them with no
/// CalculiX counterpart.
pub open spec fn groups_outcome(es: Seq<ElemV>, ts: Seq<Seq<char>>) -> Result<Seq<char>, Seq<char>>
    decreases ts.len(),
{
    if ts.len() == 0 {
        Ok(seq![])
    } else {
        match groups_outcome(es, ts.drop_last()) {
            Err(t) => Err(t),
            Ok(txt) => match ccx_element_type(ts.last()) {
                None => Err(ts.last()),
                Some(c) => Ok(txt + group_text(es, ts.last(), c)),
            },
        }
    }
}

/// Number of leading types of `ts` that have a CalculiX counterpart.
pub open spec fn supported_prefix(ts: Seq<Seq<char>>) -> nat
    decreases ts.len(),
{
    if ts.len() == 0 {
        0
    } else if supported_prefix(ts.drop_last()) < ts.len() - 1 {
        supported_prefix(ts.drop_last())
    } else if ccx_element_type(ts.last()) is Some {
        ts.len()
    } else {
        (ts.len() - 1) as nat
    }
}

/// The text of a material.
pub open spec fn material_text(m: MatV) -> Seq<char> {
    "*MATERIAL, NAME="@ + m.name + "\n"@ + match m.elastic {
        Some((e, nu)) => "*ELASTIC\n"@ + e + ", "@ + nu + "\n"@,
        None => seq![],
    } + match m.density {
        Some(r) => "*DENSITY\n"@ + r + "\n"@,
        None => seq![],
    }
}

/// The texts of materials, in order.
pub open spec fn materials_text(ms: Seq<MatV>) -> Seq<char>
    decreases ms.len(),
{
    if ms.len() == 0 {
        seq![]
    } else {
        materials_text(ms.drop_last()) + material_text(ms.last())
    }
}

/// `id, ` for each id.
pub open spec fn set_list(ids: Seq<i32>) -> Seq<char>
    decreases ids.len(),
{
    if ids.len() == 0 {
        seq![]
    } else {
        set_list(ids.drop_last()) + signed_decimal(ids.last() as int) + ", "@
    }
}

/// Ids of grid points.
pub open spec fn node_ids(s: Seq<NodeV>) -> Seq<i32> {
    s.map_values(|n: NodeV| n.id)
}

/// Grid points sorted by id, equal ids in the order given: each point in
/// turn is placed after the points whose ids are not greater.
pub open spec fn sorted_nodes(ns: Seq<NodeV>) -> Seq<NodeV>
    decreases ns.len(),
{
    if ns.len() == 0 {
        Seq::empty()
    } else {
        let s = sorted_nodes(ns.drop_last());
        s.insert(first_after_id(node_ids(s), ns.last().id), ns.last())
    }
}

/// The grid points in ascending order of id.
pub open spec fn sorted_by_id(s: Seq<NodeV>) -> bool {
    forall|i: int, j: int| 0 <= i < j < s.len() ==> (#[trigger] s[i]).id <= (#[trigger] s[j]).id
}

/// The whole converted input, given the grid points in id order and the
/// element blocks.
pub open spec fn conversion_text(sorted: Seq<NodeV>, groups: Seq<char>, d: (Seq<NodeV>, Seq<ElemV>, Seq<MatV>)) -> Seq<char> {
    "** CalculiX Input File\n** Converted from Nastran BDF\n**\n*NODE\n"@ + nodes_text(sorted) + groups
        + materials_text(d.2) + "*ELSET, ELSET=ALL\n"@ + set_list(d.1.map_values(|e: ElemV| e.id)) + "\n"@
        + "*NSET, NSET=ALL\n"@ + set_list(d.0.map_values(|n: NodeV| n.id)) + "\n"@
}

/// Each id mapped to itself.
pub open spec fn identity_on(ids: Seq<i32>) -> Map<i32, i32> {
    Map::new(|k: i32| ids.contains(k), |k: i32| k)
}

/// Views of the three parts of bulk data.
pub open spec fn bdf_view(d: BdfData) -> (Seq<NodeV>, Seq<ElemV>, Seq<MatV>) {
    (
        d.nodes@.map_values(|n: BdfNode| n@),
        d.elements@.map_values(|e: BdfElement| e@),
        d.materials@.map_values(|m: BdfMaterial| m@),
    )
}

/// Ids of the elements of the types `ts`, type by type.
pub open spec fn group_ids(es: Seq<ElemV>, ts: Seq<Seq<char>>) -> Seq<i32>
    decreases ts.len(),
{
    if ts.len() == 0 {
        seq![]
    } else {
        group_ids(es, ts.drop_last()) + elems_of_type(es, ts.last()).map_values(|e: ElemV| e.id)
    }
}

fn copy_string(s: &String) -> (r: String)
    ensures
        r@ == s@,
{
    s.clone()
}

fn copy_node(n: &BdfNode) -> (r: BdfNode)
    ensures
        r@ == n@,
{
    BdfNode { id: n.id, x: copy_string(&n.x), y: copy_string(&n.y), z: copy_string(&n.z) }
}

proof fn lemma_insert_by_id(s: Seq<NodeV>, p: int, x: NodeV)
    requires
        sorted_by_id(s),
        0 <= p <= s.len(),
        forall|q: int| 0 <= q < p ==> (#[trigger] s[q]).id <= x.id,
        p < s.len() ==> x.id < s[p].id,
    ensures
        sorted_by_id(s.insert(p, x)),
{
    let t = s.insert(p, x);
    assert forall|i: int, j: int| 0 <= i < j < t.len() implies (#[trigger] t[i]).id <= (#[trigger] t[j]).id by {
        if i == p {
            assert(s[p].id <= s[j - 1].id || j - 1 == p);
        } else if j == p {
            assert(s[i].id <= x.id);
        } else if i < p && j > p {
            assert(s[i].id <= s[j - 1].id);
        }
    }
}

/// The converted grid points come in ascending order of id, and they are
/// the given points, each as often as given.
pub proof fn lemma_sorted_nodes_order(ns: Seq<NodeV>)
    ensures
        sorted_by_id(sorted_nodes(ns)),
        sorted_nodes(ns).to_multiset() == ns.to_multiset(),
    decreases ns.len(),
{
    broadcast use vstd::seq_lib::group_to_multiset_ensures;
    if ns.len() > 0 {
        let s = sorted_nodes(ns.drop_last());
        lemma_sorted_nodes_order(ns.drop_last());
        let x = ns.last();
        let p = first_after_id(node_ids(s), x.id);
        lemma_first_after_id_bounds(node_ids(s), x.id);
        assert forall|q: int| 0 <= q < p implies (#[trigger] s[q]).id <= x.id by {
            lemma_first_after_id_before(node_ids(s), x.id, q);
        }
        if p < s.len() {
            lemma_first_after_id_at_end(node_ids(s), x.id);
        }
        lemma_insert_by_id(s, p, x);
        vstd::seq_lib::to_multiset_insert(s, p, x);
        assert(ns.drop_last().push(x) =~= ns);
        vstd::seq_lib::to_multiset_build(ns.drop_last(), x);
    }
}

/// The grid points in ascending order of id, equal ids in input order.
fn sort_nodes(ns: &Vec<BdfNode>) -> (r: Vec<BdfNode>)
    ensures
        r@.map_values(|n: BdfNode| n@) == sorted_nodes(ns@.map_values(|n: BdfNode| n@)),
        sorted_by_id(r@.map_values(|n: BdfNode| n@)),
        r@.map_values(|n: BdfNode| n@).to_multiset() == ns@.map_values(|n: BdfNode| n@).to_multiset(),
{
    broadcast use vstd::seq_lib::group_to_multiset_ensures;
    let ghost nv = ns@.map_values(|n: BdfNode| n@);
    let mut out: Vec<BdfNode> = Vec::new();
    let mut i: usize = 0;
    while i < ns.len()
        invariant
            nv == ns@.map_values(|n: BdfNode| n@),
            i <= ns@.len(),
            out@.map_values(|n: BdfNode| n@) == sorted_nodes(nv.subrange(0, i as int)),
            sorted_by_id(out@.map_values(|n: BdfNode| n@)),
            out@.map_values(|n: BdfNode| n@).to_multiset() == nv.subrange(0, i as int).to_multiset(),
        decreases ns.len() - i,
    {
        let x = copy_node(&ns[i]);
        let ghost ov = out@.map_values(|n: BdfNode| n@);
        let mut p: usize = 0;
        while p < out.len() && out[p].id <= x.id
            invariant
                ov == out@.map_values(|n: BdfNode| n@),
                p <= out@.len(),
                forall|q: int| 0 <= q < p ==> (#[trigger] ov[q]).id <= x.id,
            decreases out.len() - p,
        {
            p += 1;
        }
        proof {
            lemma_insert_by_id(ov, p as int, x@);
            let ids = node_ids(ov);
            assert forall|q: int| 0 <= q < p implies #[trigger] ids[q] <= x@.id by {
                assert(ids[q] == ov[q].id);
            }
            lemma_first_after_id_at(ids, x@.id, p as int);
            let sub = nv.subrange(0, i + 1);
            assert(sub.drop_last() =~= nv.subrange(0, i as int));
            assert(sub.last() == x@);
        }
        out.insert(p, x);
        proof {
            assert(out@.map_values(|n: BdfNode| n@) =~= ov.insert(p as int, x@));
            assert(nv.subrange(0, i + 1) =~= nv.subrange(0, i as int).push(x@));
            vstd::seq_lib::to_multiset_insert(ov, p as int, x@);
            vstd::seq_lib::to_multiset_build(nv.subrange(0, i as int), x@);
        }
        i += 1;
    }
    assert(nv.subrange(0, ns@.len() as int) =~= nv);
    out
}

fn push_nodes_text(s: &mut String, ns: &Vec<BdfNode>)
    ensures
        final(s)@ == old(s)@ + nodes_text(ns@.map_values(|n: BdfNode| n@)),
{
    let ghost nv = ns@.map_values(|n: BdfNode| n@);
    let ghost start = s@;
    let mut i: usize = 0;
    while i < ns.len()
        invariant
            nv == ns@.map_values(|n: BdfNode| n@),
            i <= ns@.len(),
            s@ == start + nodes_text(nv.subrange(0, i as int)),
        decreases ns.len() - i,
    {
        let n = &ns[i];
        let ghost before = s@;
        push_signed(s, n.id);
        push_str(s, ", ");
        push_str(s, n.x.as_str());
        push_str(s, ", ");
        push_str(s, n.y.as_str());
        push_str(s, ", ");
        push_str(s, n.z.as_str());
        push_str(s, "\n");
        assert(nv.subrange(0, i + 1).drop_last() =~= nv.subrange(0, i as int));
        assert(s@ =~= before + node_text(nv[i as int]));
        i += 1;
    }
    assert(nv.subrange(0, ns@.len() as int) =~= nv);
}

fn push_node_ids(s: &mut String, ns: &Vec<i32>)
    ensures
        final(s)@ == old(s)@ + node_ids_suffix(ns@),
{
    let ghost start = s@;
    let mut i: usize = 0;
    while i < ns.len()
        invariant
            i <= ns@.len(),
            s@ == start + node_ids_suffix(ns@.subrange(0, i as int)),
        decreases ns.len() - i,
    {
        let ghost before = s@;
        push_str(s, ", ");
        push_signed(s, ns[i]);
        assert(ns@.subrange(0, i + 1).drop_last() =~= ns@.subrange(0, i as int));
        assert(s@ =~= before + ", "@ + signed_decimal(ns@[i as int] as int));
        i += 1;
    }
    assert(ns@.subrange(0, ns@.len() as int) =~= ns@);
}

fn type_order_exec(es: &Vec<BdfElement>) -> (r: Vec<String>)
    ensures
        r@.map_values(|t: String| t@) == type_order(es@.map_values(|e: BdfElement| e@)),
{
    let ghost ev = es@.map_values(|e: BdfElement| e@);
    let mut out: Vec<String> = Vec::new();
    let mut i: usize = 0;
    while i < es.len()
        invariant
            ev == es@.map_values(|e: BdfElement| e@),
            i <= es@.len(),
            out@.map_values(|t: String| t@) == type_order(ev.subrange(0, i as int)),
        decreases es.len() - i,
    {
        let ghost ov = out@.map_values(|t: String| t@);
        assert(ev.subrange(0, i + 1).drop_last() =~= ev.subrange(0, i as int));
        let mut k: usize = 0;
        let mut found = false;
        while k < out.len() && !found
            invariant
                ov == out@.map_values(|t: String| t@),
                k <= out@.len(),
                !found ==> forall|q: int| 0 <= q < k ==> ov[q] != es@[i as int].elem_type@,
                found ==> ov.contains(es@[i as int].elem_type@),
                i < es@.len(),
            decreases out.len() - k + (if found { 0int } else { 1int }),
        {
            if str_eq(out[k].as_str(), es[i].elem_type.as_str()) {
                assert(ov[k as int] == es@[i as int].elem_type@);
                found = true;
            } else {
                k += 1;
            }
        }
        if !found {
            out.push(copy_string(&es[i].elem_type));
            assert(out@.map_values(|t: String| t@) =~= ov.push(es@[i as int].elem_type@));
        }
        i += 1;
    }
    assert(ev.subrange(0, es@.len() as int) =~= ev);
    out
}

proof fn lemma_identity_push(m: Map<i32, i32>, ids: Seq<i32>, id: i32)
    ensures
        m.union_prefer_right(identity_on(ids)).insert(id, id) == m.union_prefer_right(identity_on(ids.push(id))),
{
    assert forall|k: i32| ids.push(id).contains(k) <==> (ids.contains(k) || k == id) by {
        if ids.contains(k) {
            let j = choose|j: int| 0 <= j < ids.len() && ids[j] == k;
            assert(ids.push(id)[j] == k);
        }
        if k == id {
            assert(ids.push(id)[ids.len() as int] == k);
        }
        if ids.push(id).contains(k) {
            let j = choose|j: int| 0 <= j < ids.push(id).len() && ids.push(id)[j] == k;
            if j < ids.len() {
                assert(ids[j] == k);
            }
        }
    }
    let lhs = m.union_prefer_right(identity_on(ids)).insert(id, id);
    let rhs = m.union_prefer_right(identity_on(ids.push(id)));
    assert forall|k: i32| #[trigger] lhs.dom().contains(k) == rhs.dom().contains(k) by {
        assert(identity_on(ids).dom().contains(k) == ids.contains(k));
        assert(identity_on(ids.push(id)).dom().contains(k) == ids.push(id).contains(k));
    }
    assert forall|k: i32| #[trigger] lhs.dom().contains(k) implies lhs[k] == rhs[k] by {
        assert(identity_on(ids).dom().contains(k) == ids.contains(k));
        assert(identity_on(ids.push(id)).dom().contains(k) == ids.push(id).contains(k));
    }
    assert(lhs =~= rhs);
}

impl BdfToInpConverter {
    /// Writes the block of the elements of Nastran type `t` (CalculiX type
    /// `ccx`) and records them as converted.
    fn push_group(&mut self, s: &mut String, es: &Vec<BdfElement>, t: &String, ccx: &String)
        ensures
            final(s)@ == old(s)@ + group_text(es@.map_values(|e: BdfElement| e@), t@, ccx@),
            final(self).nodes() == old(self).nodes(),
            final(self).elements() == old(self).elements().union_prefer_right(identity_on(
                elems_of_type(es@.map_values(|e: BdfElement| e@), t@).map_values(|e: ElemV| e.id),
            )),
    {
        let ghost ev = es@.map_values(|e: BdfElement| e@);
        let ghost m0 = self.element_map@;
        push_str(s, "*ELEMENT, TYPE=");
        push_str(s, ccx.as_str());
        push_str(s, "\n");
        let ghost start = s@;
        let mut i: usize = 0;
        assert(identity_on(Seq::<i32>::empty()) =~= Map::<i32, i32>::empty());
        assert(m0.union_prefer_right(Map::<i32, i32>::empty()) =~= m0);
        while i < es.len()
            invariant
                ev == es@.map_values(|e: BdfElement| e@),
                i <= es@.len(),
                s@ == start + elems_text(elems_of_type(ev.subrange(0, i as int), t@)),
                self.element_map@ == m0.union_prefer_right(identity_on(
                    elems_of_type(ev.subrange(0, i as int), t@).map_values(|e: ElemV| e.id),
                )),
                self.node_map@ == old(self).node_map@,
            decreases es.len() - i,
        {
            let e = &es[i];
            let ghost pre = ev.subrange(0, i as int);
            proof {
                reveal_with_fuel(Seq::filter, 1);
                assert(ev.subrange(0, i + 1).drop_last() =~= pre);
            }
            if str_eq(e.elem_type.as_str(), t.as_str()) {
                let ghost before = s@;
                push_signed(s, e.id);
                push_node_ids(s, &e.nodes);
                push_str(s, "\n");
                assert(s@ =~= before + elem_text(ev[i as int]));
                let ghost f = elems_of_type(pre, t@).map_values(|e: ElemV| e.id);
                proof {
                    lemma_identity_push(m0, f, e.id);
                    assert(elems_of_type(ev.subrange(0, i + 1), t@) =~= elems_of_type(pre, t@).push(ev[i as int]));
                    assert(elems_of_type(pre, t@).push(ev[i as int]).drop_last() =~= elems_of_type(pre, t@));
                    assert(elems_of_type(ev.subrange(0, i + 1), t@).map_values(|e: ElemV| e.id) =~= f.push(e.id));
                }
                self.element_map.insert(e.id, e.id);
            } else {
                assert(elems_of_type(ev.subrange(0, i + 1), t@) =~= elems_of_type(pre, t@));
            }
            i += 1;
        }
        assert(ev.subrange(0, es@.len() as int) =~= ev);
    }
}

fn push_materials(s: &mut String, ms: &Vec<BdfMaterial>)
    ensures
        final(s)@ == old(s)@ + materials_text(ms@.map_values(|m: BdfMaterial| m@)),
{
    let ghost mv = ms@.map_values(|m: BdfMaterial| m@);
    let ghost start = s@;
    let mut i: usize = 0;
    while i < ms.len()
        invariant
            mv == ms@.map_values(|m: BdfMaterial| m@),
            i <= ms@.len(),
            s@ == start + materials_text(mv.subrange(0, i as int)),
        decreases ms.len() - i,
    {
        let m = &ms[i];
        let ghost before = s@;
        push_str(s, "*MATERIAL, NAME=");
        push_str(s, m.name.as_str());
        push_str(s, "\n");
        match &m.elastic {
            Some((e, nu)) => {
                push_str(s, "*ELASTIC\n");
                push_str(s, e.as_str());
                push_str(s, ", ");
                push_str(s, nu.as_str());
                push_str(s, "\n");
            },
            None => {},
        }
        match &m.density {
            Some(r) => {
                push_str(s, "*DENSITY\n");
                push_str(s, r.as_str());
                push_str(s, "\n");
            },
            None => {},
        }
        assert(s@ =~= before + material_text(mv[i as int]));
        assert(mv.subrange(0, i + 1).drop_last() =~= mv.subrange(0, i as int));
        i += 1;
    }
    assert(mv.subrange(0, ms@.len() as int) =~= mv);
}

fn push_set_list(s: &mut String, ids: &Vec<i32>)
    ensures
        final(s)@ == old(s)@ + set_list(ids@),
{
    let ghost start = s@;
    let mut i: usize = 0;
    while i < ids.len()
        invariant
            i <= ids@.len(),
            s@ == start + set_list(ids@.subrange(0, i as int)),
        decreases ids.len() - i,
    {
        let ghost before = s@;
        push_signed(s, ids[i]);
        push_str(s, ", ");
        assert(ids@.subrange(0, i + 1).drop_last() =~= ids@.subrange(0, i as int));
        assert(s@ =~= before + signed_decimal(ids@[i as int] as int) + ", "@);
        i += 1;
    }
    assert(ids@.subrange(0, ids@.len() as int) =~= ids@);
}

impl BdfToInpConverter {
    /// Converts bulk data to CalculiX input text: the grid points in
    /// ascending id order, one `*ELEMENT` block per Nastran element type (in
    /// order of first appearance), the materials, and sets of all elements
    /// and all grid points. Every grid point is recorded as converted; the
    /// elements are recorded block by block, up to the first type with no
    /// CalculiX counterpart, which fails the conversion.
    pub fn convert(&mut self, bdf: &BdfData) -> (r: Result<String, IoError>)
        requires
            bdf_ids_unique(*bdf),
        ensures
            ({
                let (nv, ev, mv) = bdf_view(*bdf);
                let ts = type_order(ev);
                &&& final(self).nodes() == old(self).nodes().union_prefer_right(
                    identity_on(nv.map_values(|n: NodeV| n.id)))
                &&& final(self).elements() == old(self).elements().union_prefer_right(
                    identity_on(group_ids(ev, ts.take(supported_prefix(ts) as int))))
                &&& match groups_outcome(ev, ts) {
                    Ok(g) => r matches Ok(text) && text@ == conversion_text(sorted_nodes(nv), g, bdf_view(*bdf)),
                    Err(t) => r matches Err(IoError::UnsupportedElement(m)) && m@ == unsupported_message(t),
                }
            }),
    {
        let ghost nv = bdf_view(*bdf).0;
        let ghost ev = bdf_view(*bdf).1;
        let ghost ts = type_order(ev);
        let ghost e0 = self.element_map@;
        let ghost n0 = self.node_map@;
        let mut s = owned("** CalculiX Input File\n** Converted from Nastran BDF\n**\n*NODE\n");
        let sorted = sort_nodes(&bdf.nodes);
        push_nodes_text(&mut s, &sorted);
        let ghost sv = sorted@.map_values(|n: BdfNode| n@);
        let ghost after_nodes = s@;
        let mut i: usize = 0;
        assert(identity_on(Seq::<i32>::empty()) =~= Map::<i32, i32>::empty());
        assert(n0.union_prefer_right(Map::<i32, i32>::empty()) =~= n0);
        while i < bdf.nodes.len()
            invariant
                nv == bdf.nodes@.map_values(|n: BdfNode| n@),
                i <= bdf.nodes@.len(),
                self.node_map@ == n0.union_prefer_right(identity_on(
                    nv.subrange(0, i as int).map_values(|n: NodeV| n.id))),
                self.element_map@ == e0,
            decreases bdf.nodes.len() - i,
        {
            let id = bdf.nodes[i].id;
            proof {
                lemma_identity_push(n0, nv.subrange(0, i as int).map_values(|n: NodeV| n.id), id);
                assert(nv.subrange(0, i + 1).map_values(|n: NodeV| n.id)
                    =~= nv.subrange(0, i as int).map_values(|n: NodeV| n.id).push(id));
            }
            self.node_map.insert(id, id);
            i += 1;
        }
        assert(nv.subrange(0, bdf.nodes@.len() as int) =~= nv);
        let types = type_order_exec(&bdf.elements);
        let mut k: usize = 0;
        assert(ts.take(0) =~= Seq::<Seq<char>>::empty());
        assert(e0.union_prefer_right(identity_on(group_ids(ev, ts.take(0)))) =~= e0);
        while k < types.len()
            invariant
                ev == bdf.elements@.map_values(|e: BdfElement| e@),
                ts == type_order(ev),
                types@.map_values(|t: String| t@) == ts,
                k <= ts.len(),
                groups_outcome(ev, ts.take(k as int)) is Ok,
                s@ == after_nodes + groups_outcome(ev, ts.take(k as int))->Ok_0,
                supported_prefix(ts.take(k as int)) == k,
                n0 == old(self).node_map@,
                e0 == old(self).element_map@,
                nv == bdf.nodes@.map_values(|n: BdfNode| n@),
                self.element_map@ == e0.union_prefer_right(identity_on(group_ids(ev, ts.take(k as int)))),
                self.node_map@ == n0.union_prefer_right(identity_on(nv.map_values(|n: NodeV| n.id))),
            decreases types.len() - k,
        {
            assert(ts.take(k + 1).drop_last() =~= ts.take(k as int));
            assert(ts.take(k + 1).last() == ts[k as int]);
            assert(types@[k as int]@ == ts[k as int]);
            match self.map_element_type(types[k].as_str()) {
                Err(e) => {
                    proof {
                        lemma_groups_fail(ev, ts, k as int, ts.len() as int);
                        assert(ts.take(ts.len() as int) =~= ts);
                    }
                    return Err(e);
                },
                Ok(c) => {
                    self.push_group(&mut s, &bdf.elements, &types[k], &c);
                    proof {
                        lemma_identity_concat(e0, group_ids(ev, ts.take(k as int)),
                            elems_of_type(ev, ts[k as int]).map_values(|e: ElemV| e.id));
                    }
                },
            }
            k += 1;
        }
        assert(ts.take(ts.len() as int) =~= ts);
        push_materials(&mut s, &bdf.materials);
        push_str(&mut s, "*ELSET, ELSET=ALL\n");
        let mut eids: Vec<i32> = Vec::new();
        let mut j: usize = 0;
        while j < bdf.elements.len()
            invariant
                ev == bdf.elements@.map_values(|e: BdfElement| e@),
                j <= bdf.elements@.len(),
                eids@ == ev.subrange(0, j as int).map_values(|e: ElemV| e.id),
            decreases bdf.elements.len() - j,
        {
            eids.push(bdf.elements[j].id);
            assert(ev.subrange(0, j + 1).map_values(|e: ElemV| e.id)
                =~= ev.subrange(0, j as int).map_values(|e: ElemV| e.id).push(bdf.elements@[j as int].id));
            j += 1;
        }
        assert(ev.subrange(0, bdf.elements@.len() as int) =~= ev);
        push_set_list(&mut s, &eids);
        push_str(&mut s, "\n");
        push_str(&mut s, "*NSET, NSET=ALL\n");
        let mut nids: Vec<i32> = Vec::new();
        let mut j: usize = 0;
        while j < bdf.nodes.len()
            invariant
                nv == bdf.nodes@.map_values(|n: BdfNode| n@),
                j <= bdf.nodes@.len(),
                nids@ == nv.subrange(0, j as int).map_values(|n: NodeV| n.id),
            decreases bdf.nodes.len() - j,
        {
            nids.push(bdf.nodes[j].id);
            assert(nv.subrange(0, j + 1).map_values(|n: NodeV| n.id)
                =~= nv.subrange(0, j as int).map_values(|n: NodeV| n.id).push(bdf.nodes@[j as int].id));
            j += 1;
        }
        push_set_list(&mut s, &nids);
        push_str(&mut s, "\n");
        proof {
            let g = groups_outcome(ev, ts)->Ok_0;
            assert(s@ =~= conversion_text(sv, g, bdf_view(*bdf)));
        }
        Ok(s)
    }
}

proof fn lemma_groups_fail(es: Seq<ElemV>, ts: Seq<Seq<char>>, k: int, j: int)
    requires
        0 <= k < j <= ts.len(),
        groups_outcome(es, ts.take(k)) is Ok,
        supported_prefix(ts.take(k)) == k,
        ccx_element_type(ts[k]) is None,
    ensures
        groups_outcome(es, ts.take(j)) == Err::<Seq<char>, Seq<char>>(ts[k]),
        supported_prefix(ts.take(j)) == k,
    decreases j - k,
{
    assert(ts.take(j).drop_last() =~= ts.take(j - 1));
    assert(ts.take(j).last() == ts[j - 1]);
    if j > k + 1 {
        lemma_groups_fail(es, ts, k, j - 1);
    }
}

proof fn lemma_identity_concat(m: Map<i32, i32>, a: Seq<i32>, b: Seq<i32>)
    ensures
        m.union_prefer_right(identity_on(a)).union_prefer_right(identity_on(b))
            == m.union_prefer_right(identity_on(a + b)),
{
    let lhs = m.union_prefer_right(identity_on(a)).union_prefer_right(identity_on(b));
    let rhs = m.union_prefer_right(identity_on(a + b));
    assert forall|k: i32| (a + b).contains(k) <==> (a.contains(k) || b.contains(k)) by {
        if a.contains(k) {
            let i = choose|i: int| 0 <= i < a.len() && a[i] == k;
            assert((a + b)[i] == k);
        }
        if b.contains(k) {
            let i = choose|i: int| 0 <= i < b.len() && b[i] == k;
            assert((a + b)[a.len() + i] == k);
        }
        if (a + b).contains(k) {
            let i = choose|i: int| 0 <= i < (a + b).len() && (a + b)[i] == k;
            if i < a.len() {
                assert(a[i] == k);
            } else {
                assert(b[i - a.len()] == k);
            }
        }
    }
    assert forall|k: i32| #[trigger] lhs.dom().contains(k) == rhs.dom().contains(k) by {
        assert(identity_on(a).dom().contains(k) == a.contains(k));
        assert(identity_on(b).dom().contains(k) == b.contains(k));
        assert(identity_on(a + b).dom().contains(k) == (a + b).contains(k));
    }
    assert forall|k: i32| #[trigger] lhs.dom().contains(k) implies lhs[k] == rhs[k] by {
        assert(identity_on(a).dom().contains(k) == a.contains(k));
        assert(identity_on(b).dom().contains(k) == b.contains(k));
        assert(identity_on(a + b).dom().contains(k) == (a + b).contains(k));
    }
    assert(lhs =~= rhs);
}


/// The corner nodes of a Nastran element type and the kind of element it
/// is: rods (`T`, trusses), bars and beams (`B`), shells (`S`) and solids
/// (`C`, continuum).
pub open spec fn nastran_shape(nastran: Seq<char>) -> Option<(nat, char)> {
    if nastran == "CROD"@ || nastran == "CONROD"@ {
        Some((2nat, 'T'))
    } else if nastran == "CBAR"@ || nastran == "CBEAM"@ {
        Some((2nat, 'B'))
    } else if nastran == "CQUAD4"@ {
        Some((4nat, 'S'))
    } else if nastran == "CTRIA3"@ {
        Some((3nat, 'S'))
    } else if nastran == "CHEXA"@ || nastran == "CHEXA8"@ {
        Some((8nat, 'C'))
    } else if nastran == "CTETRA"@ || nastran == "CTETRA4"@ {
        Some((4nat, 'C'))
    } else if nastran == "CPENTA"@ || nastran == "CPENTA6"@ {
        Some((6nat, 'C'))
    } else {
        None
    }
}

/// Each Nastran type the converter knows becomes a CalculiX type of the
/// same kind with as many nodes as the Nastran element's corners (a
/// two-node `CBEAM` becomes the two-node beam `B31`), and the converter
/// knows exactly the types whose shape is known.
pub proof fn lemma_converted_types_keep_shape(nastran: Seq<char>)
    ensures
        ccx_element_type(nastran) is Some <==> nastran_shape(nastran) is Some,
        ccx_element_type(nastran) matches Some(c) ==> {
            let (corners, kind) = nastran_shape(nastran)->0;
            &&& crate::mesh::type_of_name(c) matches Some(t)
            &&& crate::mesh::nodes_of(t) == corners
            &&& c.len() > 0 && c[0] == kind
        },
{
    reveal_strlit("T3D2");
    reveal_strlit("B31");
    reveal_strlit("S4");
    reveal_strlit("S3");
    reveal_strlit("C3D8");
    reveal_strlit("C3D4");
    reveal_strlit("C3D6");
    crate::mesh::lemma_type_name_round_trip(ElementType::T3D2);
    crate::mesh::lemma_type_name_round_trip(ElementType::B31);
    crate::mesh::lemma_type_name_round_trip(ElementType::S4);
    crate::mesh::lemma_type_name_round_trip(ElementType::S3);
    crate::mesh::lemma_type_name_round_trip(ElementType::C3D8);
    crate::mesh::lemma_type_name_round_trip(ElementType::C3D4);
    crate::mesh::lemma_type_name_round_trip(ElementType::C3D6);
}

} // verus!
