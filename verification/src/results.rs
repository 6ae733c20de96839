//! Plain data of the result-file layer: FRD headers and elements, where
//! result values live, and the VTK output flavour.
use vstd::prelude::*;
use std::collections::HashMap;
use crate::text::{owned, push_str, push_decimal, push_signed, decimal, signed_decimal};
use crate::order::{first_after_id, lemma_first_after_id_at};

verus! {

broadcast use {vstd::std_specs::hash::group_hash_axioms, vstd::string::group_string_axioms};

/// Header of an FRD result file.
#[derive(Debug, Clone)]
pub struct FrdHeader {
    /// File version string.
    pub version: String,
    /// Job name.
    pub job_name: String,
    /// Additional header lines.
    pub info: Vec<String>,
}

impl Default for FrdHeader {
    fn default() -> (r: FrdHeader)
        ensures
            r.version@ == Seq::<char>::empty(),
            r.job_name@ == Seq::<char>::empty(),
            r.info@ == Seq::<String>::empty(),
    {
        FrdHeader { version: String::new(), job_name: String::new(), info: Vec::new() }
    }
}

/// An element of an FRD file.
#[derive(Debug, Clone)]
pub struct FrdElement {
    /// Element id.
    pub id: i32,
    /// FRD element type code.
    pub element_type: i32,
    /// Node connectivity.
    pub nodes: Vec<i32>,
}

/// Where result data live.
#[derive(Debug, Clone, Copy, PartialEq, Eq, Structural)]
pub enum ResultLocation {
    /// Nodal results.
    Nodal,
    /// Element results (at integration points).
    Element,
}

/// VTK output format.
#[derive(Debug, Clone, Copy, PartialEq, Eq, Structural)]
pub enum VtkFormat {
    /// ASCII text.
    Ascii,
    /// Binary (compressed).
    Binary,
}

/// VTK cell types used for CalculiX elements.
#[derive(Debug, Clone, Copy, PartialEq, Eq, Structural)]
pub enum VtkCellType {
    Vertex,
    Line,
    Triangle,
    Quad,
    Tetra,
    Hexahedron,
    Wedge,
    Pyramid,
    QuadraticEdge,
    QuadraticTriangle,
    QuadraticQuad,
    QuadraticTetra,
    QuadraticHexahedron,
    QuadraticWedge,
}

/// The VTK number of a cell type.
pub open spec fn vtk_code(t: VtkCellType) -> int {
    match t {
        VtkCellType::Vertex => 1,
        VtkCellType::Line => 3,
        VtkCellType::Triangle => 5,
        VtkCellType::Quad => 9,
        VtkCellType::Tetra => 10,
        VtkCellType::Hexahedron => 12,
        VtkCellType::Wedge => 13,
        VtkCellType::Pyramid => 14,
        VtkCellType::QuadraticEdge => 21,
        VtkCellType::QuadraticTriangle => 22,
        VtkCellType::QuadraticQuad => 23,
        VtkCellType::QuadraticTetra => 24,
        VtkCellType::QuadraticHexahedron => 25,
        VtkCellType::QuadraticWedge => 26,
    }
}

impl VtkCellType {
    /// The VTK number of this cell type.
    pub fn code(self) -> (r: i32)
        ensures
            r == vtk_code(self),
    {
        match self {
            VtkCellType::Vertex => 1,
            VtkCellType::Line => 3,
            VtkCellType::Triangle => 5,
            VtkCellType::Quad => 9,
            VtkCellType::Tetra => 10,
            VtkCellType::Hexahedron => 12,
            VtkCellType::Wedge => 13,
            VtkCellType::Pyramid => 14,
            VtkCellType::QuadraticEdge => 21,
            VtkCellType::QuadraticTriangle => 22,
            VtkCellType::QuadraticQuad => 23,
            VtkCellType::QuadraticTetra => 24,
            VtkCellType::QuadraticHexahedron => 25,
            VtkCellType::QuadraticWedge => 26,
        }
    }
}

/// The VTK cell type for an FRD element type code; for an unknown code, a
/// cell type chosen by the number of nodes.
pub open spec fn vtk_cell_of(frd_type: i32, num_nodes: nat) -> VtkCellType {
    if frd_type == 1 {
        VtkCellType::Hexahedron
    } else if frd_type == 2 {
        VtkCellType::Wedge
    } else if frd_type == 3 {
        VtkCellType::Tetra
    } else if frd_type == 4 {
        VtkCellType::QuadraticHexahedron
    } else if frd_type == 5 {
        VtkCellType::QuadraticWedge
    } else if frd_type == 6 {
        VtkCellType::Pyramid
    } else if frd_type == 7 {
        VtkCellType::Line
    } else if frd_type == 8 {
        VtkCellType::QuadraticEdge
    } else if frd_type == 9 {
        VtkCellType::Triangle
    } else if frd_type == 10 {
        VtkCellType::Quad
    } else if frd_type == 11 {
        VtkCellType::QuadraticTetra
    } else if num_nodes == 1 {
        VtkCellType::Vertex
    } else if num_nodes == 2 {
        VtkCellType::Line
    } else if num_nodes == 3 {
        VtkCellType::Triangle
    } else if num_nodes == 4 {
        VtkCellType::Tetra
    } else if num_nodes == 6 {
        VtkCellType::Wedge
    } else if num_nodes == 8 {
        VtkCellType::Hexahedron
    } else {
        VtkCellType::Vertex
    }
}

/// The VTK cell type of an FRD element (see `vtk_cell_of`).
pub fn frd_to_vtk_cell_type(element: &FrdElement) -> (r: VtkCellType)
    ensures
        r == vtk_cell_of(element.element_type, element.nodes@.len()),
{
    match element.element_type {
        1 => VtkCellType::Hexahedron,
        2 => VtkCellType::Wedge,
        3 => VtkCellType::Tetra,
        4 => VtkCellType::QuadraticHexahedron,
        5 => VtkCellType::QuadraticWedge,
        6 => VtkCellType::Pyramid,
        7 => VtkCellType::Line,
        8 => VtkCellType::QuadraticEdge,
        9 => VtkCellType::Triangle,
        10 => VtkCellType::Quad,
        11 => VtkCellType::QuadraticTetra,
        _ => match element.nodes.len() {
            1 => VtkCellType::Vertex,
            2 => VtkCellType::Line,
            3 => VtkCellType::Triangle,
            4 => VtkCellType::Tetra,
            6 => VtkCellType::Wedge,
            8 => VtkCellType::Hexahedron,
            _ => VtkCellType::Vertex,
        },
    }
}

/// View of an FRD element.
pub struct FrdElementView {
    pub id: i32,
    pub element_type: i32,
    pub nodes: Seq<i32>,
}

impl View for FrdElement {
    type V = FrdElementView;

    open spec fn view(&self) -> FrdElementView {
        FrdElementView { id: self.id, element_type: self.element_type, nodes: self.nodes@ }
    }
}

/// The point index of each node id: its (last) position in the point order.
pub open spec fn point_index(order: Seq<i32>) -> Map<i32, nat>
    decreases order.len(),
{
    if order.len() == 0 {
        Map::empty()
    } else {
        point_index(order.drop_last()).insert(order.last(), (order.len() - 1) as nat)
    }
}

/// ` i` for each node that has a point index `i`.
pub open spec fn cell_nodes_text(ns: Seq<i32>, idx: Map<i32, nat>) -> Seq<char>
    decreases ns.len(),
{
    if ns.len() == 0 {
        seq![]
    } else {
        cell_nodes_text(ns.drop_last(), idx) + if idx.contains_key(ns.last()) {
            " "@ + decimal(idx[ns.last()])
        } else {
            seq![]
        }
    }
}

/// The connectivity lines of the cells, in order.
pub open spec fn cell_lines(es: Seq<FrdElementView>, idx: Map<i32, nat>) -> Seq<char>
    decreases es.len(),
{
    if es.len() == 0 {
        seq![]
    } else {
        cell_lines(es.drop_last(), idx) + decimal(es.last().nodes.len()) + cell_nodes_text(es.last().nodes, idx) + "\n"@
    }
}

/// The cell-type lines of the cells, in order.
pub open spec fn cell_type_lines(es: Seq<FrdElementView>) -> Seq<char>
    decreases es.len(),
{
    if es.len() == 0 {
        seq![]
    } else {
        cell_type_lines(es.drop_last()) + signed_decimal(vtk_code(vtk_cell_of(es.last().element_type, es.last().nodes.len())))
            + "\n"@
    }
}

/// The size of the connectivity list: one count and the nodes per cell.
pub open spec fn cells_size(es: Seq<FrdElementView>) -> nat
    decreases es.len(),
{
    if es.len() == 0 {
        0
    } else {
        cells_size(es.drop_last()) + 1 + es.last().nodes.len()
    }
}

/// The `CELLS` and `CELL_TYPES` sections for cells `es` (in the order
/// written), connectivity size `size` and the point order `order`.
pub open spec fn vtk_cells_text(es: Seq<FrdElementView>, size: nat, order: Seq<i32>) -> Seq<char> {
    "CELLS "@ + decimal(es.len()) + " "@ + decimal(size) + "\n"@ + cell_lines(es, point_index(order))
        + "CELL_TYPES "@ + decimal(es.len()) + "\n"@ + cell_type_lines(es)
}

proof fn lemma_cells_size_prefix(es: Seq<FrdElementView>, i: int)
    requires
        0 <= i <= es.len(),
    ensures
        cells_size(es.take(i)) <= cells_size(es),
    decreases es.len() - i,
{
    if i < es.len() {
        lemma_cells_size_prefix(es, i + 1);
        assert(es.take(i + 1).drop_last() =~= es.take(i));
    } else {
        assert(es.take(i) =~= es);
    }
}

/// Ids of cells.
pub open spec fn cell_ids(s: Seq<FrdElementView>) -> Seq<i32> {
    s.map_values(|e: FrdElementView| e.id)
}

/// Cells sorted by element id, equal ids in the order given: each cell in
/// turn is placed after the cells whose ids are not greater.
pub open spec fn sorted_cells(es: Seq<FrdElementView>) -> Seq<FrdElementView>
    decreases es.len(),
{
    if es.len() == 0 {
        Seq::empty()
    } else {
        let s = sorted_cells(es.drop_last());
        s.insert(first_after_id(cell_ids(s), es.last().id), es.last())
    }
}

/// Cells in ascending order of element id.
pub open spec fn cells_sorted(s: Seq<FrdElementView>) -> bool {
    forall|i: int, j: int| 0 <= i < j < s.len() ==> (#[trigger] s[i]).id <= (#[trigger] s[j]).id
}

fn copy_element(e: &FrdElement) -> (r: FrdElement)
    ensures
        r@ == e@,
{
    let mut nodes: Vec<i32> = Vec::new();
    let mut i: usize = 0;
    while i < e.nodes.len()
        invariant
            i <= e.nodes@.len(),
            nodes@ == e.nodes@.subrange(0, i as int),
        decreases e.nodes.len() - i,
    {
        nodes.push(e.nodes[i]);
        assert(e.nodes@.subrange(0, i + 1) =~= e.nodes@.subrange(0, i as int).push(e.nodes@[i as int]));
        i += 1;
    }
    assert(e.nodes@.subrange(0, e.nodes@.len() as int) =~= e.nodes@);
    FrdElement { id: e.id, element_type: e.element_type, nodes }
}

proof fn lemma_insert_cell(s: Seq<FrdElementView>, p: int, x: FrdElementView)
    requires
        cells_sorted(s),
        0 <= p <= s.len(),
        forall|q: int| 0 <= q < p ==> (#[trigger] s[q]).id <= x.id,
        p < s.len() ==> x.id < s[p].id,
    ensures
        cells_sorted(s.insert(p, x)),
{
    let t = s.insert(p, x);
    assert forall|i: int, j: int| 0 <= i < j < t.len() implies (#[trigger] t[i]).id <= (#[trigger] t[j]).id by {
        if i == p {
            assert(s[p].id <= s[j - 1].id || j - 1 == p);
        } else if j == p {
            assert(s[i].id <= x.id);
        } else if i < p && j > p {
            assert(s[i].id <= s[j - 1].id);
        }
    }
}

fn sort_cells(es: &Vec<FrdElement>) -> (r: Vec<FrdElement>)
    ensures
        r@.map_values(|e: FrdElement| e@) == sorted_cells(es@.map_values(|e: FrdElement| e@)),
        cells_sorted(r@.map_values(|e: FrdElement| e@)),
        r@.map_values(|e: FrdElement| e@).to_multiset() == es@.map_values(|e: FrdElement| e@).to_multiset(),
{
    broadcast use vstd::seq_lib::group_to_multiset_ensures;
    let ghost ev = es@.map_values(|e: FrdElement| e@);
    let mut out: Vec<FrdElement> = Vec::new();
    let mut i: usize = 0;
    while i < es.len()
        invariant
            ev == es@.map_values(|e: FrdElement| e@),
            i <= es@.len(),
            out@.map_values(|e: FrdElement| e@) == sorted_cells(ev.subrange(0, i as int)),
            cells_sorted(out@.map_values(|e: FrdElement| e@)),
            out@.map_values(|e: FrdElement| e@).to_multiset() == ev.subrange(0, i as int).to_multiset(),
        decreases es.len() - i,
    {
        let x = copy_element(&es[i]);
        let ghost ov = out@.map_values(|e: FrdElement| e@);
        let mut p: usize = 0;
        while p < out.len() && out[p].id <= x.id
            invariant
                ov == out@.map_values(|e: FrdElement| e@),
                p <= out@.len(),
                forall|q: int| 0 <= q < p ==> (#[trigger] ov[q]).id <= x.id,
            decreases out.len() - p,
        {
            p += 1;
        }
        proof {
            lemma_insert_cell(ov, p as int, x@);
            let ids = cell_ids(ov);
            assert forall|q: int| 0 <= q < p implies #[trigger] ids[q] <= x@.id by {
                assert(ids[q] == ov[q].id);
            }
            lemma_first_after_id_at(ids, x@.id, p as int);
            let sub = ev.subrange(0, i + 1);
            assert(sub.drop_last() =~= ev.subrange(0, i as int));
            assert(sub.last() == x@);
        }
        out.insert(p, x);
        proof {
            assert(out@.map_values(|e: FrdElement| e@) =~= ov.insert(p as int, x@));
            assert(ev.subrange(0, i + 1) =~= ev.subrange(0, i as int).push(x@));
            vstd::seq_lib::to_multiset_insert(ov, p as int, x@);
            vstd::seq_lib::to_multiset_build(ev.subrange(0, i as int), x@);
        }
        i += 1;
    }
    assert(ev.subrange(0, es@.len() as int) =~= ev);
    out
}

fn build_point_index(order: &Vec<i32>) -> (r: HashMap<i32, usize>)
    ensures
        forall|k: i32| #[trigger] r@.contains_key(k) == point_index(order@).contains_key(k),
        forall|k: i32| r@.contains_key(k) ==> r@[k] as nat == #[trigger] point_index(order@)[k],
{
    let mut m: HashMap<i32, usize> = HashMap::new();
    let mut i: usize = 0;
    while i < order.len()
        invariant
            i <= order@.len(),
            forall|k: i32| #[trigger] m@.contains_key(k) == point_index(order@.take(i as int)).contains_key(k),
            forall|k: i32| m@.contains_key(k) ==> m@[k] as nat == #[trigger] point_index(order@.take(i as int))[k],
        decreases order.len() - i,
    {
        assert(order@.take(i + 1).drop_last() =~= order@.take(i as int));
        assert(order@.take(i + 1).last() == order@[i as int]);
        m.insert(order[i], i);
        i += 1;
    }
    assert(order@.take(order@.len() as int) =~= order@);
    m
}

/// The `CELLS` and `CELL_TYPES` sections of a VTK file for elements `es`
/// (written in ascending order of element id) and points written in the
/// order `order`; element nodes that are no point are left out.
pub fn vtk_cells(es: &Vec<FrdElement>, order: &Vec<i32>) -> (r: String)
    requires
        cells_size(es@.map_values(|e: FrdElement| e@)) <= usize::MAX,
    ensures
        r@ == vtk_cells_text(
            sorted_cells(es@.map_values(|e: FrdElement| e@)),
            cells_size(es@.map_values(|e: FrdElement| e@)),
            order@,
        ),
        cells_sorted(sorted_cells(es@.map_values(|e: FrdElement| e@))),
        sorted_cells(es@.map_values(|e: FrdElement| e@)).to_multiset() == es@.map_values(|e: FrdElement| e@).to_multiset(),
{
    broadcast use vstd::seq_lib::group_to_multiset_ensures;
    let ghost ev = es@.map_values(|e: FrdElement| e@);
    let mut total: usize = 0;
    let mut i: usize = 0;
    while i < es.len()
        invariant
            ev == es@.map_values(|e: FrdElement| e@),
            i <= es@.len(),
            cells_size(ev) <= usize::MAX,
            total == cells_size(ev.take(i as int)),
        decreases es.len() - i,
    {
        proof {
            assert(ev.take(i + 1).drop_last() =~= ev.take(i as int));
            lemma_cells_size_prefix(ev, i + 1);
        }
        total = total + 1 + es[i].nodes.len();
        i += 1;
    }
    assert(ev.take(es@.len() as int) =~= ev);
    let sorted = sort_cells(es);
    let ghost sv = sorted@.map_values(|e: FrdElement| e@);
    assert(sv.len() == ev.len()) by {
        assert(sv.to_multiset().len() == ev.to_multiset().len());
    }
    let idx = build_point_index(order);
    let ghost pidx = point_index(order@);
    let mut s = owned("CELLS ");
    push_decimal(&mut s, sorted.len());
    push_str(&mut s, " ");
    push_decimal(&mut s, total);
    push_str(&mut s, "\n");
    let ghost head = s@;
    let mut j: usize = 0;
    while j < sorted.len()
        invariant
            sv == sorted@.map_values(|e: FrdElement| e@),
            j <= sv.len(),
            pidx == point_index(order@),
            forall|k: i32| #[trigger] idx@.contains_key(k) == pidx.contains_key(k),
            forall|k: i32| idx@.contains_key(k) ==> idx@[k] as nat == #[trigger] pidx[k],
            s@ == head + cell_lines(sv.take(j as int), pidx),
        decreases sorted.len() - j,
    {
        let e = &sorted[j];
        push_decimal(&mut s, e.nodes.len());
        let ghost mid = s@;
        let mut q: usize = 0;
        while q < e.nodes.len()
            invariant
                q <= e.nodes@.len(),
                forall|k: i32| #[trigger] idx@.contains_key(k) == pidx.contains_key(k),
                forall|k: i32| idx@.contains_key(k) ==> idx@[k] as nat == #[trigger] pidx[k],
                s@ == mid + cell_nodes_text(e.nodes@.take(q as int), pidx),
            decreases e.nodes.len() - q,
        {
            let n = e.nodes[q];
            assert(e.nodes@.take(q + 1).drop_last() =~= e.nodes@.take(q as int));
            assert(e.nodes@.take(q + 1).last() == n);
            match idx.get(&n) {
                Some(p) => {
                    push_str(&mut s, " ");
                    push_decimal(&mut s, *p);
                },
                None => {},
            }
            q += 1;
        }
        assert(e.nodes@.take(e.nodes@.len() as int) =~= e.nodes@);
        push_str(&mut s, "\n");
        assert(sv.take(j + 1).drop_last() =~= sv.take(j as int));
        assert(sv.take(j + 1).last() == e@);
        j += 1;
    }
    assert(sv.take(sv.len() as int) =~= sv);
    push_str(&mut s, "CELL_TYPES ");
    push_decimal(&mut s, sorted.len());
    push_str(&mut s, "\n");
    let ghost head2 = s@;
    let mut j: usize = 0;
    while j < sorted.len()
        invariant
            sv == sorted@.map_values(|e: FrdElement| e@),
            j <= sv.len(),
            s@ == head2 + cell_type_lines(sv.take(j as int)),
        decreases sorted.len() - j,
    {
        let t = frd_to_vtk_cell_type(&sorted[j]);
        push_signed(&mut s, t.code());
        push_str(&mut s, "\n");
        assert(sv.take(j + 1).drop_last() =~= sv.take(j as int));
        assert(sv.take(j + 1).last() == sorted@[j as int]@);
        j += 1;
    }
    assert(sv.take(sv.len() as int) =~= sv);
    assert(cells_sorted(sv));
    s
}

} // verus!
