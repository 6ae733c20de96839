//! Solid element records, global degree-of-freedom numbering, and the
//! connectivity of the 20-node bricks that replace quadratic beams when
//! beams are expanded to solids.
use vstd::prelude::*;
use std::collections::HashMap;
use crate::mesh::{Element, ElementType};
use crate::text::{owned, push_str, push_decimal, decimal};

verus! {

broadcast use {vstd::std_specs::hash::group_hash_axioms, vstd::string::group_string_axioms};

/// The 8-node linear brick.
#[derive(Debug, Clone)]
pub struct C3D8 {
    pub id: i32,
    pub nodes: [i32; 8],
}

impl C3D8 {
    /// A brick with the given id and corner nodes.
    pub fn new(id: i32, nodes: [i32; 8]) -> (r: C3D8)
        ensures
            r.id == id,
            r.nodes == nodes,
    {
        C3D8 { id, nodes }
    }

    /// Number of nodes (8).
    pub fn num_nodes(&self) -> (r: usize)
        ensures
            r == 8,
    {
        8
    }

    /// Degrees of freedom per node (3 translations).
    pub fn dofs_per_node(&self) -> (r: usize)
        ensures
            r == 3,
    {
        3
    }
}

/// The 10-node quadratic tetrahedron.
#[derive(Debug, Clone)]
pub struct C3D10 {
    pub id: i32,
    pub nodes: [i32; 10],
}

impl C3D10 {
    /// A tetrahedron with the given id and nodes.
    pub fn new(id: i32, nodes: [i32; 10]) -> (r: C3D10)
        ensures
            r.id == id,
            r.nodes == nodes,
    {
        C3D10 { id, nodes }
    }

    /// Number of nodes (10).
    pub fn num_nodes(&self) -> (r: usize)
        ensures
            r == 10,
    {
        10
    }

    /// Degrees of freedom per node (3 translations).
    pub fn dofs_per_node(&self) -> (r: usize)
        ensures
            r == 3,
    {
        3
    }
}

/// The 20-node quadratic brick, with full or reduced integration.
#[derive(Debug, Clone)]
pub struct C3D20 {
    pub id: i32,
    pub nodes: [i32; 20],
    pub reduced_integration: bool,
}

impl C3D20 {
    /// A brick with full (27-point) integration.
    pub fn new(id: i32, nodes: [i32; 20]) -> (r: C3D20)
        ensures
            r.id == id,
            r.nodes == nodes,
            !r.reduced_integration,
    {
        C3D20 { id, nodes, reduced_integration: false }
    }

    /// A brick with reduced (8-point) integration (C3D20R).
    pub fn new_reduced(id: i32, nodes: [i32; 20]) -> (r: C3D20)
        ensures
            r.id == id,
            r.nodes == nodes,
            r.reduced_integration,
    {
        C3D20 { id, nodes, reduced_integration: true }
    }

    /// Number of nodes (20).
    pub fn num_nodes(&self) -> (r: usize)
        ensures
            r == 20,
    {
        20
    }

    /// Degrees of freedom per node (3 translations).
    pub fn dofs_per_node(&self) -> (r: usize)
        ensures
            r == 3,
    {
        3
    }
}

/// Ids handed out to the nodes and elements that beam expansion generates.
#[derive(Debug, Clone)]
pub struct BeamExpansionConfig {
    pub next_node_id: i32,
    pub next_element_id: i32,
}

impl Default for BeamExpansionConfig {
    fn default() -> (r: Self)
        ensures
            r.next_node_id == 1_000_000,
            r.next_element_id == 1_000_000,
    {
        BeamExpansionConfig { next_node_id: 1_000_000, next_element_id: 1_000_000 }
    }
}

/// Brick connectivity from the section nodes at the three beam stations:
/// corners of the first and last sections, mid-edges of the first section,
/// corners of the middle section, mid-edges of the last section.
pub open spec fn c3d20r_connectivity(n0: [i32; 8], n1: [i32; 8], n2: [i32; 8]) -> Seq<i32> {
    seq![
        n0[0], n0[1], n0[2], n0[3],
        n2[0], n2[1], n2[2], n2[3],
        n0[4], n0[5], n0[6], n0[7],
        n1[0], n1[1], n1[2], n1[3],
        n2[4], n2[5], n2[6], n2[7],
    ]
}

/// Message for a beam that does not have three nodes.
pub open spec fn msg_beam_node_count(n: nat) -> Seq<char> {
    "Expected 3 beam nodes for B32R, got "@ + decimal(n)
}

/// The brick that replaces a three-node beam whose nodes `beam_node_ids`
/// have the section nodes `beam_node_mapping`; it takes the next element id.
pub fn generate_c3d20r_elements(
    beam_elem_id: i32,
    beam_node_mapping: &HashMap<i32, [i32; 8]>,
    beam_node_ids: &[i32],
    config: &mut BeamExpansionConfig,
) -> (r: Result<HashMap<i32, Element>, String>)
    requires
        old(config).next_element_id < i32::MAX,
    ensures
        beam_node_ids@.len() != 3 ==> (r matches Err(m) && m@ == msg_beam_node_count(beam_node_ids@.len())),
        beam_node_ids@.len() == 3 ==> (r is Ok <==> (beam_node_mapping@.contains_key(beam_node_ids@[0])
            && beam_node_mapping@.contains_key(beam_node_ids@[1])
            && beam_node_mapping@.contains_key(beam_node_ids@[2]))),
        r matches Ok(m) ==> {
            let id = old(config).next_element_id;
            &&& m@.dom() == set![id]
            &&& m@[id].id == id
            &&& m@[id].element_type == ElementType::C3D20
            &&& m@[id].nodes@ == c3d20r_connectivity(
                beam_node_mapping@[beam_node_ids@[0]],
                beam_node_mapping@[beam_node_ids@[1]],
                beam_node_mapping@[beam_node_ids@[2]],
            )
            &&& final(config).next_element_id == id + 1
        },
        r is Err ==> *final(config) == *old(config),
        final(config).next_node_id == old(config).next_node_id,
{
    if beam_node_ids.len() != 3 {
        let mut m = owned("Expected 3 beam nodes for B32R, got ");
        push_decimal(&mut m, beam_node_ids.len());
        return Err(m);
    }
    let nodes0 = match beam_node_mapping.get(&beam_node_ids[0]) {
        Some(n) => *n,
        None => return Err(owned("Missing beam node mapping for node 0")),
    };
    let nodes1 = match beam_node_mapping.get(&beam_node_ids[1]) {
        Some(n) => *n,
        None => return Err(owned("Missing beam node mapping for node 1")),
    };
    let nodes2 = match beam_node_mapping.get(&beam_node_ids[2]) {
        Some(n) => *n,
        None => return Err(owned("Missing beam node mapping for node 2")),
    };
    let connectivity = vec![
        nodes0[0], nodes0[1], nodes0[2], nodes0[3],
        nodes2[0], nodes2[1], nodes2[2], nodes2[3],
        nodes0[4], nodes0[5], nodes0[6], nodes0[7],
        nodes1[0], nodes1[1], nodes1[2], nodes1[3],
        nodes2[4], nodes2[5], nodes2[6], nodes2[7],
    ];
    let id = config.next_element_id;
    let elem = Element { id, element_type: ElementType::C3D20, nodes: connectivity };
    let mut elements: HashMap<i32, Element> = HashMap::new();
    elements.insert(id, elem);
    config.next_element_id = id + 1;
    assert(elements@.dom() =~= set![id]);
    Ok(elements)
}

/// The global degrees of freedom of the nodes `connectivity`, each node
/// (numbered from 1) owning `dofs_per_node` consecutive ones.
pub open spec fn dof_indices(connectivity: Seq<i32>, dofs_per_node: nat) -> Seq<int> {
    Seq::new(connectivity.len() * dofs_per_node, |k: int|
        (connectivity[k / dofs_per_node as int] - 1) * dofs_per_node + k % dofs_per_node as int)
}

/// The global degree-of-freedom indices of an element's nodes (see
/// `dof_indices`).
pub fn global_dof_indices(connectivity: &[i32], dofs_per_node: usize) -> (r: Vec<usize>)
    requires
        dofs_per_node > 0,
        forall|k: int| 0 <= k < connectivity@.len() ==> #[trigger] connectivity@[k] >= 1
            && connectivity@[k] * dofs_per_node <= usize::MAX,
        connectivity@.len() * dofs_per_node <= usize::MAX,
    ensures
        r@.len() == connectivity@.len() * dofs_per_node,
        forall|k: int| 0 <= k < r@.len() ==> r@[k] as int == #[trigger] dof_indices(connectivity@, dofs_per_node as nat)[k],
{
    let ghost d = dofs_per_node as int;
    let mut r: Vec<usize> = Vec::new();
    let mut i: usize = 0;
    while i < connectivity.len()
        invariant
            d == dofs_per_node,
            d > 0,
            i <= connectivity@.len(),
            forall|k: int| 0 <= k < connectivity@.len() ==> #[trigger] connectivity@[k] >= 1
                && connectivity@[k] * dofs_per_node <= usize::MAX,
            connectivity@.len() * dofs_per_node <= usize::MAX,
            r@.len() == i * d,
            forall|k: int| 0 <= k < r@.len() ==> r@[k] as int == (connectivity@[k / d] - 1) * d + k % d,
        decreases connectivity.len() - i,
    {
        let node = connectivity[i];
        assert(node >= 1 && node * d <= usize::MAX);
        assert((node - 1) * d <= usize::MAX) by (nonlinear_arith)
            requires node >= 1, node * d <= usize::MAX, d > 0;
        let base: usize = ((node - 1) as usize) * dofs_per_node;
        assert(base == (node - 1) * d) by (nonlinear_arith)
            requires base == ((node - 1) as usize) * dofs_per_node, node >= 1, d == dofs_per_node;
        let mut j: usize = 0;
        while j < dofs_per_node
            invariant
                d == dofs_per_node,
                d > 0,
                i < connectivity@.len(),
                node == connectivity@[i as int],
                base == (node - 1) * d,
                node * d <= usize::MAX,
                j <= dofs_per_node,
                r@.len() == i * d + j,
                forall|k: int| 0 <= k < r@.len() ==> r@[k] as int == (connectivity@[k / d] - 1) * d + k % d,
            decreases dofs_per_node - j,
        {
            assert(base + j < node * d) by (nonlinear_arith)
                requires base == (node - 1) * d, j < d;
            let ghost k = r@.len() as int;
            assert(k / d == i as int && k % d == j as int) by (nonlinear_arith)
                requires k == i * d + j, 0 <= j < d, d > 0, i >= 0;
            r.push(base + j);
            j += 1;
        }
        assert((i + 1) * d == i * d + d) by (nonlinear_arith);
        i += 1;
    }
    proof {
        assert forall|k: int| 0 <= k < r@.len() implies r@[k] as int == #[trigger] dof_indices(connectivity@, dofs_per_node as nat)[k] by {
            assert(r@.len() == connectivity@.len() * dofs_per_node);
        }
    }
    r
}

} // verus!
