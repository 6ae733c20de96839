//! Boundary-condition bookkeeping: degree-of-freedom ids, distributed load
//! kinds, statistics, and the beam-node to section-node map used when beams
//! are expanded to solids.
use vstd::prelude::*;
use vstd::multiset::Multiset;
use std::collections::{HashMap, HashSet};
use crate::text::{owned, push_str, push_decimal, push_signed, decimal, signed_decimal, chars_of};
use crate::mesh_builder::{parse_i32, parse_i32_view};

verus! {

broadcast use {vstd::std_specs::hash::group_hash_axioms, vstd::string::group_string_axioms};

/// A degree of freedom: node id and 0-based direction index.
#[derive(Debug, Clone, Copy, PartialEq, Eq, Hash)]
pub struct DofId {
    pub node: i32,
    pub dof: usize,
}

impl DofId {
    /// The degree of freedom `dof` of node `node`.
    pub fn new(node: i32, dof: usize) -> (r: DofId)
        ensures
            r.node == node,
            r.dof == dof,
    {
        DofId { node, dof }
    }
}

/// The 0-based degrees of freedom that a displacement condition on the
/// 1-based directions `first_dof..=last_dof` of `node` constrains.
pub open spec fn affected_dofs_view(node: i32, first_dof: usize, last_dof: usize) -> Seq<DofId> {
    if first_dof <= last_dof {
        Seq::new((last_dof - first_dof + 1) as nat, |i: int| DofId { node, dof: (first_dof + i - 1) as usize })
    } else {
        Seq::empty()
    }
}

/// The degrees of freedom a displacement condition constrains, 0-based
/// (see `affected_dofs_view`). Direction 0 has no 0-based index, so a
/// nonempty range must start at 1 or above.
pub fn affected_dofs(node: i32, first_dof: usize, last_dof: usize) -> (r: Vec<DofId>)
    requires
        first_dof <= last_dof ==> first_dof >= 1,
    ensures
        r@ == affected_dofs_view(node, first_dof, last_dof),
{
    let mut dofs: Vec<DofId> = Vec::new();
    if first_dof > last_dof {
        assert(dofs@ =~= affected_dofs_view(node, first_dof, last_dof));
        return dofs;
    }
    let count = last_dof - first_dof + 1;
    let mut k: usize = 0;
    while k < count
        invariant
            first_dof >= 1,
            first_dof <= last_dof,
            count == last_dof - first_dof + 1,
            k <= count,
            dofs@ =~= affected_dofs_view(node, first_dof, last_dof).take(k as int),
        decreases count - k,
    {
        dofs.push(DofId::new(node, first_dof + k - 1));
        assert(affected_dofs_view(node, first_dof, last_dof).take(k + 1)
            =~= affected_dofs_view(node, first_dof, last_dof).take(k as int).push(DofId { node, dof: (first_dof + k - 1) as usize }));
        k += 1;
    }
    assert(affected_dofs_view(node, first_dof, last_dof).take(count as int) =~= affected_dofs_view(node, first_dof, last_dof));
    dofs
}

/// A prescribed displacement on the 1-based directions
/// `first_dof..=last_dof` of a node; the value is of whatever number type
/// the caller uses.
#[derive(Debug, Clone, Copy, PartialEq)]
pub struct DisplacementBC<V> {
    pub node: i32,
    pub first_dof: usize,
    pub last_dof: usize,
    pub value: V,
}

impl<V: Copy> DisplacementBC<V> {
    /// A displacement condition.
    pub fn new(node: i32, first_dof: usize, last_dof: usize, value: V) -> (r: DisplacementBC<V>)
        ensures
            r == (DisplacementBC { node, first_dof, last_dof, value }),
    {
        DisplacementBC { node, first_dof, last_dof, value }
    }

    /// The degrees of freedom this condition constrains (see
    /// `affected_dofs_view`).
    pub fn affected_dofs(&self) -> (r: Vec<DofId>)
        requires
            self.first_dof <= self.last_dof ==> self.first_dof >= 1,
        ensures
            r@ == affected_dofs_view(self.node, self.first_dof, self.last_dof),
    {
        affected_dofs(self.node, self.first_dof, self.last_dof)
    }
}

/// A concentrated load on the 1-based direction `dof` of a node.
#[derive(Debug, Clone, Copy, PartialEq)]
pub struct ConcentratedLoad<V> {
    pub node: i32,
    pub dof: usize,
    pub magnitude: V,
}

impl<V: Copy> ConcentratedLoad<V> {
    /// A concentrated load.
    pub fn new(node: i32, dof: usize, magnitude: V) -> (r: ConcentratedLoad<V>)
        ensures
            r == (ConcentratedLoad { node, dof, magnitude }),
    {
        ConcentratedLoad { node, dof, magnitude }
    }

    /// The 0-based degree of freedom the load acts on.
    pub fn dof_id(&self) -> (r: DofId)
        requires
            self.dof >= 1,
        ensures
            r == (DofId { node: self.node, dof: (self.dof - 1) as usize }),
    {
        DofId::new(self.node, self.dof - 1)
    }
}

/// How much of a transferred load a section node takes.
#[derive(Debug, Clone, Copy, PartialEq, Eq, Structural)]
pub enum LoadShare {
    /// All of it (the load was not on a beam node).
    Whole,
    /// An eighth: the load of a beam node spread over its eight section nodes.
    Eighth,
}

/// The smaller of `d` and 3: a solid section node has three translational
/// degrees of freedom.
pub open spec fn clamp3(d: usize) -> usize {
    if d < 3 { d } else { 3 }
}

/// The displacement conditions after beam nodes are expanded: a condition
/// on a beam node that starts at a translational direction (1 to 3) holds
/// on each of its eight section nodes, limited to directions 1 to 3; one
/// on rotations only (starting above 3) is dropped, as section nodes have
/// no rotations; other conditions stay as they are. Order is kept.
pub open spec fn transferred_displacements<V>(m: Map<i32, [i32; 8]>, bcs: Seq<DisplacementBC<V>>) -> Seq<DisplacementBC<V>>
    decreases bcs.len(),
{
    if bcs.len() == 0 {
        Seq::empty()
    } else {
        let rest = transferred_displacements(m, bcs.drop_last());
        let bc = bcs.last();
        if m.contains_key(bc.node) {
            if bc.first_dof <= 3 {
                rest + Seq::new(8, |k: int| DisplacementBC {
                    node: m[bc.node]@[k],
                    first_dof: clamp3(bc.first_dof),
                    last_dof: clamp3(bc.last_dof),
                    value: bc.value,
                })
            } else {
                rest
            }
        } else {
            rest.push(bc)
        }
    }
}

/// The concentrated loads after beam nodes are expanded: a translational
/// load (direction 1 to 3) on a beam node is spread in eighths over its
/// section nodes, a rotational one is dropped; other loads stay whole.
/// Order is kept.
pub open spec fn transferred_loads<V>(m: Map<i32, [i32; 8]>, loads: Seq<ConcentratedLoad<V>>) -> Seq<(ConcentratedLoad<V>, LoadShare)>
    decreases loads.len(),
{
    if loads.len() == 0 {
        Seq::empty()
    } else {
        let rest = transferred_loads(m, loads.drop_last());
        let l = loads.last();
        if m.contains_key(l.node) {
            if l.dof <= 3 {
                rest + Seq::new(8, |k: int| (ConcentratedLoad { node: m[l.node]@[k], dof: l.dof, magnitude: l.magnitude }, LoadShare::Eighth))
            } else {
                rest
            }
        } else {
            rest.push((l, LoadShare::Whole))
        }
    }
}

/// A displacement condition on a beam node that starts at a translational
/// direction holds, in directions 1 to 3, on every one of its eight section
/// nodes and nowhere else.
pub proof fn lemma_beam_condition_on_all_section_nodes<V>(m: Map<i32, [i32; 8]>, bc: DisplacementBC<V>)
    requires
        m.contains_key(bc.node),
        bc.first_dof <= 3,
    ensures
        transferred_displacements(m, seq![bc]).len() == 8,
        forall|k: int| 0 <= k < 8 ==> (#[trigger] transferred_displacements(m, seq![bc])[k]) == (DisplacementBC {
            node: m[bc.node]@[k],
            first_dof: clamp3(bc.first_dof),
            last_dof: clamp3(bc.last_dof),
            value: bc.value,
        }),
{
    let s = seq![bc];
    assert(s.drop_last() =~= Seq::<DisplacementBC<V>>::empty());
    assert(s.last() == bc);
    let added = Seq::new(8, |k: int| DisplacementBC {
        node: m[bc.node]@[k],
        first_dof: clamp3(bc.first_dof),
        last_dof: clamp3(bc.last_dof),
        value: bc.value,
    });
    assert(transferred_displacements(m, s.drop_last()) =~= Seq::<DisplacementBC<V>>::empty());
    assert(transferred_displacements(m, s) =~= added);
}

/// A displacement condition on rotations only (first direction above 3)
/// of a beam node is not carried over to its section nodes.
pub proof fn lemma_beam_rotation_condition_dropped<V>(m: Map<i32, [i32; 8]>, bc: DisplacementBC<V>)
    requires
        m.contains_key(bc.node),
        bc.first_dof > 3,
    ensures
        transferred_displacements(m, seq![bc]).len() == 0,
{
    let s = seq![bc];
    assert(s.drop_last() =~= Seq::<DisplacementBC<V>>::empty());
    assert(s.last() == bc);
    assert(transferred_displacements(m, s.drop_last()) =~= Seq::<DisplacementBC<V>>::empty());
}

/// A translational load on a beam node is spread over its eight section
/// nodes, each taking an eighth of the same magnitude, so that the eight
/// together carry the whole load.
pub proof fn lemma_beam_load_spread_in_eighths<V>(m: Map<i32, [i32; 8]>, l: ConcentratedLoad<V>)
    requires
        m.contains_key(l.node),
        l.dof <= 3,
    ensures
        transferred_loads(m, seq![l]).len() == 8,
        forall|k: int| 0 <= k < 8 ==> (#[trigger] transferred_loads(m, seq![l])[k]) == (
            ConcentratedLoad { node: m[l.node]@[k], dof: l.dof, magnitude: l.magnitude },
            LoadShare::Eighth,
        ),
{
    let s = seq![l];
    assert(s.drop_last() =~= Seq::<ConcentratedLoad<V>>::empty());
    assert(s.last() == l);
    let added = Seq::new(8, |k: int| (ConcentratedLoad { node: m[l.node]@[k], dof: l.dof, magnitude: l.magnitude }, LoadShare::Eighth));
    assert(transferred_loads(m, s.drop_last()) =~= Seq::<(ConcentratedLoad<V>, LoadShare)>::empty());
    assert(transferred_loads(m, s) =~= added);
}

/// How many degrees of freedom the conditions `bcs` constrain, counted
/// per condition.
pub open spec fn constrained_count<V>(bcs: Seq<DisplacementBC<V>>) -> int
    decreases bcs.len(),
{
    if bcs.len() == 0 {
        0
    } else {
        constrained_count(bcs.drop_last()) + affected_dofs_view(bcs.last().node, bcs.last().first_dof, bcs.last().last_dof).len()
    }
}

/// Every condition with a nonempty range starts at direction 1 or above.
pub open spec fn ranges_one_based<V>(bcs: Seq<DisplacementBC<V>>) -> bool {
    forall|i: int| 0 <= i < bcs.len() ==> (#[trigger] bcs[i]).first_dof <= bcs[i].last_dof ==> bcs[i].first_dof >= 1
}

proof fn lemma_constrained_count_grows<V>(bcs: Seq<DisplacementBC<V>>, i: int)
    requires
        0 <= i <= bcs.len(),
    ensures
        0 <= constrained_count(bcs.take(i)) <= constrained_count(bcs),
    decreases bcs.len(),
{
    if bcs.len() > 0 {
        if i < bcs.len() {
            lemma_constrained_count_grows(bcs.drop_last(), i);
            assert(bcs.drop_last().take(i) =~= bcs.take(i));
        } else {
            assert(bcs.take(i) =~= bcs);
            lemma_constrained_count_grows(bcs.drop_last(), 0);
        }
    } else {
        assert(bcs.take(i) =~= bcs);
    }
}

/// Counts of a model's boundary conditions and loads: the displacement
/// conditions `bcs` with the degrees of freedom they constrain, and the
/// numbers of concentrated and distributed loads.
pub fn bc_statistics<V: Copy>(bcs: &Vec<DisplacementBC<V>>, num_concentrated_loads: usize, num_distributed_loads: usize) -> (r: BCStatistics)
    requires
        ranges_one_based(bcs@),
        constrained_count(bcs@) <= usize::MAX,
    ensures
        r.num_displacement_bcs == bcs@.len(),
        r.num_constrained_dofs == constrained_count(bcs@),
        r.num_concentrated_loads == num_concentrated_loads,
        r.num_distributed_loads == num_distributed_loads,
{
    let mut total: usize = 0;
    let mut i: usize = 0;
    assert(bcs@.take(0) =~= Seq::<DisplacementBC<V>>::empty());
    while i < bcs.len()
        invariant
            i <= bcs@.len(),
            ranges_one_based(bcs@),
            constrained_count(bcs@) <= usize::MAX,
            total == constrained_count(bcs@.take(i as int)),
        decreases bcs.len() - i,
    {
        let bc = bcs[i];
        assert(bcs@[i as int] == bc);
        proof {
            assert(bcs@.take(i + 1).drop_last() =~= bcs@.take(i as int));
            lemma_constrained_count_grows(bcs@, i + 1);
        }
        let n = affected_dofs(bc.node, bc.first_dof, bc.last_dof).len();
        total = total + n;
        i += 1;
    }
    assert(bcs@.take(bcs@.len() as int) =~= bcs@);
    BCStatistics {
        num_displacement_bcs: bcs.len(),
        num_constrained_dofs: total,
        num_concentrated_loads,
        num_distributed_loads,
    }
}

/// The boundary conditions of a model after beam nodes are expanded:
/// displacement conditions, concentrated loads with the share of their
/// magnitude each carries, and the distributed loads.
pub struct TransferredConditions<V, D> {
    pub displacement_bcs: Vec<DisplacementBC<V>>,
    pub concentrated_loads: Vec<(ConcentratedLoad<V>, LoadShare)>,
    pub distributed_loads: Vec<D>,
}

/// Eighths of its magnitude that a load with this share carries.
pub open spec fn share_eighths(s: LoadShare) -> nat {
    match s {
        LoadShare::Whole => 8,
        LoadShare::Eighth => 1,
    }
}

/// `n` copies of `v`.
pub open spec fn copies<V>(v: V, n: nat) -> Multiset<V>
    decreases n,
{
    if n == 0 {
        Multiset::empty()
    } else {
        copies(v, (n - 1) as nat).insert(v)
    }
}

/// The magnitudes of the loads `s` on direction `d`, counted in eighths: a
/// load carrying `k` eighths of magnitude `v` adds `k` copies of `v`.
/// Their sum, divided by eight, is the total load on direction `d`.
pub open spec fn eighths_on<V>(s: Seq<(ConcentratedLoad<V>, LoadShare)>, d: usize) -> Multiset<V>
    decreases s.len(),
{
    if s.len() == 0 {
        Multiset::empty()
    } else {
        let last = s.last();
        eighths_on(s.drop_last(), d).add(
            if last.0.dof == d { copies(last.0.magnitude, share_eighths(last.1)) } else { Multiset::empty() },
        )
    }
}

/// The magnitudes, in eighths, of the loads on direction `d` that the
/// transfer keeps: all but rotational loads on beam nodes.
pub open spec fn kept_eighths<V>(m: Map<i32, [i32; 8]>, loads: Seq<ConcentratedLoad<V>>, d: usize) -> Multiset<V>
    decreases loads.len(),
{
    if loads.len() == 0 {
        Multiset::empty()
    } else {
        let l = loads.last();
        kept_eighths(m, loads.drop_last(), d).add(
            if l.dof == d && !(m.contains_key(l.node) && l.dof > 3) { copies(l.magnitude, 8) } else { Multiset::empty() },
        )
    }
}

proof fn lemma_eighths_concat<V>(a: Seq<(ConcentratedLoad<V>, LoadShare)>, b: Seq<(ConcentratedLoad<V>, LoadShare)>, d: usize)
    ensures
        eighths_on(a + b, d) == eighths_on(a, d).add(eighths_on(b, d)),
    decreases b.len(),
{
    if b.len() == 0 {
        assert(a + b =~= a);
        assert(eighths_on(a, d).add(Multiset::empty()) =~= eighths_on(a, d));
    } else {
        lemma_eighths_concat(a, b.drop_last(), d);
        assert((a + b).drop_last() =~= a + b.drop_last());
        assert((a + b).last() == b.last());
        let x = if b.last().0.dof == d { copies(b.last().0.magnitude, share_eighths(b.last().1)) } else { Multiset::empty() };
        assert(eighths_on(a, d).add(eighths_on(b.drop_last(), d)).add(x)
            =~= eighths_on(a, d).add(eighths_on(b.drop_last(), d).add(x)));
    }
}

proof fn lemma_eighths_of_spread<V>(l: ConcentratedLoad<V>, ns: [i32; 8], d: usize, k: nat)
    requires
        k <= 8,
    ensures
        eighths_on(Seq::new(8, |j: int| (ConcentratedLoad { node: ns@[j], dof: l.dof, magnitude: l.magnitude }, LoadShare::Eighth)).take(k as int), d)
            == (if l.dof == d { copies(l.magnitude, k) } else { Multiset::empty() }),
    decreases k,
{
    let piece = Seq::new(8, |j: int| (ConcentratedLoad { node: ns@[j], dof: l.dof, magnitude: l.magnitude }, LoadShare::Eighth));
    if k == 0 {
        assert(piece.take(0) =~= Seq::<(ConcentratedLoad<V>, LoadShare)>::empty());
    } else {
        lemma_eighths_of_spread(l, ns, d, (k - 1) as nat);
        assert(piece.take(k as int).drop_last() =~= piece.take(k - 1));
        assert(piece.take(k as int).last() == piece[k - 1]);
        assert(copies(l.magnitude, 0) =~= Multiset::<V>::empty());
        assert(copies(l.magnitude, 1) =~= Multiset::empty().insert(l.magnitude));
        if l.dof == d {
            assert(copies(l.magnitude, (k - 1) as nat).add(copies(l.magnitude, 1)) =~= copies(l.magnitude, k));
        } else {
            assert(Multiset::<V>::empty().add(Multiset::empty()) =~= Multiset::<V>::empty());
        }
    }
}

/// The transfer keeps the total load on every direction: counted in
/// eighths, the transferred loads on direction `d` carry the same
/// magnitudes as the loads kept (a translational load on a beam node
/// becomes eight eighths of itself; rotational loads on beam nodes are
/// dropped; other loads stay whole).
pub proof fn lemma_transfer_keeps_load_totals<V>(m: Map<i32, [i32; 8]>, loads: Seq<ConcentratedLoad<V>>, d: usize)
    ensures
        eighths_on(transferred_loads(m, loads), d) == kept_eighths(m, loads, d),
    decreases loads.len(),
{
    if loads.len() > 0 {
        let l = loads.last();
        let rest = transferred_loads(m, loads.drop_last());
        lemma_transfer_keeps_load_totals(m, loads.drop_last(), d);
        if m.contains_key(l.node) {
            if l.dof <= 3 {
                let ns = m[l.node];
                let piece = Seq::new(8, |j: int| (ConcentratedLoad { node: ns@[j], dof: l.dof, magnitude: l.magnitude }, LoadShare::Eighth));
                assert(transferred_loads(m, loads) == rest + piece);
                lemma_eighths_concat(rest, piece, d);
                lemma_eighths_of_spread(l, ns, d, 8);
                assert(piece.take(8) =~= piece);
                assert(eighths_on(piece, d) == (if l.dof == d { copies(l.magnitude, 8) } else { Multiset::empty() }));
                assert(kept_eighths(m, loads, d) == kept_eighths(m, loads.drop_last(), d).add(
                    if l.dof == d { copies(l.magnitude, 8) } else { Multiset::empty() }));
            } else {
                assert(transferred_loads(m, loads) == rest);
                assert(kept_eighths(m, loads.drop_last(), d).add(Multiset::empty()) =~= kept_eighths(m, loads.drop_last(), d));
            }
        } else {
            let one = seq![(l, LoadShare::Whole)];
            assert(transferred_loads(m, loads) == rest.push((l, LoadShare::Whole)));
            assert(rest.push((l, LoadShare::Whole)) =~= rest + one);
            lemma_eighths_concat(rest, one, d);
            assert(one.drop_last() =~= Seq::<(ConcentratedLoad<V>, LoadShare)>::empty());
            assert(one.last() == (l, LoadShare::Whole));
            assert(Multiset::<V>::empty().add(if l.dof == d { copies(l.magnitude, 8) } else { Multiset::empty() })
                =~= (if l.dof == d { copies(l.magnitude, 8) } else { Multiset::empty() }));
            assert(eighths_on(one.drop_last(), d) =~= Multiset::<V>::empty());
            assert(share_eighths(LoadShare::Whole) == 8);
            assert(eighths_on(one, d) == (if l.dof == d { copies(l.magnitude, 8) } else { Multiset::empty() }));
        }
    }
}

/// Kinds of distributed load.
#[derive(Debug, Clone, Copy, PartialEq, Eq)]
pub enum DistributedLoadType {
    Pressure,
    Centrifugal,
    Gravity,
    BodyForce,
}

/// Some condition of `bcs` constrains the degree of freedom `d`.
pub open spec fn constrains<V>(bcs: Seq<DisplacementBC<V>>, d: DofId) -> bool {
    exists|i: int| 0 <= i < bcs.len() && (#[trigger] affected_dofs_view(bcs[i].node, bcs[i].first_dof, bcs[i].last_dof)).contains(d)
}

proof fn lemma_constrains_step<V>(bcs: Seq<DisplacementBC<V>>, i: int, d: DofId)
    requires
        0 <= i < bcs.len(),
    ensures
        constrains(bcs.take(i + 1), d) == (constrains(bcs.take(i), d)
            || affected_dofs_view(bcs[i].node, bcs[i].first_dof, bcs[i].last_dof).contains(d)),
{
    let t = bcs.take(i + 1);
    let p = bcs.take(i);
    if constrains(t, d) {
        let k = choose|k: int| 0 <= k < t.len() && (#[trigger] affected_dofs_view(t[k].node, t[k].first_dof, t[k].last_dof)).contains(d);
        if k < i {
            assert(p[k] == t[k]);
        } else {
            assert(t[k] == bcs[i]);
        }
    }
    if constrains(p, d) {
        let k = choose|k: int| 0 <= k < p.len() && (#[trigger] affected_dofs_view(p[k].node, p[k].first_dof, p[k].last_dof)).contains(d);
        assert(t[k] == p[k]);
    }
    if affected_dofs_view(bcs[i].node, bcs[i].first_dof, bcs[i].last_dof).contains(d) {
        assert(t[i] == bcs[i]);
    }
}

fn dof_listed(v: &Vec<DofId>, d: DofId) -> (r: bool)
    ensures
        r == v@.contains(d),
{
    let mut i: usize = 0;
    while i < v.len()
        invariant
            i <= v@.len(),
            forall|k: int| 0 <= k < i ==> v@[k] != d,
        decreases v.len() - i,
    {
        if v[i].node == d.node && v[i].dof == d.dof {
            assert(v@[i as int] == d);
            return true;
        }
        i += 1;
    }
    false
}

/// The degrees of freedom the conditions `bcs` constrain, each listed once.
pub fn constrained_dofs<V: Copy>(bcs: &Vec<DisplacementBC<V>>) -> (r: Vec<DofId>)
    requires
        ranges_one_based(bcs@),
    ensures
        r@.no_duplicates(),
        forall|d: DofId| r@.contains(d) <==> constrains(bcs@, d),
{
    let mut out: Vec<DofId> = Vec::new();
    let mut i: usize = 0;
    assert forall|d: DofId| !constrains(bcs@.take(0), d) by {}
    while i < bcs.len()
        invariant
            i <= bcs@.len(),
            ranges_one_based(bcs@),
            out@.no_duplicates(),
            forall|d: DofId| out@.contains(d) <==> constrains(bcs@.take(i as int), d),
        decreases bcs.len() - i,
    {
        let bc = bcs[i];
        assert(bcs@[i as int] == bc);
        let dofs = affected_dofs(bc.node, bc.first_dof, bc.last_dof);
        let mut k: usize = 0;
        while k < dofs.len()
            invariant
                i < bcs@.len(),
                k <= dofs@.len(),
                dofs@ == affected_dofs_view(bc.node, bc.first_dof, bc.last_dof),
                out@.no_duplicates(),
                forall|d: DofId| out@.contains(d) <==> (constrains(bcs@.take(i as int), d) || dofs@.take(k as int).contains(d)),
            decreases dofs.len() - k,
        {
            let d = dofs[k];
            assert forall|e: DofId| dofs@.take(k + 1).contains(e) <==> (dofs@.take(k as int).contains(e) || e == d) by {
                if dofs@.take(k + 1).contains(e) {
                    let j = choose|j: int| 0 <= j < k + 1 && #[trigger] dofs@.take(k + 1)[j] == e;
                    if j < k {
                        assert(dofs@.take(k as int)[j] == e);
                    }
                }
                if dofs@.take(k as int).contains(e) {
                    let j = choose|j: int| 0 <= j < k && #[trigger] dofs@.take(k as int)[j] == e;
                    assert(dofs@.take(k + 1)[j] == e);
                }
                if e == d {
                    assert(dofs@.take(k + 1)[k as int] == e);
                }
            }
            let ghost prior = out@;
            if !dof_listed(&out, d) {
                let ghost before = out@;
                out.push(d);
                assert forall|e: DofId| out@.contains(e) <==> (before.contains(e) || e == d) by {
                    if out@.contains(e) {
                        let j = choose|j: int| 0 <= j < out@.len() && #[trigger] out@[j] == e;
                        if j < before.len() {
                            assert(before[j] == e);
                        }
                    }
                    if before.contains(e) {
                        let j = choose|j: int| 0 <= j < before.len() && #[trigger] before[j] == e;
                        assert(out@[j] == e);
                    }
                    if e == d {
                        assert(out@[before.len() as int] == e);
                    }
                }
                assert forall|a: int, b: int| 0 <= a < out@.len() && 0 <= b < out@.len() && a != b implies out@[a] != out@[b] by {
                    if a < before.len() && b < before.len() {
                    } else if a < before.len() {
                        assert(before.contains(out@[a]));
                    } else {
                        assert(before.contains(out@[b]));
                    }
                }
            }
            assert forall|e: DofId| out@.contains(e) <==> (constrains(bcs@.take(i as int), e) || dofs@.take(k + 1).contains(e)) by {
                assert(prior.contains(e) <==> (constrains(bcs@.take(i as int), e) || dofs@.take(k as int).contains(e)));
                assert(dofs@.take(k + 1).contains(e) <==> (dofs@.take(k as int).contains(e) || e == d));
            }
            k += 1;
        }
        assert(dofs@.take(dofs@.len() as int) =~= dofs@);
        assert forall|d: DofId| out@.contains(d) <==> constrains(bcs@.take(i + 1), d) by {
            lemma_constrains_step(bcs@, i as int, d);
        }
        i += 1;
    }
    assert(bcs@.take(bcs@.len() as int) =~= bcs@);
    out
}

/// Counts of the boundary conditions and loads of a model.
#[derive(Debug, Clone)]
pub struct BCStatistics {
    pub num_displacement_bcs: usize,
    pub num_constrained_dofs: usize,
    pub num_concentrated_loads: usize,
    pub num_distributed_loads: usize,
}

/// The text `BCStatistics::format` renders.
pub open spec fn bc_statistics_text(s: BCStatistics) -> Seq<char> {
    "BCs: "@ + decimal(s.num_displacement_bcs as nat) + " displacement entries ("@ + decimal(
        s.num_constrained_dofs as nat,
    ) + " DOFs), "@ + decimal(s.num_concentrated_loads as nat) + " concentrated loads, "@ + decimal(
        s.num_distributed_loads as nat,
    ) + " distributed loads"@
}

impl BCStatistics {
    /// The counts as one line of text.
    pub fn format(&self) -> (r: String)
        ensures
            r@ == bc_statistics_text(*self),
    {
        let mut s = owned("BCs: ");
        push_decimal(&mut s, self.num_displacement_bcs);
        push_str(&mut s, " displacement entries (");
        push_decimal(&mut s, self.num_constrained_dofs);
        push_str(&mut s, " DOFs), ");
        push_decimal(&mut s, self.num_concentrated_loads);
        push_str(&mut s, " concentrated loads, ");
        push_decimal(&mut s, self.num_distributed_loads);
        push_str(&mut s, " distributed loads");
        s
    }
}

/// Transfer of boundary conditions from beam nodes to the eight section
/// nodes each beam node expands to.
pub struct BCTransfer {
    beam_node_mapping: HashMap<i32, [i32; 8]>,
}

/// The text `BCTransfer::statistics` renders for `n` beam nodes.
pub open spec fn transfer_statistics_text(n: nat) -> Seq<char> {
    "BC Transfer: "@ + decimal(n) + " beam nodes → "@ + decimal(n * 8) + " section nodes total"@
}

impl BCTransfer {
    /// The map from beam nodes to their section nodes, as this transfer holds it.
    pub closed spec fn mapping(&self) -> Map<i32, [i32; 8]> {
        self.beam_node_mapping@
    }

    /// A transfer over the given beam-node to section-node map.
    pub fn new(beam_node_mapping: HashMap<i32, [i32; 8]>) -> (r: BCTransfer)
        ensures
            r.mapping() == beam_node_mapping@,
    {
        BCTransfer { beam_node_mapping }
    }

    /// The section nodes of a beam node, if it is one.
    pub fn section_nodes(&self, node: i32) -> (r: Option<[i32; 8]>)
        ensures
            r == (if self.mapping().contains_key(node) {
                Some(self.mapping()[node])
            } else {
                None
            }),
    {
        match self.beam_node_mapping.get(&node) {
            Some(n) => Some(*n),
            None => None,
        }
    }

    /// Transfers displacement conditions from beam nodes to their section
    /// nodes (see `transferred_displacements`).
    pub fn transfer_displacement_bcs<V: Copy>(&self, bcs: &Vec<DisplacementBC<V>>) -> (r: Vec<DisplacementBC<V>>)
        ensures
            r@ == transferred_displacements(self.mapping(), bcs@),
    {
        let mut out: Vec<DisplacementBC<V>> = Vec::new();
        let mut i: usize = 0;
        assert(bcs@.take(0) =~= Seq::<DisplacementBC<V>>::empty());
        while i < bcs.len()
            invariant
                i <= bcs@.len(),
                out@ == transferred_displacements(self.mapping(), bcs@.take(i as int)),
            decreases bcs.len() - i,
        {
            let bc = bcs[i];
            assert(bcs@.take(i + 1).drop_last() =~= bcs@.take(i as int));
            assert(bcs@.take(i + 1).last() == bc);
            match self.beam_node_mapping.get(&bc.node) {
                Some(section_nodes) => {
                    if bc.first_dof <= 3 {
                        let ns = *section_nodes;
                        let first = if bc.first_dof < 3 { bc.first_dof } else { 3 };
                        let last = if bc.last_dof < 3 { bc.last_dof } else { 3 };
                        let ghost before = out@;
                        let ghost added = Seq::new(8, |k: int| DisplacementBC {
                            node: ns@[k],
                            first_dof: clamp3(bc.first_dof),
                            last_dof: clamp3(bc.last_dof),
                            value: bc.value,
                        });
                        let mut k: usize = 0;
                        while k < 8
                            invariant
                                k <= 8,
                                out@ == before + added.take(k as int),
                                added == Seq::new(8, |k: int| DisplacementBC {
                                    node: ns@[k],
                                    first_dof: clamp3(bc.first_dof),
                                    last_dof: clamp3(bc.last_dof),
                                    value: bc.value,
                                }),
                                first == clamp3(bc.first_dof),
                                last == clamp3(bc.last_dof),
                            decreases 8 - k,
                        {
                            out.push(DisplacementBC::new(ns[k], first, last, bc.value));
                            assert(added.take(k + 1) =~= added.take(k as int).push(added[k as int]));
                            k += 1;
                        }
                        assert(added.take(8) =~= added);
                    }
                },
                None => {
                    out.push(bc);
                },
            }
            i += 1;
        }
        assert(bcs@.take(bcs@.len() as int) =~= bcs@);
        out
    }

    /// Transfers concentrated loads from beam nodes to their section nodes
    /// (see `transferred_loads`); each load comes with the share of its
    /// magnitude that it carries.
    pub fn transfer_concentrated_loads<V: Copy>(&self, loads: &Vec<ConcentratedLoad<V>>) -> (r: Vec<(ConcentratedLoad<V>, LoadShare)>)
        ensures
            r@ == transferred_loads(self.mapping(), loads@),
    {
        let mut out: Vec<(ConcentratedLoad<V>, LoadShare)> = Vec::new();
        let mut i: usize = 0;
        assert(loads@.take(0) =~= Seq::<ConcentratedLoad<V>>::empty());
        while i < loads.len()
            invariant
                i <= loads@.len(),
                out@ == transferred_loads(self.mapping(), loads@.take(i as int)),
            decreases loads.len() - i,
        {
            let l = loads[i];
            assert(loads@.take(i + 1).drop_last() =~= loads@.take(i as int));
            assert(loads@.take(i + 1).last() == l);
            match self.beam_node_mapping.get(&l.node) {
                Some(section_nodes) => {
                    if l.dof <= 3 {
                        let ns = *section_nodes;
                        let ghost before = out@;
                        let ghost added = Seq::new(8, |k: int| (ConcentratedLoad { node: ns@[k], dof: l.dof, magnitude: l.magnitude }, LoadShare::Eighth));
                        let mut k: usize = 0;
                        while k < 8
                            invariant
                                k <= 8,
                                out@ == before + added.take(k as int),
                                added == Seq::new(8, |k: int| (ConcentratedLoad { node: ns@[k], dof: l.dof, magnitude: l.magnitude }, LoadShare::Eighth)),
                            decreases 8 - k,
                        {
                            out.push((ConcentratedLoad::new(ns[k], l.dof, l.magnitude), LoadShare::Eighth));
                            assert(added.take(k + 1) =~= added.take(k as int).push(added[k as int]));
                            k += 1;
                        }
                        assert(added.take(8) =~= added);
                    }
                },
                None => {
                    out.push((l, LoadShare::Whole));
                },
            }
            i += 1;
        }
        assert(loads@.take(loads@.len() as int) =~= loads@);
        out
    }

    /// Transfers the displacement conditions and the concentrated loads of
    /// a model (see `transferred_displacements`, `transferred_loads`);
    /// distributed loads are not tied to nodes and are handed back as they
    /// are.
    pub fn transfer_all<V: Copy, D>(
        &self,
        displacement_bcs: &Vec<DisplacementBC<V>>,
        concentrated_loads: &Vec<ConcentratedLoad<V>>,
        distributed_loads: Vec<D>,
    ) -> (r: TransferredConditions<V, D>)
        ensures
            r.displacement_bcs@ == transferred_displacements(self.mapping(), displacement_bcs@),
            r.concentrated_loads@ == transferred_loads(self.mapping(), concentrated_loads@),
            r.distributed_loads@ == distributed_loads@,
    {
        TransferredConditions {
            displacement_bcs: self.transfer_displacement_bcs(displacement_bcs),
            concentrated_loads: self.transfer_concentrated_loads(concentrated_loads),
            distributed_loads,
        }
    }

    /// One line counting beam nodes and the section nodes they expand to.
    pub fn statistics(&self) -> (r: String)
        requires
            self.mapping().len() * 8 <= usize::MAX,
        ensures
            r@ == transfer_statistics_text(self.mapping().len()),
    {
        let n = self.beam_node_mapping.len();
        let mut s = owned("BC Transfer: ");
        push_decimal(&mut s, n);
        push_str(&mut s, " beam nodes → ");
        push_decimal(&mut s, n * 8);
        push_str(&mut s, " section nodes total");
        s
    }
}

/// The elements a distributed load names: a numeric element id that the
/// mesh has (`element_ids`), or the reason it names none.
pub open spec fn resolved_elements(spec: Seq<char>, element_ids: Set<i32>) -> Result<Seq<i32>, Seq<char>> {
    match parse_i32_view(spec) {
        None => Err("Element specification '"@ + spec + "' is not a valid numeric element ID"@),
        Some(id) => if element_ids.contains(id) {
            Ok(seq![id])
        } else {
            Err("Element "@ + signed_decimal(id as int) + " not found in mesh"@)
        },
    }
}

/// Resolves the element part of a distributed load (see
/// `resolved_elements`).
pub fn resolve_elements(element_spec: &str, element_ids: &HashSet<i32>) -> (r: Result<Vec<i32>, String>)
    ensures
        match resolved_elements(element_spec@, element_ids@) {
            Ok(v) => r matches Ok(w) && w@ == v,
            Err(m) => r matches Err(e) && e@ == m,
        },
{
    let chars = chars_of(element_spec);
    match parse_i32(chars.as_slice()) {
        None => {
            let mut m = owned("Element specification '");
            push_str(&mut m, element_spec);
            push_str(&mut m, "' is not a valid numeric element ID");
            Err(m)
        },
        Some(id) => {
            if element_ids.contains(&id) {
                let v = vec![id];
                assert(v@ =~= seq![id]);
                Ok(v)
            } else {
                let mut m = owned("Element ");
                push_signed(&mut m, id);
                push_str(&mut m, " not found in mesh");
                Err(m)
            }
        },
    }
}

} // verus!
