use std::collections::HashMap;

use ccx::bc::{
    affected_dofs, bc_statistics, constrained_dofs, BCStatistics, BCTransfer, ConcentratedLoad, DisplacementBC, DofId, LoadShare,
};
use ccx::elements::{generate_c3d20r_elements, BeamExpansionConfig};

#[test]
fn dof_ids_and_statistics_text() {
    let d = DofId::new(7, 2);
    assert_eq!(d.node, 7);
    assert_eq!(d.dof, 2);
    let s = BCStatistics {
        num_displacement_bcs: 2,
        num_constrained_dofs: 6,
        num_concentrated_loads: 1,
        num_distributed_loads: 0,
    };
    assert_eq!(
        s.format(),
        "BCs: 2 displacement entries (6 DOFs), 1 concentrated loads, 0 distributed loads"
    );
}

#[test]
fn transfer_maps_beam_nodes_to_section_nodes() {
    let mut mapping = HashMap::new();
    mapping.insert(1, [11, 12, 13, 14, 15, 16, 17, 18]);
    mapping.insert(2, [21, 22, 23, 24, 25, 26, 27, 28]);
    let t = BCTransfer::new(mapping);
    assert_eq!(t.section_nodes(1), Some([11, 12, 13, 14, 15, 16, 17, 18]));
    assert_eq!(t.section_nodes(3), None);
    assert_eq!(t.statistics(), "BC Transfer: 2 beam nodes → 16 section nodes total");
}

#[test]
fn beam_becomes_one_brick_with_next_id() {
    let mut mapping = HashMap::new();
    mapping.insert(1, [1, 2, 3, 4, 5, 6, 7, 8]);
    mapping.insert(2, [9, 10, 11, 12, 13, 14, 15, 16]);
    mapping.insert(3, [17, 18, 19, 20, 21, 22, 23, 24]);
    let mut config = BeamExpansionConfig::default();
    let elements = generate_c3d20r_elements(5, &mapping, &[1, 2, 3], &mut config).expect("mapped");
    assert_eq!(elements.len(), 1);
    assert_eq!(config.next_element_id, 1_000_001);
    let e = elements.get(&1_000_000).expect("brick has the next id");
    assert_eq!(e.nodes.len(), 20);
    let err = generate_c3d20r_elements(5, &mapping, &[1, 2], &mut config).unwrap_err();
    assert_eq!(err, "Expected 3 beam nodes for B32R, got 2");
    assert!(generate_c3d20r_elements(5, &mapping, &[1, 2, 4], &mut config).is_err());
}

use std::collections::HashSet;

use ccx::bc::resolve_elements;

#[test]
fn resolves_element_by_id() {
    let ids: HashSet<i32> = [1].into_iter().collect();
    let result = resolve_elements("1", &ids);
    assert!(result.is_ok());
    assert_eq!(result.unwrap(), vec![1]);
}

#[test]
fn error_on_invalid_element() {
    let ids: HashSet<i32> = [1].into_iter().collect();
    let result = resolve_elements("999", &ids);
    assert!(result.is_err());
    assert!(result.unwrap_err().contains("not found"));
}

#[test]
fn error_on_non_numeric_spec() {
    let ids: HashSet<i32> = [1].into_iter().collect();
    let result = resolve_elements("plate_top", &ids);
    assert!(result.is_err());
    assert!(result.unwrap_err().contains("not a valid numeric element ID"));
}

#[test]
fn displacement_condition_constrains_zero_based_dofs() {
    assert_eq!(
        affected_dofs(4, 1, 3),
        vec![DofId::new(4, 0), DofId::new(4, 1), DofId::new(4, 2)]
    );
    assert_eq!(affected_dofs(4, 2, 2), vec![DofId::new(4, 1)]);
    assert!(affected_dofs(4, 3, 2).is_empty());
}

fn beam_node_one() -> BCTransfer {
    let mut mapping = HashMap::new();
    mapping.insert(1, [1000, 1001, 1002, 1003, 1004, 1005, 1006, 1007]);
    BCTransfer::new(mapping)
}

fn spread(loads: Vec<(ConcentratedLoad<f64>, LoadShare)>) -> Vec<ConcentratedLoad<f64>> {
    loads
        .into_iter()
        .map(|(l, share)| match share {
            LoadShare::Whole => l,
            LoadShare::Eighth => ConcentratedLoad::new(l.node, l.dof, l.magnitude / 8.0),
        })
        .collect()
}

#[test]
fn test_displacement_bc_transfer() {
    let transfer = beam_node_one();
    let given = vec![DisplacementBC::new(1, 1, 6, 0.0)];
    let new_bcs = transfer.transfer_displacement_bcs(&given);
    assert_eq!(new_bcs.len(), 8);
    for bc in &new_bcs {
        assert!(bc.node >= 1000 && bc.node <= 1007);
        assert_eq!(bc.first_dof, 1);
        assert_eq!(bc.last_dof, 3);
        assert_eq!(bc.value, 0.0);
    }
}

#[test]
fn test_concentrated_load_transfer() {
    let transfer = beam_node_one();
    let given = vec![ConcentratedLoad { node: 1, dof: 1, magnitude: 1.0 }];
    let shares = transfer.transfer_concentrated_loads(&given);
    assert!(shares.iter().all(|(_, s)| *s == LoadShare::Eighth));
    let new_loads = spread(shares);
    assert_eq!(new_loads.len(), 8);
    let mut total_load = 0.0;
    for load in &new_loads {
        assert!(load.node >= 1000 && load.node <= 1007);
        assert_eq!(load.dof, 1);
        assert_eq!(load.magnitude, 0.125);
        total_load += load.magnitude;
    }
    assert!((total_load - 1.0f64).abs() < 1e-10);
}

#[test]
fn test_non_beam_node_passthrough() {
    let transfer = beam_node_one();
    let given = vec![DisplacementBC::new(2, 1, 3, 0.0)];
    let new_bcs = transfer.transfer_displacement_bcs(&given);
    assert_eq!(new_bcs.len(), 1);
    assert_eq!(new_bcs[0].node, 2);
    assert_eq!(new_bcs[0].first_dof, 1);
    assert_eq!(new_bcs[0].last_dof, 3);
}

#[test]
fn test_transfer_all() {
    let transfer = beam_node_one();
    let moved = transfer.transfer_all(
        &vec![DisplacementBC::new(1, 1, 6, 0.0)],
        &vec![ConcentratedLoad { node: 1, dof: 1, magnitude: 8.0 }],
        vec!["pressure on element 5"],
    );
    let loads = spread(moved.concentrated_loads);
    assert_eq!(moved.displacement_bcs.len(), 8);
    assert_eq!(loads.len(), 8);
    assert_eq!(moved.distributed_loads, vec!["pressure on element 5"]);
    let total_load: f64 = loads.iter().map(|l| l.magnitude).sum();
    assert!((total_load - 8.0).abs() < 1e-10);
}

#[test]
fn rotation_only_condition_on_a_beam_node_is_not_transferred() {
    let transfer = beam_node_one();
    let given = vec![DisplacementBC::new(1, 4, 6, 0.0), DisplacementBC::new(1, 3, 5, 0.0)];
    let new_bcs = transfer.transfer_displacement_bcs(&given);
    assert_eq!(new_bcs.len(), 8);
    assert!(new_bcs.iter().all(|bc| bc.first_dof == 3 && bc.last_dof == 3));
}

#[test]
fn transfer_keeps_the_total_load_per_direction() {
    let transfer = beam_node_one();
    let given = vec![
        ConcentratedLoad { node: 1, dof: 2, magnitude: 3.0 },
        ConcentratedLoad { node: 1, dof: 5, magnitude: 7.0 },
        ConcentratedLoad { node: 9, dof: 2, magnitude: 1.5 },
        ConcentratedLoad { node: 9, dof: 5, magnitude: 2.0 },
    ];
    let loads = spread(transfer.transfer_concentrated_loads(&given));
    let total = |d: usize| -> f64 { loads.iter().filter(|l| l.dof == d).map(|l| l.magnitude).sum() };
    assert!((total(2) - 4.5).abs() < 1e-12);
    assert!((total(5) - 2.0).abs() < 1e-12);
}

#[test]
fn rotational_beam_loads_are_dropped_and_others_kept_whole() {
    let transfer = beam_node_one();
    let given = vec![
        ConcentratedLoad { node: 1, dof: 5, magnitude: 2.0 },
        ConcentratedLoad { node: 3, dof: 5, magnitude: 2.0 },
    ];
    let shares = transfer.transfer_concentrated_loads(&given);
    assert_eq!(shares, vec![(ConcentratedLoad { node: 3, dof: 5, magnitude: 2.0 }, LoadShare::Whole)]);
}

#[test]
fn load_dof_ids_are_zero_based() {
    let load = ConcentratedLoad::new(4, 3, 1.0);
    assert_eq!(load.dof_id(), DofId::new(4, 2));
    let bc = DisplacementBC::new(4, 2, 3, 0.5);
    assert_eq!(bc.affected_dofs(), vec![DofId::new(4, 1), DofId::new(4, 2)]);
}

#[test]
fn statistics_count_constrained_dofs() {
    let bcs = vec![DisplacementBC::new(1, 1, 3, 0.0), DisplacementBC::new(2, 2, 2, 1.0), DisplacementBC::new(3, 4, 2, 0.0)];
    let s = bc_statistics(&bcs, 5, 1);
    assert_eq!(s.num_displacement_bcs, 3);
    assert_eq!(s.num_constrained_dofs, 4);
    assert_eq!(s.num_concentrated_loads, 5);
    assert_eq!(s.num_distributed_loads, 1);
}

#[test]
fn constrained_dofs_lists_each_dof_once() {
    let bcs = vec![
        DisplacementBC::new(1, 1, 3, 0.0),
        DisplacementBC::new(1, 2, 2, 0.5),
        DisplacementBC::new(2, 1, 1, 0.0),
        DisplacementBC::new(3, 2, 1, 0.0),
    ];
    let mut dofs = constrained_dofs(&bcs);
    dofs.sort_by_key(|d| (d.node, d.dof));
    assert_eq!(dofs, vec![DofId::new(1, 0), DofId::new(1, 1), DofId::new(1, 2), DofId::new(2, 0)]);
    let none: Vec<DisplacementBC<f64>> = vec![];
    assert!(constrained_dofs(&none).is_empty());
}
