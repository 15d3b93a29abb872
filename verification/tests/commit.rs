use world2::chunk::{ChunkKey, Face};
use world2::commit::{
    commit_priority_group, keys_difference, keys_intersection, max_deferred_starvation,
    payload_evictions, plan_commit_keys, render_update_needs_refresh, schedule_commit_ops,
    sort_commit_ops, update_deferred_starvation, CommitBudget, CommitOp,
};
use world2::config::{CommitOpKind, DeferredOpKey};
use world2::render_commit::apply_commit_to_active_sets;
use world2::surface::SurfaceClassKey;

fn k(face: Face, lod: u8, x: u32, y: u32) -> ChunkKey {
    ChunkKey::new(face, lod, x, y)
}

fn budget(commits: usize, bytes: usize) -> CommitBudget {
    CommitBudget {
        commit_budget_per_frame: commits,
        upload_budget_bytes_per_frame: bytes,
        render_activation_budget_per_frame: usize::MAX,
        render_update_budget_per_frame: usize::MAX,
        render_deactivation_budget_per_frame: usize::MAX,
        physics_activation_budget_per_frame: usize::MAX,
        physics_deactivation_budget_per_frame: usize::MAX,
    }
}

#[test]
fn commit_plan_splits_desired_against_active_sets() {
    let a = k(Face::Px, 1, 0, 0);
    let b = k(Face::Px, 1, 1, 0);
    let c = k(Face::Nx, 0, 0, 0);
    let d = k(Face::Py, 2, 3, 1);
    let plan = plan_commit_keys(&vec![c, a, b], &vec![b, d], &vec![a], &vec![d]);
    assert_eq!(plan.render_activations, vec![a, c]);
    assert_eq!(plan.render_updates, vec![b]);
    assert_eq!(plan.render_deactivations, vec![d]);
    assert_eq!(plan.physics_activations, vec![a]);
    assert_eq!(plan.physics_deactivations, vec![d]);
    assert_eq!(keys_difference(&vec![b, b, a], &vec![]), vec![a, b]);
    assert_eq!(keys_intersection(&vec![d, a, c], &vec![c, d]), vec![c, d]);
}

#[test]
fn commit_ops_carry_priority_and_upload_rules() {
    let key = k(Face::Pz, 2, 1, 1);
    let activate = CommitOp::new(CommitOpKind::ActivateRender, key, 500, 7);
    assert_eq!(activate.priority_group, 0);
    assert_eq!(activate.upload_bytes, 500);
    let physics = CommitOp::new(CommitOpKind::ActivatePhysics, key, 500, 7);
    assert_eq!(physics.priority_group, 2);
    assert_eq!(physics.upload_bytes, 0);
    assert_eq!(commit_priority_group(CommitOpKind::UpdateRender), 1);
    assert_eq!(commit_priority_group(CommitOpKind::DeactivateRender), 3);
    assert_eq!(commit_priority_group(CommitOpKind::DeactivatePhysics), 4);
}

#[test]
fn commit_ops_sort_by_priority_then_distance_then_key() {
    let a = k(Face::Px, 1, 0, 0);
    let b = k(Face::Px, 1, 1, 0);
    let mut ops = vec![
        CommitOp::new(CommitOpKind::DeactivateRender, a, 0, 1),
        CommitOp::new(CommitOpKind::ActivateRender, b, 10, 50),
        CommitOp::new(CommitOpKind::ActivateRender, a, 10, 50),
        CommitOp::new(CommitOpKind::ActivateRender, b, 10, 20),
        CommitOp::new(CommitOpKind::UpdateRender, a, 10, 0),
    ];
    sort_commit_ops(&mut ops);
    let order = ops.iter().map(|op| (op.kind, op.key, op.distance_key_mm)).collect::<Vec<_>>();
    assert_eq!(
        order,
        vec![
            (CommitOpKind::ActivateRender, b, 20),
            (CommitOpKind::ActivateRender, a, 50),
            (CommitOpKind::ActivateRender, b, 50),
            (CommitOpKind::UpdateRender, a, 0),
            (CommitOpKind::DeactivateRender, a, 1),
        ]
    );
}

#[test]
fn budgeted_schedule_defers_work_when_frame_budget_is_tight() {
    let ops = (0..5u32)
        .map(|i| CommitOp::new(CommitOpKind::ActivateRender, k(Face::Px, 3, i, 0), 100, u64::from(i)))
        .collect::<Vec<_>>();
    let schedule = schedule_commit_ops(&ops, &budget(2, 128));
    assert_eq!(schedule.committed.len(), 1);
    assert_eq!(schedule.committed[0].key, k(Face::Px, 3, 0, 0));
    assert_eq!(schedule.upload_bytes_committed, 100);
    assert_eq!(schedule.deferred.len(), 4);
    assert_eq!(schedule.upload_bytes_deferred, 400);

    let free = CommitOp::new(CommitOpKind::DeactivateRender, k(Face::Nx, 0, 0, 0), 0, 0);
    let mut with_free = ops.clone();
    with_free.push(free);
    let schedule = schedule_commit_ops(&with_free, &budget(2, 128));
    assert_eq!(schedule.committed.len(), 2);
    assert_eq!(schedule.committed[1], free);
}

#[test]
fn per_kind_commit_budgets_cap_render_and_physics_spikes() {
    let mut ops = Vec::new();
    for i in 0..4u32 {
        ops.push(CommitOp::new(CommitOpKind::ActivateRender, k(Face::Py, 2, i, 0), 10, 0));
        ops.push(CommitOp::new(CommitOpKind::UpdateRender, k(Face::Py, 2, i, 1), 10, 0));
        ops.push(CommitOp::new(CommitOpKind::ActivatePhysics, k(Face::Py, 2, i, 2), 0, 0));
    }
    sort_commit_ops(&mut ops);
    let budget = CommitBudget {
        commit_budget_per_frame: 16,
        upload_budget_bytes_per_frame: usize::MAX,
        render_activation_budget_per_frame: 1,
        render_update_budget_per_frame: 0,
        render_deactivation_budget_per_frame: 8,
        physics_activation_budget_per_frame: 0,
        physics_deactivation_budget_per_frame: 4,
    };
    let schedule = schedule_commit_ops(&ops, &budget);
    assert_eq!(schedule.committed.len(), 1);
    assert_eq!(schedule.committed[0].kind, CommitOpKind::ActivateRender);
    assert_eq!(schedule.deferred.len(), 11);
    assert!(schedule.deferred.contains(&DeferredOpKey::new(CommitOpKind::ActivatePhysics, k(Face::Py, 2, 0, 2))));
}

#[test]
fn deferred_starvation_counts_consecutive_frames_and_forgets_served_ops() {
    let a = DeferredOpKey::new(CommitOpKind::ActivateRender, k(Face::Px, 1, 0, 0));
    let b = DeferredOpKey::new(CommitOpKind::UpdateRender, k(Face::Px, 1, 1, 0));
    let frame1 = update_deferred_starvation(&vec![], &vec![a, b]);
    assert_eq!(frame1, vec![(a, 1), (b, 1)]);
    let frame2 = update_deferred_starvation(&frame1, &vec![b]);
    assert_eq!(frame2, vec![(b, 2)]);
    let frame3 = update_deferred_starvation(&frame2, &vec![a, b]);
    assert_eq!(frame3, vec![(a, 1), (b, 3)]);
    assert_eq!(max_deferred_starvation(&frame3), 3);
    assert_eq!(max_deferred_starvation(&vec![]), 0);
    let saturated = update_deferred_starvation(&vec![(a, u32::MAX)], &vec![a]);
    assert_eq!(saturated, vec![(a, u32::MAX)]);
}

#[test]
fn payload_residency_budget_evicts_smallest_unretained_keys() {
    let keys = (0..6u32).map(|i| k(Face::Pz, 3, i, 0)).collect::<Vec<_>>();
    let resident = vec![keys[4], keys[1], keys[5], keys[0], keys[3], keys[2]];
    let retained = vec![keys[0], keys[2]];
    assert_eq!(payload_evictions(&resident, &retained, 3), vec![keys[1], keys[3], keys[4]]);
    assert_eq!(payload_evictions(&resident, &retained, 6), Vec::<ChunkKey>::new());
    assert_eq!(payload_evictions(&resident, &retained, 0), vec![keys[1], keys[3], keys[4], keys[5]]);
}

#[test]
fn refresh_is_needed_without_a_matching_resident_payload() {
    let class = SurfaceClassKey::canonical_chunk(0, 0, 0x1B, 12, 24, 4).unwrap();
    let other = SurfaceClassKey::canonical_chunk(1, 0, 0x1B, 12, 24, 4).unwrap();
    assert!(render_update_needs_refresh(None, &class));
    assert!(render_update_needs_refresh(Some(&other), &class));
    assert!(!render_update_needs_refresh(Some(&class), &class));
}

#[test]
fn committed_ops_move_active_sets_toward_desired() {
    let a = k(Face::Px, 1, 0, 0);
    let b = k(Face::Px, 1, 1, 0);
    let mut render = vec![a];
    let mut physics = vec![];
    apply_commit_to_active_sets(CommitOpKind::ActivateRender, b, &mut render, &mut physics);
    apply_commit_to_active_sets(CommitOpKind::ActivateRender, b, &mut render, &mut physics);
    apply_commit_to_active_sets(CommitOpKind::ActivatePhysics, a, &mut render, &mut physics);
    assert_eq!(render, vec![a, b]);
    assert_eq!(physics, vec![a]);
    apply_commit_to_active_sets(CommitOpKind::DeactivateRender, a, &mut render, &mut physics);
    apply_commit_to_active_sets(CommitOpKind::DeactivatePhysics, a, &mut render, &mut physics);
    assert_eq!(render, vec![b]);
    assert!(physics.is_empty());
}

#[test]
fn committing_every_planned_op_reaches_the_desired_sets() {
    let a = k(Face::Px, 1, 0, 0);
    let b = k(Face::Px, 1, 1, 0);
    let c = k(Face::Nx, 0, 0, 0);
    let d = k(Face::Py, 2, 3, 1);
    let desired_render = vec![c, a, b];
    let desired_physics = vec![a];
    let mut render = vec![b, d];
    let mut physics = vec![d];
    let plan = plan_commit_keys(&desired_render, &render, &desired_physics, &physics);
    let mut ops = Vec::new();
    for (kind, keys) in [
        (CommitOpKind::ActivateRender, &plan.render_activations),
        (CommitOpKind::UpdateRender, &plan.render_updates),
        (CommitOpKind::ActivatePhysics, &plan.physics_activations),
        (CommitOpKind::DeactivateRender, &plan.render_deactivations),
        (CommitOpKind::DeactivatePhysics, &plan.physics_deactivations),
    ] {
        for key in keys.iter().copied() {
            ops.push(CommitOp::new(kind, key, 0, 0));
        }
    }
    sort_commit_ops(&mut ops);
    let schedule = schedule_commit_ops(&ops, &budget(usize::MAX, usize::MAX));
    assert_eq!(schedule.committed.len(), ops.len());
    for op in schedule.committed {
        apply_commit_to_active_sets(op.kind, op.key, &mut render, &mut physics);
    }
    render.sort();
    physics.sort();
    let mut expected_render = desired_render.clone();
    expected_render.sort();
    assert_eq!(render, expected_render);
    assert_eq!(physics, desired_physics);
}
