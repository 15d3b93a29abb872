use godot::builtin::Rid;
use world2::chunk::{ChunkKey, Face};
use world2::commit::{schedule_commit_ops, CommitBudget, CommitOp};
use world2::config::CommitOpKind;
use world2::frame::SelectionFrameState;
use world2::metadata::MetadataStore;
use world2::payload::{PayloadBuildRequirements, RenderFallbackReason, RenderLifecycleCommand};
use world2::pool::{recycle_into, RenderWarmPath, SurfacePool};
use world2::render_commit::{
    headless_render_commit_path, lifecycle_for_warm_path, payload_upload_bytes, render_commit_path,
    RenderCommitPath,
};
use world2::render_state::{ChunkRidState, PhysicsPoolEntry};
use world2::requests::{
    accept_meta_result, accept_prepared_payload, plan_payload_request, request_chunk_meta_if_missing,
    PayloadRequestDecision, PendingPayloadRequest, PendingRequests,
};
use world2::surface::SurfaceClassKey;
use world2::topology::TopologyError;
use world2::requests::{payload_requirements_for_key, payload_satisfies_requirements};
use world2::strategy::RenderBackendKind;

fn class(mask: u8) -> SurfaceClassKey {
    SurfaceClassKey::canonical_chunk(mask, 0, 0x1B, 12, 24, 4).unwrap()
}

#[test]
fn metadata_store_reads_back_what_was_written() {
    let mut store: MetadataStore<u32> = MetadataStore::new(16, 2);
    assert!(store.is_empty());
    assert_eq!(store.dense_max_lod(), 2);
    let dense = ChunkKey::new(Face::Py, 2, 3, 1);
    let sparse = ChunkKey::new(Face::Py, 6, 40, 9);
    assert_eq!(store.insert(dense, 7), Ok(None));
    assert_eq!(store.insert(sparse, 9), Ok(None));
    assert_eq!(store.insert(dense, 8), Ok(Some(7)));
    assert_eq!(store.get_stored(&dense), Some(8));
    assert_eq!(store.get_stored(&sparse), Some(9));
    assert!(store.contains_key(&sparse));
    assert!(!store.contains_key(&ChunkKey::new(Face::Py, 2, 0, 0)));
    assert_eq!(store.len(), 2);
    assert_eq!(store.sparse_count(), 1);
    assert_eq!(store.insert(ChunkKey::new(Face::Py, 1, 5, 0), 1), Err(TopologyError::InvalidChunkKey));
}

#[test]
fn metadata_levels_are_built_face_by_face() {
    let mut store: MetadataStore<u8> = MetadataStore::new(16, 3);
    assert!(!store.level_is_built(1));
    for face in Face::ALL {
        store.set_face_level(face, 1, vec![1, 2, 3, 4]).unwrap();
    }
    assert!(store.level_is_built(1));
    assert_eq!(store.get_stored(&ChunkKey::new(Face::Nz, 1, 1, 1)), Some(4));
    assert_eq!(store.len(), 24);
    assert_eq!(store.set_face_level(Face::Px, 2, vec![0; 3]), Err(TopologyError::InvalidChunkKey));
    assert_eq!(store.set_face_level(Face::Px, 5, vec![0; 1024]), Err(TopologyError::InvalidChunkKey));
}

#[test]
fn surface_pool_hands_back_the_oldest_compatible_surface() {
    let mut pool: SurfacePool<u32> = SurfacePool::new();
    pool.push(class(1), 10);
    pool.push(class(1), 11);
    pool.push(class(2), 20);
    assert_eq!(pool.entry_count(), 3);
    assert_eq!(pool.queue_len(&class(1)), 2);
    assert_eq!(pool.recycle(class(2), 21, 1), Some(21));
    assert_eq!(pool.recycle(class(2), 22, 2), None);
    match pool.choose_render_warm_path(Some(&class(3)), &class(1)) {
        RenderWarmPath::ReusePooledSurface(entry) => assert_eq!(entry, 10),
        other => panic!("unexpected {other:?}"),
    }
    match pool.choose_render_warm_path(Some(&class(1)), &class(1)) {
        RenderWarmPath::ReuseCurrentSurface => {}
        other => panic!("unexpected {other:?}"),
    }
    match pool.choose_render_warm_path(None, &class(4)) {
        RenderWarmPath::ColdPath(RenderFallbackReason::MissingCurrentSurfaceClass) => {}
        other => panic!("unexpected {other:?}"),
    }
    match pool.choose_render_warm_path(Some(&class(5)), &class(4)) {
        RenderWarmPath::ColdPath(RenderFallbackReason::IncompatibleCurrentSurfaceClass(issues)) => {
            assert_eq!(issues[0], "stitch_mask");
            assert_eq!(issues[1], "index_class");
        }
        other => panic!("unexpected {other:?}"),
    }
    assert_eq!(pool.pop(&class(1)), Some(11));
    assert_eq!(pool.pop(&class(1)), None);
}

#[test]
fn physics_pool_watermark_bounds_recycled_bodies() {
    let mut pool = std::collections::VecDeque::new();
    assert_eq!(recycle_into(&mut pool, 1, 2), None);
    assert_eq!(recycle_into(&mut pool, 2, 2), None);
    assert_eq!(recycle_into(&mut pool, 3, 2), Some(3));
    assert_eq!(pool.len(), 2);
}

#[test]
fn rid_state_hands_render_and_physics_entries_to_the_pool() {
    let mut state = ChunkRidState::default();
    assert!(state.take_render_entry().is_none());
    state.install_render_entry(Rid::new(1), Rid::new(2), class(3), None);
    assert_eq!(state.current_render_rids(), Some((Rid::new(1), Rid::new(2))));
    assert_eq!(state.resident_surface_class(), Some(class(3)));
    let entry = state.take_render_entry().unwrap();
    assert_eq!(entry.mesh_rid, Rid::new(1));
    assert_eq!(entry.render_instance_rid, Rid::new(2));
    assert_eq!(entry.surface_class, class(3));
    assert!(!state.render_resident);
    assert_eq!(state.current_render_rids(), None);
    assert_eq!(state.resident_surface_class(), None);

    state.physics_body_rid = Some(Rid::new(5));
    assert!(state.take_physics_entry().is_none());
    state.physics_shape_rid = Some(Rid::new(6));
    state.physics_resident = true;
    assert_eq!(
        state.take_physics_entry(),
        Some(PhysicsPoolEntry { physics_body_rid: Rid::new(5), physics_shape_rid: Rid::new(6) })
    );
    assert!(!state.physics_resident);

    state.record_render_commit(class(1), None);
    assert!(state.render_resident);
    assert_eq!(state.active_surface_class, Some(class(1)));
    state.clear_server_handles();
    assert_eq!(state, ChunkRidState::default());
}

#[test]
fn render_commits_fall_back_to_cold_without_a_warm_mesh() {
    let warm_current = RenderLifecycleCommand::WarmReuseCurrent;
    let warm_pooled = RenderLifecycleCommand::WarmReusePooled;
    let cold = RenderLifecycleCommand::ColdCreate(RenderFallbackReason::NoCompatiblePooledSurface);
    assert_eq!(render_commit_path(&warm_current, true, false), RenderCommitPath::RefreshCurrent);
    assert_eq!(render_commit_path(&warm_current, false, true), RenderCommitPath::CreateCold);
    assert_eq!(render_commit_path(&warm_pooled, true, true), RenderCommitPath::ReusePooled);
    assert_eq!(render_commit_path(&warm_pooled, true, false), RenderCommitPath::CreateCold);
    assert_eq!(render_commit_path(&cold, true, true), RenderCommitPath::CreateCold);
    assert_eq!(headless_render_commit_path(&warm_pooled), RenderCommitPath::ReusePooled);

    let (lifecycle, entry) = lifecycle_for_warm_path(RenderWarmPath::ReusePooledSurface(4u8));
    assert_eq!(lifecycle, RenderLifecycleCommand::WarmReusePooled);
    assert_eq!(entry, Some(4));
    let (lifecycle, entry) =
        lifecycle_for_warm_path::<u8>(RenderWarmPath::ColdPath(RenderFallbackReason::MissingCurrentSurfaceClass));
    assert_eq!(lifecycle, RenderLifecycleCommand::ColdCreate(RenderFallbackReason::MissingCurrentSurfaceClass));
    assert_eq!(entry, None);
}

#[test]
fn frame_counters_record_paths_and_schedules() {
    let mut frame = SelectionFrameState::default();
    frame.record_render_commit(RenderCommitPath::ReusePooled);
    frame.record_render_commit(RenderCommitPath::CreateCold);
    frame.record_lifecycle(&RenderLifecycleCommand::ColdCreate(RenderFallbackReason::IncompatibleCurrentSurfaceClass(vec!["stitch_mask"])));
    frame.record_lifecycle(&RenderLifecycleCommand::WarmReuseCurrent);
    assert_eq!(frame.phase8_render_warm_pool_commits, 1);
    assert_eq!(frame.phase8_render_cold_commits, 1);
    assert_eq!(frame.phase8_render_warm_current_commits, 0);
    assert_eq!(frame.phase7_commit_payloads, 2);
    assert_eq!(frame.phase7_cold_fallbacks, 1);
    assert_eq!(frame.phase7_warm_current_reuse_hits, 1);
    assert_eq!(frame.phase8_fallback_incompatible_current_surface_class, 1);

    let ops = vec![CommitOp::new(CommitOpKind::ActivateRender, ChunkKey::new(Face::Px, 0, 0, 0), 64, 0)];
    let budget = CommitBudget {
        commit_budget_per_frame: 0,
        upload_budget_bytes_per_frame: 0,
        render_activation_budget_per_frame: 0,
        render_update_budget_per_frame: 0,
        render_deactivation_budget_per_frame: 0,
        physics_activation_budget_per_frame: 0,
        physics_deactivation_budget_per_frame: 0,
    };
    let schedule = schedule_commit_ops(&ops, &budget);
    frame.record_commit_schedule(ops.len(), &schedule, 7);
    assert_eq!(frame.queued_commit_ops, 1);
    assert_eq!(frame.committed_commit_ops, 0);
    assert_eq!(frame.deferred_commit_ops, 1);
    assert_eq!(frame.upload_bytes_deferred, 64);
    assert_eq!(frame.max_deferred_starvation_frames, 7);
}

#[test]
fn payload_upload_bytes_come_from_regions_or_the_surface_class() {
    let c = class(0);
    assert_eq!(payload_upload_bytes(None, &c), c.vertex_bytes + c.attribute_bytes + c.index_bytes);
    let regions = world2::payload::PackedMeshRegions {
        vertex_region: vec![0; 5],
        attribute_region: vec![0; 7],
        index_region: vec![0; 3],
        vertex_stride: 12,
        attribute_stride: 24,
        index_stride: 4,
    };
    assert_eq!(payload_upload_bytes(Some(&regions), &c), 15);
}

#[test]
fn stale_metadata_results_are_dropped() {
    let key = ChunkKey::new(Face::Nx, 3, 1, 2);
    let mut pending: PendingRequests<u64> = PendingRequests::new();
    let mut next_epoch = 1u64;
    assert_eq!(request_chunk_meta_if_missing(&mut pending, key, false, &mut next_epoch), Some(1));
    assert_eq!(request_chunk_meta_if_missing(&mut pending, key, false, &mut next_epoch), None);
    assert_eq!(request_chunk_meta_if_missing(&mut pending, ChunkKey::new(Face::Nx, 0, 0, 0), true, &mut next_epoch), None);
    assert_eq!(next_epoch, 2);
    assert_eq!(pending.len(), 1);
    assert!(!accept_meta_result(&mut pending, key, 0));
    assert_eq!(pending.len(), 1);
    assert!(accept_meta_result(&mut pending, key, 1));
    assert_eq!(pending.len(), 0);
    assert!(!accept_meta_result(&mut pending, key, 1));
}

#[test]
fn stale_async_payload_results_are_dropped_after_supersession() {
    let key = ChunkKey::new(Face::Pz, 2, 2, 2);
    let render_only = PayloadBuildRequirements::new(true, false);
    let with_collision = PayloadBuildRequirements::new(true, true);
    let mut pending: PendingRequests<PendingPayloadRequest> = PendingRequests::new();
    let mut next_epoch = 10u64;

    let first = plan_payload_request(&mut pending, key, false, &class(0), render_only, &mut next_epoch);
    assert_eq!(first, PayloadRequestDecision::Submit(10));
    let again = plan_payload_request(&mut pending, key, false, &class(0), render_only, &mut next_epoch);
    assert_eq!(again, PayloadRequestDecision::AlreadyPending);
    let upgraded = plan_payload_request(&mut pending, key, false, &class(0), with_collision, &mut next_epoch);
    assert_eq!(upgraded, PayloadRequestDecision::Submit(11));

    assert!(!accept_prepared_payload(&mut pending, key, 10, &class(0), render_only));
    assert!(!accept_prepared_payload(&mut pending, key, 11, &class(1), with_collision));
    assert!(accept_prepared_payload(&mut pending, key, 11, &class(0), with_collision));
    assert!(pending.get(&key).is_none());

    plan_payload_request(&mut pending, key, false, &class(2), render_only, &mut next_epoch);
    assert_eq!(pending.get(&key).map(|p| p.epoch), Some(12));
    assert_eq!(plan_payload_request(&mut pending, key, true, &class(2), render_only, &mut next_epoch), PayloadRequestDecision::Resident);
    assert!(pending.get(&key).is_none());
}

#[test]
fn pending_requests_keep_only_the_refreshed_keys() {
    let a = ChunkKey::new(Face::Px, 1, 0, 0);
    let b = ChunkKey::new(Face::Px, 1, 1, 0);
    let c = ChunkKey::new(Face::Px, 1, 0, 1);
    let mut pending: PendingRequests<u64> = PendingRequests::new();
    pending.insert(a, 1);
    pending.insert(b, 2);
    pending.insert(c, 3);
    pending.retain_keys(&vec![c, a, ChunkKey::new(Face::Nx, 0, 0, 0)]);
    assert_eq!(pending.len(), 2);
    assert_eq!(pending.get(&a), Some(&1));
    assert_eq!(pending.get(&b), None);
    assert_eq!(pending.remove(&c), Some(3));
    assert_eq!(pending.len(), 1);
}

#[test]
fn payload_requirements_follow_backend_and_collision_sets() {
    let a = ChunkKey::new(Face::Px, 2, 0, 0);
    let b = ChunkKey::new(Face::Px, 2, 1, 0);
    let req = payload_requirements_for_key(RenderBackendKind::ServerPool, &vec![a], &vec![], a);
    assert_eq!(req, PayloadBuildRequirements::new(true, true));
    let req_b = payload_requirements_for_key(RenderBackendKind::ServerPool, &vec![a], &vec![], b);
    assert_eq!(req_b, PayloadBuildRequirements::new(true, false));
    assert!(payload_satisfies_requirements(&class(1), true, req, &class(1), req_b));
    assert!(!payload_satisfies_requirements(&class(1), true, req_b, &class(1), req));
    assert!(!payload_satisfies_requirements(&class(1), false, req, &class(1), req_b));
    assert!(!payload_satisfies_requirements(&class(2), true, req, &class(1), req_b));
}

#[test]
fn deactivation_hands_back_handles_and_clears_residency() {
    let mut state = ChunkRidState::default();
    state.install_render_entry(Rid::new(3), Rid::new(4), class(0), None);
    let entry = state.deactivate_render().unwrap();
    assert_eq!(entry.mesh_rid, Rid::new(3));
    assert!(!state.render_resident);
    assert!(state.deactivate_render().is_none());
    state.physics_body_rid = Some(Rid::new(7));
    state.physics_shape_rid = Some(Rid::new(8));
    state.physics_resident = true;
    assert!(state.deactivate_physics().is_some());
    assert!(!state.physics_resident);
    assert_eq!(state.physics_body_rid, None);
}
