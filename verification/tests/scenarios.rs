use std::collections::VecDeque;

use godot::builtin::Rid;
use world2::chunk::{ChunkKey, Edge, Face};
use world2::commit::payload_evictions;
use world2::config::{
    DEFAULT_RENDER_ATTRIBUTE_STRIDE, DEFAULT_RENDER_FORMAT_MASK, DEFAULT_RENDER_INDEX_STRIDE,
    DEFAULT_RENDER_MATERIAL_CLASS, DEFAULT_RENDER_VERTEX_STRIDE,
};
use world2::geometry::{face_basis, IVec3};
use world2::mesh_topology::{stitch_mask_bit, BASE_STITCH_MASK};
use world2::payload::{PayloadBuildRequirements, RenderFallbackReason, RenderLifecycleCommand};
use world2::pool::{recycle_into, RenderWarmPath, SurfacePool};
use world2::render_commit::{headless_render_commit_path, RenderCommitPath};
use world2::render_state::{ChunkRidState, PhysicsPoolEntry, RenderPoolEntry};
use world2::requests::{accept_prepared_payload, PendingPayloadRequest, PendingRequests};
use world2::seam::SeamDebugSnapshot;
use world2::surface::SurfaceClassKey;

fn sample_surface_class() -> SurfaceClassKey {
    SurfaceClassKey::canonical_chunk(0b0101, 3, DEFAULT_RENDER_FORMAT_MASK, 12, 24, 4).unwrap()
}

fn default_class(mask: u8) -> SurfaceClassKey {
    SurfaceClassKey::canonical_chunk(
        mask,
        DEFAULT_RENDER_MATERIAL_CLASS,
        DEFAULT_RENDER_FORMAT_MASK,
        DEFAULT_RENDER_VERTEX_STRIDE,
        DEFAULT_RENDER_ATTRIBUTE_STRIDE,
        DEFAULT_RENDER_INDEX_STRIDE,
    )
    .unwrap()
}

fn dot(a: IVec3, b: IVec3) -> i32 {
    a.x * b.x + a.y * b.y + a.z * b.z
}

fn cross(a: IVec3, b: IVec3) -> IVec3 {
    IVec3 {
        x: a.y * b.z - a.z * b.y,
        y: a.z * b.x - a.x * b.z,
        z: a.x * b.y - a.y * b.x,
    }
}

#[test]
fn face_bases_are_orthonormal_and_right_handed() {
    for face in [Face::Px, Face::Nx, Face::Py, Face::Ny, Face::Pz, Face::Nz] {
        let basis = face_basis(face);

        assert_eq!(dot(basis.n, basis.n), 1);
        assert_eq!(dot(basis.u, basis.u), 1);
        assert_eq!(dot(basis.v, basis.v), 1);
        assert_eq!(dot(basis.n, basis.u), 0);
        assert_eq!(dot(basis.n, basis.v), 0);
        assert_eq!(dot(basis.u, basis.v), 0);
        assert_eq!(cross(basis.u, basis.v), basis.n);
    }
}

#[test]
fn incompatible_warm_reuse_routes_to_compatible_pool_or_cold_path() {
    let current_surface_class = sample_surface_class();
    let required_surface_class =
        SurfaceClassKey::canonical_chunk(0b0011, 3, DEFAULT_RENDER_FORMAT_MASK, 12, 24, 4).unwrap();
    let pooled_entry = RenderPoolEntry {
        mesh_rid: Rid::Invalid,
        render_instance_rid: Rid::Invalid,
        gd_staging: None,
        surface_class: required_surface_class.clone(),
    };

    let mut pool: SurfacePool<RenderPoolEntry> = SurfacePool::new();
    pool.push(pooled_entry.surface_class.clone(), pooled_entry.clone());
    let reused = pool.choose_render_warm_path(Some(&current_surface_class), &required_surface_class);
    assert!(matches!(reused, RenderWarmPath::ReusePooledSurface(ref entry) if *entry == pooled_entry));

    let mut pool: SurfacePool<RenderPoolEntry> = SurfacePool::new();
    let cold_path = pool.choose_render_warm_path(Some(&current_surface_class), &required_surface_class);
    match cold_path {
        RenderWarmPath::ColdPath(reason) => assert_eq!(
            reason,
            RenderFallbackReason::IncompatibleCurrentSurfaceClass(vec![
                "stitch_mask",
                "index_class",
                "index_count",
                "index_bytes"
            ])
        ),
        _ => panic!("an empty pool must route an incompatible chunk to the cold path"),
    }
}

#[test]
fn payload_residency_budget_stays_bounded_under_mock_camera_churn() {
    let mut resident: Vec<ChunkKey> = (0..8).map(|x| ChunkKey::new(Face::Px, 3, x, 0)).collect();

    for center_x in 1..=6 {
        let retained_keys = vec![
            ChunkKey::new(Face::Px, 3, center_x - 1, 0),
            ChunkKey::new(Face::Px, 3, center_x, 0),
            ChunkKey::new(Face::Px, 3, center_x + 1, 0),
        ];

        for key in retained_keys.iter().copied() {
            if !resident.contains(&key) {
                resident.push(key);
            }
        }

        let evicted = payload_evictions(&resident, &retained_keys, 4);
        resident.retain(|key| !evicted.contains(key));

        assert!(resident.len() <= 4);
        assert!(retained_keys.iter().all(|key| resident.contains(key)));
    }
}

#[test]
fn phase8_pool_watermarks_bound_recycled_entries() {
    let surface_class = sample_surface_class();
    let mut render_pool: SurfacePool<RenderPoolEntry> = SurfacePool::new();
    let mut physics_pool: VecDeque<PhysicsPoolEntry> = VecDeque::new();

    let kept = render_pool.recycle(
        surface_class.clone(),
        RenderPoolEntry {
            mesh_rid: Rid::new(1),
            render_instance_rid: Rid::new(2),
            surface_class: surface_class.clone(),
            gd_staging: None,
        },
        1,
    );
    let freed = render_pool.recycle(
        surface_class.clone(),
        RenderPoolEntry {
            mesh_rid: Rid::new(3),
            render_instance_rid: Rid::new(4),
            surface_class: surface_class.clone(),
            gd_staging: None,
        },
        1,
    );
    let kept_body = recycle_into(
        &mut physics_pool,
        PhysicsPoolEntry {
            physics_body_rid: Rid::new(5),
            physics_shape_rid: Rid::new(6),
        },
        1,
    );
    let freed_body = recycle_into(
        &mut physics_pool,
        PhysicsPoolEntry {
            physics_body_rid: Rid::new(7),
            physics_shape_rid: Rid::new(8),
        },
        1,
    );

    assert!(kept.is_none());
    assert_eq!(freed.map(|entry| entry.mesh_rid), Some(Rid::new(3)));
    assert!(kept_body.is_none());
    assert_eq!(freed_body.map(|entry| entry.physics_body_rid), Some(Rid::new(7)));
    assert_eq!(render_pool.entry_count(), 1);
    assert_eq!(physics_pool.len(), 1);
}

#[test]
fn phase8_warm_pooled_commit_recycles_previous_render_entry() {
    let previous_surface_class = sample_surface_class();
    let next_surface_class =
        SurfaceClassKey::canonical_chunk(0b0011, 3, DEFAULT_RENDER_FORMAT_MASK, 12, 24, 4).unwrap();
    let previous_mesh_rid = Rid::Invalid;
    let previous_instance_rid = Rid::new(101);
    let pooled_mesh_rid = Rid::new(202);
    let pooled_instance_rid = Rid::new(303);
    let watermark = 4;

    let mut pool: SurfacePool<RenderPoolEntry> = SurfacePool::new();
    let mut rid_state = ChunkRidState::default();
    rid_state.install_render_entry(
        previous_mesh_rid,
        previous_instance_rid,
        previous_surface_class.clone(),
        None,
    );
    let pooled_render_entry = RenderPoolEntry {
        mesh_rid: pooled_mesh_rid,
        render_instance_rid: pooled_instance_rid,
        surface_class: next_surface_class.clone(),
        gd_staging: None,
    };

    let path = headless_render_commit_path(&RenderLifecycleCommand::WarmReusePooled);
    assert_eq!(path, RenderCommitPath::ReusePooled);
    if let Some(previous_entry) = rid_state.take_render_entry() {
        let class = previous_entry.surface_class.clone();
        assert!(pool.recycle(class, previous_entry, watermark).is_none());
    }
    rid_state.install_render_entry(
        pooled_render_entry.mesh_rid,
        pooled_render_entry.render_instance_rid,
        next_surface_class.clone(),
        pooled_render_entry.gd_staging.clone(),
    );

    assert_eq!(rid_state.mesh_rid, Some(pooled_mesh_rid));
    assert_eq!(rid_state.render_instance_rid, Some(pooled_instance_rid));
    assert_eq!(rid_state.active_surface_class.as_ref(), Some(&next_surface_class));

    let pooled_previous = pool.pop(&previous_surface_class).unwrap();
    assert_eq!(pooled_previous.mesh_rid, previous_mesh_rid);
    assert_eq!(pooled_previous.render_instance_rid, previous_instance_rid);
}

#[test]
fn seam_debug_snapshot_reports_active_and_pooled_stitch_masks() {
    let base_surface_class = default_class(BASE_STITCH_MASK);
    let pos_u_surface_class = default_class(stitch_mask_bit(Edge::PosU));
    let neg_u_neg_v_surface_class =
        default_class(stitch_mask_bit(Edge::NegU) | stitch_mask_bit(Edge::NegV));

    let mut seam = SeamDebugSnapshot::default();
    seam.active_render_chunks = 4;
    // key_a: render-resident base class, no payload.
    seam.record_active_chunk(Some(&base_surface_class), None);
    // key_b: only a payload with the pos_u class.
    seam.record_active_chunk(None, Some(&pos_u_surface_class));
    // key_c: resident base class, payload with another class.
    seam.record_active_chunk(Some(&base_surface_class), Some(&neg_u_neg_v_surface_class));
    // key_d: nothing resident.
    seam.record_active_chunk(None, None);
    seam.record_pooled_mask(pos_u_surface_class.stitch_mask);
    seam.record_pooled_mask(neg_u_neg_v_surface_class.stitch_mask);

    assert_eq!(seam.active_render_chunks, 4);
    assert_eq!(seam.active_chunks_with_surface_class, 3);
    assert_eq!(seam.active_chunks_missing_surface_class, 1);
    assert_eq!(seam.active_stitched_chunks, 1);
    assert_eq!(seam.pending_surface_class_mismatch_chunks, 1);
    assert_eq!(seam.active_stitch_mask_counts[BASE_STITCH_MASK as usize], 2);
    assert_eq!(seam.active_stitch_mask_counts[stitch_mask_bit(Edge::PosU) as usize], 1);
    assert_eq!(seam.active_stitched_edge_counts[1], 1);
    assert_eq!(seam.pooled_render_entries, 2);
    assert_eq!(seam.pooled_stitch_mask_counts[stitch_mask_bit(Edge::PosU) as usize], 1);
}

#[test]
fn stale_async_payload_results_are_dropped_on_install() {
    let key = ChunkKey::new(Face::Pz, 2, 1, 1);
    let surface_class = default_class(BASE_STITCH_MASK);
    let requirements = PayloadBuildRequirements::new(true, false);
    let mut pending: PendingRequests<PendingPayloadRequest> = PendingRequests::new();
    pending.insert(
        key,
        PendingPayloadRequest {
            epoch: 2,
            surface_class: surface_class.clone(),
            requirements,
        },
    );

    // The prepared payload answers the superseded request of epoch 1.
    assert!(!accept_prepared_payload(&mut pending, key, 1, &surface_class, requirements));
    assert_eq!(pending.get(&key).map(|request| request.epoch), Some(2));
    assert_eq!(pending.len(), 1);
}
