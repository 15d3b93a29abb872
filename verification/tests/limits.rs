use world2::config::{
    normalize_lod_limits, LodLimits, MaxLodPolicyKind, DEFAULT_DENSE_METADATA_PREBUILD_MAX_LOD,
    DEFAULT_HARD_RENDER_CHUNK_CAP, DEFAULT_PHYSICS_POOL_WATERMARK,
    DEFAULT_RENDER_POOL_WATERMARK_PER_CLASS, DEFAULT_TARGET_RENDER_CHUNKS,
    PAYLOAD_PRECOMPUTE_MAX_LOD,
};
use world2::frame::{OriginRebindCounts, SelectionFrameState};
use world2::payload::{
    collision_resident_bytes, render_tile_byte_len, render_tile_sample_count,
    validate_render_tile_layout,
};
use world2::topology::{DEFAULT_MAX_LOD, MAX_SUPPORTED_MAX_LOD};

fn limits(max_lod: u8, metadata: u8, payload: u8) -> LodLimits {
    LodLimits {
        max_lod,
        max_lod_cap: DEFAULT_MAX_LOD,
        metadata_precompute_max_lod: metadata,
        dense_metadata_prebuild_max_lod: 8,
        payload_precompute_max_lod: payload,
        target_render_chunks: 160,
        hard_render_chunk_cap: 224,
    }
}

#[test]
fn fixed_max_lod_policy_still_allows_manual_override() {
    let n = normalize_lod_limits(MaxLodPolicyKind::Fixed, 5, limits(3, 5, 5));
    assert_eq!(n.max_lod, 3);
    assert_eq!(n.metadata_precompute_max_lod, 3);
    assert_eq!(n.payload_precompute_max_lod, 3);
}

#[test]
fn runtime_config_normalization_recomputes_radius_derived_lod_from_planet_radius() {
    // A 4000 m planet derives depth 7 under the default cap.
    let n = normalize_lod_limits(MaxLodPolicyKind::RadiusDerived, 7, limits(0, 9, 9));
    assert_eq!(n.max_lod, 7);
    assert_eq!(n.metadata_precompute_max_lod, 7);
    assert_eq!(n.payload_precompute_max_lod, 7);
}

#[test]
fn phase13_default_runtime_config_matches_documented_starting_values() {
    // The default planet derives depth 5; the defaults prebuild metadata through the dense
    // tier and payloads through the payload window, both under that depth.
    let defaults = LodLimits {
        max_lod: 5,
        max_lod_cap: DEFAULT_MAX_LOD,
        metadata_precompute_max_lod: DEFAULT_DENSE_METADATA_PREBUILD_MAX_LOD.min(5),
        dense_metadata_prebuild_max_lod: DEFAULT_DENSE_METADATA_PREBUILD_MAX_LOD.min(5),
        payload_precompute_max_lod: PAYLOAD_PRECOMPUTE_MAX_LOD.min(5),
        target_render_chunks: DEFAULT_TARGET_RENDER_CHUNKS,
        hard_render_chunk_cap: DEFAULT_HARD_RENDER_CHUNK_CAP,
    };
    let n = normalize_lod_limits(MaxLodPolicyKind::RadiusDerived, 5, defaults);
    assert_eq!(defaults.max_lod_cap, DEFAULT_MAX_LOD);
    assert_eq!(defaults.max_lod, 5);
    assert_eq!(defaults.payload_precompute_max_lod, 5);
    assert_eq!(defaults.metadata_precompute_max_lod, 5);
    assert_eq!(n.max_lod, defaults.max_lod);
    assert_eq!(n, defaults);
    assert!(DEFAULT_PHYSICS_POOL_WATERMARK < DEFAULT_RENDER_POOL_WATERMARK_PER_CLASS);
}

#[test]
fn radius_derived_max_lod_honors_configured_cap() {
    // A 100 km planet derives depth 12; the configured cap of 10 bounds it.
    let mut raw = limits(0, 14, 14);
    raw.max_lod_cap = 10;
    let n = normalize_lod_limits(MaxLodPolicyKind::RadiusDerived, 12, raw);
    assert_eq!(n.max_lod, 10);
    assert_eq!(n.metadata_precompute_max_lod, 10);
    assert_eq!(n.payload_precompute_max_lod, 10);
}

#[test]
fn metadata_depth_follows_the_configured_metadata_depth_under_the_max_lod() {
    let n = normalize_lod_limits(MaxLodPolicyKind::RadiusDerived, 10, limits(0, 3, 5));
    assert_eq!(n.max_lod, 10);
    assert_eq!(n.metadata_precompute_max_lod, 3);
    assert_eq!(n.dense_metadata_prebuild_max_lod, 8);
    assert_eq!(n.payload_precompute_max_lod, 5);
}

#[test]
fn limits_clamp_the_cap_and_the_render_chunk_counts() {
    let mut raw = limits(40, 40, 40);
    raw.max_lod_cap = 200;
    raw.target_render_chunks = 2;
    raw.hard_render_chunk_cap = 1;
    let n = normalize_lod_limits(MaxLodPolicyKind::Fixed, 0, raw);
    assert_eq!(n.max_lod_cap, MAX_SUPPORTED_MAX_LOD);
    assert_eq!(n.max_lod, MAX_SUPPORTED_MAX_LOD);
    assert_eq!(n.dense_metadata_prebuild_max_lod, 8);
    assert_eq!(n.hard_render_chunk_cap, 6);
    assert_eq!(n.target_render_chunks, 6);

    let mut wide = limits(4, 4, 4);
    wide.target_render_chunks = 500;
    let n = normalize_lod_limits(MaxLodPolicyKind::Fixed, 0, wide);
    assert_eq!(n.target_render_chunks, 224);
    assert_eq!(normalize_lod_limits(MaxLodPolicyKind::Fixed, 0, n), n);
}

#[test]
fn render_tile_layout_reports_the_first_mismatching_array() {
    assert_eq!(render_tile_sample_count(35), 1225);
    assert_eq!(validate_render_tile_layout(35, 1225, Some(1225), None), Ok(()));
    assert_eq!(validate_render_tile_layout(35, 1224, Some(1), Some(1)), Err("height_tile"));
    assert_eq!(validate_render_tile_layout(35, 1225, Some(1), Some(1)), Err("material_tile"));
    assert_eq!(validate_render_tile_layout(35, 1225, None, Some(1)), Err("normal_tile"));
    assert_eq!(render_tile_byte_len(1225, Some(1225), None), 1225 * 4 + 1225 * 16);
    assert_eq!(render_tile_byte_len(10, None, Some(10)), 40 + 120);
}

#[test]
fn collision_bytes_prefer_collider_arrays_over_the_mesh() {
    assert_eq!(collision_resident_bytes(None, None, None, 10, 30), 120 + 120);
    assert_eq!(collision_resident_bytes(None, None, None, 10, 0), 0);
    assert_eq!(collision_resident_bytes(Some(5), None, Some(9), 10, 30), 60 + 120 + 108);
    assert_eq!(collision_resident_bytes(Some(5), Some(6), None, 0, 0), 60 + 24);
}

#[test]
fn origin_rebind_counts_accumulate_and_hand_over() {
    let mut pending = OriginRebindCounts::default();
    pending.add(OriginRebindCounts { origin_rebases: 1, render_transform_rebinds: 3, physics_transform_rebinds: 2 });
    pending.add(OriginRebindCounts { origin_rebases: usize::MAX, render_transform_rebinds: 1, physics_transform_rebinds: 0 });
    assert_eq!(pending.origin_rebases, usize::MAX);
    assert_eq!(pending.render_transform_rebinds, 4);

    let mut frame = SelectionFrameState::default();
    let counts = pending.take();
    frame.add_origin_rebinds(counts);
    assert_eq!(pending, OriginRebindCounts::default());
    assert_eq!(frame.origin_rebinds(), counts);
}
