use world2::geometry::CubeProjection;
use world2::strategy::{strategy_summary, PackedStagingPolicyKind, RenderBackendKind, VisibilityStrategyKind};

#[test]
fn phase15_default_strategy_summary_matches_documented_stack() {
    let projection = CubeProjection::default();
    let visibility = VisibilityStrategyKind::default();
    let backend = RenderBackendKind::default();
    let staging = PackedStagingPolicyKind::default();
    let summary = strategy_summary(&projection, &visibility, true, false, &backend, &staging);

    assert_eq!(projection.label(), "spherified_cube");
    assert_eq!(visibility.label(), "horizon_frustum_lod");
    assert_eq!(backend.label(), "server_pool_render_backend");
    assert_eq!(staging.label(), "godot_owned_packed_byte_array");
    assert!(summary.contains("projection=spherified_cube"));
    assert!(summary.contains("visibility=horizon_frustum_lod"));
    assert!(summary.contains("render_backend=server_pool_render_backend"));
    assert!(summary.contains("staging=godot_owned_packed_byte_array"));
}

#[test]
fn strategy_summary_spells_out_the_switches() {
    let summary = strategy_summary(
        &CubeProjection::Normalized,
        &VisibilityStrategyKind::HorizonFrustumLod,
        false,
        true,
        &RenderBackendKind::ServerPool,
        &PackedStagingPolicyKind::GodotOwnedReuse,
    );
    assert_eq!(
        summary,
        "projection=normalized_cube visibility=horizon_frustum_lod frustum_culling=false coarse_lod_fallback=true render_backend=server_pool_render_backend staging=godot_owned_packed_byte_array"
    );
}
