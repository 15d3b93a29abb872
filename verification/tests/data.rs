use world2::chunk::{ChunkKey, ChunkNeighbors, Edge, Face};
use world2::config::{
    keys_overlap_hierarchically, clamp_grid_index, CommitOpKind, DeferredOpKey,
    DEFAULT_RENDER_FORMAT_MASK,
};
use world2::payload::{PackedMeshRegions, PayloadBuildRequirements};
use world2::surface::SurfaceClassKey;

fn sample_surface_class() -> SurfaceClassKey {
    SurfaceClassKey::canonical_chunk(0b0101, 3, DEFAULT_RENDER_FORMAT_MASK, 12, 24, 4).unwrap()
}

#[test]
fn chunk_key_validates_coords_against_lod_resolution() {
    assert!(ChunkKey::new(Face::Px, 3, 7, 7).is_valid_for_lod());
    assert!(!ChunkKey::new(Face::Px, 3, 8, 7).is_valid_for_lod());
    assert_eq!(ChunkKey::resolution_for_lod(5), 32);
}

#[test]
fn surface_class_mismatch_detection_is_strict() {
    let base = sample_surface_class();
    let mismatched =
        SurfaceClassKey::canonical_chunk(0b0101, 3, DEFAULT_RENDER_FORMAT_MASK, 16, 24, 4).unwrap();

    let issues = base.compatibility_issues(&mismatched);

    assert_eq!(issues, vec!["vertex_stride", "vertex_bytes"]);
    assert!(!base.is_pool_compatible_with(&mismatched));
    assert!(base.is_pool_compatible_with(&base));
}

#[test]
fn packed_region_validation_uses_precomputed_byte_expectations() {
    let surface_class = sample_surface_class();
    let valid = PackedMeshRegions {
        vertex_region: vec![0; surface_class.vertex_bytes],
        attribute_region: vec![0; surface_class.attribute_bytes],
        index_region: vec![0; surface_class.index_bytes],
        vertex_stride: 12,
        attribute_stride: 24,
        index_stride: 4,
    };
    let invalid = PackedMeshRegions {
        vertex_region: vec![0; surface_class.vertex_bytes.saturating_sub(1)],
        ..valid.clone()
    };

    assert_eq!(valid.validate_for_surface_class(&surface_class), Ok(()));
    assert_eq!(
        invalid.validate_for_surface_class(&surface_class),
        Err("vertex_bytes")
    );

    let wrong_stride = PackedMeshRegions {
        vertex_stride: 16,
        ..valid.clone()
    };
    assert_eq!(
        wrong_stride.validate_for_surface_class(&surface_class),
        Err("vertex_stride")
    );
}

#[test]
fn canonical_surface_class_derives_byte_sizes_from_counts() {
    let class = sample_surface_class();
    assert_eq!(class.stitch_mask, 0b0101);
    assert_eq!(class.index_class, 0b0101);
    assert_eq!(class.vertex_count, 1_089);
    assert_eq!(class.vertex_bytes, 1_089 * 12);
    assert_eq!(class.attribute_bytes, 1_089 * 24);
    assert_eq!(class.index_bytes, class.index_count as usize * 4);
    assert!(SurfaceClassKey::canonical_chunk(16, 3, DEFAULT_RENDER_FORMAT_MASK, 12, 24, 4).is_err());
}

#[test]
fn compatibility_issues_list_every_differing_field_in_order() {
    let base = sample_surface_class();
    let other = SurfaceClassKey::canonical_chunk(0b0000, 1, 0x1, 12, 24, 4).unwrap();
    let issues = base.compatibility_issues(&other);
    assert_eq!(issues[0], "stitch_mask");
    assert!(issues.contains(&"material_class"));
    assert!(issues.contains(&"format_mask"));
    assert!(base.compatibility_issues(&base).is_empty());
}

#[test]
fn region_validation_reports_each_mismatch_in_order() {
    let class = sample_surface_class();
    let valid = PackedMeshRegions {
        vertex_region: vec![0; class.vertex_bytes],
        attribute_region: vec![0; class.attribute_bytes],
        index_region: vec![0; class.index_bytes],
        vertex_stride: 12,
        attribute_stride: 24,
        index_stride: 4,
    };
    let r = PackedMeshRegions { attribute_stride: 8, ..valid.clone() };
    assert_eq!(r.validate_for_surface_class(&class), Err("attribute_stride"));
    let r = PackedMeshRegions { index_stride: 2, ..valid.clone() };
    assert_eq!(r.validate_for_surface_class(&class), Err("index_stride"));
    let r = PackedMeshRegions { attribute_region: vec![], ..valid.clone() };
    assert_eq!(r.validate_for_surface_class(&class), Err("attribute_bytes"));
    let r = PackedMeshRegions { index_region: vec![1], ..valid.clone() };
    assert_eq!(r.validate_for_surface_class(&class), Err("index_bytes"));
}

#[test]
fn chunk_hierarchy_walks_up_and_down() {
    let key = ChunkKey::new(Face::Ny, 4, 9, 6);
    assert_eq!(key.parent(), Some(ChunkKey::new(Face::Ny, 3, 4, 3)));
    assert_eq!(key.ancestor_at_lod(1), Some(ChunkKey::new(Face::Ny, 1, 1, 0)));
    assert_eq!(key.ancestor_at_lod(4), Some(key));
    assert_eq!(key.ancestor_at_lod(5), None);
    assert_eq!(ChunkKey::new(Face::Px, 0, 0, 0).parent(), None);
    let children = key.children().unwrap();
    assert_eq!(children[0], ChunkKey::new(Face::Ny, 5, 18, 12));
    assert_eq!(children[3], ChunkKey::new(Face::Ny, 5, 19, 13));
    for child in children {
        assert!(child.is_descendant_of(&key));
        assert_eq!(child.parent(), Some(key));
    }
    assert!(key.is_descendant_of(&key));
    assert!(!key.is_descendant_of(&children[0]));
    assert!(ChunkKey::new(Face::Px, 255, 0, 0).children().is_none());
}

#[test]
fn neighbors_are_indexed_by_edge() {
    let keys = [
        ChunkKey::new(Face::Px, 1, 0, 0),
        ChunkKey::new(Face::Px, 1, 1, 0),
        ChunkKey::new(Face::Px, 1, 0, 1),
        ChunkKey::new(Face::Px, 1, 1, 1),
    ];
    let n = ChunkNeighbors::new(keys);
    assert_eq!(n.get(Edge::NegU), keys[0]);
    assert_eq!(n.get(Edge::PosV), keys[3]);
    assert_eq!(Edge::NegV.label(), "neg_v");
}

#[test]
fn overlapping_keys_share_a_branch() {
    let a = ChunkKey::new(Face::Pz, 2, 3, 1);
    assert!(keys_overlap_hierarchically(a, ChunkKey::new(Face::Pz, 0, 0, 0)));
    assert!(keys_overlap_hierarchically(ChunkKey::new(Face::Pz, 4, 12, 5), a));
    assert!(!keys_overlap_hierarchically(a, ChunkKey::new(Face::Pz, 2, 3, 2)));
    assert!(!keys_overlap_hierarchically(a, ChunkKey::new(Face::Nz, 0, 0, 0)));
}

#[test]
fn grid_indices_clamp_into_range() {
    assert_eq!(clamp_grid_index(-3, 35), 0);
    assert_eq!(clamp_grid_index(40, 35), 34);
    assert_eq!(clamp_grid_index(17, 35), 17);
    assert_eq!(clamp_grid_index(5, 0), 0);
}

#[test]
fn payload_requirements_form_a_preorder() {
    let none = PayloadBuildRequirements::new(false, false);
    let render = PayloadBuildRequirements::new(true, false);
    let both = PayloadBuildRequirements::new(true, true);
    assert!(both.satisfies(render));
    assert!(render.satisfies(none));
    assert!(!render.satisfies(both));
    assert!(both.requires_cpu_mesh());
    assert!(!none.requires_cpu_mesh());
    assert!(PayloadBuildRequirements::new(false, true).requires_cpu_mesh());
}

#[test]
fn deferred_op_keys_pair_kind_and_chunk() {
    let key = ChunkKey::new(Face::Py, 1, 1, 0);
    let d = DeferredOpKey::new(CommitOpKind::UpdateRender, key);
    assert_eq!(d.kind, CommitOpKind::UpdateRender);
    assert_eq!(d.key, key);
}
