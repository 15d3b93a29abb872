use world2::chunk::{ChunkKey, Edge, Face};
use world2::lod_balance::{
    build_current_split_ancestors, collapse_selected_descendants, collect_neighbor_collapse_targets,
    find_active_ancestor_covering, force_collapse_neighbor_lod_delta, normalize_neighbor_lod_delta,
    normalize_neighbor_lod_delta_with_limits, normalized_selection_state,
    required_stitch_mask_for_selection, required_surface_class_for_selection, RenderSurfaceFormat,
};
use world2::metadata::MetadataStore;
use world2::surface::SurfaceClassKey;
use world2::topology::{same_lod_neighbor, TopologyError};
use world2::lod_balance::{refine_selection_step, RefinementStep};

fn store_with(keys: &[ChunkKey]) -> MetadataStore<u8> {
    let mut store = MetadataStore::new(16, 8);
    for key in keys {
        store.insert(*key, 1).unwrap();
    }
    store
}

fn children_of(key: ChunkKey) -> Vec<ChunkKey> {
    key.children().unwrap().to_vec()
}

fn assert_lod_delta_at_most_one(selected: &Vec<ChunkKey>) {
    for key in selected.iter().copied() {
        for edge in Edge::ALL {
            let neighbor_same_lod = same_lod_neighbor(key, edge).unwrap();
            if let Some(neighbor) = find_active_ancestor_covering(neighbor_same_lod, selected) {
                assert!(
                    key.lod.abs_diff(neighbor.lod) <= 1,
                    "neighbor lod delta exceeded 1: {key:?} vs {neighbor:?}"
                );
            }
        }
    }
}

fn assert_no_overlaps(selected: &Vec<ChunkKey>) {
    for (i, a) in selected.iter().enumerate() {
        for (j, b) in selected.iter().enumerate() {
            if i != j {
                assert!(!a.is_descendant_of(b), "{a:?} lies inside {b:?}");
            }
        }
    }
}

fn render_format() -> RenderSurfaceFormat {
    RenderSurfaceFormat {
        material_class: 0,
        format_mask: 0x1B,
        vertex_stride: 12,
        attribute_stride: 24,
        index_stride: 4,
    }
}

#[test]
fn neighbor_normalization_splits_coarse_side_when_metadata_is_available() {
    let fine_key = ChunkKey::new(Face::Px, 3, 3, 0);
    let coarse_cover = ChunkKey::new(Face::Px, 1, 1, 0);
    let store = store_with(&children_of(coarse_cover));
    let mut selected = vec![fine_key, coarse_cover];
    let mut requested = Vec::new();

    let splits = normalize_neighbor_lod_delta(&store, &mut selected, &mut requested, 224).unwrap();

    assert_eq!(splits, 1);
    assert!(!selected.contains(&coarse_cover));
    assert!(selected.contains(&fine_key));
    assert_eq!(requested.len(), 0);
    assert!(selected
        .iter()
        .any(|key| key.lod == 2 && key.is_descendant_of(&coarse_cover)));
    assert!(required_surface_class_for_selection(fine_key, &selected, &render_format()).is_ok());
}

#[test]
fn normalization_collapses_fine_side_and_requests_missing_metadata() {
    let fine_key = ChunkKey::new(Face::Px, 3, 3, 0);
    let coarse_cover = ChunkKey::new(Face::Px, 1, 1, 0);
    let store = store_with(&[]);
    let mut selected = vec![fine_key, coarse_cover];
    let mut requested = Vec::new();

    let splits = normalize_neighbor_lod_delta(&store, &mut selected, &mut requested, 224).unwrap();

    assert_eq!(splits, 0);
    assert!(selected.contains(&coarse_cover));
    assert!(!selected.contains(&fine_key));
    assert!(selected.contains(&ChunkKey::new(Face::Px, 2, 1, 0)));
    assert_eq!(selected.len(), 2);
    assert_eq!(requested, children_of(coarse_cover));
    assert_lod_delta_at_most_one(&selected);
}

#[test]
fn hard_cap_blocks_splits_and_falls_back_to_collapse() {
    let fine_key = ChunkKey::new(Face::Px, 3, 3, 0);
    let coarse_cover = ChunkKey::new(Face::Px, 1, 1, 0);
    let store = store_with(&children_of(coarse_cover));
    let mut selected = vec![fine_key, coarse_cover];
    let mut requested = Vec::new();

    let splits =
        normalize_neighbor_lod_delta_with_limits(&store, &mut selected, &mut requested, 64, 16_384, 2).unwrap();

    assert_eq!(splits, 0);
    assert!(selected.len() <= 2);
    assert!(selected.contains(&coarse_cover));
    assert_lod_delta_at_most_one(&selected);
}

#[test]
fn normalization_of_a_deep_branch_keeps_lod_delta_at_most_one() {
    let mut selected = Vec::new();
    for face in Face::ALL {
        if face != Face::Pz {
            selected.push(ChunkKey::new(face, 0, 0, 0));
        }
    }
    // Face Pz: one deep corner branch next to coarse siblings.
    let deep = ChunkKey::new(Face::Pz, 5, 0, 0);
    let mut key = deep;
    while key.lod > 0 {
        let parent = key.parent().unwrap();
        for child in parent.children().unwrap() {
            if child != key {
                selected.push(child);
            }
        }
        key = parent;
    }
    selected.push(deep);

    let mut all_children = Vec::new();
    for face in Face::ALL {
        let mut frontier = vec![ChunkKey::new(face, 0, 0, 0)];
        while let Some(k) = frontier.pop() {
            if k.lod >= 4 {
                continue;
            }
            for child in k.children().unwrap() {
                all_children.push(child);
                frontier.push(child);
            }
        }
    }
    let store = store_with(&all_children);
    let mut requested = Vec::new();
    normalize_neighbor_lod_delta(&store, &mut selected, &mut requested, 10_000).unwrap();

    assert_lod_delta_at_most_one(&selected);
    assert_no_overlaps(&selected);
    assert!(requested.iter().all(|k| !store.contains_key(k)));
}

#[test]
fn normalization_with_tight_work_limit_still_balances() {
    let fine_key = ChunkKey::new(Face::Nx, 4, 7, 0);
    let coarse = ChunkKey::new(Face::Nx, 1, 1, 0);
    let store = store_with(&children_of(coarse));
    let mut selected = vec![fine_key, coarse];
    let mut requested = Vec::new();
    normalize_neighbor_lod_delta_with_limits(&store, &mut selected, &mut requested, 64, 1, 224).unwrap();
    assert_lod_delta_at_most_one(&selected);
    let mut zero_passes = vec![fine_key, coarse];
    normalize_neighbor_lod_delta_with_limits(&store, &mut zero_passes, &mut requested, 0, 16_384, 224).unwrap();
    assert_lod_delta_at_most_one(&zero_passes);
}

#[test]
fn normalization_rejects_invalid_keys_without_changes() {
    let store = store_with(&[]);
    let invalid = ChunkKey::new(Face::Px, 2, 9, 0);
    let mut selected = vec![ChunkKey::new(Face::Px, 1, 0, 0), invalid];
    let before = selected.clone();
    let mut requested = Vec::new();
    assert_eq!(
        normalize_neighbor_lod_delta(&store, &mut selected, &mut requested, 224),
        Err(TopologyError::InvalidChunkKey)
    );
    assert_eq!(selected, before);
    assert_eq!(force_collapse_neighbor_lod_delta(&mut selected), Err(TopologyError::InvalidChunkKey));
    assert_eq!(selected, before);
}

#[test]
fn covering_ancestor_is_the_nearest_selected_container() {
    let selected = vec![ChunkKey::new(Face::Py, 1, 0, 1), ChunkKey::new(Face::Py, 3, 7, 7)];
    assert_eq!(
        find_active_ancestor_covering(ChunkKey::new(Face::Py, 4, 3, 9), &selected),
        Some(ChunkKey::new(Face::Py, 1, 0, 1))
    );
    assert_eq!(
        find_active_ancestor_covering(ChunkKey::new(Face::Py, 3, 7, 7), &selected),
        Some(ChunkKey::new(Face::Py, 3, 7, 7))
    );
    assert_eq!(find_active_ancestor_covering(ChunkKey::new(Face::Py, 2, 3, 0), &selected), None);
}

#[test]
fn collapse_replaces_descendants_by_the_target() {
    let target = ChunkKey::new(Face::Ny, 1, 0, 0);
    let mut selected = vec![
        ChunkKey::new(Face::Ny, 2, 0, 0),
        ChunkKey::new(Face::Ny, 2, 3, 3),
        ChunkKey::new(Face::Ny, 3, 1, 1),
    ];
    assert!(collapse_selected_descendants(&mut selected, target));
    assert_eq!(selected, vec![ChunkKey::new(Face::Ny, 2, 3, 3), target]);
    let mut untouched = vec![ChunkKey::new(Face::Ny, 2, 3, 3)];
    assert!(!collapse_selected_descendants(&mut untouched, target));
    assert_eq!(untouched, vec![ChunkKey::new(Face::Ny, 2, 3, 3)]);
}

#[test]
fn collapse_targets_close_each_gap_once() {
    let selected = vec![ChunkKey::new(Face::Px, 3, 3, 0), ChunkKey::new(Face::Px, 1, 1, 0)];
    let targets = collect_neighbor_collapse_targets(&selected).unwrap();
    assert_eq!(targets, vec![ChunkKey::new(Face::Px, 2, 1, 0)]);
    let balanced = vec![ChunkKey::new(Face::Px, 2, 1, 0), ChunkKey::new(Face::Px, 1, 1, 0)];
    assert!(collect_neighbor_collapse_targets(&balanced).unwrap().is_empty());
    let mut forced = selected.clone();
    force_collapse_neighbor_lod_delta(&mut forced).unwrap();
    assert_eq!(forced, vec![ChunkKey::new(Face::Px, 1, 1, 0), ChunkKey::new(Face::Px, 2, 1, 0)]);
}

#[test]
fn required_stitch_mask_marks_coarser_covered_neighbors() {
    let selected = vec![ChunkKey::new(Face::Px, 1, 1, 0), ChunkKey::new(Face::Px, 2, 1, 0)];
    let key = ChunkKey::new(Face::Px, 2, 1, 0);
    assert_eq!(required_stitch_mask_for_selection(key, &selected), Ok(0b0010));
    let class = required_surface_class_for_selection(key, &selected, &render_format()).unwrap();
    let expected = SurfaceClassKey::canonical_chunk(0b0010, 0, 0x1B, 12, 24, 4).unwrap();
    assert_eq!(class, expected);
    assert_eq!(
        required_stitch_mask_for_selection(ChunkKey::new(Face::Px, 1, 2, 0), &selected),
        Err(TopologyError::InvalidChunkKey)
    );
}

#[test]
fn split_ancestors_are_all_strict_ancestors_of_rendered_chunks() {
    let active = vec![ChunkKey::new(Face::Px, 2, 1, 0), ChunkKey::new(Face::Px, 2, 3, 3)];
    let mut ancestors = build_current_split_ancestors(&active);
    ancestors.sort();
    assert_eq!(
        ancestors,
        vec![
            ChunkKey::new(Face::Px, 0, 0, 0),
            ChunkKey::new(Face::Px, 1, 0, 0),
            ChunkKey::new(Face::Px, 1, 1, 1),
        ]
    );
    assert!(build_current_split_ancestors(&vec![ChunkKey::new(Face::Nz, 0, 0, 0)]).is_empty());
}

#[test]
fn selection_state_is_sorted_by_face_level_and_coordinates() {
    let selected = vec![
        ChunkKey::new(Face::Nz, 0, 0, 0),
        ChunkKey::new(Face::Px, 2, 1, 0),
        ChunkKey::new(Face::Px, 1, 1, 1),
        ChunkKey::new(Face::Px, 2, 0, 3),
    ];
    let state = normalized_selection_state(&selected);
    let mut expected = selected.clone();
    expected.sort();
    assert_eq!(state, expected);
}

#[test]
fn selection_driven_surface_class_marks_fine_to_coarse_stitch_edges() {
    let fine_key = ChunkKey::new(Face::Px, 2, 1, 1);
    let coarse_neighbor_cover = ChunkKey::new(Face::Px, 1, 0, 0);
    let desired_render = vec![fine_key, coarse_neighbor_cover];

    let surface_class = required_surface_class_for_selection(fine_key, &desired_render, &render_format()).unwrap();

    assert_eq!(
        surface_class.stitch_mask,
        world2::mesh_topology::stitch_mask_bit(Edge::NegU) | world2::mesh_topology::stitch_mask_bit(Edge::NegV)
    );
}

#[test]
fn coverage_ready_requires_replacement_chunks_before_parent_retirement() {
    let parent = ChunkKey::new(Face::Pz, 2, 1, 1);
    let children = parent.children().unwrap();
    let desired_render = children.to_vec();
    let ready_none = Vec::new();
    let ready_partial = vec![children[0], children[1]];
    let ready_all = children.to_vec();

    assert!(!world2::lod_balance::coverage_ready_for_key(parent, &desired_render, &ready_none));
    assert!(!world2::lod_balance::coverage_ready_for_key(parent, &desired_render, &ready_partial));
    assert!(world2::lod_balance::coverage_ready_for_key(parent, &desired_render, &ready_all));
    assert!(world2::lod_balance::coverage_ready_for_key(
        ChunkKey::new(Face::Nz, 0, 0, 0),
        &desired_render,
        &ready_none
    ));
}

#[test]
fn desired_keys_intersecting_lists_ancestors_and_descendants() {
    let key = ChunkKey::new(Face::Pz, 2, 1, 1);
    let desired = vec![
        ChunkKey::new(Face::Pz, 0, 0, 0),
        ChunkKey::new(Face::Pz, 3, 2, 3),
        ChunkKey::new(Face::Pz, 3, 4, 4),
        ChunkKey::new(Face::Nz, 2, 1, 1),
    ];
    assert_eq!(
        world2::lod_balance::desired_keys_intersecting(key, &desired),
        vec![ChunkKey::new(Face::Pz, 0, 0, 0), ChunkKey::new(Face::Pz, 3, 2, 3)]
    );
}

#[test]
fn refinement_replaces_a_chunk_by_its_children_within_the_cap() {
    let root = ChunkKey::new(Face::Py, 0, 0, 0);
    let other = ChunkKey::new(Face::Ny, 0, 0, 0);
    let children = root.children().unwrap().to_vec();
    let mut selected = vec![root, other];
    assert_eq!(refine_selection_step(&mut selected, root, &children, 4, 224), RefinementStep::CapHit);
    assert_eq!(selected, vec![root, other]);
    assert_eq!(refine_selection_step(&mut selected, root, &vec![], 160, 224), RefinementStep::NoChildren);
    assert_eq!(refine_selection_step(&mut selected, root, &children, 5, 224), RefinementStep::Refined);
    assert_eq!(selected.len(), 5);
    assert!(!selected.contains(&root));
    assert!(children.iter().all(|c| selected.contains(c)));
    assert_eq!(refine_selection_step(&mut selected, root, &children, 160, 224), RefinementStep::NotSelected);
    let mut capped = vec![other];
    let partial = vec![ChunkKey::new(Face::Ny, 1, 0, 0)];
    assert_eq!(refine_selection_step(&mut capped, other, &partial, 160, 0), RefinementStep::CapHit);
}

#[test]
fn base_surface_class_has_no_stitched_edges() {
    let class = world2::lod_balance::base_chunk_surface_class(&render_format()).unwrap();
    assert_eq!(class, SurfaceClassKey::canonical_chunk(0, 0, 0x1B, 12, 24, 4).unwrap());
    assert_eq!(class.index_count, 6_144);
}
