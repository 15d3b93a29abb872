use std::collections::HashSet;

use world2::chunk::Edge;
use world2::mesh_topology::{
    canonical_chunk_topology, stitch_mask_bit, stitch_mask_contains, stitch_mask_from_neighbor_lods,
    validate_stitch_mask, StitchError, BASE_STITCH_MASK, QUADS_PER_EDGE, SAMPLED_VERTICES_PER_EDGE,
    STITCH_VARIANT_COUNT, VISIBLE_VERTICES_PER_EDGE,
};

fn vertex_index(x: u32, y: u32) -> i32 {
    (y * VISIBLE_VERTICES_PER_EDGE + x) as i32
}

fn edge_vertex_coords(edge: Edge) -> impl Iterator<Item = (u32, u32)> {
    (0..VISIBLE_VERTICES_PER_EDGE).map(move |step| match edge {
        Edge::NegU => (0, step),
        Edge::PosU => (VISIBLE_VERTICES_PER_EDGE - 1, step),
        Edge::NegV => (step, 0),
        Edge::PosV => (step, VISIBLE_VERTICES_PER_EDGE - 1),
    })
}

#[test]
fn canonical_constants_match_phase_five_contract() {
    let topology = canonical_chunk_topology();

    assert_eq!(QUADS_PER_EDGE, 32);
    assert_eq!(VISIBLE_VERTICES_PER_EDGE, 33);
    assert_eq!(SAMPLED_VERTICES_PER_EDGE, 35);
    assert_eq!(topology.vertex_count(), 1_089);
    assert_eq!(topology.sampled_vertex_count(), 1_225);
    assert_eq!(topology.base_indices().len(), 6_144);
}

#[test]
fn stitch_variants_exist_for_all_16_masks_and_stay_in_range() {
    let topology = canonical_chunk_topology();
    let max_vertex = topology.vertex_count() as i32;

    for stitch_mask in 0..STITCH_VARIANT_COUNT as u8 {
        let indices = topology.stitch_indices(stitch_mask).unwrap();

        assert!(!indices.is_empty());
        assert!(indices
            .iter()
            .all(|index| *index >= 0 && *index < max_vertex));
        assert_eq!(
            topology.index_count_for_mask(stitch_mask).unwrap() as usize,
            indices.len()
        );
    }
}

#[test]
fn stitched_edges_only_keep_even_boundary_vertices() {
    let topology = canonical_chunk_topology();

    for edge in Edge::ALL {
        let stitch_mask = stitch_mask_bit(edge);
        let indices = topology.stitch_indices(stitch_mask).unwrap();
        let used_vertices = indices.iter().copied().collect::<HashSet<_>>();

        for (step, (x, y)) in edge_vertex_coords(edge).enumerate() {
            let vertex = vertex_index(x, y);
            if step % 2 == 1 {
                assert!(
                    !used_vertices.contains(&vertex),
                    "odd boundary vertex {vertex} unexpectedly used for {edge:?}"
                );
            } else {
                assert!(
                    used_vertices.contains(&vertex),
                    "even boundary vertex {vertex} missing for {edge:?}"
                );
            }
        }
    }
}

#[test]
fn neighbor_lod_to_stitch_mask_only_marks_fine_to_coarse_edges() {
    let mask = stitch_mask_from_neighbor_lods(5, [4, 5, 6, 4]).unwrap();

    assert_eq!(
        mask,
        stitch_mask_bit(Edge::NegU) | stitch_mask_bit(Edge::PosV)
    );

    let unsupported = stitch_mask_from_neighbor_lods(5, [3, 5, 5, 5]);
    assert_eq!(
        unsupported,
        Err(StitchError::UnsupportedNeighborLodDelta {
            edge: Edge::NegU,
            chunk_lod: 5,
            neighbor_lod: 3,
        })
    );
}

#[test]
fn base_variant_is_the_full_grid_of_two_triangles_per_quad() {
    let topology = canonical_chunk_topology();
    let base = topology.base_indices();
    assert_eq!(base.len(), 32 * 32 * 6);
    assert_eq!(topology.stitch_indices(BASE_STITCH_MASK).unwrap(), base);
    assert_eq!(topology.index_count_for_mask(BASE_STITCH_MASK), Ok(6_144));
}

#[test]
fn every_variant_is_a_triangle_list_no_larger_than_bound() {
    let topology = canonical_chunk_topology();
    for stitch_mask in 0..16u8 {
        let indices = topology.stitch_indices(stitch_mask).unwrap();
        assert_eq!(indices.len() % 3, 0);
        assert!(indices.len() <= 6_768);
    }
}

#[test]
fn stitched_edges_keep_even_vertices_for_all_masks() {
    let topology = canonical_chunk_topology();
    for stitch_mask in 0..16u8 {
        let indices = topology.stitch_indices(stitch_mask).unwrap();
        let used = indices.iter().copied().collect::<HashSet<_>>();
        for edge in Edge::ALL {
            if stitch_mask & stitch_mask_bit(edge) == 0 {
                continue;
            }
            for (step, (x, y)) in edge_vertex_coords(edge).enumerate() {
                assert_eq!(used.contains(&vertex_index(x, y)), step % 2 == 0);
            }
        }
    }
}

#[test]
fn invalid_stitch_masks_are_rejected() {
    let topology = canonical_chunk_topology();
    assert_eq!(validate_stitch_mask(16), Err(StitchError::InvalidStitchMask(16)));
    assert_eq!(validate_stitch_mask(15), Ok(()));
    assert_eq!(topology.stitch_indices(200), Err(StitchError::InvalidStitchMask(200)));
    assert_eq!(topology.index_count_for_mask(16), Err(StitchError::InvalidStitchMask(16)));
    assert_eq!(stitch_mask_contains(0b0101, Edge::NegU), Ok(true));
    assert_eq!(stitch_mask_contains(0b0101, Edge::PosU), Ok(false));
    assert_eq!(stitch_mask_contains(0b0101, Edge::NegV), Ok(true));
    assert_eq!(stitch_mask_contains(0xF0, Edge::NegV), Err(StitchError::InvalidStitchMask(0xF0)));
}

#[test]
fn stitch_mask_bits_follow_edge_order() {
    assert_eq!(stitch_mask_bit(Edge::NegU), 1);
    assert_eq!(stitch_mask_bit(Edge::PosU), 2);
    assert_eq!(stitch_mask_bit(Edge::NegV), 4);
    assert_eq!(stitch_mask_bit(Edge::PosV), 8);
    assert_eq!(stitch_mask_from_neighbor_lods(3, [3, 3, 3, 3]), Ok(0));
    assert_eq!(stitch_mask_from_neighbor_lods(3, [2, 2, 2, 2]), Ok(15));
    assert_eq!(
        stitch_mask_from_neighbor_lods(3, [3, 3, 3, 5]),
        Err(StitchError::UnsupportedNeighborLodDelta { edge: Edge::PosV, chunk_lod: 3, neighbor_lod: 5 })
    );
}

#[test]
fn variant_index_counts_drop_48_per_stitched_edge_and_6_per_stitched_corner() {
    let topology = canonical_chunk_topology();
    assert_eq!(topology.index_count_for_mask(0), Ok(6144));
    assert_eq!(topology.index_count_for_mask(0b0001), Ok(6096));
    assert_eq!(topology.index_count_for_mask(0b0011), Ok(6048));
    assert_eq!(topology.index_count_for_mask(0b0101), Ok(6042));
    assert_eq!(topology.index_count_for_mask(0b1111), Ok(5928));
    for mask in 0u8..16 {
        let edges = mask.count_ones() as u32;
        let nu = mask & 1 != 0;
        let pu = mask & 2 != 0;
        let nv = mask & 4 != 0;
        let pv = mask & 8 != 0;
        let corners = [nu && nv, pu && nv, nu && pv, pu && pv].iter().filter(|c| **c).count() as u32;
        assert_eq!(topology.index_count_for_mask(mask), Ok(6144 - 48 * edges - 6 * corners));
    }
}
