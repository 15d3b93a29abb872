use world2::chunk::{ChunkKey, Edge, Face};
use world2::topology::{
    edge_transform, same_lod_neighbor, same_lod_neighbors, TopologyError, DEFAULT_MAX_LOD,
    DIRECTED_EDGE_TRANSFORM_COUNT,
};

fn opposite_edge(edge: Edge) -> Edge {
    match edge {
        Edge::NegU => Edge::PosU,
        Edge::PosU => Edge::NegU,
        Edge::NegV => Edge::PosV,
        Edge::PosV => Edge::NegV,
    }
}

fn expected_chunk_count(max_lod: u8) -> usize {
    let mut total = 0usize;

    for lod in 0..=max_lod {
        let resolution = ChunkKey::resolution_for_lod(lod) as usize;
        total += Face::ALL.len() * resolution * resolution;
    }

    total
}

#[test]
fn basis_derived_transform_table_contains_all_24_directed_entries() {
    let mut seen = 0usize;

    for face in Face::ALL {
        for edge in Edge::ALL {
            let xform = edge_transform(face, edge);
            assert_ne!(xform.neighbor_face, face);
            seen += 1;
        }
    }

    assert_eq!(seen, DIRECTED_EDGE_TRANSFORM_COUNT);
}

#[test]
fn directed_edge_transforms_round_trip_across_shared_edges() {
    for face in Face::ALL {
        for edge in Edge::ALL {
            let xform = edge_transform(face, edge);
            let reverse = edge_transform(xform.neighbor_face, xform.neighbor_edge);

            assert_eq!(reverse.neighbor_face, face);
            assert_eq!(reverse.neighbor_edge, edge);
            assert_eq!(reverse.flip, xform.flip);
        }
    }
}

#[test]
fn same_lod_neighbors_match_internal_and_cross_face_cases() {
    let interior = ChunkKey::new(Face::Px, 3, 4, 2);
    assert_eq!(
        same_lod_neighbor(interior, Edge::NegU).unwrap(),
        ChunkKey::new(Face::Px, 3, 3, 2)
    );
    assert_eq!(
        same_lod_neighbor(interior, Edge::PosV).unwrap(),
        ChunkKey::new(Face::Px, 3, 4, 3)
    );

    let cross_face = ChunkKey::new(Face::Px, 2, 0, 0);
    assert_eq!(
        same_lod_neighbor(cross_face, Edge::NegU).unwrap(),
        ChunkKey::new(Face::Pz, 2, 3, 0)
    );
    assert_eq!(
        same_lod_neighbor(cross_face, Edge::NegV).unwrap(),
        ChunkKey::new(Face::Ny, 2, 3, 3)
    );
}

#[test]
fn same_lod_neighbor_rejects_invalid_chunk_keys() {
    let invalid = ChunkKey::new(Face::Px, 2, 4, 0);

    assert_eq!(
        same_lod_neighbor(invalid, Edge::NegU),
        Err(TopologyError::InvalidChunkKey)
    );
    assert_eq!(
        same_lod_neighbors(invalid),
        Err(TopologyError::InvalidChunkKey)
    );
}

#[test]
fn full_grid_round_trip_stays_deterministic_to_default_max_lod() {
    let mut visited = 0usize;

    for lod in 0..=DEFAULT_MAX_LOD {
        let resolution = ChunkKey::resolution_for_lod(lod);

        for face in Face::ALL {
            for x in 0..resolution {
                for y in 0..resolution {
                    let key = ChunkKey::new(face, lod, x, y);
                    let neighbors = same_lod_neighbors(key).unwrap();

                    for edge in Edge::ALL {
                        let neighbor = neighbors.get(edge);
                        let reverse_edge = if neighbor.face == face {
                            opposite_edge(edge)
                        } else {
                            edge_transform(face, edge).neighbor_edge
                        };

                        assert_eq!(same_lod_neighbor(neighbor, reverse_edge).unwrap(), key);
                    }

                    visited += 1;
                }
            }
        }
    }

    assert_eq!(visited, expected_chunk_count(DEFAULT_MAX_LOD));
}

#[test]
fn level_zero_faces_touch_four_distinct_other_faces() {
    for face in Face::ALL {
        let root = ChunkKey::new(face, 0, 0, 0);
        let neighbors = same_lod_neighbors(root).unwrap();
        let mut faces = Vec::new();
        for edge in Edge::ALL {
            let n = neighbors.get(edge);
            assert_eq!(n.lod, 0);
            assert_ne!(n.face, face);
            assert!(!faces.contains(&n.face));
            faces.push(n.face);
        }
    }
}

#[test]
fn cross_face_neighbors_land_on_the_border_of_the_other_face() {
    let key = ChunkKey::new(Face::Nz, 4, 15, 7);
    let n = same_lod_neighbor(key, Edge::PosU).unwrap();
    assert_ne!(n.face, Face::Nz);
    assert_eq!(n.lod, 4);
    let res = ChunkKey::resolution_for_lod(4);
    assert!(n.x == 0 || n.y == 0 || n.x == res - 1 || n.y == res - 1);
}
