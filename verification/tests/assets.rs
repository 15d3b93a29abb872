use world2::assets::{
    asset_debug_snapshot, asset_group_anchor_key, asset_group_key_for_chunk, face_ordinal,
    placement_hash, splitmix64, AssetGroupKey, DEFAULT_ASSET_GROUP_CHUNK_SPAN, DEFAULT_PLANET_SEED,
};
use world2::asset_groups::plan_asset_groups;
use world2::chunk::{ChunkKey, Face};

#[test]
fn phase12_asset_grouping_stays_compact_within_chunk_batches() {
    let span = DEFAULT_ASSET_GROUP_CHUNK_SPAN;
    let key_a = ChunkKey::new(Face::Px, 3, 0, 0);
    let key_b = ChunkKey::new(Face::Px, 3, 1, 1);
    let key_c = ChunkKey::new(Face::Px, 3, span, 0);

    let group_a = asset_group_key_for_chunk(key_a, 0, span);
    let group_b = asset_group_key_for_chunk(key_b, 0, span);
    let group_c = asset_group_key_for_chunk(key_c, 0, span);

    assert_eq!(group_a, group_b);
    assert_ne!(group_a, group_c);
}

#[test]
fn group_keys_divide_coordinates_by_the_span() {
    let group = asset_group_key_for_chunk(ChunkKey::new(Face::Nz, 4, 13, 6), 3, 4);
    assert_eq!(group, AssetGroupKey { face: Face::Nz, lod: 4, group_x: 3, group_y: 1, family_id: 3 });
    let unit = asset_group_key_for_chunk(ChunkKey::new(Face::Nz, 4, 13, 6), 0, 0);
    assert_eq!(unit.group_x, 13);
    assert_eq!(unit.group_y, 6);
}

#[test]
fn group_anchor_is_the_first_chunk_of_the_group() {
    let key = ChunkKey::new(Face::Py, 3, 5, 7);
    let group = asset_group_key_for_chunk(key, 1, 2);
    let anchor = asset_group_anchor_key(group, 2);
    assert_eq!(anchor, ChunkKey::new(Face::Py, 3, 4, 6));
    assert_eq!(asset_group_key_for_chunk(anchor, 1, 2), group);
    let far = AssetGroupKey { face: Face::Py, lod: 1, group_x: 9, group_y: 0, family_id: 0 };
    assert_eq!(asset_group_anchor_key(far, 2), ChunkKey::new(Face::Py, 1, 1, 0));
}

#[test]
fn debug_snapshot_counts_groups_and_instances() {
    let snapshot = asset_debug_snapshot(&[3, 0, 5], 2);
    assert_eq!(snapshot.active_groups, 3);
    assert_eq!(snapshot.active_instances, 8);
    assert_eq!(snapshot.family_meshes, 2);
    let empty = asset_debug_snapshot(&[], 0);
    assert_eq!(empty.active_groups, 0);
    assert_eq!(empty.active_instances, 0);
}

#[test]
fn splitmix64_matches_reference_values() {
    assert_eq!(splitmix64(0), 0xe220a8397b1dcdaf);
    assert_eq!(splitmix64(1), 0x910a2dec89025cc1);
    assert_eq!(splitmix64(DEFAULT_PLANET_SEED), 0x7b95f2e3643f8f60);
}

#[test]
fn placement_hash_mixes_seed_key_cell_and_family() {
    let key = ChunkKey::new(Face::Pz, 3, 5, 2);
    assert_eq!(placement_hash(DEFAULT_PLANET_SEED, key, 7, 1), 0xce33ee5691c8051d);
    assert_eq!(placement_hash(0, ChunkKey::new(Face::Px, 0, 0, 0), 0, 0), splitmix64(0));
    assert_ne!(placement_hash(DEFAULT_PLANET_SEED, key, 8, 1), placement_hash(DEFAULT_PLANET_SEED, key, 7, 1));
    assert_eq!(face_ordinal(Face::Nz), 5);
    assert_eq!(face_ordinal(Face::Py), 2);
}

#[test]
fn asset_plans_group_instances_by_family_and_chunk_batch() {
    let span = DEFAULT_ASSET_GROUP_CHUNK_SPAN;
    let key_b = ChunkKey::new(Face::Px, 3, 1, 1);
    let key_a = ChunkKey::new(Face::Px, 3, 0, 0);
    let key_c = ChunkKey::new(Face::Px, 3, 2, 0);
    let chunks = vec![(key_b, vec![0u16, 1, 0]), (key_a, vec![0u16]), (key_c, vec![])];

    let plans = plan_asset_groups(&chunks, span);

    assert_eq!(plans.len(), 2);
    let family0 = &plans[0];
    assert_eq!(family0.key, asset_group_key_for_chunk(key_a, 0, span));
    assert_eq!(family0.anchor, key_a);
    assert_eq!(family0.members, vec![(0, 0), (0, 2), (1, 0)]);
    assert_eq!(family0.source_chunks, vec![key_a, key_b]);
    let family1 = &plans[1];
    assert_eq!(family1.key.family_id, 1);
    assert_eq!(family1.members, vec![(0, 1)]);
    assert_eq!(family1.source_chunks, vec![key_b]);
}
