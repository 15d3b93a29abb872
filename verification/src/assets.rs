use vstd::prelude::*;
use crate::chunk::{ChunkKey, Face, face_ordinal_spec, resolution_spec, key};

verus! {

pub const DEFAULT_PLANET_SEED: u64 = 0x5EED_5EED_D15C_A11E;
pub const DEFAULT_ASSET_PLACEMENT_CELLS_PER_AXIS: u32 = 8;
pub const DEFAULT_ASSET_GROUP_CHUNK_SPAN: u32 = 2;

/// Identifies one batch of asset instances: all instances of one family in a square of
/// `span x span` chunks of one face and level.
#[derive(Clone, Copy, Debug, PartialEq, Eq, Structural, Hash, PartialOrd, Ord)]
pub struct AssetGroupKey {
    pub face: Face,
    pub lod: u8,
    pub group_x: u32,
    pub group_y: u32,
    pub family_id: u16,
}

/// Counters describing the resident asset groups.
#[derive(Clone, Debug, Default, PartialEq, Eq, Structural)]
pub struct AssetDebugSnapshot {
    pub active_groups: usize,
    pub active_instances: usize,
    pub family_meshes: usize,
}

/// A group span of zero is treated as one.
pub open spec fn effective_span(chunk_span: u32) -> u32 {
    if chunk_span >= 1 { chunk_span } else { 1 }
}

/// The group that holds the instances of `family_id` placed on chunk `k`.
pub open spec fn group_key_spec(k: ChunkKey, family_id: u16, chunk_span: u32) -> AssetGroupKey {
    let span = effective_span(chunk_span);
    AssetGroupKey {
        face: k.face,
        lod: k.lod,
        group_x: (k.x / span) as u32,
        group_y: (k.y / span) as u32,
        family_id,
    }
}

pub fn asset_group_key_for_chunk(key: ChunkKey, family_id: u16, chunk_span: u32) -> (g: AssetGroupKey)
    ensures
        g == group_key_spec(key, family_id, chunk_span),
{
    let chunk_span = if chunk_span >= 1 { chunk_span } else { 1 };
    AssetGroupKey {
        face: key.face,
        lod: key.lod,
        group_x: key.x / chunk_span,
        group_y: key.y / chunk_span,
        family_id,
    }
}

/// `a * b`, or `u32::MAX` where the product does not fit.
pub open spec fn saturating_mul_u32_spec(a: u32, b: u32) -> u32 {
    if a * b > u32::MAX {
        u32::MAX
    } else {
        (a * b) as u32
    }
}

/// The product, clamped to `u32::MAX` on overflow.
fn saturating_mul_u32(a: u32, b: u32) -> (r: u32)
    ensures
        r == saturating_mul_u32_spec(a, b),
{
    match a.checked_mul(b) {
        Some(p) => p,
        None => u32::MAX,
    }
}

/// The chunk whose bounds anchor a group: its first chunk, clamped into the face grid.
pub open spec fn anchor_spec(g: AssetGroupKey, chunk_span: u32) -> ChunkKey {
    let span = effective_span(chunk_span);
    let res = resolution_spec(g.lod as nat);
    let res1: int = if res >= 1 { res as int } else { 1 };
    let x = saturating_mul_u32_spec(g.group_x, span);
    let y = saturating_mul_u32_spec(g.group_y, span);
    ChunkKey {
        face: g.face,
        lod: g.lod,
        x: if x < res1 - 1 { x } else { (res1 - 1) as u32 },
        y: if y < res1 - 1 { y } else { (res1 - 1) as u32 },
    }
}

pub fn asset_group_anchor_key(key: AssetGroupKey, chunk_span: u32) -> (k: ChunkKey)
    ensures
        k == anchor_spec(key, chunk_span),
{
    let chunk_span = if chunk_span >= 1 { chunk_span } else { 1 };
    let resolution = ChunkKey::resolution_for_lod(key.lod);
    let resolution = if resolution >= 1 { resolution } else { 1 };
    let x = saturating_mul_u32(key.group_x, chunk_span);
    let x = if x < resolution - 1 { x } else { resolution - 1 };
    let y = saturating_mul_u32(key.group_y, chunk_span);
    let y = if y < resolution - 1 { y } else { resolution - 1 };
    ChunkKey::new(key.face, key.lod, x, y)
}

/// The anchor of the group of a valid chunk is a valid chunk of that same group.
pub proof fn lemma_anchor_in_group(k: ChunkKey, family_id: u16, chunk_span: u32)
    requires
        k.valid(),
    ensures
        anchor_spec(group_key_spec(k, family_id, chunk_span), chunk_span).valid(),
        group_key_spec(anchor_spec(group_key_spec(k, family_id, chunk_span), chunk_span), family_id, chunk_span)
            == group_key_spec(k, family_id, chunk_span),
{
    let span = effective_span(chunk_span) as int;
    let g = group_key_spec(k, family_id, chunk_span);
    let gx = k.x as int / span;
    let gy = k.y as int / span;
    assert(gx * span <= k.x) by (nonlinear_arith)
        requires span >= 1, gx == k.x as int / span, k.x >= 0;
    assert(gy * span <= k.y) by (nonlinear_arith)
        requires span >= 1, gy == k.y as int / span, k.y >= 0;
    assert((gx * span) / span == gx) by (nonlinear_arith)
        requires span >= 1, gx >= 0;
    assert((gy * span) / span == gy) by (nonlinear_arith)
        requires span >= 1, gy >= 0;
}

/// The sum of a list of counts.
pub open spec fn sum_spec(s: Seq<usize>) -> int
    decreases s.len(),
{
    if s.len() == 0 {
        0
    } else {
        sum_spec(s.drop_last()) + s.last()
    }
}

/// Counters of the resident asset groups, given the instance count of each group and the
/// number of family meshes.
pub fn asset_debug_snapshot(instance_counts: &[usize], family_mesh_count: usize) -> (s: AssetDebugSnapshot)
    requires
        sum_spec(instance_counts@) <= usize::MAX,
    ensures
        s == (AssetDebugSnapshot {
            active_groups: instance_counts@.len() as usize,
            active_instances: sum_spec(instance_counts@) as usize,
            family_meshes: family_mesh_count,
        }),
{
    let mut total: usize = 0;
    let mut i: usize = 0;
    while i < instance_counts.len()
        invariant
            i <= instance_counts@.len(),
            total == sum_spec(instance_counts@.take(i as int)),
            sum_spec(instance_counts@) <= usize::MAX,
        decreases instance_counts@.len() - i,
    {
        proof {
            lemma_sum_prefix_bounded(instance_counts@, (i + 1) as int);
            assert(instance_counts@.take((i + 1) as int).drop_last() =~= instance_counts@.take(i as int));
        }
        total = total + instance_counts[i];
        i += 1;
    }
    assert(instance_counts@.take(i as int) =~= instance_counts@);
    AssetDebugSnapshot {
        active_groups: instance_counts.len(),
        active_instances: total,
        family_meshes: family_mesh_count,
    }
}

proof fn lemma_sum_prefix_bounded(s: Seq<usize>, n: int)
    requires
        0 <= n <= s.len(),
    ensures
        sum_spec(s.take(n)) <= sum_spec(s),
    decreases s.len(),
{
    if n < s.len() {
        lemma_sum_prefix_bounded(s.drop_last(), n);
        assert(s.drop_last().take(n) =~= s.take(n));
    } else {
        assert(s.take(n) =~= s);
    }
}

/// The SplitMix64 finaliser used to derive placement decisions from a hash.
pub open spec fn splitmix64_spec(value: u64) -> u64 {
    let value = value.wrapping_add(0x9E37_79B9_7F4A_7C15);
    let value = (value ^ (value >> 30u64)).wrapping_mul(0xBF58_476D_1CE4_E5B9);
    let value = (value ^ (value >> 27u64)).wrapping_mul(0x94D0_49BB_1331_11EB);
    value ^ (value >> 31u64)
}

pub fn splitmix64(value: u64) -> (r: u64)
    ensures
        r == splitmix64_spec(value),
{
    let value = value.wrapping_add(0x9E37_79B9_7F4A_7C15);
    let value = (value ^ (value >> 30u64)).wrapping_mul(0xBF58_476D_1CE4_E5B9);
    let value = (value ^ (value >> 27u64)).wrapping_mul(0x94D0_49BB_1331_11EB);
    value ^ (value >> 31u64)
}

/// `value` rotated left by `n` bits.
pub open spec fn rotate_left_spec(value: u64, n: u32) -> u64 {
    if n == 0 {
        value
    } else {
        (value << n) | (value >> (64 - n) as u32)
    }
}

/// Shifts the bits left by `n`, moving the bits shifted out back in at the low end.
fn rotate_left_u64(value: u64, n: u32) -> (r: u64)
    requires
        n < 64,
    ensures
        r == rotate_left_spec(value, n),
{
    if n == 0 {
        value
    } else {
        (value << n) | (value >> (64 - n))
    }
}

pub fn face_ordinal(face: Face) -> (o: u8)
    ensures
        o == face_ordinal_spec(face),
{
    match face {
        Face::Px => 0,
        Face::Nx => 1,
        Face::Py => 2,
        Face::Ny => 3,
        Face::Pz => 4,
        Face::Nz => 5,
    }
}

/// The hash that seeds every decision about one placement cell of one asset family on one
/// chunk of a planet.
pub open spec fn placement_hash_spec(seed: u64, k: ChunkKey, cell_id: u32, family_id: u16) -> u64 {
    let value = seed;
    let value = value ^ ((face_ordinal_spec(k.face) as u64) << 61u64);
    let value = value ^ ((k.lod as u64) << 56u64);
    let value = value ^ ((k.x as u64) << 28u64);
    let value = value ^ (k.y as u64);
    let value = value ^ rotate_left_spec(cell_id as u64, 17);
    let value = value ^ rotate_left_spec(family_id as u64, 49);
    splitmix64_spec(value)
}

pub fn placement_hash(seed: u64, key: ChunkKey, cell_id: u32, family_id: u16) -> (h: u64)
    ensures
        h == placement_hash_spec(seed, key, cell_id, family_id),
{
    let mut value = seed;
    value ^= (face_ordinal(key.face) as u64) << 61u64;
    value ^= (key.lod as u64) << 56u64;
    value ^= (key.x as u64) << 28u64;
    value ^= key.y as u64;
    value ^= rotate_left_u64(cell_id as u64, 17);
    value ^= rotate_left_u64(family_id as u64, 49);
    splitmix64(value)
}

} // verus!
