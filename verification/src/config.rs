use vstd::prelude::*;
use crate::chunk::ChunkKey;
use crate::topology::MAX_SUPPORTED_MAX_LOD;

verus! {

/// Levels of chunk metadata built when the runtime starts.
pub const DEFAULT_METADATA_PRECOMPUTE_MAX_LOD: u8 = 5;
/// Deepest level kept in dense metadata slot lists.
pub const DEFAULT_DENSE_METADATA_PREBUILD_MAX_LOD: u8 = 8;
/// Deepest level whose payloads are built ahead of need.
pub const PAYLOAD_PRECOMPUTE_MAX_LOD: u8 = 5;
/// Render chunks the selection aims for.
pub const DEFAULT_TARGET_RENDER_CHUNKS: usize = 160;
/// Render chunks the selection never exceeds.
pub const DEFAULT_HARD_RENDER_CHUNK_CAP: usize = 224;
/// Chunks kept in collision residency at most.
pub const DEFAULT_PHYSICS_MAX_ACTIVE_CHUNKS: usize = 12;
pub const DEFAULT_COMMIT_BUDGET_PER_FRAME: usize = 24;
pub const DEFAULT_UPLOAD_BUDGET_BYTES_PER_FRAME: usize = 1048576;
pub const DEFAULT_RENDER_ACTIVATION_BUDGET_PER_FRAME: usize = 6;
pub const DEFAULT_RENDER_UPDATE_BUDGET_PER_FRAME: usize = 4;
pub const DEFAULT_RENDER_DEACTIVATION_BUDGET_PER_FRAME: usize = 8;
/// Frames a selected chunk may wait for service.
pub const DEFAULT_RENDER_SERVICE_STARVATION_LIMIT_FRAMES: u32 = 30;
pub const DEFAULT_PHYSICS_ACTIVATION_BUDGET_PER_FRAME: usize = 2;
pub const DEFAULT_PHYSICS_DEACTIVATION_BUDGET_PER_FRAME: usize = 4;
pub const DEFAULT_RENDER_MATERIAL_CLASS: u8 = 0;
/// Vertex, normal, tangent, color and UV arrays.
pub const DEFAULT_RENDER_FORMAT_MASK: u64 = 0x1B;
pub const DEFAULT_RENDER_VERTEX_STRIDE: usize = 12;
pub const DEFAULT_RENDER_ATTRIBUTE_STRIDE: usize = 24;
pub const DEFAULT_RENDER_INDEX_STRIDE: usize = 4;
/// Pooled render entries kept per surface class.
pub const DEFAULT_RENDER_POOL_WATERMARK_PER_CLASS: usize = 8;
/// Pooled collision bodies kept.
pub const DEFAULT_PHYSICS_POOL_WATERMARK: usize = 4;
pub const DEFAULT_MAX_WORKER_THREADS: usize = 4;

/// How the deepest level of the quadtree is chosen.
#[derive(Clone, Copy, Debug, PartialEq, Eq, Structural)]
pub enum MaxLodPolicyKind {
    RadiusDerived,
    Fixed,
}

/// The kinds of server commit the runtime schedules per frame.
#[derive(Clone, Copy, Debug, PartialEq, Eq, Structural, Hash)]
pub enum CommitOpKind {
    ActivateRender,
    UpdateRender,
    DeactivateRender,
    ActivatePhysics,
    DeactivatePhysics,
}

/// Identifies a commit that was deferred by the frame budget.
#[derive(Clone, Copy, Debug, PartialEq, Eq, Structural, Hash)]
pub struct DeferredOpKey {
    pub kind: CommitOpKind,
    pub key: ChunkKey,
}

impl DeferredOpKey {
    pub fn new(kind: CommitOpKind, key: ChunkKey) -> (d: Self)
        ensures
            d == (DeferredOpKey { kind, key }),
    {
        DeferredOpKey { kind, key }
    }
}

/// The integer limits of a runtime configuration: quadtree depths and render chunk counts.
#[derive(Clone, Copy, Debug, PartialEq, Eq, Structural)]
pub struct LodLimits {
    pub max_lod: u8,
    pub max_lod_cap: u8,
    pub metadata_precompute_max_lod: u8,
    pub dense_metadata_prebuild_max_lod: u8,
    pub payload_precompute_max_lod: u8,
    pub target_render_chunks: usize,
    pub hard_render_chunk_cap: usize,
}

pub open spec fn min_u8(a: u8, b: u8) -> u8 {
    if a < b { a } else { b }
}

pub open spec fn normalized_limits_spec(policy: MaxLodPolicyKind, radius_derived_max_lod: u8, limits: LodLimits) -> LodLimits {
    let cap = min_u8(limits.max_lod_cap, MAX_SUPPORTED_MAX_LOD);
    let max_lod = match policy {
        MaxLodPolicyKind::RadiusDerived => min_u8(radius_derived_max_lod, cap),
        MaxLodPolicyKind::Fixed => min_u8(limits.max_lod, cap),
    };
    let hard = if limits.hard_render_chunk_cap < 6 { 6 } else { limits.hard_render_chunk_cap };
    let target0 = if limits.target_render_chunks < 6 { 6 } else { limits.target_render_chunks };
    LodLimits {
        max_lod,
        max_lod_cap: cap,
        metadata_precompute_max_lod: min_u8(limits.metadata_precompute_max_lod, max_lod),
        dense_metadata_prebuild_max_lod: min_u8(limits.dense_metadata_prebuild_max_lod, max_lod),
        payload_precompute_max_lod: min_u8(limits.payload_precompute_max_lod, max_lod),
        target_render_chunks: if target0 < hard { target0 } else { hard },
        hard_render_chunk_cap: hard,
    }
}

/// Normalizes the limits of a configuration: the cap is at most the supported depth; the depth
/// is the radius-derived one or the configured one, under the cap; the metadata, dense and
/// payload depths stay within the depth; at least one chunk per cube face is rendered, and the
/// target stays within the hard cap.
pub fn normalize_lod_limits(policy: MaxLodPolicyKind, radius_derived_max_lod: u8, limits: LodLimits) -> (n: LodLimits)
    ensures
        n == normalized_limits_spec(policy, radius_derived_max_lod, limits),
{
    let cap = if limits.max_lod_cap < MAX_SUPPORTED_MAX_LOD { limits.max_lod_cap } else { MAX_SUPPORTED_MAX_LOD };
    let max_lod = match policy {
        MaxLodPolicyKind::RadiusDerived => if radius_derived_max_lod < cap { radius_derived_max_lod } else { cap },
        MaxLodPolicyKind::Fixed => if limits.max_lod < cap { limits.max_lod } else { cap },
    };
    let hard = if limits.hard_render_chunk_cap < 6 { 6 } else { limits.hard_render_chunk_cap };
    let target0 = if limits.target_render_chunks < 6 { 6 } else { limits.target_render_chunks };
    LodLimits {
        max_lod,
        max_lod_cap: cap,
        metadata_precompute_max_lod: if limits.metadata_precompute_max_lod < max_lod { limits.metadata_precompute_max_lod } else { max_lod },
        dense_metadata_prebuild_max_lod: if limits.dense_metadata_prebuild_max_lod < max_lod { limits.dense_metadata_prebuild_max_lod } else { max_lod },
        payload_precompute_max_lod: if limits.payload_precompute_max_lod < max_lod { limits.payload_precompute_max_lod } else { max_lod },
        target_render_chunks: if target0 < hard { target0 } else { hard },
        hard_render_chunk_cap: hard,
    }
}

/// Normalizing twice changes nothing; a normalized configuration keeps its depth within its
/// cap and the supported depth, its metadata, dense and payload depths within its depth, and
/// its render target between one chunk per face and the hard cap.
pub proof fn lemma_normalization_is_idempotent(policy: MaxLodPolicyKind, radius_derived_max_lod: u8, limits: LodLimits)
    ensures
        ({
            let n = normalized_limits_spec(policy, radius_derived_max_lod, limits);
            &&& normalized_limits_spec(policy, radius_derived_max_lod, n) == n
            &&& n.max_lod <= n.max_lod_cap <= MAX_SUPPORTED_MAX_LOD
            &&& n.metadata_precompute_max_lod <= n.max_lod
            &&& n.dense_metadata_prebuild_max_lod <= n.max_lod
            &&& n.payload_precompute_max_lod <= n.max_lod
            &&& 6 <= n.target_render_chunks <= n.hard_render_chunk_cap
        }),
{
}

/// Whether two chunks of one face overlap: one lies inside the other.
pub open spec fn keys_overlap_spec(a: ChunkKey, b: ChunkKey) -> bool {
    a.face == b.face && (a.descends_from(b) || b.descends_from(a))
}

/// Two chunks overlap when one of them lies inside the other.
pub fn keys_overlap_hierarchically(a: ChunkKey, b: ChunkKey) -> (r: bool)
    requires
        a.lod < 32 && b.lod < 32,
    ensures
        r == keys_overlap_spec(a, b),
{
    a.face == b.face && (a.is_descendant_of(&b) || b.is_descendant_of(&a))
}

/// Clamps a (possibly negative) grid index into `[0, samples_per_edge - 1]`.
pub fn clamp_grid_index(value: i32, samples_per_edge: u32) -> (r: i32)
    requires
        samples_per_edge <= i32::MAX + 1,
    ensures
        ({
            let hi: int = if samples_per_edge >= 1 { samples_per_edge - 1 } else { 0 };
            r == if value < 0 { 0 } else if value > hi { hi } else { value as int }
        }),
{
    let max = if samples_per_edge >= 1 { samples_per_edge - 1 } else { 0 };
    let max = max as i32;
    if value < 0 {
        0
    } else if value > max {
        max
    } else {
        value
    }
}

} // verus!
