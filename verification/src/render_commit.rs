use vstd::prelude::*;
use crate::chunk::ChunkKey;
use crate::config::CommitOpKind;
use crate::engine::engine_bytes;
use crate::lod_balance::{holds_key, lemma_push_members, lemma_remove_members};
use crate::payload::{GdPackedStaging, PackedMeshRegions, RenderLifecycleCommand, zero_bytes};
use crate::pool::RenderWarmPath;
use crate::render_state::{ChunkRidState, RenderPoolEntry};
use crate::surface::SurfaceClassKey;

verus! {

/// How a render commit reaches a mesh and an instance.
#[derive(Clone, Copy, Debug, PartialEq, Eq, Structural)]
pub enum RenderCommitPath {
    /// Refill the chunk's current mesh in place.
    RefreshCurrent,
    /// Recycle the current entry and take over the pooled one.
    ReusePooled,
    /// Recycle the current entry and create a new mesh and instance.
    CreateCold,
}

/// With the render server: a warm commit whose mesh (current or pooled) is missing falls back
/// to a cold one.
pub open spec fn render_commit_path_spec(lifecycle: RenderLifecycleCommand, has_current_rids: bool, has_pooled_entry: bool) -> RenderCommitPath {
    match lifecycle {
        RenderLifecycleCommand::WarmReuseCurrent => if has_current_rids {
            RenderCommitPath::RefreshCurrent
        } else {
            RenderCommitPath::CreateCold
        },
        RenderLifecycleCommand::WarmReusePooled => if has_pooled_entry {
            RenderCommitPath::ReusePooled
        } else {
            RenderCommitPath::CreateCold
        },
        RenderLifecycleCommand::ColdCreate(_) => RenderCommitPath::CreateCold,
    }
}

/// A warm pooled commit that was handed a pooled entry takes it over, whatever current mesh the
/// chunk holds; a warm current commit with a current mesh refreshes it; a commit creates a new
/// mesh only when it was cold or its warm mesh is missing.
pub proof fn lemma_render_commit_path_reuses_warm_meshes(lifecycle: RenderLifecycleCommand, has_current_rids: bool, has_pooled_entry: bool)
    ensures
        (lifecycle is WarmReusePooled && has_pooled_entry)
            ==> render_commit_path_spec(lifecycle, has_current_rids, has_pooled_entry) == RenderCommitPath::ReusePooled,
        (lifecycle is WarmReuseCurrent && has_current_rids)
            ==> render_commit_path_spec(lifecycle, has_current_rids, has_pooled_entry) == RenderCommitPath::RefreshCurrent,
        render_commit_path_spec(lifecycle, has_current_rids, has_pooled_entry) is CreateCold
            ==> (lifecycle is ColdCreate || (lifecycle is WarmReuseCurrent && !has_current_rids)
                || (lifecycle is WarmReusePooled && !has_pooled_entry)),
{
}

/// The path of a render commit with the render server.
pub fn render_commit_path(lifecycle: &RenderLifecycleCommand, has_current_rids: bool, has_pooled_entry: bool) -> (p: RenderCommitPath)
    ensures
        p == render_commit_path_spec(*lifecycle, has_current_rids, has_pooled_entry),
        (*lifecycle is WarmReusePooled && has_pooled_entry) ==> p == RenderCommitPath::ReusePooled,
        (*lifecycle is WarmReuseCurrent && has_current_rids) ==> p == RenderCommitPath::RefreshCurrent,
        p is CreateCold ==> (*lifecycle is ColdCreate || (*lifecycle is WarmReuseCurrent && !has_current_rids)
            || (*lifecycle is WarmReusePooled && !has_pooled_entry)),
{
    match lifecycle {
        RenderLifecycleCommand::WarmReuseCurrent => if has_current_rids {
            RenderCommitPath::RefreshCurrent
        } else {
            RenderCommitPath::CreateCold
        },
        RenderLifecycleCommand::WarmReusePooled => if has_pooled_entry {
            RenderCommitPath::ReusePooled
        } else {
            RenderCommitPath::CreateCold
        },
        RenderLifecycleCommand::ColdCreate(_) => RenderCommitPath::CreateCold,
    }
}

/// Without a render server (headless) the lifecycle command alone decides the path.
pub fn headless_render_commit_path(lifecycle: &RenderLifecycleCommand) -> (p: RenderCommitPath)
    ensures
        p == match *lifecycle {
            RenderLifecycleCommand::WarmReuseCurrent => RenderCommitPath::RefreshCurrent,
            RenderLifecycleCommand::WarmReusePooled => RenderCommitPath::ReusePooled,
            RenderLifecycleCommand::ColdCreate(_) => RenderCommitPath::CreateCold,
        },
{
    match lifecycle {
        RenderLifecycleCommand::WarmReuseCurrent => RenderCommitPath::RefreshCurrent,
        RenderLifecycleCommand::WarmReusePooled => RenderCommitPath::ReusePooled,
        RenderLifecycleCommand::ColdCreate(_) => RenderCommitPath::CreateCold,
    }
}

/// The lifecycle command that a warm-path decision turns into, and the pooled entry it hands
/// over, if any.
pub fn lifecycle_for_warm_path<E>(warm_path: RenderWarmPath<E>) -> (r: (RenderLifecycleCommand, Option<E>))
    ensures
        match warm_path {
            RenderWarmPath::ReuseCurrentSurface => r == (RenderLifecycleCommand::WarmReuseCurrent, None::<E>),
            RenderWarmPath::ReusePooledSurface(e) => r == (RenderLifecycleCommand::WarmReusePooled, Some(e)),
            RenderWarmPath::ColdPath(reason) => r == (RenderLifecycleCommand::ColdCreate(reason), None::<E>),
        },
{
    match warm_path {
        RenderWarmPath::ReuseCurrentSurface => (RenderLifecycleCommand::WarmReuseCurrent, None),
        RenderWarmPath::ReusePooledSurface(entry) => (RenderLifecycleCommand::WarmReusePooled, Some(entry)),
        RenderWarmPath::ColdPath(reason) => (RenderLifecycleCommand::ColdCreate(reason), None),
    }
}

/// The bytes a payload uploads: its packed regions, or, before packing, the sizes its surface
/// class calls for.
pub open spec fn payload_upload_bytes_spec(packed_regions: Option<PackedMeshRegions>, surface_class: SurfaceClassKey) -> int {
    match packed_regions {
        Some(r) => r.vertex_region@.len() + r.attribute_region@.len() + r.index_region@.len() as int,
        None => surface_class.vertex_bytes + surface_class.attribute_bytes + surface_class.index_bytes as int,
    }
}

pub fn payload_upload_bytes(packed_regions: Option<&PackedMeshRegions>, surface_class: &SurfaceClassKey) -> (n: usize)
    requires
        payload_upload_bytes_spec(
            match packed_regions { Some(r) => Some(*r), None => None },
            *surface_class,
        ) <= usize::MAX,
    ensures
        n == payload_upload_bytes_spec(match packed_regions { Some(r) => Some(*r), None => None }, *surface_class),
{
    match packed_regions {
        Some(regions) => regions.vertex_region.len() + regions.attribute_region.len() + regions.index_region.len(),
        None => surface_class.vertex_bytes + surface_class.attribute_bytes + surface_class.index_bytes,
    }
}

/// The active sets after a commit: activations and updates make the chunk active for
/// rendering, render deactivations inactive, and likewise for collision.
pub fn apply_commit_to_active_sets(
    kind: CommitOpKind,
    key: ChunkKey,
    active_render: &mut Vec<ChunkKey>,
    active_physics: &mut Vec<ChunkKey>,
)
    requires
        old(active_render)@.no_duplicates(),
        old(active_physics)@.no_duplicates(),
    ensures
        final(active_render)@.no_duplicates(),
        final(active_physics)@.no_duplicates(),
        forall|k: ChunkKey| #[trigger] final(active_render)@.contains(k) == match kind {
            CommitOpKind::ActivateRender | CommitOpKind::UpdateRender => old(active_render)@.contains(k) || k == key,
            CommitOpKind::DeactivateRender => old(active_render)@.contains(k) && k != key,
            _ => old(active_render)@.contains(k),
        },
        forall|k: ChunkKey| #[trigger] final(active_physics)@.contains(k) == match kind {
            CommitOpKind::ActivatePhysics => old(active_physics)@.contains(k) || k == key,
            CommitOpKind::DeactivatePhysics => old(active_physics)@.contains(k) && k != key,
            _ => old(active_physics)@.contains(k),
        },
{
    match kind {
        CommitOpKind::ActivateRender | CommitOpKind::UpdateRender => insert_unique(active_render, key),
        CommitOpKind::DeactivateRender => remove_unique(active_render, key),
        CommitOpKind::ActivatePhysics => insert_unique(active_physics, key),
        CommitOpKind::DeactivatePhysics => remove_unique(active_physics, key),
    }
}

fn insert_unique(set: &mut Vec<ChunkKey>, key: ChunkKey)
    requires
        old(set)@.no_duplicates(),
    ensures
        final(set)@.no_duplicates(),
        forall|k: ChunkKey| #[trigger] final(set)@.contains(k) == (old(set)@.contains(k) || k == key),
{
    proof {
        lemma_push_members(set@, key);
    }
    if !holds_key(set, &key) {
        set.push(key);
    }
}

fn remove_unique(set: &mut Vec<ChunkKey>, key: ChunkKey)
    requires
        old(set)@.no_duplicates(),
    ensures
        final(set)@.no_duplicates(),
        forall|k: ChunkKey| #[trigger] final(set)@.contains(k) == (old(set)@.contains(k) && k != key),
{
    let mut i: usize = 0;
    while i < set.len()
        invariant
            set@ == old(set)@,
            old(set)@.no_duplicates(),
            i <= set@.len(),
            forall|j: int| 0 <= j < i ==> set@[j] != key,
        decreases set@.len() - i,
    {
        if set[i] == key {
            proof {
                lemma_remove_members(set@, i as int);
            }
            set.remove(i);
            return;
        }
        i += 1;
    }
}

/// Staging arrays for a payload of `surface_class` on `warm_path`: the chunk's own when it
/// keeps its surface, a copy of the pooled entry's when it takes one over, new zero-filled
/// arrays otherwise.
pub fn acquire_staging(
    rid_state: &mut ChunkRidState,
    surface_class: &SurfaceClassKey,
    warm_path: &RenderWarmPath<RenderPoolEntry>,
) -> (staging: GdPackedStaging)
    ensures
        match *warm_path {
            RenderWarmPath::ReuseCurrentSurface => match old(rid_state).gd_staging {
                Some(s) => staging == s,
                None => engine_bytes(staging.vertex_region) == zero_bytes(surface_class.vertex_bytes as nat)
                    && engine_bytes(staging.attribute_region) == zero_bytes(surface_class.attribute_bytes as nat)
                    && engine_bytes(staging.index_region) == zero_bytes(surface_class.index_bytes as nat),
            },
            RenderWarmPath::ReusePooledSurface(entry) => match entry.gd_staging {
                Some(s) => engine_bytes(staging.vertex_region) == engine_bytes(s.vertex_region)
                    && engine_bytes(staging.attribute_region) == engine_bytes(s.attribute_region)
                    && engine_bytes(staging.index_region) == engine_bytes(s.index_region),
                None => engine_bytes(staging.vertex_region) == zero_bytes(surface_class.vertex_bytes as nat)
                    && engine_bytes(staging.attribute_region) == zero_bytes(surface_class.attribute_bytes as nat)
                    && engine_bytes(staging.index_region) == zero_bytes(surface_class.index_bytes as nat),
            },
            RenderWarmPath::ColdPath(_) => engine_bytes(staging.vertex_region) == zero_bytes(surface_class.vertex_bytes as nat)
                && engine_bytes(staging.attribute_region) == zero_bytes(surface_class.attribute_bytes as nat)
                && engine_bytes(staging.index_region) == zero_bytes(surface_class.index_bytes as nat),
        },
        match *warm_path {
            RenderWarmPath::ReuseCurrentSurface => final(rid_state).gd_staging is None,
            _ => final(rid_state).gd_staging == old(rid_state).gd_staging,
        },
        final(rid_state).mesh_rid == old(rid_state).mesh_rid,
        final(rid_state).render_instance_rid == old(rid_state).render_instance_rid,
        final(rid_state).physics_body_rid == old(rid_state).physics_body_rid,
        final(rid_state).physics_shape_rid == old(rid_state).physics_shape_rid,
        final(rid_state).render_resident == old(rid_state).render_resident,
        final(rid_state).physics_resident == old(rid_state).physics_resident,
        final(rid_state).active_surface_class == old(rid_state).active_surface_class,
        final(rid_state).pooled_surface_class == old(rid_state).pooled_surface_class,
        final(rid_state).asset_multimesh_rids == old(rid_state).asset_multimesh_rids,
        final(rid_state).asset_instance_rids == old(rid_state).asset_instance_rids,
{
    match warm_path {
        RenderWarmPath::ReuseCurrentSurface => match rid_state.gd_staging.take() {
            Some(s) => s,
            None => GdPackedStaging::new_for_surface_class(surface_class),
        },
        RenderWarmPath::ReusePooledSurface(entry) => match &entry.gd_staging {
            Some(s) => s.clone(),
            None => GdPackedStaging::new_for_surface_class(surface_class),
        },
        RenderWarmPath::ColdPath(_) => GdPackedStaging::new_for_surface_class(surface_class),
    }
}

/// Staging arrays ready for a commit: the given ones (or new zero-filled ones), filled from the
/// packed regions when the payload has them. `None` when the regions or the arrays do not fit
/// `surface_class`.
pub fn ensure_commit_staging(
    staging: Option<GdPackedStaging>,
    packed_regions: Option<&PackedMeshRegions>,
    surface_class: &SurfaceClassKey,
) -> (r: Option<GdPackedStaging>)
    ensures
        match packed_regions {
            Some(regions) => match r {
                Some(s) => {
                    &&& regions.first_mismatch(surface_class) is None
                    &&& engine_bytes(s.vertex_region) == regions.vertex_region@
                    &&& engine_bytes(s.attribute_region) == regions.attribute_region@
                    &&& engine_bytes(s.index_region) == regions.index_region@
                },
                None => regions.first_mismatch(surface_class) is Some || match staging {
                    Some(s) => s.first_staging_mismatch(surface_class) is Some,
                    None => false,
                },
            },
            None => match staging {
                Some(s) => r == Some(s),
                None => r matches Some(s) && engine_bytes(s.vertex_region) == zero_bytes(surface_class.vertex_bytes as nat)
                    && engine_bytes(s.attribute_region) == zero_bytes(surface_class.attribute_bytes as nat)
                    && engine_bytes(s.index_region) == zero_bytes(surface_class.index_bytes as nat),
            },
        },
{
    let mut staging = match staging {
        Some(s) => s,
        None => GdPackedStaging::new_for_surface_class(surface_class),
    };
    if let Some(regions) = packed_regions {
        if staging.copy_from_regions(regions, surface_class).is_err() {
            return None;
        }
    }
    Some(staging)
}

} // verus!
