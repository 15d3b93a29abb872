use vstd::prelude::*;
use std::collections::HashMap;
use crate::chunk::ChunkKey;
use crate::commit::CommitSchedule;
use crate::payload::{RenderFallbackReason, RenderLifecycleCommand};
use crate::render_commit::RenderCommitPath;

verus! {

/// A slot of the render tile pool.
#[derive(Clone, Copy, Debug, Default, PartialEq, Eq, Hash, Structural)]
pub struct RenderTileHandle {
    pub slot: usize,
}

/// The render tile resident in one slot.
#[derive(Clone, Debug, PartialEq, Eq)]
pub struct RenderTileSlotEntry {
    pub handle: RenderTileHandle,
    pub key: ChunkKey,
    pub sample_count: usize,
    pub byte_len: usize,
    pub last_touched_tick: u64,
}

/// The slots of the render tile pool, the slot of each resident chunk, and the free slots.
#[derive(Clone, Debug, Default, PartialEq, Eq)]
pub struct RenderTilePoolState {
    pub slots: Vec<Option<RenderTileSlotEntry>>,
    pub key_to_slot: HashMap<ChunkKey, usize>,
    pub free_slots: Vec<usize>,
}

/// Counts of the render tile pool for diagnostics.
#[derive(Clone, Copy, Debug, Default, PartialEq, Eq)]
pub struct RenderTilePoolSnapshot {
    pub total_slots: usize,
    pub active_slots: usize,
    pub free_slots: usize,
    pub resident_bytes: usize,
    pub eviction_ready_slots: usize,
}

/// Counts of the resident collision payloads for diagnostics.
#[derive(Clone, Copy, Debug, Default, PartialEq, Eq)]
pub struct CollisionResidencySnapshot {
    pub entries: usize,
    pub bytes: usize,
}

/// The counters that one frame of selection and commit leaves for diagnostics.
#[derive(Clone, Debug, Default, PartialEq, Eq)]
pub struct SelectionFrameState {
    pub tick: u64,
    pub desired_render_count: usize,
    pub desired_physics_count: usize,
    pub gpu_tile_upload_bytes: usize,
    pub gpu_material_binds: usize,
    pub active_gpu_render_chunks: usize,
    pub canonical_render_meshes: usize,
    pub render_residency_entries: usize,
    pub render_residency_evictions: usize,
    pub render_tile_bytes: usize,
    pub render_tile_pool_slots: usize,
    pub render_tile_pool_active_slots: usize,
    pub render_tile_pool_free_slots: usize,
    pub render_tile_eviction_ready_slots: usize,
    pub collision_residency_entries: usize,
    pub collision_residency_bytes: usize,
    pub selected_render_starved_chunks: usize,
    pub selected_render_starvation_failures: usize,
    pub max_selected_render_starvation_frames: u32,
    pub horizon_survivor_count: usize,
    pub frustum_survivor_count: usize,
    pub selected_candidates: usize,
    pub refinement_iterations: usize,
    pub selection_cap_hits: usize,
    pub selected_leaf_count: usize,
    pub neighbor_split_count: usize,
    pub queued_commit_ops: usize,
    pub committed_commit_ops: usize,
    pub deferred_commit_ops: usize,
    pub upload_bytes_committed: usize,
    pub upload_bytes_deferred: usize,
    pub max_deferred_starvation_frames: u32,
    pub phase7_sampled_chunks: usize,
    pub phase7_meshed_chunks: usize,
    pub phase7_packed_chunks: usize,
    pub phase7_staged_chunks: usize,
    pub phase7_commit_payloads: usize,
    pub phase7_lifecycle_commands: usize,
    pub phase7_warm_current_reuse_hits: usize,
    pub phase7_warm_pool_reuse_hits: usize,
    pub phase7_cold_fallbacks: usize,
    pub phase8_render_warm_current_commits: usize,
    pub phase8_render_warm_pool_commits: usize,
    pub phase8_render_cold_commits: usize,
    pub phase8_physics_commits: usize,
    pub phase8_fallback_missing_current_surface_class: usize,
    pub phase8_fallback_incompatible_current_surface_class: usize,
    pub phase8_fallback_no_compatible_pooled_surface: usize,
    pub phase9_worker_threads: usize,
    pub phase9_meta_requests_submitted: usize,
    pub phase9_meta_results_installed: usize,
    pub phase9_submitted_jobs: usize,
    pub phase9_generation_jobs: usize,
    pub phase9_ready_results: usize,
    pub phase9_stale_results_dropped: usize,
    pub phase9_superseded_jobs: usize,
    pub phase9_inflight_jobs: usize,
    pub phase9_queue_peak: usize,
    pub phase9_result_wait_count: usize,
    pub phase9_sample_scratch_reuse_hits: usize,
    pub phase9_mesh_scratch_reuse_hits: usize,
    pub phase9_pack_scratch_reuse_hits: usize,
    pub phase9_scratch_growth_events: usize,
    pub phase10_origin_rebases: usize,
    pub phase10_render_transform_rebinds: usize,
    pub phase10_physics_transform_rebinds: usize,
    pub phase12_chunks_with_asset_payloads: usize,
    pub phase12_asset_candidate_count: usize,
    pub phase12_asset_rejected_count: usize,
    pub phase12_asset_accepted_count: usize,
    pub phase12_active_groups: usize,
    pub phase12_active_instances: usize,
    pub sparse_meta_entries: usize,
    pub render_pool_entries: usize,
    pub physics_pool_entries: usize,
}

/// Origin shifts and the transform rebinds they caused, counted while no frame was recorded.
#[derive(Clone, Copy, Debug, Default, PartialEq, Eq, Structural)]
pub struct OriginRebindCounts {
    pub origin_rebases: usize,
    pub render_transform_rebinds: usize,
    pub physics_transform_rebinds: usize,
}

pub open spec fn saturating_sum(a: usize, b: usize) -> usize {
    if a + b > usize::MAX { usize::MAX } else { (a + b) as usize }
}

impl OriginRebindCounts {
    /// Adds other counts, saturating each.
    pub fn add(&mut self, other: OriginRebindCounts)
        ensures
            final(self).origin_rebases == saturating_sum(old(self).origin_rebases, other.origin_rebases),
            final(self).render_transform_rebinds
                == saturating_sum(old(self).render_transform_rebinds, other.render_transform_rebinds),
            final(self).physics_transform_rebinds
                == saturating_sum(old(self).physics_transform_rebinds, other.physics_transform_rebinds),
    {
        self.origin_rebases = self.origin_rebases.saturating_add(other.origin_rebases);
        self.render_transform_rebinds = self.render_transform_rebinds.saturating_add(other.render_transform_rebinds);
        self.physics_transform_rebinds = self.physics_transform_rebinds.saturating_add(other.physics_transform_rebinds);
    }

    /// Hands the counts over and starts again from zero.
    pub fn take(&mut self) -> (counts: OriginRebindCounts)
        ensures
            counts == *old(self),
            *final(self) == (OriginRebindCounts { origin_rebases: 0, render_transform_rebinds: 0, physics_transform_rebinds: 0 }),
    {
        let counts = *self;
        *self = OriginRebindCounts { origin_rebases: 0, render_transform_rebinds: 0, physics_transform_rebinds: 0 };
        counts
    }
}

impl SelectionFrameState {

    /// The origin counters of the frame.
    pub fn origin_rebinds(&self) -> (counts: OriginRebindCounts)
        ensures
            counts == (OriginRebindCounts {
                origin_rebases: self.phase10_origin_rebases,
                render_transform_rebinds: self.phase10_render_transform_rebinds,
                physics_transform_rebinds: self.phase10_physics_transform_rebinds,
            }),
    {
        OriginRebindCounts {
            origin_rebases: self.phase10_origin_rebases,
            render_transform_rebinds: self.phase10_render_transform_rebinds,
            physics_transform_rebinds: self.phase10_physics_transform_rebinds,
        }
    }

    /// Adds origin shifts and rebinds to the frame's counters, saturating each.
    pub fn add_origin_rebinds(&mut self, counts: OriginRebindCounts)
        ensures
            final(self).phase10_origin_rebases == saturating_sum(old(self).phase10_origin_rebases, counts.origin_rebases),
            final(self).phase10_render_transform_rebinds
                == saturating_sum(old(self).phase10_render_transform_rebinds, counts.render_transform_rebinds),
            final(self).phase10_physics_transform_rebinds
                == saturating_sum(old(self).phase10_physics_transform_rebinds, counts.physics_transform_rebinds),
            final(self).tick == old(self).tick,
            final(self).committed_commit_ops == old(self).committed_commit_ops,
    {
        self.phase10_origin_rebases = self.phase10_origin_rebases.saturating_add(counts.origin_rebases);
        self.phase10_render_transform_rebinds =
            self.phase10_render_transform_rebinds.saturating_add(counts.render_transform_rebinds);
        self.phase10_physics_transform_rebinds =
            self.phase10_physics_transform_rebinds.saturating_add(counts.physics_transform_rebinds);
    }
    /// Records the outcome of the frame's commit scheduling: the ops queued, committed and
    /// deferred, the upload bytes on each side, and the longest starvation of a deferred op.
    pub fn record_commit_schedule(&mut self, queued_commit_ops: usize, schedule: &CommitSchedule, max_deferred_starvation_frames: u32)
        ensures
            final(self).queued_commit_ops == queued_commit_ops,
            final(self).committed_commit_ops == schedule.committed@.len(),
            final(self).deferred_commit_ops == schedule.deferred@.len(),
            final(self).upload_bytes_committed == schedule.upload_bytes_committed,
            final(self).upload_bytes_deferred == schedule.upload_bytes_deferred,
            final(self).max_deferred_starvation_frames == max_deferred_starvation_frames,
            final(self).tick == old(self).tick,
            final(self).desired_render_count == old(self).desired_render_count,
            final(self).desired_physics_count == old(self).desired_physics_count,
            final(self).neighbor_split_count == old(self).neighbor_split_count,
            final(self).selected_leaf_count == old(self).selected_leaf_count,
    {
        self.queued_commit_ops = queued_commit_ops;
        self.committed_commit_ops = schedule.committed.len();
        self.deferred_commit_ops = schedule.deferred.len();
        self.upload_bytes_committed = schedule.upload_bytes_committed;
        self.upload_bytes_deferred = schedule.upload_bytes_deferred;
        self.max_deferred_starvation_frames = max_deferred_starvation_frames;
    }
    /// Counts a render commit under the path it took.
    pub fn record_render_commit(&mut self, path: RenderCommitPath)
        requires
            old(self).phase8_render_warm_current_commits < usize::MAX,
            old(self).phase8_render_warm_pool_commits < usize::MAX,
            old(self).phase8_render_cold_commits < usize::MAX,
        ensures
            final(self).phase8_render_warm_current_commits == old(self).phase8_render_warm_current_commits
                + if path == RenderCommitPath::RefreshCurrent { 1int } else { 0int },
            final(self).phase8_render_warm_pool_commits == old(self).phase8_render_warm_pool_commits
                + if path == RenderCommitPath::ReusePooled { 1int } else { 0int },
            final(self).phase8_render_cold_commits == old(self).phase8_render_cold_commits
                + if path == RenderCommitPath::CreateCold { 1int } else { 0int },
            final(self).phase8_physics_commits == old(self).phase8_physics_commits,
            final(self).committed_commit_ops == old(self).committed_commit_ops,
    {
        match path {
            RenderCommitPath::RefreshCurrent => {
                self.phase8_render_warm_current_commits = self.phase8_render_warm_current_commits + 1;
            },
            RenderCommitPath::ReusePooled => {
                self.phase8_render_warm_pool_commits = self.phase8_render_warm_pool_commits + 1;
            },
            RenderCommitPath::CreateCold => {
                self.phase8_render_cold_commits = self.phase8_render_cold_commits + 1;
            },
        }
    }

    /// Counts a payload handed to the commit path with its lifecycle command: warm reuse of
    /// the current or a pooled surface, or a cold fallback by its reason.
    pub fn record_lifecycle(&mut self, lifecycle: &RenderLifecycleCommand)
        requires
            old(self).phase7_commit_payloads < usize::MAX,
            old(self).phase7_lifecycle_commands < usize::MAX,
            old(self).phase7_warm_current_reuse_hits < usize::MAX,
            old(self).phase7_warm_pool_reuse_hits < usize::MAX,
            old(self).phase7_cold_fallbacks < usize::MAX,
            old(self).phase8_fallback_missing_current_surface_class < usize::MAX,
            old(self).phase8_fallback_incompatible_current_surface_class < usize::MAX,
            old(self).phase8_fallback_no_compatible_pooled_surface < usize::MAX,
        ensures
            final(self).phase7_commit_payloads == old(self).phase7_commit_payloads + 1,
            final(self).phase7_lifecycle_commands == old(self).phase7_lifecycle_commands + 1,
            final(self).phase7_warm_current_reuse_hits == old(self).phase7_warm_current_reuse_hits
                + if *lifecycle is WarmReuseCurrent { 1int } else { 0int },
            final(self).phase7_warm_pool_reuse_hits == old(self).phase7_warm_pool_reuse_hits
                + if *lifecycle is WarmReusePooled { 1int } else { 0int },
            final(self).phase7_cold_fallbacks == old(self).phase7_cold_fallbacks
                + if *lifecycle is ColdCreate { 1int } else { 0int },
            final(self).phase8_fallback_missing_current_surface_class
                == old(self).phase8_fallback_missing_current_surface_class
                + if *lifecycle == RenderLifecycleCommand::ColdCreate(RenderFallbackReason::MissingCurrentSurfaceClass) { 1int } else { 0int },
            final(self).phase8_fallback_incompatible_current_surface_class
                == old(self).phase8_fallback_incompatible_current_surface_class
                + if *lifecycle matches RenderLifecycleCommand::ColdCreate(RenderFallbackReason::IncompatibleCurrentSurfaceClass(_)) { 1int } else { 0int },
            final(self).phase8_fallback_no_compatible_pooled_surface
                == old(self).phase8_fallback_no_compatible_pooled_surface
                + if *lifecycle == RenderLifecycleCommand::ColdCreate(RenderFallbackReason::NoCompatiblePooledSurface) { 1int } else { 0int },
    {
        self.phase7_commit_payloads = self.phase7_commit_payloads + 1;
        self.phase7_lifecycle_commands = self.phase7_lifecycle_commands + 1;
        match lifecycle {
            RenderLifecycleCommand::WarmReuseCurrent => {
                self.phase7_warm_current_reuse_hits = self.phase7_warm_current_reuse_hits + 1;
            },
            RenderLifecycleCommand::WarmReusePooled => {
                self.phase7_warm_pool_reuse_hits = self.phase7_warm_pool_reuse_hits + 1;
            },
            RenderLifecycleCommand::ColdCreate(reason) => {
                self.phase7_cold_fallbacks = self.phase7_cold_fallbacks + 1;
                match reason {
                    RenderFallbackReason::MissingCurrentSurfaceClass => {
                        self.phase8_fallback_missing_current_surface_class =
                            self.phase8_fallback_missing_current_surface_class + 1;
                    },
                    RenderFallbackReason::IncompatibleCurrentSurfaceClass(_) => {
                        self.phase8_fallback_incompatible_current_surface_class =
                            self.phase8_fallback_incompatible_current_surface_class + 1;
                    },
                    RenderFallbackReason::NoCompatiblePooledSurface => {
                        self.phase8_fallback_no_compatible_pooled_surface =
                            self.phase8_fallback_no_compatible_pooled_surface + 1;
                    },
                }
            },
        }
    }
}

} // verus!
