use vstd::prelude::*;
use godot::builtin::Rid;
use crate::payload::GdPackedStaging;
use crate::surface::SurfaceClassKey;

verus! {

/// A render mesh and instance kept for reuse, with the surface class they were built for.
#[derive(Debug, PartialEq)]
pub struct RenderPoolEntry {
    pub mesh_rid: Rid,
    pub render_instance_rid: Rid,
    pub surface_class: SurfaceClassKey,
    pub gd_staging: Option<GdPackedStaging>,
}

/// A static body and its collision shape kept for reuse.
#[derive(Debug, PartialEq)]
pub struct PhysicsPoolEntry {
    pub physics_body_rid: Rid,
    pub physics_shape_rid: Rid,
}

impl Clone for RenderPoolEntry {
    /// The same handles and class, with staging arrays holding the same bytes.
    fn clone(&self) -> (e: Self)
        ensures
            e.mesh_rid == self.mesh_rid,
            e.render_instance_rid == self.render_instance_rid,
            e.surface_class == self.surface_class,
            e.gd_staging.is_some() == self.gd_staging.is_some(),
    {
        RenderPoolEntry {
            mesh_rid: self.mesh_rid,
            render_instance_rid: self.render_instance_rid,
            surface_class: self.surface_class.clone(),
            gd_staging: match &self.gd_staging {
                Some(staging) => Some(staging.clone()),
                None => None,
            },
        }
    }
}

impl Clone for PhysicsPoolEntry {
    fn clone(&self) -> (e: Self)
        ensures
            e == *self,
    {
        PhysicsPoolEntry { physics_body_rid: self.physics_body_rid, physics_shape_rid: self.physics_shape_rid }
    }
}

/// The server handles and residency flags of one chunk.
#[derive(Debug, PartialEq)]
pub struct ChunkRidState {
    pub mesh_rid: Option<Rid>,
    pub render_instance_rid: Option<Rid>,
    pub physics_body_rid: Option<Rid>,
    pub physics_shape_rid: Option<Rid>,
    pub asset_multimesh_rids: Vec<Rid>,
    pub asset_instance_rids: Vec<Rid>,
    pub render_resident: bool,
    pub physics_resident: bool,
    pub active_surface_class: Option<SurfaceClassKey>,
    pub gd_staging: Option<GdPackedStaging>,
    pub pooled_surface_class: Option<SurfaceClassKey>,
}

impl Default for ChunkRidState {
    /// No handles, nothing resident.
    fn default() -> (s: Self)
        ensures
            s.holds_nothing(),
            s.asset_multimesh_rids@.len() == 0,
            s.asset_instance_rids@.len() == 0,
    {
        ChunkRidState {
            mesh_rid: None,
            render_instance_rid: None,
            physics_body_rid: None,
            physics_shape_rid: None,
            asset_multimesh_rids: Vec::new(),
            asset_instance_rids: Vec::new(),
            render_resident: false,
            physics_resident: false,
            active_surface_class: None,
            gd_staging: None,
            pooled_surface_class: None,
        }
    }
}

fn clone_class(c: &Option<SurfaceClassKey>) -> (r: Option<SurfaceClassKey>)
    ensures
        r == *c,
{
    match c {
        Some(k) => Some(k.clone()),
        None => None,
    }
}

impl ChunkRidState {
    /// No render or collision handle, surface class, staging or residency is recorded.
    pub open spec fn holds_nothing(&self) -> bool {
        &&& self.mesh_rid is None
        &&& self.render_instance_rid is None
        &&& self.physics_body_rid is None
        &&& self.physics_shape_rid is None
        &&& !self.render_resident
        &&& !self.physics_resident
        &&& self.active_surface_class is None
        &&& self.gd_staging is None
        &&& self.pooled_surface_class is None
    }

    /// The mesh and instance handles of the chunk's render entry, when it has both.
    pub fn current_render_rids(&self) -> (r: Option<(Rid, Rid)>)
        ensures
            r == match (self.mesh_rid, self.render_instance_rid) {
                (Some(m), Some(i)) => Some((m, i)),
                _ => None,
            },
    {
        match (self.mesh_rid, self.render_instance_rid) {
            (Some(mesh_rid), Some(render_instance_rid)) => Some((mesh_rid, render_instance_rid)),
            _ => None,
        }
    }

    /// Takes the chunk's render entry (mesh, instance, surface class and staging) out for the
    /// pool, leaving the chunk without render handles and not render resident. A chunk that
    /// lacks any of mesh, instance or surface class keeps its state and gives nothing.
    pub fn take_render_entry(&mut self) -> (entry: Option<RenderPoolEntry>)
        ensures
            match (old(self).mesh_rid, old(self).render_instance_rid, old(self).active_surface_class) {
                (Some(m), Some(i), Some(c)) => {
                    &&& entry matches Some(e)
                    &&& e.mesh_rid == m && e.render_instance_rid == i && e.surface_class == c
                    &&& e.gd_staging == old(self).gd_staging
                    &&& final(self).mesh_rid is None && final(self).render_instance_rid is None
                    &&& final(self).active_surface_class is None && final(self).pooled_surface_class is None
                    &&& final(self).gd_staging is None && !final(self).render_resident
                    &&& final(self).physics_body_rid == old(self).physics_body_rid
                    &&& final(self).physics_shape_rid == old(self).physics_shape_rid
                    &&& final(self).physics_resident == old(self).physics_resident
                    &&& final(self).asset_multimesh_rids == old(self).asset_multimesh_rids
                    &&& final(self).asset_instance_rids == old(self).asset_instance_rids
                },
                _ => entry is None && *final(self) == *old(self),
            },
    {
        let (mesh_rid, render_instance_rid, surface_class) = match (
            self.mesh_rid,
            self.render_instance_rid,
            clone_class(&self.active_surface_class),
        ) {
            (Some(m), Some(i), Some(c)) => (m, i, c),
            _ => {
                return None;
            },
        };
        let gd_staging = self.gd_staging.take();
        self.mesh_rid = None;
        self.render_instance_rid = None;
        self.active_surface_class = None;
        self.pooled_surface_class = None;
        self.render_resident = false;
        Some(RenderPoolEntry { mesh_rid, render_instance_rid, surface_class, gd_staging })
    }

    /// Records a render entry as the chunk's current one, render resident, with `surface_class`
    /// as both its active and pooled class.
    pub fn install_render_entry(
        &mut self,
        mesh_rid: Rid,
        render_instance_rid: Rid,
        surface_class: SurfaceClassKey,
        gd_staging: Option<GdPackedStaging>,
    )
        ensures
            final(self).mesh_rid == Some(mesh_rid),
            final(self).render_instance_rid == Some(render_instance_rid),
            final(self).active_surface_class == Some(surface_class),
            final(self).pooled_surface_class == Some(surface_class),
            final(self).gd_staging == gd_staging,
            final(self).render_resident,
            final(self).physics_body_rid == old(self).physics_body_rid,
            final(self).physics_shape_rid == old(self).physics_shape_rid,
            final(self).physics_resident == old(self).physics_resident,
            final(self).asset_multimesh_rids == old(self).asset_multimesh_rids,
            final(self).asset_instance_rids == old(self).asset_instance_rids,
    {
        self.mesh_rid = Some(mesh_rid);
        self.render_instance_rid = Some(render_instance_rid);
        self.active_surface_class = Some(surface_class.clone());
        self.pooled_surface_class = Some(surface_class);
        self.gd_staging = gd_staging;
        self.render_resident = true;
    }

    /// Takes the chunk's body and shape out for the pool, leaving it without collision handles
    /// and not physics resident. A chunk that lacks either keeps its state and gives nothing.
    pub fn take_physics_entry(&mut self) -> (entry: Option<PhysicsPoolEntry>)
        ensures
            match (old(self).physics_body_rid, old(self).physics_shape_rid) {
                (Some(b), Some(s)) => {
                    &&& entry == Some(PhysicsPoolEntry { physics_body_rid: b, physics_shape_rid: s })
                    &&& final(self).physics_body_rid is None && final(self).physics_shape_rid is None
                    &&& !final(self).physics_resident
                    &&& final(self).mesh_rid == old(self).mesh_rid
                    &&& final(self).render_instance_rid == old(self).render_instance_rid
                    &&& final(self).render_resident == old(self).render_resident
                    &&& final(self).active_surface_class == old(self).active_surface_class
                    &&& final(self).pooled_surface_class == old(self).pooled_surface_class
                    &&& final(self).gd_staging == old(self).gd_staging
                    &&& final(self).asset_multimesh_rids == old(self).asset_multimesh_rids
                    &&& final(self).asset_instance_rids == old(self).asset_instance_rids
                },
                _ => entry is None && *final(self) == *old(self),
            },
    {
        let (physics_body_rid, physics_shape_rid) = match (self.physics_body_rid, self.physics_shape_rid) {
            (Some(b), Some(s)) => (b, s),
            _ => {
                return None;
            },
        };
        self.physics_body_rid = None;
        self.physics_shape_rid = None;
        self.physics_resident = false;
        Some(PhysicsPoolEntry { physics_body_rid, physics_shape_rid })
    }

    /// The surface class the chunk is rendered with, while it is render resident.
    pub fn resident_surface_class(&self) -> (c: Option<SurfaceClassKey>)
        ensures
            c == if self.render_resident { self.active_surface_class } else { None },
    {
        if self.render_resident {
            clone_class(&self.active_surface_class)
        } else {
            None
        }
    }

    /// Records a finished render commit: the chunk is render resident with `surface_class` as
    /// its active and pooled class, and keeps its staging arrays or else takes `gd_staging`.
    pub fn record_render_commit(&mut self, surface_class: SurfaceClassKey, gd_staging: Option<GdPackedStaging>)
        ensures
            final(self).render_resident,
            final(self).active_surface_class == Some(surface_class),
            final(self).pooled_surface_class == Some(surface_class),
            final(self).gd_staging == if old(self).gd_staging is None { gd_staging } else { old(self).gd_staging },
            final(self).mesh_rid == old(self).mesh_rid,
            final(self).render_instance_rid == old(self).render_instance_rid,
            final(self).physics_body_rid == old(self).physics_body_rid,
            final(self).physics_shape_rid == old(self).physics_shape_rid,
            final(self).physics_resident == old(self).physics_resident,
            final(self).asset_multimesh_rids == old(self).asset_multimesh_rids,
            final(self).asset_instance_rids == old(self).asset_instance_rids,
    {
        self.render_resident = true;
        self.active_surface_class = Some(surface_class.clone());
        self.pooled_surface_class = Some(surface_class);
        if self.gd_staging.is_none() {
            self.gd_staging = gd_staging;
        }
    }

    /// Ends the chunk's rendering: its render entry (if complete) goes back for the pool, and
    /// the chunk is no longer render resident.
    pub fn deactivate_render(&mut self) -> (entry: Option<RenderPoolEntry>)
        ensures
            !final(self).render_resident,
            match (old(self).mesh_rid, old(self).render_instance_rid, old(self).active_surface_class) {
                (Some(m), Some(i), Some(c)) => entry matches Some(e) && e.mesh_rid == m && e.render_instance_rid == i
                    && e.surface_class == c && final(self).mesh_rid is None && final(self).render_instance_rid is None,
                _ => entry is None && final(self).mesh_rid == old(self).mesh_rid
                    && final(self).render_instance_rid == old(self).render_instance_rid,
            },
            final(self).physics_body_rid == old(self).physics_body_rid,
            final(self).physics_shape_rid == old(self).physics_shape_rid,
            final(self).physics_resident == old(self).physics_resident,
    {
        let entry = self.take_render_entry();
        self.render_resident = false;
        entry
    }

    /// Ends the chunk's collision residency: its body and shape (if both) go back for the pool.
    pub fn deactivate_physics(&mut self) -> (entry: Option<PhysicsPoolEntry>)
        ensures
            !final(self).physics_resident,
            match (old(self).physics_body_rid, old(self).physics_shape_rid) {
                (Some(b), Some(s)) => entry == Some(PhysicsPoolEntry { physics_body_rid: b, physics_shape_rid: s })
                    && final(self).physics_body_rid is None && final(self).physics_shape_rid is None,
                _ => entry is None && final(self).physics_body_rid == old(self).physics_body_rid
                    && final(self).physics_shape_rid == old(self).physics_shape_rid,
            },
            final(self).mesh_rid == old(self).mesh_rid,
            final(self).render_instance_rid == old(self).render_instance_rid,
            final(self).render_resident == old(self).render_resident,
    {
        let entry = self.take_physics_entry();
        self.physics_resident = false;
        entry
    }

    /// Forgets every server handle, surface class and staging array of the chunk, and marks it
    /// neither render nor physics resident (once the servers have freed them).
    pub fn clear_server_handles(&mut self)
        ensures
            final(self).holds_nothing(),
            final(self).asset_multimesh_rids == old(self).asset_multimesh_rids,
            final(self).asset_instance_rids == old(self).asset_instance_rids,
    {
        self.mesh_rid = None;
        self.render_instance_rid = None;
        self.physics_body_rid = None;
        self.physics_shape_rid = None;
        self.active_surface_class = None;
        self.pooled_surface_class = None;
        self.gd_staging = None;
        self.render_resident = false;
        self.physics_resident = false;
    }
}

} // verus!
