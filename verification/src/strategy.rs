use vstd::prelude::*;
use crate::geometry::CubeProjection;
use crate::text::{owned, push_str};

verus! {

/// The chunk visibility strategy.
#[derive(Clone, Copy, Debug, Default, PartialEq, Eq, Structural)]
pub enum VisibilityStrategyKind {
    #[default]
    HorizonFrustumLod,
}

impl VisibilityStrategyKind {
    pub open spec fn label_spec(self) -> Seq<char> {
        "horizon_frustum_lod"@
    }

    pub fn label(&self) -> (s: &'static str)
        ensures
            s@ == self.label_spec(),
    {
        match self {
            VisibilityStrategyKind::HorizonFrustumLod => "horizon_frustum_lod",
        }
    }
}

/// The render backend that commits chunk surfaces.
#[derive(Clone, Copy, Debug, Default, PartialEq, Eq, Structural)]
pub enum RenderBackendKind {
    #[default]
    ServerPool,
}

impl RenderBackendKind {
    pub open spec fn label_spec(self) -> Seq<char> {
        "server_pool_render_backend"@
    }

    pub fn label(&self) -> (s: &'static str)
        ensures
            s@ == self.label_spec(),
    {
        match self {
            RenderBackendKind::ServerPool => "server_pool_render_backend",
        }
    }
}

/// How packed mesh regions are staged for upload.
#[derive(Clone, Copy, Debug, Default, PartialEq, Eq, Structural)]
pub enum PackedStagingPolicyKind {
    #[default]
    GodotOwnedReuse,
}

impl PackedStagingPolicyKind {
    pub open spec fn label_spec(self) -> Seq<char> {
        "godot_owned_packed_byte_array"@
    }

    pub fn label(&self) -> (s: &'static str)
        ensures
            s@ == self.label_spec(),
    {
        match self {
            PackedStagingPolicyKind::GodotOwnedReuse => "godot_owned_packed_byte_array",
        }
    }
}

/// `true` or `false`, as `Display` writes a boolean.
pub open spec fn bool_text(b: bool) -> Seq<char> {
    if b { "true"@ } else { "false"@ }
}

/// The strategy line of the runtime log: the projection, visibility strategy, frustum culling
/// and coarse-level fallback switches, render backend and staging policy.
pub open spec fn strategy_summary_spec(
    projection: CubeProjection,
    visibility: VisibilityStrategyKind,
    frustum_culling: bool,
    coarse_lod_fallback: bool,
    render_backend: RenderBackendKind,
    staging: PackedStagingPolicyKind,
) -> Seq<char> {
    "projection="@ + projection.label_spec() + " visibility="@ + visibility.label_spec()
        + " frustum_culling="@ + bool_text(frustum_culling) + " coarse_lod_fallback="@
        + bool_text(coarse_lod_fallback) + " render_backend="@ + render_backend.label_spec()
        + " staging="@ + staging.label_spec()
}

fn push_bool(out: &mut String, b: bool)
    ensures
        final(out)@ == old(out)@ + bool_text(b),
{
    if b {
        push_str(out, "true");
    } else {
        push_str(out, "false");
    }
}

pub fn strategy_summary(
    projection: &CubeProjection,
    visibility: &VisibilityStrategyKind,
    frustum_culling: bool,
    coarse_lod_fallback: bool,
    render_backend: &RenderBackendKind,
    staging: &PackedStagingPolicyKind,
) -> (summary: String)
    ensures
        summary@ == strategy_summary_spec(*projection, *visibility, frustum_culling, coarse_lod_fallback,
            *render_backend, *staging),
{
    let mut summary = owned("projection=");
    push_str(&mut summary, projection.label());
    push_str(&mut summary, " visibility=");
    push_str(&mut summary, visibility.label());
    push_str(&mut summary, " frustum_culling=");
    push_bool(&mut summary, frustum_culling);
    push_str(&mut summary, " coarse_lod_fallback=");
    push_bool(&mut summary, coarse_lod_fallback);
    push_str(&mut summary, " render_backend=");
    push_str(&mut summary, render_backend.label());
    push_str(&mut summary, " staging=");
    push_str(&mut summary, staging.label());
    assert(summary@ =~= strategy_summary_spec(*projection, *visibility, frustum_culling, coarse_lod_fallback,
        *render_backend, *staging));
    summary
}

} // verus!
