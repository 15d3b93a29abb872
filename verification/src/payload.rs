use vstd::prelude::*;
use crate::surface::SurfaceClassKey;
use crate::engine::{EngineBytes, engine_bytes, new_engine_bytes, engine_bytes_len, resize_engine_bytes, overwrite_engine_bytes, clone_engine_bytes};

verus! {

/// The three byte regions of a packed chunk mesh and the strides they were packed with.
#[derive(Clone, Debug, Default, PartialEq, Eq)]
pub struct PackedMeshRegions {
    pub vertex_region: Vec<u8>,
    pub attribute_region: Vec<u8>,
    pub index_region: Vec<u8>,
    pub vertex_stride: usize,
    pub attribute_stride: usize,
    pub index_stride: usize,
}

impl PackedMeshRegions {
    /// The first layout mismatch against `surface_class`, checked strides first and then region
    /// sizes, each in vertex, attribute, index order; `None` when the layout matches.
    pub open spec fn first_mismatch(&self, surface_class: &SurfaceClassKey) -> Option<Seq<char>> {
        if self.vertex_stride != surface_class.vertex_stride {
            Some("vertex_stride"@)
        } else if self.attribute_stride != surface_class.attribute_stride {
            Some("attribute_stride"@)
        } else if self.index_stride != surface_class.index_stride {
            Some("index_stride"@)
        } else if self.vertex_region@.len() != surface_class.vertex_bytes {
            Some("vertex_bytes"@)
        } else if self.attribute_region@.len() != surface_class.attribute_bytes {
            Some("attribute_bytes"@)
        } else if self.index_region@.len() != surface_class.index_bytes {
            Some("index_bytes"@)
        } else {
            None
        }
    }

    pub fn validate_for_surface_class(&self, surface_class: &SurfaceClassKey) -> (r: Result<(), &'static str>)
        ensures
            match r {
                Ok(()) => self.first_mismatch(surface_class) is None,
                Err(name) => self.first_mismatch(surface_class) == Some(name@),
            },
    {
        if self.vertex_stride != surface_class.vertex_stride {
            return Err("vertex_stride");
        }
        if self.attribute_stride != surface_class.attribute_stride {
            return Err("attribute_stride");
        }
        if self.index_stride != surface_class.index_stride {
            return Err("index_stride");
        }
        if self.vertex_region.len() != surface_class.vertex_bytes {
            return Err("vertex_bytes");
        }
        if self.attribute_region.len() != surface_class.attribute_bytes {
            return Err("attribute_bytes");
        }
        if self.index_region.len() != surface_class.index_bytes {
            return Err("index_bytes");
        }
        Ok(())
    }
}


/// `n` zero bytes.
pub open spec fn zero_bytes(n: nat) -> Seq<u8> {
    Seq::new(n, |i: int| 0u8)
}

/// Reusable engine-owned staging arrays for the three byte regions of a chunk mesh.
#[derive(Debug, PartialEq)]
pub struct GdPackedStaging {
    pub vertex_region: EngineBytes,
    pub attribute_region: EngineBytes,
    pub index_region: EngineBytes,
}

/// A zero-filled engine array of `size` bytes.
fn zeroed_engine_bytes(size: usize) -> (a: EngineBytes)
    ensures
        engine_bytes(a) == zero_bytes(size as nat),
{
    let mut a = new_engine_bytes();
    resize_engine_bytes(&mut a, size);
    assert(engine_bytes(a) =~= zero_bytes(size as nat));
    a
}

impl Clone for GdPackedStaging {
    /// Arrays with the same bytes.
    fn clone(&self) -> (s: Self)
        ensures
            engine_bytes(s.vertex_region) == engine_bytes(self.vertex_region),
            engine_bytes(s.attribute_region) == engine_bytes(self.attribute_region),
            engine_bytes(s.index_region) == engine_bytes(self.index_region),
    {
        GdPackedStaging {
            vertex_region: clone_engine_bytes(&self.vertex_region),
            attribute_region: clone_engine_bytes(&self.attribute_region),
            index_region: clone_engine_bytes(&self.index_region),
        }
    }
}

impl GdPackedStaging {
    /// Staging arrays sized for `surface_class`, zero-filled.
    pub fn new_for_surface_class(surface_class: &SurfaceClassKey) -> (s: Self)
        ensures
            engine_bytes(s.vertex_region) == zero_bytes(surface_class.vertex_bytes as nat),
            engine_bytes(s.attribute_region) == zero_bytes(surface_class.attribute_bytes as nat),
            engine_bytes(s.index_region) == zero_bytes(surface_class.index_bytes as nat),
    {
        GdPackedStaging {
            vertex_region: zeroed_engine_bytes(surface_class.vertex_bytes),
            attribute_region: zeroed_engine_bytes(surface_class.attribute_bytes),
            index_region: zeroed_engine_bytes(surface_class.index_bytes),
        }
    }

    /// The first staging array whose size does not match `surface_class`.
    pub open spec fn first_staging_mismatch(&self, surface_class: &SurfaceClassKey) -> Option<Seq<char>> {
        if engine_bytes(self.vertex_region).len() != surface_class.vertex_bytes {
            Some("vertex_staging_bytes"@)
        } else if engine_bytes(self.attribute_region).len() != surface_class.attribute_bytes {
            Some("attribute_staging_bytes"@)
        } else if engine_bytes(self.index_region).len() != surface_class.index_bytes {
            Some("index_staging_bytes"@)
        } else {
            None
        }
    }

    /// Copies the packed regions into the staging arrays in place. Fails, copying nothing, when
    /// the regions do not match `surface_class` or the staging arrays are not sized for it.
    pub fn copy_from_regions(&mut self, regions: &PackedMeshRegions, surface_class: &SurfaceClassKey) -> (r: Result<(), &'static str>)
        ensures
            match regions.first_mismatch(surface_class) {
                Some(name) => r matches Err(e) && e@ == name && *final(self) == *old(self),
                None => match old(self).first_staging_mismatch(surface_class) {
                    Some(name) => r matches Err(e) && e@ == name && *final(self) == *old(self),
                    None => {
                        &&& r is Ok
                        &&& engine_bytes(final(self).vertex_region) == regions.vertex_region@
                        &&& engine_bytes(final(self).attribute_region) == regions.attribute_region@
                        &&& engine_bytes(final(self).index_region) == regions.index_region@
                    },
                },
            },
    {
        regions.validate_for_surface_class(surface_class)?;
        if engine_bytes_len(&self.vertex_region) != surface_class.vertex_bytes {
            return Err("vertex_staging_bytes");
        }
        if engine_bytes_len(&self.attribute_region) != surface_class.attribute_bytes {
            return Err("attribute_staging_bytes");
        }
        if engine_bytes_len(&self.index_region) != surface_class.index_bytes {
            return Err("index_staging_bytes");
        }
        overwrite_engine_bytes(&mut self.vertex_region, regions.vertex_region.as_slice());
        overwrite_engine_bytes(&mut self.attribute_region, regions.attribute_region.as_slice());
        overwrite_engine_bytes(&mut self.index_region, regions.index_region.as_slice());
        Ok(())
    }
}

/// Samples in a square render tile of `samples_per_edge` samples a side.
pub fn render_tile_sample_count(samples_per_edge: u32) -> (n: usize)
    requires
        samples_per_edge * samples_per_edge <= u32::MAX,
    ensures
        n == samples_per_edge * samples_per_edge,
{
    (samples_per_edge * samples_per_edge) as usize
}

/// Checks the lengths of a render tile's arrays against its sample count: heights always,
/// materials and normals where present, reporting the first array that does not fit.
pub fn validate_render_tile_layout(
    samples_per_edge: u32,
    height_len: usize,
    material_len: Option<usize>,
    normal_len: Option<usize>,
) -> (r: Result<(), &'static str>)
    requires
        samples_per_edge * samples_per_edge <= u32::MAX,
    ensures
        ({
            let expected = samples_per_edge * samples_per_edge;
            if height_len != expected {
                r matches Err(e) && e@ == "height_tile"@
            } else if material_len matches Some(m) && m != expected {
                r matches Err(e) && e@ == "material_tile"@
            } else if normal_len matches Some(m) && m != expected {
                r matches Err(e) && e@ == "normal_tile"@
            } else {
                r is Ok
            }
        }),
{
    let expected = render_tile_sample_count(samples_per_edge);
    if height_len != expected {
        return Err("height_tile");
    }
    if let Some(m) = material_len {
        if m != expected {
            return Err("material_tile");
        }
    }
    if let Some(m) = normal_len {
        if m != expected {
            return Err("normal_tile");
        }
    }
    Ok(())
}

/// Bytes of a render tile: four per height, sixteen per material texel, twelve per normal.
pub open spec fn render_tile_byte_len_spec(height_len: usize, material_len: Option<usize>, normal_len: Option<usize>) -> int {
    height_len * 4 + match material_len { Some(m) => m * 16, None => 0 }
        + match normal_len { Some(m) => m * 12, None => 0 }
}

pub fn render_tile_byte_len(height_len: usize, material_len: Option<usize>, normal_len: Option<usize>) -> (n: usize)
    requires
        render_tile_byte_len_spec(height_len, material_len, normal_len) <= usize::MAX,
    ensures
        n == render_tile_byte_len_spec(height_len, material_len, normal_len),
{
    let materials: usize = match material_len {
        Some(m) => m * 16,
        None => 0,
    };
    let normals: usize = match normal_len {
        Some(m) => m * 12,
        None => 0,
    };
    height_len * 4 + materials + normals
}

/// `a + b`, or `usize::MAX` where the sum does not fit.
pub open spec fn saturating_add_spec(a: int, b: int) -> int {
    if a + b > usize::MAX { usize::MAX as int } else { a + b }
}

/// Bytes a chunk's collision data holds: its collider vertices (else the mesh positions, when
/// the mesh is complete), its collider indices (else the mesh indices, likewise), and its
/// collider faces; twelve bytes per position, four per index, summed with saturation.
pub open spec fn collision_resident_bytes_spec(
    collider_vertices: Option<usize>,
    collider_indices: Option<usize>,
    collider_faces: Option<usize>,
    mesh_positions: usize,
    mesh_indices: usize,
) -> int {
    let complete = mesh_positions > 0 && mesh_indices > 0;
    let v: int = match collider_vertices { Some(n) => n * 12, None => if complete { mesh_positions * 12 } else { 0 } };
    let i: int = match collider_indices { Some(n) => n * 4, None => if complete { mesh_indices * 4 } else { 0 } };
    let f: int = match collider_faces { Some(n) => n * 12, None => 0 };
    saturating_add_spec(saturating_add_spec(v, i), f)
}

pub fn collision_resident_bytes(
    collider_vertices: Option<usize>,
    collider_indices: Option<usize>,
    collider_faces: Option<usize>,
    mesh_positions: usize,
    mesh_indices: usize,
) -> (n: usize)
    requires
        collider_vertices matches Some(n) ==> n * 12 <= usize::MAX,
        collider_indices matches Some(n) ==> n * 4 <= usize::MAX,
        collider_faces matches Some(n) ==> n * 12 <= usize::MAX,
        mesh_positions * 12 <= usize::MAX,
        mesh_indices * 4 <= usize::MAX,
    ensures
        n == collision_resident_bytes_spec(collider_vertices, collider_indices, collider_faces, mesh_positions, mesh_indices),
{
    let complete = mesh_positions > 0 && mesh_indices > 0;
    let v: usize = match collider_vertices {
        Some(n) => n * 12,
        None => if complete { mesh_positions * 12 } else { 0 },
    };
    let i: usize = match collider_indices {
        Some(n) => n * 4,
        None => if complete { mesh_indices * 4 } else { 0 },
    };
    let f: usize = match collider_faces {
        Some(n) => n * 12,
        None => 0,
    };
    let vi = v.saturating_add(i);
    vi.saturating_add(f)
}

/// What a chunk payload must carry besides its render tile.
#[derive(Clone, Copy, Debug, Default, PartialEq, Eq, Structural)]
pub struct PayloadBuildRequirements {
    pub cpu_render_data: bool,
    pub collision_mesh: bool,
}

impl PayloadBuildRequirements {
    pub fn new(cpu_render_data: bool, collision_mesh: bool) -> (r: Self)
        ensures
            r == (PayloadBuildRequirements { cpu_render_data, collision_mesh }),
    {
        PayloadBuildRequirements { cpu_render_data, collision_mesh }
    }

    /// A CPU mesh is needed for render data and for collision alike.
    pub fn requires_cpu_mesh(self) -> (b: bool)
        ensures
            b == (self.cpu_render_data || self.collision_mesh),
    {
        self.cpu_render_data || self.collision_mesh
    }

    /// `self` provides everything `required` asks for.
    pub open spec fn satisfies_spec(self, required: Self) -> bool {
        (required.cpu_render_data ==> self.cpu_render_data) && (required.collision_mesh ==> self.collision_mesh)
    }

    pub fn satisfies(self, required: Self) -> (b: bool)
        ensures
            b == self.satisfies_spec(required),
    {
        (!required.cpu_render_data || self.cpu_render_data) && (!required.collision_mesh || self.collision_mesh)
    }
}

/// Payload requirements are ordered by inclusion: every set of requirements satisfies itself
/// and whatever it satisfies, anything satisfying it satisfies too.
pub proof fn lemma_satisfies_is_a_preorder(a: PayloadBuildRequirements, b: PayloadBuildRequirements, c: PayloadBuildRequirements)
    ensures
        a.satisfies_spec(a),
        a.satisfies_spec(b) && b.satisfies_spec(c) ==> a.satisfies_spec(c),
        a.satisfies_spec(b) && b.satisfies_spec(a) ==> a == b,
{
}

/// Where the render and physics origins come from.
#[derive(Clone, Copy, Debug, PartialEq, Eq, Structural)]
pub enum OriginPolicyMode {
    SharedCameraRelative,
    EngineLargeWorld,
}

impl OriginPolicyMode {
    pub open spec fn label_spec(self) -> Seq<char> {
        match self {
            OriginPolicyMode::SharedCameraRelative => "shared_camera_relative"@,
            OriginPolicyMode::EngineLargeWorld => "engine_large_world"@,
        }
    }

    pub fn label(self) -> (s: &'static str)
        ensures
            s@ == self.label_spec(),
    {
        match self {
            OriginPolicyMode::SharedCameraRelative => "shared_camera_relative",
            OriginPolicyMode::EngineLargeWorld => "engine_large_world",
        }
    }
}

/// Why a render commit could not reuse a surface.
#[derive(Clone, Debug, PartialEq, Eq)]
pub enum RenderFallbackReason {
    MissingCurrentSurfaceClass,
    IncompatibleCurrentSurfaceClass(Vec<&'static str>),
    NoCompatiblePooledSurface,
}

/// How a prepared payload is to be committed to the render server.
#[derive(Clone, Debug, PartialEq, Eq)]
pub enum RenderLifecycleCommand {
    WarmReuseCurrent,
    WarmReusePooled,
    ColdCreate(RenderFallbackReason),
}

} // verus!
