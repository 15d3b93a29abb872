use vstd::prelude::*;
use crate::mesh_topology::{
    canonical_chunk_topology, variant_spec, valid_mask, StitchError, CANONICAL_TOPOLOGY_CLASS,
};

verus! {

/// `a * b`, or `usize::MAX` where the product does not fit.
pub open spec fn saturating_mul_spec(a: usize, b: usize) -> usize {
    if a * b > usize::MAX {
        usize::MAX
    } else {
        (a * b) as usize
    }
}

/// The product, clamped to `usize::MAX` on overflow.
fn saturating_mul_usize(a: usize, b: usize) -> (r: usize)
    ensures
        r == saturating_mul_spec(a, b),
{
    match a.checked_mul(b) {
        Some(p) => p,
        None => usize::MAX,
    }
}

/// Everything a GPU surface must agree on to be reused for another chunk: topology, stitch
/// and index variant, material, vertex format and the byte layout of its three regions.
#[derive(Debug, PartialEq, Eq, Structural, Hash)]
pub struct SurfaceClassKey {
    pub topology_class: u16,
    pub stitch_mask: u8,
    pub index_class: u8,
    pub material_class: u8,
    pub vertex_count: u32,
    pub index_count: u32,
    pub format_mask: u64,
    pub vertex_stride: usize,
    pub attribute_stride: usize,
    pub index_stride: usize,
    pub vertex_bytes: usize,
    pub attribute_bytes: usize,
    pub index_bytes: usize,
}

impl Clone for SurfaceClassKey {
    fn clone(&self) -> (k: Self)
        ensures
            k == *self,
    {
        SurfaceClassKey { ..*self }
    }
}

/// The names of the fields in which two surface classes differ, in declaration order.
pub open spec fn issues_spec(a: SurfaceClassKey, b: SurfaceClassKey) -> Seq<Seq<char>> {
    (if a.topology_class != b.topology_class { seq!["topology_class"@] } else { seq![] })
        + (if a.stitch_mask != b.stitch_mask { seq!["stitch_mask"@] } else { seq![] })
        + (if a.index_class != b.index_class { seq!["index_class"@] } else { seq![] })
        + (if a.material_class != b.material_class { seq!["material_class"@] } else { seq![] })
        + (if a.vertex_count != b.vertex_count { seq!["vertex_count"@] } else { seq![] })
        + (if a.index_count != b.index_count { seq!["index_count"@] } else { seq![] })
        + (if a.format_mask != b.format_mask { seq!["format_mask"@] } else { seq![] })
        + (if a.vertex_stride != b.vertex_stride { seq!["vertex_stride"@] } else { seq![] })
        + (if a.attribute_stride != b.attribute_stride { seq!["attribute_stride"@] } else { seq![] })
        + (if a.index_stride != b.index_stride { seq!["index_stride"@] } else { seq![] })
        + (if a.vertex_bytes != b.vertex_bytes { seq!["vertex_bytes"@] } else { seq![] })
        + (if a.attribute_bytes != b.attribute_bytes { seq!["attribute_bytes"@] } else { seq![] })
        + (if a.index_bytes != b.index_bytes { seq!["index_bytes"@] } else { seq![] })
}

/// The views of a list of names.
pub open spec fn names(v: Seq<&'static str>) -> Seq<Seq<char>> {
    v.map_values(|s: &'static str| s@)
}

fn push_issue(issues: &mut Vec<&'static str>, name: &'static str, differs: bool)
    ensures
        names(final(issues)@) == names(old(issues)@) + if differs { seq![name@] } else { seq![] },
{
    if differs {
        issues.push(name);
    }
    assert(names(issues@) =~= names(old(issues)@) + if differs { seq![name@] } else { seq![] });
}

impl SurfaceClassKey {
    /// A surface class whose region sizes are the strides times the vertex or index count,
    /// saturating at `usize::MAX`.
    pub open spec fn new_spec(
        topology_class: u16,
        stitch_mask: u8,
        index_class: u8,
        material_class: u8,
        vertex_count: u32,
        index_count: u32,
        format_mask: u64,
        vertex_stride: usize,
        attribute_stride: usize,
        index_stride: usize,
    ) -> SurfaceClassKey {
        SurfaceClassKey {
            topology_class,
            stitch_mask,
            index_class,
            material_class,
            vertex_count,
            index_count,
            format_mask,
            vertex_stride,
            attribute_stride,
            index_stride,
            vertex_bytes: saturating_mul_spec(vertex_stride, vertex_count as usize),
            attribute_bytes: saturating_mul_spec(attribute_stride, vertex_count as usize),
            index_bytes: saturating_mul_spec(index_stride, index_count as usize),
        }
    }

    pub fn new(
        topology_class: u16,
        stitch_mask: u8,
        index_class: u8,
        material_class: u8,
        vertex_count: u32,
        index_count: u32,
        format_mask: u64,
        vertex_stride: usize,
        attribute_stride: usize,
        index_stride: usize,
    ) -> (k: Self)
        ensures
            k == Self::new_spec(topology_class, stitch_mask, index_class, material_class, vertex_count,
                index_count, format_mask, vertex_stride, attribute_stride, index_stride),
    {
        SurfaceClassKey {
            topology_class,
            stitch_mask,
            index_class,
            material_class,
            vertex_count,
            index_count,
            format_mask,
            vertex_stride,
            attribute_stride,
            index_stride,
            vertex_bytes: saturating_mul_usize(vertex_stride, vertex_count as usize),
            attribute_bytes: saturating_mul_usize(attribute_stride, vertex_count as usize),
            index_bytes: saturating_mul_usize(index_stride, index_count as usize),
        }
    }

    /// The surface class of the canonical chunk mesh with the given stitch mask: the stitch
    /// mask doubles as the index class, and the counts are those of the canonical grid.
    pub fn canonical_chunk(
        stitch_mask: u8,
        material_class: u8,
        format_mask: u64,
        vertex_stride: usize,
        attribute_stride: usize,
        index_stride: usize,
    ) -> (r: Result<Self, StitchError>)
        ensures
            match r {
                Ok(k) => valid_mask(stitch_mask) && k == Self::new_spec(CANONICAL_TOPOLOGY_CLASS,
                    stitch_mask, stitch_mask, material_class, 1089,
                    variant_spec(stitch_mask).len() as u32, format_mask, vertex_stride,
                    attribute_stride, index_stride),
                Err(e) => !valid_mask(stitch_mask) && e == StitchError::InvalidStitchMask(stitch_mask),
            },
    {
        let topology = canonical_chunk_topology();
        let index_count = topology.index_count_for_mask(stitch_mask)?;
        Ok(Self::new(
            CANONICAL_TOPOLOGY_CLASS,
            stitch_mask,
            stitch_mask,
            material_class,
            topology.vertex_count(),
            index_count,
            format_mask,
            vertex_stride,
            attribute_stride,
            index_stride,
        ))
    }

    pub fn compatibility_issues(&self, other: &Self) -> (issues: Vec<&'static str>)
        ensures
            names(issues@) == issues_spec(*self, *other),
    {
        let mut issues: Vec<&'static str> = Vec::new();
        assert(names(issues@) =~= Seq::<Seq<char>>::empty());
        push_issue(&mut issues, "topology_class", self.topology_class != other.topology_class);
        push_issue(&mut issues, "stitch_mask", self.stitch_mask != other.stitch_mask);
        push_issue(&mut issues, "index_class", self.index_class != other.index_class);
        push_issue(&mut issues, "material_class", self.material_class != other.material_class);
        push_issue(&mut issues, "vertex_count", self.vertex_count != other.vertex_count);
        push_issue(&mut issues, "index_count", self.index_count != other.index_count);
        push_issue(&mut issues, "format_mask", self.format_mask != other.format_mask);
        push_issue(&mut issues, "vertex_stride", self.vertex_stride != other.vertex_stride);
        push_issue(&mut issues, "attribute_stride", self.attribute_stride != other.attribute_stride);
        push_issue(&mut issues, "index_stride", self.index_stride != other.index_stride);
        push_issue(&mut issues, "vertex_bytes", self.vertex_bytes != other.vertex_bytes);
        push_issue(&mut issues, "attribute_bytes", self.attribute_bytes != other.attribute_bytes);
        push_issue(&mut issues, "index_bytes", self.index_bytes != other.index_bytes);
        issues
    }

    pub fn is_pool_compatible_with(&self, other: &Self) -> (b: bool)
        ensures
            b == (issues_spec(*self, *other).len() == 0),
            b == (*self == *other),
    {
        let issues = self.compatibility_issues(other);
        proof {
            lemma_no_issues_iff_equal(*self, *other);
        }
        issues.len() == 0
    }
}

/// Two surface classes have no compatibility issue exactly when they are equal.
pub proof fn lemma_no_issues_iff_equal(a: SurfaceClassKey, b: SurfaceClassKey)
    ensures
        (issues_spec(a, b).len() == 0) == (a == b),
{
}

} // verus!
