use vstd::prelude::*;
use crate::chunk::Face;

verus! {

/// A vector with integer components. The cube's face frames are made of axis-aligned unit
/// vectors, so every quantity the face topology needs is exact in this form.
#[derive(Clone, Copy, Debug, PartialEq, Eq, Structural)]
pub struct IVec3 {
    pub x: i32,
    pub y: i32,
    pub z: i32,
}

/// Builds a vector from its components.
pub open spec fn ivec(x: i32, y: i32, z: i32) -> IVec3 {
    IVec3 { x, y, z }
}

impl IVec3 {
    /// Exactly one component is +1 or -1 and the others are 0.
    pub open spec fn is_axis_unit(self) -> bool {
        ||| (self.x == 1 || self.x == -1) && self.y == 0 && self.z == 0
        ||| self.x == 0 && (self.y == 1 || self.y == -1) && self.z == 0
        ||| self.x == 0 && self.y == 0 && (self.z == 1 || self.z == -1)
    }

    pub open spec fn neg_spec(self) -> IVec3 {
        IVec3 { x: (-self.x) as i32, y: (-self.y) as i32, z: (-self.z) as i32 }
    }

    pub open spec fn dot_spec(self, other: IVec3) -> int {
        self.x * other.x + self.y * other.y + self.z * other.z
    }

    pub fn neg(self) -> (r: IVec3)
        requires
            self.is_axis_unit(),
        ensures
            r == self.neg_spec(),
            r.is_axis_unit(),
    {
        IVec3 { x: -self.x, y: -self.y, z: -self.z }
    }
}

/// The right-handed frame of a cube face: outward normal `n` and in-face axes `u`, `v`.
#[derive(Clone, Copy, Debug, PartialEq, Eq, Structural)]
pub struct FaceBasis {
    pub n: IVec3,
    pub u: IVec3,
    pub v: IVec3,
}

/// The frame of each face.
pub open spec fn face_basis_spec(face: Face) -> FaceBasis {
    match face {
        Face::Px => FaceBasis { n: ivec(1i32, 0i32, 0i32), u: ivec(0i32, 0i32, -1i32), v: ivec(0i32, 1i32, 0i32) },
        Face::Nx => FaceBasis { n: ivec(-1i32, 0i32, 0i32), u: ivec(0i32, 0i32, 1i32), v: ivec(0i32, 1i32, 0i32) },
        Face::Py => FaceBasis { n: ivec(0i32, 1i32, 0i32), u: ivec(1i32, 0i32, 0i32), v: ivec(0i32, 0i32, -1i32) },
        Face::Ny => FaceBasis { n: ivec(0i32, -1i32, 0i32), u: ivec(1i32, 0i32, 0i32), v: ivec(0i32, 0i32, 1i32) },
        Face::Pz => FaceBasis { n: ivec(0i32, 0i32, 1i32), u: ivec(1i32, 0i32, 0i32), v: ivec(0i32, 1i32, 0i32) },
        Face::Nz => FaceBasis { n: ivec(0i32, 0i32, -1i32), u: ivec(-1i32, 0i32, 0i32), v: ivec(0i32, 1i32, 0i32) },
    }
}

/// The frame is right-handed: `u x v == n`.
pub open spec fn is_right_handed(b: FaceBasis) -> bool {
    &&& b.u.y * b.v.z - b.u.z * b.v.y == b.n.x
    &&& b.u.z * b.v.x - b.u.x * b.v.z == b.n.y
    &&& b.u.x * b.v.y - b.u.y * b.v.x == b.n.z
}

pub fn face_basis(face: Face) -> (b: FaceBasis)
    ensures
        b == face_basis_spec(face),
        b.n.is_axis_unit() && b.u.is_axis_unit() && b.v.is_axis_unit(),
{
    match face {
        Face::Px => FaceBasis {
            n: IVec3 { x: 1, y: 0, z: 0 },
            u: IVec3 { x: 0, y: 0, z: -1 },
            v: IVec3 { x: 0, y: 1, z: 0 },
        },
        Face::Nx => FaceBasis {
            n: IVec3 { x: -1, y: 0, z: 0 },
            u: IVec3 { x: 0, y: 0, z: 1 },
            v: IVec3 { x: 0, y: 1, z: 0 },
        },
        Face::Py => FaceBasis {
            n: IVec3 { x: 0, y: 1, z: 0 },
            u: IVec3 { x: 1, y: 0, z: 0 },
            v: IVec3 { x: 0, y: 0, z: -1 },
        },
        Face::Ny => FaceBasis {
            n: IVec3 { x: 0, y: -1, z: 0 },
            u: IVec3 { x: 1, y: 0, z: 0 },
            v: IVec3 { x: 0, y: 0, z: 1 },
        },
        Face::Pz => FaceBasis {
            n: IVec3 { x: 0, y: 0, z: 1 },
            u: IVec3 { x: 1, y: 0, z: 0 },
            v: IVec3 { x: 0, y: 1, z: 0 },
        },
        Face::Nz => FaceBasis {
            n: IVec3 { x: 0, y: 0, z: -1 },
            u: IVec3 { x: -1, y: 0, z: 0 },
            v: IVec3 { x: 0, y: 1, z: 0 },
        },
    }
}

/// Every face frame is orthonormal and right-handed (`u x v == n`), and distinct faces have
/// distinct normals.
pub proof fn lemma_face_bases_orthonormal_right_handed(face: Face, other: Face)
    ensures
        face_basis_spec(face).n.is_axis_unit(),
        face_basis_spec(face).u.is_axis_unit(),
        face_basis_spec(face).v.is_axis_unit(),
        face_basis_spec(face).n.dot_spec(face_basis_spec(face).u) == 0,
        face_basis_spec(face).n.dot_spec(face_basis_spec(face).v) == 0,
        face_basis_spec(face).u.dot_spec(face_basis_spec(face).v) == 0,
        is_right_handed(face_basis_spec(face)),
        face != other ==> face_basis_spec(face).n != face_basis_spec(other).n,
{
    match face {
        Face::Px => {
            let b = face_basis_spec(Face::Px);
            assert(b.u.dot_spec(b.v) == 0 && b.n.dot_spec(b.u) == 0 && b.n.dot_spec(b.v) == 0)
                by (nonlinear_arith)
                requires b == face_basis_spec(Face::Px);
            assert(is_right_handed(b)) by (nonlinear_arith)
                requires b == face_basis_spec(Face::Px);
        },
        Face::Nx => {
            let b = face_basis_spec(Face::Nx);
            assert(b.u.dot_spec(b.v) == 0 && b.n.dot_spec(b.u) == 0 && b.n.dot_spec(b.v) == 0)
                by (nonlinear_arith)
                requires b == face_basis_spec(Face::Nx);
            assert(is_right_handed(b)) by (nonlinear_arith)
                requires b == face_basis_spec(Face::Nx);
        },
        Face::Py => {
            let b = face_basis_spec(Face::Py);
            assert(b.u.dot_spec(b.v) == 0 && b.n.dot_spec(b.u) == 0 && b.n.dot_spec(b.v) == 0)
                by (nonlinear_arith)
                requires b == face_basis_spec(Face::Py);
            assert(is_right_handed(b)) by (nonlinear_arith)
                requires b == face_basis_spec(Face::Py);
        },
        Face::Ny => {
            let b = face_basis_spec(Face::Ny);
            assert(b.u.dot_spec(b.v) == 0 && b.n.dot_spec(b.u) == 0 && b.n.dot_spec(b.v) == 0)
                by (nonlinear_arith)
                requires b == face_basis_spec(Face::Ny);
            assert(is_right_handed(b)) by (nonlinear_arith)
                requires b == face_basis_spec(Face::Ny);
        },
        Face::Pz => {
            let b = face_basis_spec(Face::Pz);
            assert(b.u.dot_spec(b.v) == 0 && b.n.dot_spec(b.u) == 0 && b.n.dot_spec(b.v) == 0)
                by (nonlinear_arith)
                requires b == face_basis_spec(Face::Pz);
            assert(is_right_handed(b)) by (nonlinear_arith)
                requires b == face_basis_spec(Face::Pz);
        },
        Face::Nz => {
            let b = face_basis_spec(Face::Nz);
            assert(b.u.dot_spec(b.v) == 0 && b.n.dot_spec(b.u) == 0 && b.n.dot_spec(b.v) == 0)
                by (nonlinear_arith)
                requires b == face_basis_spec(Face::Nz);
            assert(is_right_handed(b)) by (nonlinear_arith)
                requires b == face_basis_spec(Face::Nz);
        },
    }
}

/// How a cube point is mapped onto the sphere.
#[derive(Clone, Copy, Debug, PartialEq, Eq, Structural)]
pub enum CubeProjection {
    Normalized,
    Spherified,
}

impl CubeProjection {
    /// The name of the projection in strategy summaries.
    pub open spec fn label_spec(self) -> Seq<char> {
        match self {
            CubeProjection::Normalized => "normalized_cube"@,
            CubeProjection::Spherified => "spherified_cube"@,
        }
    }

    pub fn label(&self) -> (s: &'static str)
        ensures
            s@ == self.label_spec(),
    {
        match self {
            CubeProjection::Normalized => "normalized_cube",
            CubeProjection::Spherified => "spherified_cube",
        }
    }
}

impl Default for CubeProjection {
    /// The projection used unless configured otherwise.
    fn default() -> (p: CubeProjection)
        ensures
            p == CubeProjection::Spherified,
    {
        CubeProjection::Spherified
    }
}

/// Why a chunk sample could not be produced.
#[derive(Clone, Copy, Debug, PartialEq, Eq, Structural)]
pub enum SampleError {
    InvalidChunkKey,
    SampleGridTooSmall,
    SampleOutOfRange,
}

} // verus!
