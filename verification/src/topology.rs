use vstd::prelude::*;
use crate::chunk::{lemma_resolution_fits, Face, Edge, ChunkKey, ChunkNeighbors, key, resolution_spec, opposite_edge_spec, edge_ordinal_spec, face_ordinal_spec};
use crate::geometry::{IVec3, face_basis, face_basis_spec, lemma_face_bases_orthonormal_right_handed};

verus! {

/// The default deepest level of the quadtree.
pub const DEFAULT_MAX_LOD: u8 = 10;
/// The deepest level the runtime supports.
pub const MAX_SUPPORTED_MAX_LOD: u8 = 16;
/// One transform per (face, edge) pair.
pub const DIRECTED_EDGE_TRANSFORM_COUNT: usize = 24;

/// How the edge of one face continues on the neighboring face: which face, which of its
/// edges, and whether the coordinate along the edge runs the other way there.
#[derive(Clone, Copy, Debug, PartialEq, Eq, Structural)]
pub struct EdgeTransform {
    pub neighbor_face: Face,
    pub neighbor_edge: Edge,
    pub flip: bool,
}

#[derive(Clone, Copy, Debug, PartialEq, Eq, Structural)]
pub enum TopologyError {
    InvalidChunkKey,
}

/// The direction in which `edge` leaves `face`.
pub open spec fn outward_spec(face: Face, edge: Edge) -> IVec3 {
    let b = face_basis_spec(face);
    match edge {
        Edge::NegU => b.u.neg_spec(),
        Edge::PosU => b.u,
        Edge::NegV => b.v.neg_spec(),
        Edge::PosV => b.v,
    }
}

/// The direction in which the coordinate along `edge` grows on `face`.
pub open spec fn along_spec(face: Face, edge: Edge) -> IVec3 {
    let b = face_basis_spec(face);
    match edge {
        Edge::NegU | Edge::PosU => b.v,
        Edge::NegV | Edge::PosV => b.u,
    }
}

/// `t` is how `edge` of `face` continues: the neighbor face is the one whose normal points
/// out of `edge`, the neighbor edge is the one of that face that points back along our
/// normal, and the edge coordinate flips exactly when the two faces run along the shared
/// cube edge in opposite directions.
pub open spec fn is_edge_transform(face: Face, edge: Edge, t: EdgeTransform) -> bool {
    &&& face_basis_spec(t.neighbor_face).n == outward_spec(face, edge)
    &&& outward_spec(t.neighbor_face, t.neighbor_edge) == face_basis_spec(face).n
    &&& t.flip == (along_spec(t.neighbor_face, t.neighbor_edge) == along_spec(face, edge).neg_spec())
}

/// The transform of `edge` of `face`.
pub open spec fn edge_transform_spec(face: Face, edge: Edge) -> EdgeTransform {
    choose|t: EdgeTransform| is_edge_transform(face, edge, t)
}

/// The face whose outward normal is the axis-unit vector `normal`.
pub open spec fn face_from_normal_spec(normal: IVec3) -> Face {
    if normal.x == 1 {
        Face::Px
    } else if normal.x == -1 {
        Face::Nx
    } else if normal.y == 1 {
        Face::Py
    } else if normal.y == -1 {
        Face::Ny
    } else if normal.z == 1 {
        Face::Pz
    } else {
        Face::Nz
    }
}

fn face_from_normal(normal: IVec3) -> (f: Face)
    requires
        normal.is_axis_unit(),
    ensures
        f == face_from_normal_spec(normal),
        face_basis_spec(f).n == normal,
{
    if normal.x == 1 {
        Face::Px
    } else if normal.x == -1 {
        Face::Nx
    } else if normal.y == 1 {
        Face::Py
    } else if normal.y == -1 {
        Face::Ny
    } else if normal.z == 1 {
        Face::Pz
    } else {
        Face::Nz
    }
}

/// `c * k` for a unit component `c` in {-1, 0, 1}, written without a product.
pub open spec fn unit_mul(c: int, k: int) -> int {
    if c == 0 {
        0
    } else if c == 1 {
        k
    } else {
        -k
    }
}

/// Dot product of a point with an axis-unit vector.
#[verifier::opaque]
pub open spec fn unit_dot(p: (int, int, int), b: IVec3) -> int {
    unit_mul(b.x as int, p.0) + unit_mul(b.y as int, p.1) + unit_mul(b.z as int, p.2)
}

fn dot(a: (i32, i32, i32), b: IVec3) -> (d: i32)
    requires
        -8 <= a.0 <= 8 && -8 <= a.1 <= 8 && -8 <= a.2 <= 8,
        b.is_axis_unit(),
    ensures
        d == unit_dot((a.0 as int, a.1 as int, a.2 as int), b),
        -24 <= d <= 24,
{
    reveal(unit_dot);
    let x = if b.x == 0 { 0 } else if b.x == 1 { a.0 } else { -a.0 };
    let y = if b.y == 0 { 0 } else if b.y == 1 { a.1 } else { -a.1 };
    let z = if b.z == 0 { 0 } else if b.z == 1 { a.2 } else { -a.2 };
    x + y + z
}

fn scaled(a: IVec3, k: i32) -> (r: (i32, i32, i32))
    requires
        a.is_axis_unit(),
        -2 <= k <= 2,
    ensures
        r.0 == unit_mul(a.x as int, k as int) && r.1 == unit_mul(a.y as int, k as int)
            && r.2 == unit_mul(a.z as int, k as int),
        -2 <= r.0 <= 2 && -2 <= r.1 <= 2 && -2 <= r.2 <= 2,
{
    let x = if a.x == 0 { 0 } else if a.x == 1 { k } else { -k };
    let y = if a.y == 0 { 0 } else if a.y == 1 { k } else { -k };
    let z = if a.z == 0 { 0 } else if a.z == 1 { k } else { -k };
    (x, y, z)
}

/// The doubled in-face coordinates `(s, t)` of the point at parameter `q4 / 4` along `edge`.
pub open spec fn edge_coords_spec(edge: Edge, q4: int) -> (int, int) {
    match edge {
        Edge::NegU => (-2int, q4 - 2),
        Edge::PosU => (2int, q4 - 2),
        Edge::NegV => (q4 - 2, -2int),
        Edge::PosV => (q4 - 2, 2int),
    }
}

/// The doubled cube point at parameter `q4 / 4` along `edge` of `face`.
#[verifier::opaque]
pub open spec fn edge_point_spec(face: Face, edge: Edge, q4: int) -> (int, int, int) {
    let b = face_basis_spec(face);
    let (s, t) = edge_coords_spec(edge, q4);
    (
        2 * b.n.x + unit_mul(b.u.x as int, s) + unit_mul(b.v.x as int, t),
        2 * b.n.y + unit_mul(b.u.y as int, s) + unit_mul(b.v.y as int, t),
        2 * b.n.z + unit_mul(b.u.z as int, s) + unit_mul(b.v.z as int, t),
    )
}

/// Which edge of a face holds the doubled face coordinates `(s2, t2)` of a point on its
/// border, and the point's parameter along that edge scaled by 4.
pub open spec fn border_edge_spec(s2: int, t2: int) -> (Edge, int) {
    if s2 == -2 {
        (Edge::NegU, t2 + 2)
    } else if s2 == 2 {
        (Edge::PosU, t2 + 2)
    } else if t2 == -2 {
        (Edge::NegV, s2 + 2)
    } else {
        (Edge::PosV, s2 + 2)
    }
}

/// Where the point at parameter `q4 / 4` along `edge` of `face` lands on the neighboring face:
/// the face, the edge of it that holds the point, and the point's parameter along that edge
/// scaled by 4.
pub open spec fn edge_param_spec(face: Face, edge: Edge, q4: int) -> (Face, Edge, int) {
    let g = face_from_normal_spec(outward_spec(face, edge));
    let gb = face_basis_spec(g);
    let p = edge_point_spec(face, edge, q4);
    let (e, param) = border_edge_spec(unit_dot(p, gb.u), unit_dot(p, gb.v));
    (g, e, param)
}

fn edge_coords(edge: Edge, q4: i32) -> (r: (i32, i32))
    requires
        q4 == 1 || q4 == 3,
    ensures
        (r.0 as int, r.1 as int) == edge_coords_spec(edge, q4 as int),
        -2 <= r.0 <= 2 && -2 <= r.1 <= 2,
{
    match edge {
        Edge::NegU => (-2i32, q4 - 2),
        Edge::PosU => (2i32, q4 - 2),
        Edge::NegV => (q4 - 2, -2i32),
        Edge::PosV => (q4 - 2, 2i32),
    }
}

fn outward(face: Face, edge: Edge) -> (o: IVec3)
    ensures
        o == outward_spec(face, edge),
        o.is_axis_unit(),
{
    let basis = face_basis(face);
    match edge {
        Edge::NegU => basis.u.neg(),
        Edge::PosU => basis.u,
        Edge::NegV => basis.v.neg(),
        Edge::PosV => basis.v,
    }
}

fn edge_point(face: Face, edge: Edge, q4: i32) -> (p: (i32, i32, i32))
    requires
        q4 == 1 || q4 == 3,
    ensures
        (p.0 as int, p.1 as int, p.2 as int) == edge_point_spec(face, edge, q4 as int),
        -6 <= p.0 <= 6 && -6 <= p.1 <= 6 && -6 <= p.2 <= 6,
{
    reveal(edge_point_spec);
    let basis = face_basis(face);
    let (s, t) = edge_coords(edge, q4);
    let n2 = scaled(basis.n, 2);
    let us = scaled(basis.u, s);
    let vt = scaled(basis.v, t);
    (n2.0 + us.0 + vt.0, n2.1 + us.1 + vt.1, n2.2 + us.2 + vt.2)
}

fn border_edge(s2: i32, t2: i32) -> (r: (Edge, i32))
    requires
        -24 <= s2 <= 24 && -24 <= t2 <= 24,
    ensures
        (r.0, r.1 as int) == border_edge_spec(s2 as int, t2 as int),
{
    if s2 == -2 {
        (Edge::NegU, t2 + 2)
    } else if s2 == 2 {
        (Edge::PosU, t2 + 2)
    } else if t2 == -2 {
        (Edge::NegV, s2 + 2)
    } else {
        (Edge::PosV, s2 + 2)
    }
}

/// Follows the point at parameter `q4 / 4` along `edge` of `face` onto the neighboring face.
/// All coordinates are doubled so that they stay integral.
fn edge_param_to_neighbor(face: Face, edge: Edge, q4: i32) -> (r: (Face, Edge, i32))
    requires
        q4 == 1 || q4 == 3,
    ensures
        (r.0, r.1, r.2 as int) == edge_param_spec(face, edge, q4 as int),
{
    let cube_point = edge_point(face, edge, q4);
    let neighbor_face = face_from_normal(outward(face, edge));
    let neighbor_basis = face_basis(neighbor_face);
    let s2 = dot(cube_point, neighbor_basis.u);
    let t2 = dot(cube_point, neighbor_basis.v);
    let (neighbor_edge, param) = border_edge(s2, t2);
    (neighbor_face, neighbor_edge, param)
}


/// The point at parameter `q4 / 4` along `edge` of `face` lands on the neighbor face whose
/// normal points out of `edge`, on the edge of that face pointing back along our normal, at the
/// same parameter when both faces run along the shared cube edge the same way and at the
/// mirrored parameter otherwise.
proof fn lemma_edge_param_geometry(face: Face, edge: Edge, q4: int)
    requires
        q4 == 1 || q4 == 3,
    ensures
        ({
            let r = edge_param_spec(face, edge, q4);
            &&& face_basis_spec(r.0).n == outward_spec(face, edge)
            &&& outward_spec(r.0, r.1) == face_basis_spec(face).n
            &&& (along_spec(r.0, r.1) == along_spec(face, edge)
                || along_spec(r.0, r.1) == along_spec(face, edge).neg_spec())
            &&& r.2 == if along_spec(r.0, r.1) == along_spec(face, edge) { q4 } else { 4 - q4 }
        }),
{
    reveal(edge_point_spec);
    reveal(unit_dot);
    match face {
        Face::Px => {},
        Face::Nx => {},
        Face::Py => {},
        Face::Ny => {},
        Face::Pz => {},
        Face::Nz => {},
    }
}


/// Distinct edges of a face leave it in distinct directions.
proof fn lemma_outward_injective(g: Face, e1: Edge, e2: Edge)
    ensures
        outward_spec(g, e1) == outward_spec(g, e2) ==> e1 == e2,
        along_spec(g, e1) != along_spec(g, e1).neg_spec(),
{
    match g {
        Face::Px => {},
        Face::Nx => {},
        Face::Py => {},
        Face::Ny => {},
        Face::Pz => {},
        Face::Nz => {},
    }
}

/// Each (face, edge) pair has exactly one transform.
proof fn lemma_edge_transform_unique(face: Face, edge: Edge, t1: EdgeTransform, t2: EdgeTransform)
    requires
        is_edge_transform(face, edge, t1),
        is_edge_transform(face, edge, t2),
    ensures
        t1 == t2,
{
    lemma_face_bases_orthonormal_right_handed(t1.neighbor_face, t2.neighbor_face);
    lemma_outward_injective(t1.neighbor_face, t1.neighbor_edge, t2.neighbor_edge);
}

/// Builds the transform of `edge` of `face` by following two points of the edge onto the
/// neighboring face.
fn build_edge_transform(face: Face, edge: Edge) -> (t: EdgeTransform)
    ensures
        is_edge_transform(face, edge, t),
{
    let (neighbor_face_0, neighbor_edge_0, q0) = edge_param_to_neighbor(face, edge, 1);
    let (neighbor_face_1, neighbor_edge_1, q1) = edge_param_to_neighbor(face, edge, 3);
    proof {
        lemma_edge_param_geometry(face, edge, 1);
        lemma_edge_param_geometry(face, edge, 3);
        lemma_outward_injective(neighbor_face_0, neighbor_edge_0, neighbor_edge_1);
        lemma_outward_injective(face, edge, edge);
        assert(neighbor_face_0 == neighbor_face_1);
        assert(neighbor_edge_0 == neighbor_edge_1);
    }
    EdgeTransform { neighbor_face: neighbor_face_0, neighbor_edge: neighbor_edge_0, flip: q1 < q0 }
}

/// How `edge` of `face` continues onto the neighboring face.
pub fn edge_transform(face: Face, edge: Edge) -> (t: EdgeTransform)
    ensures
        is_edge_transform(face, edge, t),
        t == edge_transform_spec(face, edge),
{
    let t = build_edge_transform(face, edge);
    proof {
        lemma_edge_transform_unique(face, edge, t, edge_transform_spec(face, edge));
    }
    t
}

/// Every edge leads to a different face, and following an edge and then the edge it leads to
/// returns to the starting face and edge with the same orientation.
pub proof fn lemma_edge_transform_round_trip(face: Face, edge: Edge)
    ensures
        edge_transform_spec(face, edge).neighbor_face != face,
        ({
            let t = edge_transform_spec(face, edge);
            edge_transform_spec(t.neighbor_face, t.neighbor_edge)
                == EdgeTransform { neighbor_face: face, neighbor_edge: edge, flip: t.flip }
        }),
{
    let (nf, ne, q) = edge_param_spec(face, edge, 1);
    lemma_edge_param_geometry(face, edge, 1);
    lemma_edge_param_geometry(face, edge, 3);
    lemma_outward_injective(nf, ne, edge_param_spec(face, edge, 3).1);
    lemma_outward_injective(face, edge, edge);
    let t = EdgeTransform { neighbor_face: nf, neighbor_edge: ne,
        flip: along_spec(nf, ne) == along_spec(face, edge).neg_spec() };
    assert(is_edge_transform(face, edge, t));
    lemma_edge_transform_unique(face, edge, t, edge_transform_spec(face, edge));
    let back = EdgeTransform { neighbor_face: face, neighbor_edge: edge, flip: t.flip };
    lemma_outward_injective(nf, ne, ne);
    assert(along_spec(face, edge) == along_spec(nf, ne).neg_spec() <==> along_spec(nf, ne) == along_spec(face, edge).neg_spec()) by {
        match face { Face::Px => {}, Face::Nx => {}, Face::Py => {}, Face::Ny => {}, Face::Pz => {}, Face::Nz => {} }
    }
    assert(is_edge_transform(nf, ne, back));
    lemma_edge_transform_unique(nf, ne, back, edge_transform_spec(nf, ne));
    assert(face_basis_spec(face).n != outward_spec(face, edge)) by {
        match face { Face::Px => {}, Face::Nx => {}, Face::Py => {}, Face::Ny => {}, Face::Pz => {}, Face::Nz => {} }
    }
}


/// The coordinate along `edge` of a chunk's position on its face.
pub open spec fn seam_param_spec(k: ChunkKey, edge: Edge) -> nat {
    match edge {
        Edge::NegU | Edge::PosU => k.y as nat,
        Edge::NegV | Edge::PosV => k.x as nat,
    }
}

/// The chunk's step across `edge` stays on its own face.
pub open spec fn is_interior_step(k: ChunkKey, edge: Edge) -> bool {
    let res = resolution_spec(k.lod as nat);
    match edge {
        Edge::NegU => k.x > 0,
        Edge::PosU => k.x + 1 < res,
        Edge::NegV => k.y > 0,
        Edge::PosV => k.y + 1 < res,
    }
}

/// The same-level neighbor of a valid chunk across `edge`: the adjacent chunk on the same
/// face, or, at a face border, the chunk of the neighboring face that touches the same stretch
/// of the shared cube edge.
pub open spec fn neighbor_spec(k: ChunkKey, edge: Edge) -> ChunkKey {
    let res = resolution_spec(k.lod as nat);
    if is_interior_step(k, edge) {
        match edge {
            Edge::NegU => key(k.face, k.lod as nat, (k.x - 1) as nat, k.y as nat),
            Edge::PosU => key(k.face, k.lod as nat, (k.x + 1) as nat, k.y as nat),
            Edge::NegV => key(k.face, k.lod as nat, k.x as nat, (k.y - 1) as nat),
            Edge::PosV => key(k.face, k.lod as nat, k.x as nat, (k.y + 1) as nat),
        }
    } else {
        let t = edge_transform_spec(k.face, edge);
        let seam = seam_param_spec(k, edge);
        let mapped: nat = if t.flip { (res - 1 - seam) as nat } else { seam };
        match t.neighbor_edge {
            Edge::NegU => key(t.neighbor_face, k.lod as nat, 0, mapped),
            Edge::PosU => key(t.neighbor_face, k.lod as nat, (res - 1) as nat, mapped),
            Edge::NegV => key(t.neighbor_face, k.lod as nat, mapped, 0),
            Edge::PosV => key(t.neighbor_face, k.lod as nat, mapped, (res - 1) as nat),
        }
    }
}

/// The same-level neighbor of `key` across `edge`.
pub fn same_lod_neighbor(key: ChunkKey, edge: Edge) -> (r: Result<ChunkKey, TopologyError>)
    ensures
        match r {
            Ok(n) => key.valid() && n == neighbor_spec(key, edge),
            Err(e) => !key.valid() && e == TopologyError::InvalidChunkKey,
        },
{
    if !key.is_valid_for_lod() {
        return Err(TopologyError::InvalidChunkKey);
    }
    let resolution = ChunkKey::resolution_for_lod(key.lod);
    match edge {
        Edge::NegU if key.x > 0 => Ok(ChunkKey::new(key.face, key.lod, key.x - 1, key.y)),
        Edge::PosU if key.x + 1 < resolution => Ok(ChunkKey::new(key.face, key.lod, key.x + 1, key.y)),
        Edge::NegV if key.y > 0 => Ok(ChunkKey::new(key.face, key.lod, key.x, key.y - 1)),
        Edge::PosV if key.y + 1 < resolution => Ok(ChunkKey::new(key.face, key.lod, key.x, key.y + 1)),
        _ => {
            let xform = edge_transform(key.face, edge);
            let seam_param = match edge {
                Edge::NegU | Edge::PosU => key.y,
                Edge::NegV | Edge::PosV => key.x,
            };
            let mapped_param = if xform.flip {
                (resolution - 1) - seam_param
            } else {
                seam_param
            };
            let (neighbor_x, neighbor_y) = match xform.neighbor_edge {
                Edge::NegU => (0, mapped_param),
                Edge::PosU => (resolution - 1, mapped_param),
                Edge::NegV => (mapped_param, 0),
                Edge::PosV => (mapped_param, resolution - 1),
            };
            Ok(ChunkKey::new(xform.neighbor_face, key.lod, neighbor_x, neighbor_y))
        },
    }
}

/// The four same-level neighbors of `key`, in `Edge::ALL` order.
pub fn same_lod_neighbors(key: ChunkKey) -> (r: Result<ChunkNeighbors, TopologyError>)
    ensures
        match r {
            Ok(n) => key.valid() && forall|i: int| 0 <= i < 4
                ==> #[trigger] n.same_lod@[i] == neighbor_spec(key, Edge::ALL@[i]),
            Err(e) => !key.valid() && e == TopologyError::InvalidChunkKey,
        },
{
    let neg_u = same_lod_neighbor(key, Edge::NegU)?;
    let pos_u = same_lod_neighbor(key, Edge::PosU)?;
    let neg_v = same_lod_neighbor(key, Edge::NegV)?;
    let pos_v = same_lod_neighbor(key, Edge::PosV)?;
    Ok(ChunkNeighbors::new([neg_u, pos_u, neg_v, pos_v]))
}


/// The edge through which the neighbor across `edge` sees the chunk again.
pub open spec fn reverse_edge_spec(k: ChunkKey, edge: Edge) -> Edge {
    if neighbor_spec(k, edge).face == k.face {
        opposite_edge_spec(edge)
    } else {
        edge_transform_spec(k.face, edge).neighbor_edge
    }
}

/// The neighbor of a valid chunk is a valid chunk of the same level, and stepping back across
/// the edge through which the neighbor sees the chunk returns to the chunk.
pub proof fn lemma_neighbor_round_trip(k: ChunkKey, edge: Edge)
    requires
        k.valid(),
    ensures
        neighbor_spec(k, edge).valid(),
        neighbor_spec(k, edge).lod == k.lod,
        neighbor_spec(neighbor_spec(k, edge), reverse_edge_spec(k, edge)) == k,
{
    let n = neighbor_spec(k, edge);
    let t = edge_transform_spec(k.face, edge);
    lemma_edge_transform_round_trip(k.face, edge);
    lemma_resolution_fits(k.lod as nat);
    if is_interior_step(k, edge) {
        assert(n.face == k.face);
        assert(n.lod == k.lod);
        assert(reverse_edge_spec(k, edge) == opposite_edge_spec(edge));
        match edge {
            Edge::NegU => { assert(n.x == k.x - 1); assert(n.y == k.y); },
            Edge::PosU => { assert(n.x == k.x + 1); assert(n.y == k.y); },
            Edge::NegV => { assert(n.y == k.y - 1); assert(n.x == k.x); },
            Edge::PosV => { assert(n.y == k.y + 1); assert(n.x == k.x); },
        }
        assert(is_interior_step(n, opposite_edge_spec(edge)));
    } else {
        assert(n.face == t.neighbor_face);
        assert(n.face != k.face);
        assert(!is_interior_step(n, t.neighbor_edge));
        assert(seam_param_spec(n, t.neighbor_edge) == (if t.flip {
            (resolution_spec(k.lod as nat) - 1 - seam_param_spec(k, edge)) as nat
        } else {
            seam_param_spec(k, edge)
        }));
    }
}

} // verus!
