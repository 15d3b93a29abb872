use vstd::prelude::*;
use crate::chunk::{Edge, edge_ordinal_spec};

verus! {

pub const CANONICAL_TOPOLOGY_CLASS: u16 = 1;
pub const QUADS_PER_EDGE: u32 = 32;
pub const VISIBLE_VERTICES_PER_EDGE: u32 = QUADS_PER_EDGE + 1;
pub const BORDER_RING_QUADS: u32 = 1;
pub const SAMPLED_VERTICES_PER_EDGE: u32 = VISIBLE_VERTICES_PER_EDGE + BORDER_RING_QUADS * 2;
pub const STITCH_VARIANT_COUNT: usize = 16;
pub const BASE_STITCH_MASK: u8 = 0;
pub const STITCH_MASK_ALL: u8 = 0b1111;

/// Why a stitch mask could not be used or derived.
#[derive(Clone, Copy, Debug, PartialEq, Eq, Structural)]
pub enum StitchError {
    InvalidStitchMask(u8),
    UnsupportedNeighborLodDelta { edge: Edge, chunk_lod: u8, neighbor_lod: u8 },
}

/// The bit of a stitch mask that marks `edge` as stitched to a coarser neighbor.
pub open spec fn stitch_bit_spec(edge: Edge) -> u8 {
    match edge {
        Edge::NegU => 1,
        Edge::PosU => 2,
        Edge::NegV => 4,
        Edge::PosV => 8,
    }
}

/// `edge` is stitched in `mask`.
pub open spec fn has_edge(mask: u8, edge: Edge) -> bool {
    mask & stitch_bit_spec(edge) != 0
}

/// A mask names only the four edges.
pub open spec fn valid_mask(mask: u8) -> bool {
    mask <= STITCH_MASK_ALL
}

pub fn stitch_mask_bit(edge: Edge) -> (b: u8)
    ensures
        b == stitch_bit_spec(edge),
{
    assert(1u8 << 0u8 == 1u8 && 1u8 << 1u8 == 2u8 && 1u8 << 2u8 == 4u8 && 1u8 << 3u8 == 8u8)
        by (bit_vector);
    match edge {
        Edge::NegU => 1 << 0u8,
        Edge::PosU => 1 << 1u8,
        Edge::NegV => 1 << 2u8,
        Edge::PosV => 1 << 3u8,
    }
}

pub fn validate_stitch_mask(stitch_mask: u8) -> (r: Result<(), StitchError>)
    ensures
        r is Ok <==> valid_mask(stitch_mask),
        r is Err ==> r == Err::<(), StitchError>(StitchError::InvalidStitchMask(stitch_mask)),
{
    assert((stitch_mask & !STITCH_MASK_ALL != 0) == (stitch_mask > 15)) by (bit_vector);
    if stitch_mask & !STITCH_MASK_ALL != 0 {
        Err(StitchError::InvalidStitchMask(stitch_mask))
    } else {
        Ok(())
    }
}

pub fn stitch_mask_contains(stitch_mask: u8, edge: Edge) -> (r: Result<bool, StitchError>)
    ensures
        match r {
            Ok(b) => valid_mask(stitch_mask) && b == has_edge(stitch_mask, edge),
            Err(e) => !valid_mask(stitch_mask) && e == StitchError::InvalidStitchMask(stitch_mask),
        },
{
    validate_stitch_mask(stitch_mask)?;
    Ok(stitch_mask & stitch_mask_bit(edge) != 0)
}

/// The edge is one level-of-detail step away at most, so a stitch mask can describe it.
pub open spec fn supported_delta(chunk_lod: u8, neighbor_lod: u8) -> bool {
    chunk_lod == neighbor_lod || chunk_lod == neighbor_lod + 1 || neighbor_lod == chunk_lod + 1
}

/// The mask bit contributed by one neighbor: set exactly when the neighbor is one level
/// coarser than the chunk.
pub open spec fn coarser_bit(chunk_lod: u8, neighbor_lod: u8, edge: Edge) -> int {
    if chunk_lod == neighbor_lod + 1 {
        stitch_bit_spec(edge) as int
    } else {
        0
    }
}

/// The stitch mask of a chunk whose four neighbors (in `Edge::ALL` order) sit at the given
/// levels: the edges toward a neighbor exactly one level coarser.
pub open spec fn fine_to_coarse_mask(chunk_lod: u8, lods: Seq<u8>) -> int {
    coarser_bit(chunk_lod, lods[0], Edge::NegU) + coarser_bit(chunk_lod, lods[1], Edge::PosU)
        + coarser_bit(chunk_lod, lods[2], Edge::NegV) + coarser_bit(chunk_lod, lods[3], Edge::PosV)
}

/// The first edge (in `Edge::ALL` order) whose neighbor is more than one level away.
pub open spec fn first_unsupported(chunk_lod: u8, lods: Seq<u8>) -> Option<int> {
    if !supported_delta(chunk_lod, lods[0]) {
        Some(0)
    } else if !supported_delta(chunk_lod, lods[1]) {
        Some(1)
    } else if !supported_delta(chunk_lod, lods[2]) {
        Some(2)
    } else if !supported_delta(chunk_lod, lods[3]) {
        Some(3)
    } else {
        None
    }
}

pub fn stitch_mask_from_neighbor_lods(chunk_lod: u8, neighbor_lods: [u8; 4]) -> (r: Result<u8, StitchError>)
    ensures
        match first_unsupported(chunk_lod, neighbor_lods@) {
            None => r == Ok::<u8, StitchError>(fine_to_coarse_mask(chunk_lod, neighbor_lods@) as u8)
                && fine_to_coarse_mask(chunk_lod, neighbor_lods@) <= 15,
            Some(i) => r == Err::<u8, StitchError>(StitchError::UnsupportedNeighborLodDelta {
                edge: Edge::ALL@[i],
                chunk_lod,
                neighbor_lod: neighbor_lods@[i],
            }),
        },
{
    let mut stitch_mask: u8 = BASE_STITCH_MASK;
    let mut i: usize = 0;
    while i < 4
        invariant
            0 <= i <= 4,
            forall|j: int| 0 <= j < i ==> supported_delta(chunk_lod, #[trigger] neighbor_lods@[j]),
            stitch_mask as int == (if i > 0 { coarser_bit(chunk_lod, neighbor_lods@[0], Edge::NegU) } else { 0 })
                + (if i > 1 { coarser_bit(chunk_lod, neighbor_lods@[1], Edge::PosU) } else { 0 })
                + (if i > 2 { coarser_bit(chunk_lod, neighbor_lods@[2], Edge::NegV) } else { 0 })
                + (if i > 3 { coarser_bit(chunk_lod, neighbor_lods@[3], Edge::PosV) } else { 0 }),
        decreases 4 - i,
    {
        let edge = Edge::ALL[i];
        let neighbor_lod = neighbor_lods[i];
        if chunk_lod == neighbor_lod {
        } else if chunk_lod > neighbor_lod && chunk_lod - neighbor_lod == 1 {
            let bit = stitch_mask_bit(edge);
            proof {
                let m = stitch_mask;
                assert(edge == Edge::ALL@[i as int]);
                if i == 0 {
                    assert(m == 0 ==> m | 1 == 1u8) by (bit_vector);
                } else if i == 1 {
                    assert(m < 2 ==> m | 2 == m + 2) by (bit_vector);
                } else if i == 2 {
                    assert(m < 4 ==> m | 4 == m + 4) by (bit_vector);
                } else {
                    assert(m < 8 ==> m | 8 == m + 8) by (bit_vector);
                }
            }
            stitch_mask |= bit;
        } else if neighbor_lod > chunk_lod && neighbor_lod - chunk_lod == 1 {
        } else {
            return Err(StitchError::UnsupportedNeighborLodDelta {
                edge,
                chunk_lod,
                neighbor_lod,
            });
        }
        i += 1;
    }
    Ok(stitch_mask)
}


/// The integer values of an index buffer.
pub open spec fn as_ints(s: Seq<i32>) -> Seq<int> {
    s.map_values(|v: i32| v as int)
}

/// Index of the visible vertex at grid point (x, y), row-major over 33 x 33 points.
pub open spec fn vidx(x: int, y: int) -> int {
    y * 33 + x
}

/// A full cell (x, y): two triangles over its four corners.
pub open spec fn base_cell_spec(x: int, y: int) -> Seq<int> {
    let a = vidx(x, y);
    let b = vidx(x + 1, y);
    let c = vidx(x, y + 1);
    let d = vidx(x + 1, y + 1);
    seq![a, d, c, a, b, d]
}

/// A 2 x 2 block at a corner where two stitched edges meet: a fan of four triangles around the
/// block's center that skips the odd vertices on its outer sides.
pub open spec fn corner_block_spec(x0: int, y0: int) -> Seq<int> {
    let a = vidx(x0, y0);
    let b = vidx(x0 + 2, y0);
    let c = vidx(x0 + 2, y0 + 2);
    let d = vidx(x0, y0 + 2);
    let center = vidx(x0 + 1, y0 + 1);
    seq![a, b, center, b, c, center, c, d, center, d, a, center]
}

/// Two border cells at position `p` along a stitched edge: three triangles that join the even
/// border vertices `p` and `p + 2` to the inner row of vertices, skipping the odd border vertex.
pub open spec fn stitch_pair_spec(edge: Edge, p: int) -> Seq<int> {
    match edge {
        Edge::NegU => {
            let (p0, i0, i1, p2, i2) = (vidx(0, p), vidx(1, p), vidx(1, p + 1), vidx(0, p + 2), vidx(1, p + 2));
            seq![p0, i0, i1, p0, i1, p2, p2, i1, i2]
        },
        Edge::PosU => {
            let (p0, i0, i1, p2, i2) = (vidx(32, p), vidx(31, p), vidx(31, p + 1), vidx(32, p + 2), vidx(31, p + 2));
            seq![p0, i1, i0, p0, p2, i1, p2, i2, i1]
        },
        Edge::NegV => {
            let (p0, i0, i1, p2, i2) = (vidx(p, 0), vidx(p, 1), vidx(p + 1, 1), vidx(p + 2, 0), vidx(p + 2, 1));
            seq![p0, i1, i0, p0, p2, i1, p2, i2, i1]
        },
        Edge::PosV => {
            let (p0, i0, i1, p2, i2) = (vidx(p, 32), vidx(p, 31), vidx(p + 1, 31), vidx(p + 2, 32), vidx(p + 2, 31));
            seq![p0, i0, i1, p0, i1, p2, p2, i1, i2]
        },
    }
}

/// The first `n` stitch pairs along `edge`, starting at position `start` and two cells apart.
pub open spec fn stripe_spec(edge: Edge, start: int, n: nat) -> Seq<int>
    decreases n,
{
    if n == 0 {
        seq![]
    } else {
        stripe_spec(edge, start, (n - 1) as nat) + stitch_pair_spec(edge, start + 2 * (n - 1))
    }
}

/// Where the stitch pairs of `edge` begin: after the corner block when the edge that crosses
/// it at its low end is stitched too.
pub open spec fn stripe_start(mask: u8, edge: Edge) -> int {
    match edge {
        Edge::NegU | Edge::PosU => if has_edge(mask, Edge::NegV) { 2 } else { 0 },
        Edge::NegV | Edge::PosV => if has_edge(mask, Edge::NegU) { 2 } else { 0 },
    }
}

/// Where the stitch pairs of `edge` end: before the corner block at its high end.
pub open spec fn stripe_end(mask: u8, edge: Edge) -> int {
    match edge {
        Edge::NegU | Edge::PosU => 32 - if has_edge(mask, Edge::PosV) { 2int } else { 0int },
        Edge::NegV | Edge::PosV => 32 - if has_edge(mask, Edge::PosU) { 2int } else { 0int },
    }
}

/// The stitch pairs along `edge`, or nothing when the edge is not stitched.
pub open spec fn stripe_of(mask: u8, edge: Edge) -> Seq<int> {
    if has_edge(mask, edge) {
        stripe_spec(edge, stripe_start(mask, edge), ((stripe_end(mask, edge) - stripe_start(mask, edge)) / 2) as nat)
    } else {
        seq![]
    }
}

/// The corner blocks of the mask, each where its two edges are both stitched.
pub open spec fn corners_spec(mask: u8) -> Seq<int> {
    let nu = has_edge(mask, Edge::NegU);
    let pu = has_edge(mask, Edge::PosU);
    let nv = has_edge(mask, Edge::NegV);
    let pv = has_edge(mask, Edge::PosV);
    (if nu && nv { corner_block_spec(0, 0) } else { seq![] })
        + (if pu && nv { corner_block_spec(30, 0) } else { seq![] })
        + (if nu && pv { corner_block_spec(0, 30) } else { seq![] })
        + (if pu && pv { corner_block_spec(30, 30) } else { seq![] })
}

/// Cell (x, y) lies in one of the first `k` corner blocks (in the order of `corners_spec`).
pub open spec fn corner_cell(mask: u8, k: int, x: int, y: int) -> bool {
    let nu = has_edge(mask, Edge::NegU);
    let pu = has_edge(mask, Edge::PosU);
    let nv = has_edge(mask, Edge::NegV);
    let pv = has_edge(mask, Edge::PosV);
    ||| k > 0 && nu && nv && 0 <= x < 2 && 0 <= y < 2
    ||| k > 1 && pu && nv && 30 <= x < 32 && 0 <= y < 2
    ||| k > 2 && nu && pv && 0 <= x < 2 && 30 <= y < 32
    ||| k > 3 && pu && pv && 30 <= x < 32 && 30 <= y < 32
}

/// Cell (x, y) lies on the border row of `edge` at a position in `[stripe_start, lim)`.
pub open spec fn stripe_cell(mask: u8, edge: Edge, lim: int, x: int, y: int) -> bool {
    &&& has_edge(mask, edge)
    &&& match edge {
        Edge::NegU => x == 0 && stripe_start(mask, edge) <= y < lim,
        Edge::PosU => x == 31 && stripe_start(mask, edge) <= y < lim,
        Edge::NegV => y == 0 && stripe_start(mask, edge) <= x < lim,
        Edge::PosV => y == 31 && stripe_start(mask, edge) <= x < lim,
    }
}

/// Cells taken by the first `k` corner blocks and the stitch pairs below the given limits.
pub open spec fn partial_cover(mask: u8, k: int, lnu: int, lpu: int, lnv: int, lpv: int, x: int, y: int) -> bool {
    ||| corner_cell(mask, k, x, y)
    ||| stripe_cell(mask, Edge::NegU, lnu, x, y)
    ||| stripe_cell(mask, Edge::PosU, lpu, x, y)
    ||| stripe_cell(mask, Edge::NegV, lnv, x, y)
    ||| stripe_cell(mask, Edge::PosV, lpv, x, y)
}

/// Cell (x, y) is triangulated by a corner block or a stitch pair rather than as a full cell.
pub open spec fn covered_spec(mask: u8, x: int, y: int) -> bool {
    partial_cover(mask, 4, stripe_end(mask, Edge::NegU), stripe_end(mask, Edge::PosU),
        stripe_end(mask, Edge::NegV), stripe_end(mask, Edge::PosV), x, y)
}

/// The full-cell triangles of the first `nx` cells of row `y`.
pub open spec fn row_spec(mask: u8, y: int, nx: nat) -> Seq<int>
    decreases nx,
{
    if nx == 0 {
        seq![]
    } else {
        let x = nx - 1;
        row_spec(mask, y, (nx - 1) as nat) + if covered_spec(mask, x, y) { seq![] } else { base_cell_spec(x, y) }
    }
}

/// The full-cell triangles of the first `ny` rows.
pub open spec fn rows_spec(mask: u8, ny: nat) -> Seq<int>
    decreases ny,
{
    if ny == 0 {
        seq![]
    } else {
        rows_spec(mask, (ny - 1) as nat) + row_spec(mask, ny - 1, 32)
    }
}

/// The index buffer of the chunk mesh variant for `mask`: the corner blocks, the stitch pairs
/// of each stitched edge, then every remaining cell as two triangles, row by row.
pub open spec fn variant_spec(mask: u8) -> Seq<int> {
    corners_spec(mask) + stripe_of(mask, Edge::NegU) + stripe_of(mask, Edge::PosU)
        + stripe_of(mask, Edge::NegV) + stripe_of(mask, Edge::PosV) + rows_spec(mask, 32)
}

/// Position of cell (x, y) in the coverage buffer.
pub open spec fn cell_index(x: int, y: int) -> int {
    y * 32 + x
}

fn vertex_index(x: u32, y: u32) -> (r: i32)
    requires
        x <= 32 && y <= 32,
    ensures
        r == vidx(x as int, y as int),
        0 <= r < 1089,
{
    (y * VISIBLE_VERTICES_PER_EDGE + x) as i32
}

fn push_triangle(indices: &mut Vec<i32>, a: i32, b: i32, c: i32)
    ensures
        final(indices)@ == old(indices)@ + seq![a, b, c],
        as_ints(final(indices)@) == as_ints(old(indices)@) + seq![a as int, b as int, c as int],
{
    indices.push(a);
    indices.push(b);
    indices.push(c);
    assert(indices@ =~= old(indices)@ + seq![a, b, c]);
    assert(as_ints(indices@) =~= as_ints(old(indices)@) + seq![a as int, b as int, c as int]);
}

fn cover_cell(covered: &mut Vec<bool>, x: u32, y: u32)
    requires
        old(covered)@.len() == 1024,
        x < 32 && y < 32,
    ensures
        final(covered)@ == old(covered)@.update(cell_index(x as int, y as int), true),
        forall|cx: int, cy: int| 0 <= cx < 32 && 0 <= cy < 32 ==>
            #[trigger] final(covered)@[cell_index(cx, cy)]
                == (old(covered)@[cell_index(cx, cy)] || (cx == x && cy == y)),
{
    let index = (y * QUADS_PER_EDGE + x) as usize;
    covered.set(index, true);
}

fn is_covered(covered: &Vec<bool>, x: u32, y: u32) -> (b: bool)
    requires
        covered@.len() == 1024,
        x < 32 && y < 32,
    ensures
        b == covered@[cell_index(x as int, y as int)],
{
    covered[(y * QUADS_PER_EDGE + x) as usize]
}

fn add_base_cell(indices: &mut Vec<i32>, x: u32, y: u32)
    requires
        x < 32 && y < 32,
    ensures
        as_ints(final(indices)@) == as_ints(old(indices)@) + base_cell_spec(x as int, y as int),
{
    let a = vertex_index(x, y);
    let b = vertex_index(x + 1, y);
    let c = vertex_index(x, y + 1);
    let d = vertex_index(x + 1, y + 1);
    push_triangle(indices, a, d, c);
    push_triangle(indices, a, b, d);
    assert(as_ints(indices@) =~= as_ints(old(indices)@) + base_cell_spec(x as int, y as int));
}


/// The coverage buffer records exactly the cells of the first `k` corner blocks and of the
/// stitch pairs below the given limits.
pub open spec fn coverage_is(covered: Seq<bool>, mask: u8, k: int, lnu: int, lpu: int, lnv: int, lpv: int) -> bool {
    &&& covered.len() == 1024
    &&& forall|x: int, y: int| 0 <= x < 32 && 0 <= y < 32 ==>
        #[trigger] covered[cell_index(x, y)] == partial_cover(mask, k, lnu, lpu, lnv, lpv, x, y)
}

fn add_corner_block(indices: &mut Vec<i32>, covered: &mut Vec<bool>, x0: u32, y0: u32)
    requires
        old(covered)@.len() == 1024,
        x0 <= 30 && y0 <= 30,
    ensures
        as_ints(final(indices)@) == as_ints(old(indices)@) + corner_block_spec(x0 as int, y0 as int),
        final(covered)@.len() == 1024,
        forall|cx: int, cy: int| 0 <= cx < 32 && 0 <= cy < 32 ==>
            #[trigger] final(covered)@[cell_index(cx, cy)] == (old(covered)@[cell_index(cx, cy)]
                || (x0 <= cx < x0 + 2 && y0 <= cy < y0 + 2)),
{
    let a = vertex_index(x0, y0);
    let b = vertex_index(x0 + 2, y0);
    let c = vertex_index(x0 + 2, y0 + 2);
    let d = vertex_index(x0, y0 + 2);
    let center = vertex_index(x0 + 1, y0 + 1);
    push_triangle(indices, a, b, center);
    push_triangle(indices, b, c, center);
    push_triangle(indices, c, d, center);
    push_triangle(indices, d, a, center);
    assert(as_ints(indices@) =~= as_ints(old(indices)@) + corner_block_spec(x0 as int, y0 as int));
    cover_cell(covered, x0, y0);
    cover_cell(covered, x0 + 1, y0);
    cover_cell(covered, x0, y0 + 1);
    cover_cell(covered, x0 + 1, y0 + 1);
}

fn add_neg_u_stitch_pair(indices: &mut Vec<i32>, covered: &mut Vec<bool>, y: u32)
    requires
        old(covered)@.len() == 1024,
        y <= 30,
    ensures
        as_ints(final(indices)@) == as_ints(old(indices)@) + stitch_pair_spec(Edge::NegU, y as int),
        final(covered)@.len() == 1024,
        forall|cx: int, cy: int| 0 <= cx < 32 && 0 <= cy < 32 ==>
            #[trigger] final(covered)@[cell_index(cx, cy)] == (old(covered)@[cell_index(cx, cy)]
                || (cx == 0 && y <= cy < y + 2)),
{
    let p0 = vertex_index(0, y);
    let i0 = vertex_index(1, y);
    let i1 = vertex_index(1, y + 1);
    let p2 = vertex_index(0, y + 2);
    let i2 = vertex_index(1, y + 2);
    push_triangle(indices, p0, i0, i1);
    push_triangle(indices, p0, i1, p2);
    push_triangle(indices, p2, i1, i2);
    assert(as_ints(indices@) =~= as_ints(old(indices)@) + stitch_pair_spec(Edge::NegU, y as int));
    cover_cell(covered, 0, y);
    cover_cell(covered, 0, y + 1);
}

fn add_pos_u_stitch_pair(indices: &mut Vec<i32>, covered: &mut Vec<bool>, y: u32)
    requires
        old(covered)@.len() == 1024,
        y <= 30,
    ensures
        as_ints(final(indices)@) == as_ints(old(indices)@) + stitch_pair_spec(Edge::PosU, y as int),
        final(covered)@.len() == 1024,
        forall|cx: int, cy: int| 0 <= cx < 32 && 0 <= cy < 32 ==>
            #[trigger] final(covered)@[cell_index(cx, cy)] == (old(covered)@[cell_index(cx, cy)]
                || (cx == 31 && y <= cy < y + 2)),
{
    let x = QUADS_PER_EDGE - 1;
    let p0 = vertex_index(x + 1, y);
    let i0 = vertex_index(x, y);
    let i1 = vertex_index(x, y + 1);
    let p2 = vertex_index(x + 1, y + 2);
    let i2 = vertex_index(x, y + 2);
    push_triangle(indices, p0, i1, i0);
    push_triangle(indices, p0, p2, i1);
    push_triangle(indices, p2, i2, i1);
    assert(as_ints(indices@) =~= as_ints(old(indices)@) + stitch_pair_spec(Edge::PosU, y as int));
    cover_cell(covered, x, y);
    cover_cell(covered, x, y + 1);
}

fn add_neg_v_stitch_pair(indices: &mut Vec<i32>, covered: &mut Vec<bool>, x: u32)
    requires
        old(covered)@.len() == 1024,
        x <= 30,
    ensures
        as_ints(final(indices)@) == as_ints(old(indices)@) + stitch_pair_spec(Edge::NegV, x as int),
        final(covered)@.len() == 1024,
        forall|cx: int, cy: int| 0 <= cx < 32 && 0 <= cy < 32 ==>
            #[trigger] final(covered)@[cell_index(cx, cy)] == (old(covered)@[cell_index(cx, cy)]
                || (cy == 0 && x <= cx < x + 2)),
{
    let p0 = vertex_index(x, 0);
    let i0 = vertex_index(x, 1);
    let i1 = vertex_index(x + 1, 1);
    let p2 = vertex_index(x + 2, 0);
    let i2 = vertex_index(x + 2, 1);
    push_triangle(indices, p0, i1, i0);
    push_triangle(indices, p0, p2, i1);
    push_triangle(indices, p2, i2, i1);
    assert(as_ints(indices@) =~= as_ints(old(indices)@) + stitch_pair_spec(Edge::NegV, x as int));
    cover_cell(covered, x, 0);
    cover_cell(covered, x + 1, 0);
}

fn add_pos_v_stitch_pair(indices: &mut Vec<i32>, covered: &mut Vec<bool>, x: u32)
    requires
        old(covered)@.len() == 1024,
        x <= 30,
    ensures
        as_ints(final(indices)@) == as_ints(old(indices)@) + stitch_pair_spec(Edge::PosV, x as int),
        final(covered)@.len() == 1024,
        forall|cx: int, cy: int| 0 <= cx < 32 && 0 <= cy < 32 ==>
            #[trigger] final(covered)@[cell_index(cx, cy)] == (old(covered)@[cell_index(cx, cy)]
                || (cy == 31 && x <= cx < x + 2)),
{
    let y = QUADS_PER_EDGE - 1;
    let p0 = vertex_index(x, y + 1);
    let i0 = vertex_index(x, y);
    let i1 = vertex_index(x + 1, y);
    let p2 = vertex_index(x + 2, y + 1);
    let i2 = vertex_index(x + 2, y);
    push_triangle(indices, p0, i0, i1);
    push_triangle(indices, p0, i1, p2);
    push_triangle(indices, p2, i1, i2);
    assert(as_ints(indices@) =~= as_ints(old(indices)@) + stitch_pair_spec(Edge::PosV, x as int));
    cover_cell(covered, x, y);
    cover_cell(covered, x + 1, y);
}


/// The number of one bits of a byte.
pub open spec fn ones_in_byte(v: u8) -> nat {
    (v % 2) as nat + (v / 2 % 2) as nat + (v / 4 % 2) as nat + (v / 8 % 2) as nat
        + (v / 16 % 2) as nat + (v / 32 % 2) as nat + (v / 64 % 2) as nat + (v / 128 % 2) as nat
}

/// The number of one bits in the byte.
fn count_ones_u8(value: u8) -> (r: u32)
    ensures
        r == ones_in_byte(value),
{
    (value % 2) as u32 + (value / 2 % 2) as u32 + (value / 4 % 2) as u32 + (value / 8 % 2) as u32
        + (value / 16 % 2) as u32 + (value / 32 % 2) as u32 + (value / 64 % 2) as u32 + (value / 128 % 2) as u32
}

/// The index count of the full grid less 48 for each stitched edge: the capacity to reserve
/// for the variant's index buffer.
fn base_index_count_hint(stitch_mask: u8) -> (n: usize)
    ensures
        n == QUADS_PER_EDGE * QUADS_PER_EDGE * 6 - ones_in_byte(stitch_mask) * 48,
{
    let base_indices = (QUADS_PER_EDGE * QUADS_PER_EDGE * 6) as usize;
    let stitched_edges = count_ones_u8(stitch_mask) as usize;
    base_indices.saturating_sub(stitched_edges * 48)
}

/// Builds the index buffer of the chunk mesh variant for `stitch_mask`.
fn build_variant_indices(stitch_mask: u8) -> (r: Result<Vec<i32>, StitchError>)
    ensures
        match r {
            Ok(v) => valid_mask(stitch_mask) && as_ints(v@) == variant_spec(stitch_mask),
            Err(e) => !valid_mask(stitch_mask) && e == StitchError::InvalidStitchMask(stitch_mask),
        },
{
    validate_stitch_mask(stitch_mask)?;
    let stitch_neg_u = stitch_mask_contains(stitch_mask, Edge::NegU)?;
    let stitch_pos_u = stitch_mask_contains(stitch_mask, Edge::PosU)?;
    let stitch_neg_v = stitch_mask_contains(stitch_mask, Edge::NegV)?;
    let stitch_pos_v = stitch_mask_contains(stitch_mask, Edge::PosV)?;
    let ghost mask = stitch_mask;
    let ghost s_nu = stripe_start(mask, Edge::NegU);
    let ghost s_pu = stripe_start(mask, Edge::PosU);
    let ghost s_nv = stripe_start(mask, Edge::NegV);
    let ghost s_pv = stripe_start(mask, Edge::PosV);
    let ghost e_nu = stripe_end(mask, Edge::NegU);
    let ghost e_pu = stripe_end(mask, Edge::PosU);
    let ghost e_nv = stripe_end(mask, Edge::NegV);

    let mut covered = vec![false; (QUADS_PER_EDGE * QUADS_PER_EDGE) as usize];
    let mut indices: Vec<i32> = Vec::with_capacity(base_index_count_hint(stitch_mask));
    assert(as_ints(indices@) =~= seq![]);
    assert(coverage_is(covered@, mask, 0, s_nu, s_pu, s_nv, s_pv));

    if stitch_neg_u && stitch_neg_v {
        add_corner_block(&mut indices, &mut covered, 0, 0);
    }
    assert(coverage_is(covered@, mask, 1, s_nu, s_pu, s_nv, s_pv));
    if stitch_pos_u && stitch_neg_v {
        add_corner_block(&mut indices, &mut covered, QUADS_PER_EDGE - 2, 0);
    }
    assert(coverage_is(covered@, mask, 2, s_nu, s_pu, s_nv, s_pv));
    if stitch_neg_u && stitch_pos_v {
        add_corner_block(&mut indices, &mut covered, 0, QUADS_PER_EDGE - 2);
    }
    assert(coverage_is(covered@, mask, 3, s_nu, s_pu, s_nv, s_pv));
    if stitch_pos_u && stitch_pos_v {
        add_corner_block(&mut indices, &mut covered, QUADS_PER_EDGE - 2, QUADS_PER_EDGE - 2);
    }
    assert(coverage_is(covered@, mask, 4, s_nu, s_pu, s_nv, s_pv));
    assert(as_ints(indices@) =~= corners_spec(mask));

    if stitch_neg_u {
        let start_y: u32 = if stitch_neg_v { 2 } else { 0 };
        let end_y: u32 = QUADS_PER_EDGE - if stitch_pos_v { 2 } else { 0 };
        let mut y = start_y;
        while y < end_y
            invariant
                stitch_neg_u == has_edge(mask, Edge::NegU),
                has_edge(mask, Edge::NegU),
                start_y == s_nu && end_y == e_nu,
                start_y <= y <= end_y,
                (y - start_y) % 2 == 0,
                end_y <= 32,
                (end_y - start_y) % 2 == 0,
                as_ints(indices@) == corners_spec(mask)
                    + stripe_spec(Edge::NegU, start_y as int, ((y - start_y) / 2) as nat),
                coverage_is(covered@, mask, 4, y as int, s_pu, s_nv, s_pv),
            decreases end_y - y,
        {
            add_neg_u_stitch_pair(&mut indices, &mut covered, y);
            assert(stripe_spec(Edge::NegU, start_y as int, ((y + 2 - start_y) / 2) as nat)
                =~= stripe_spec(Edge::NegU, start_y as int, ((y - start_y) / 2) as nat)
                    + stitch_pair_spec(Edge::NegU, y as int));
            y += 2;
        }
    }
    assert(as_ints(indices@) =~= corners_spec(mask) + stripe_of(mask, Edge::NegU));
    assert(coverage_is(covered@, mask, 4, e_nu, s_pu, s_nv, s_pv));
    let ghost prefix = corners_spec(mask) + stripe_of(mask, Edge::NegU);

    if stitch_pos_u {
        let start_y: u32 = if stitch_neg_v { 2 } else { 0 };
        let end_y: u32 = QUADS_PER_EDGE - if stitch_pos_v { 2 } else { 0 };
        let mut y = start_y;
        while y < end_y
            invariant
                stitch_pos_u == has_edge(mask, Edge::PosU),
                has_edge(mask, Edge::PosU),
                start_y == s_pu && end_y == e_pu,
                start_y <= y <= end_y,
                (y - start_y) % 2 == 0,
                end_y <= 32,
                (end_y - start_y) % 2 == 0,
                as_ints(indices@) == prefix
                    + stripe_spec(Edge::PosU, start_y as int, ((y - start_y) / 2) as nat),
                coverage_is(covered@, mask, 4, e_nu, y as int, s_nv, s_pv),
            decreases end_y - y,
        {
            add_pos_u_stitch_pair(&mut indices, &mut covered, y);
            assert(stripe_spec(Edge::PosU, start_y as int, ((y + 2 - start_y) / 2) as nat)
                =~= stripe_spec(Edge::PosU, start_y as int, ((y - start_y) / 2) as nat)
                    + stitch_pair_spec(Edge::PosU, y as int));
            y += 2;
        }
    }
    assert(as_ints(indices@) =~= prefix + stripe_of(mask, Edge::PosU));
    assert(coverage_is(covered@, mask, 4, e_nu, e_pu, s_nv, s_pv));
    let ghost prefix = prefix + stripe_of(mask, Edge::PosU);

    if stitch_neg_v {
        let start_x: u32 = if stitch_neg_u { 2 } else { 0 };
        let end_x: u32 = QUADS_PER_EDGE - if stitch_pos_u { 2 } else { 0 };
        let mut x = start_x;
        while x < end_x
            invariant
                stitch_neg_v == has_edge(mask, Edge::NegV),
                has_edge(mask, Edge::NegV),
                start_x == s_nv && end_x == e_nv,
                start_x <= x <= end_x,
                (x - start_x) % 2 == 0,
                end_x <= 32,
                (end_x - start_x) % 2 == 0,
                as_ints(indices@) == prefix
                    + stripe_spec(Edge::NegV, start_x as int, ((x - start_x) / 2) as nat),
                coverage_is(covered@, mask, 4, e_nu, e_pu, x as int, s_pv),
            decreases end_x - x,
        {
            add_neg_v_stitch_pair(&mut indices, &mut covered, x);
            assert(stripe_spec(Edge::NegV, start_x as int, ((x + 2 - start_x) / 2) as nat)
                =~= stripe_spec(Edge::NegV, start_x as int, ((x - start_x) / 2) as nat)
                    + stitch_pair_spec(Edge::NegV, x as int));
            x += 2;
        }
    }
    assert(as_ints(indices@) =~= prefix + stripe_of(mask, Edge::NegV));
    assert(coverage_is(covered@, mask, 4, e_nu, e_pu, e_nv, s_pv));
    let ghost prefix = prefix + stripe_of(mask, Edge::NegV);

    if stitch_pos_v {
        let start_x: u32 = if stitch_neg_u { 2 } else { 0 };
        let end_x: u32 = QUADS_PER_EDGE - if stitch_pos_u { 2 } else { 0 };
        let mut x = start_x;
        while x < end_x
            invariant
                stitch_pos_v == has_edge(mask, Edge::PosV),
                has_edge(mask, Edge::PosV),
                start_x == s_pv && end_x == stripe_end(mask, Edge::PosV),
                start_x <= x <= end_x,
                (x - start_x) % 2 == 0,
                end_x <= 32,
                (end_x - start_x) % 2 == 0,
                as_ints(indices@) == prefix
                    + stripe_spec(Edge::PosV, start_x as int, ((x - start_x) / 2) as nat),
                coverage_is(covered@, mask, 4, e_nu, e_pu, e_nv, x as int),
            decreases end_x - x,
        {
            add_pos_v_stitch_pair(&mut indices, &mut covered, x);
            assert(stripe_spec(Edge::PosV, start_x as int, ((x + 2 - start_x) / 2) as nat)
                =~= stripe_spec(Edge::PosV, start_x as int, ((x - start_x) / 2) as nat)
                    + stitch_pair_spec(Edge::PosV, x as int));
            x += 2;
        }
    }
    assert(as_ints(indices@) =~= prefix + stripe_of(mask, Edge::PosV));
    assert(coverage_is(covered@, mask, 4, e_nu, e_pu, e_nv, stripe_end(mask, Edge::PosV)));
    let ghost prefix = prefix + stripe_of(mask, Edge::PosV);
    assert(as_ints(indices@) =~= prefix + rows_spec(mask, 0));

    let mut y: u32 = 0;
    while y < QUADS_PER_EDGE
        invariant
            0 <= y <= 32,
            as_ints(indices@) == prefix + rows_spec(mask, y as nat),
            covered@.len() == 1024,
            forall|cx: int, cy: int| 0 <= cx < 32 && y <= cy < 32 ==>
                #[trigger] covered@[cell_index(cx, cy)] == covered_spec(mask, cx, cy),
        decreases 32 - y,
    {
        let mut x: u32 = 0;
        assert(as_ints(indices@) =~= prefix + rows_spec(mask, y as nat) + row_spec(mask, y as int, 0));
        while x < QUADS_PER_EDGE
            invariant
                0 <= x <= 32,
                y < 32,
                as_ints(indices@) == prefix + rows_spec(mask, y as nat) + row_spec(mask, y as int, x as nat),
                covered@.len() == 1024,
                forall|cx: int, cy: int| 0 <= cx < 32 && y <= cy < 32 && (cy > y || cx >= x) ==>
                    #[trigger] covered@[cell_index(cx, cy)] == covered_spec(mask, cx, cy),
            decreases 32 - x,
        {
            if !is_covered(&covered, x, y) {
                add_base_cell(&mut indices, x, y);
                cover_cell(&mut covered, x, y);
            }
            assert(as_ints(indices@) =~= prefix + rows_spec(mask, y as nat) + row_spec(mask, y as int, (x + 1) as nat));
            x += 1;
        }
        assert(as_ints(indices@) =~= prefix + rows_spec(mask, (y + 1) as nat));
        y += 1;
    }
    assert(as_ints(indices@) =~= variant_spec(mask));
    Ok(indices)
}


/// Every entry of `s` is a vertex of the visible grid, and `s` is a whole number of triangles.
pub open spec fn well_formed_indices(s: Seq<int>) -> bool {
    &&& s.len() % 3 == 0
    &&& forall|i: int| 0 <= i < s.len() ==> 0 <= #[trigger] s[i] < 1089
}

proof fn lemma_concat_well_formed(a: Seq<int>, b: Seq<int>)
    requires
        well_formed_indices(a),
        well_formed_indices(b),
    ensures
        well_formed_indices(a + b),
{
    assert forall|i: int| 0 <= i < (a + b).len() implies 0 <= #[trigger] (a + b)[i] < 1089 by {
        if i < a.len() {
            assert((a + b)[i] == a[i]);
        } else {
            assert((a + b)[i] == b[i - a.len()]);
        }
    }
}

proof fn lemma_stripe_well_formed(edge: Edge, start: int, n: nat)
    requires
        0 <= start,
        start + 2 * n <= 32,
    ensures
        well_formed_indices(stripe_spec(edge, start, n)),
        stripe_spec(edge, start, n).len() == 9 * n,
    decreases n,
{
    if n > 0 {
        lemma_stripe_well_formed(edge, start, (n - 1) as nat);
        lemma_concat_well_formed(stripe_spec(edge, start, (n - 1) as nat), stitch_pair_spec(edge, start + 2 * (n - 1)));
    }
}

proof fn lemma_row_well_formed(mask: u8, y: int, nx: nat)
    requires
        0 <= y < 32,
        nx <= 32,
    ensures
        well_formed_indices(row_spec(mask, y, nx)),
        row_spec(mask, y, nx).len() <= 6 * nx,
    decreases nx,
{
    if nx > 0 {
        lemma_row_well_formed(mask, y, (nx - 1) as nat);
        let x = nx - 1;
        let cell = if covered_spec(mask, x, y) { seq![] } else { base_cell_spec(x, y) };
        lemma_concat_well_formed(row_spec(mask, y, (nx - 1) as nat), cell);
    }
}

proof fn lemma_rows_well_formed(mask: u8, ny: nat)
    requires
        ny <= 32,
    ensures
        well_formed_indices(rows_spec(mask, ny)),
        rows_spec(mask, ny).len() <= 192 * ny,
    decreases ny,
{
    if ny > 0 {
        lemma_rows_well_formed(mask, (ny - 1) as nat);
        lemma_row_well_formed(mask, ny - 1, 32);
        lemma_concat_well_formed(rows_spec(mask, (ny - 1) as nat), row_spec(mask, ny - 1, 32));
    }
}

/// Every mesh variant is a list of whole triangles over the 33 x 33 visible vertices, with at
/// most 6768 indices.
pub proof fn lemma_variant_well_formed(mask: u8)
    ensures
        well_formed_indices(variant_spec(mask)),
        variant_spec(mask).len() <= 6768,
{
    let nu = has_edge(mask, Edge::NegU);
    let pu = has_edge(mask, Edge::PosU);
    let nv = has_edge(mask, Edge::NegV);
    let pv = has_edge(mask, Edge::PosV);
    let empty = Seq::<int>::empty();
    let c1 = if nu && nv { corner_block_spec(0, 0) } else { empty };
    let c2 = if pu && nv { corner_block_spec(30, 0) } else { empty };
    let c3 = if nu && pv { corner_block_spec(0, 30) } else { empty };
    let c4 = if pu && pv { corner_block_spec(30, 30) } else { empty };
    lemma_concat_well_formed(c1, c2);
    lemma_concat_well_formed(c1 + c2, c3);
    lemma_concat_well_formed(c1 + c2 + c3, c4);
    assert(corners_spec(mask) == c1 + c2 + c3 + c4);
    for_each_stripe(mask);
    lemma_concat_well_formed(corners_spec(mask), stripe_of(mask, Edge::NegU));
    lemma_concat_well_formed(corners_spec(mask) + stripe_of(mask, Edge::NegU), stripe_of(mask, Edge::PosU));
    lemma_concat_well_formed(corners_spec(mask) + stripe_of(mask, Edge::NegU) + stripe_of(mask, Edge::PosU),
        stripe_of(mask, Edge::NegV));
    lemma_concat_well_formed(corners_spec(mask) + stripe_of(mask, Edge::NegU) + stripe_of(mask, Edge::PosU)
        + stripe_of(mask, Edge::NegV), stripe_of(mask, Edge::PosV));
    lemma_rows_well_formed(mask, 32);
    lemma_concat_well_formed(corners_spec(mask) + stripe_of(mask, Edge::NegU) + stripe_of(mask, Edge::PosU)
        + stripe_of(mask, Edge::NegV) + stripe_of(mask, Edge::PosV), rows_spec(mask, 32));
}

proof fn for_each_stripe(mask: u8)
    ensures
        forall|e: Edge| #![trigger stripe_of(mask, e)]
            well_formed_indices(stripe_of(mask, e)) && stripe_of(mask, e).len() <= 144,
{
    assert forall|e: Edge| #![trigger stripe_of(mask, e)]
        well_formed_indices(stripe_of(mask, e)) && stripe_of(mask, e).len() <= 144 by {
        if has_edge(mask, e) {
            let st = stripe_start(mask, e);
            let n = ((stripe_end(mask, e) - st) / 2) as nat;
            lemma_stripe_well_formed(e, st, n);
        }
    }
}


proof fn lemma_row_len_when_uncovered(mask: u8, y: int, nx: nat)
    requires
        forall|x: int| 0 <= x < nx ==> !#[trigger] covered_spec(mask, x, y),
    ensures
        row_spec(mask, y, nx).len() == 6 * nx,
    decreases nx,
{
    if nx > 0 {
        lemma_row_len_when_uncovered(mask, y, (nx - 1) as nat);
        assert(!covered_spec(mask, nx - 1, y));
    }
}

proof fn lemma_rows_len_when_uncovered(mask: u8, ny: nat)
    requires
        forall|x: int, y: int| 0 <= x < 32 && 0 <= y < ny ==> !#[trigger] covered_spec(mask, x, y),
    ensures
        rows_spec(mask, ny).len() == 192 * ny,
    decreases ny,
{
    if ny > 0 {
        lemma_rows_len_when_uncovered(mask, (ny - 1) as nat);
        assert forall|x: int| 0 <= x < 32 implies !#[trigger] covered_spec(mask, x, ny - 1) by {}
        lemma_row_len_when_uncovered(mask, ny - 1, 32);
    }
}

/// The base variant (no stitched edge) covers every one of the 32 x 32 cells with two full
/// triangles: 6144 indices.
pub proof fn lemma_base_variant_is_full_grid()
    ensures
        forall|e: Edge| !#[trigger] has_edge(BASE_STITCH_MASK, e),
        forall|x: int, y: int| !#[trigger] covered_spec(BASE_STITCH_MASK, x, y),
        variant_spec(BASE_STITCH_MASK) == rows_spec(BASE_STITCH_MASK, 32),
        variant_spec(BASE_STITCH_MASK).len() == 6144,
{
    assert(0u8 & 1u8 == 0u8 && 0u8 & 2u8 == 0u8 && 0u8 & 4u8 == 0u8 && 0u8 & 8u8 == 0u8) by (bit_vector);
    assert forall|e: Edge| !#[trigger] has_edge(BASE_STITCH_MASK, e) by {}
    assert(corners_spec(BASE_STITCH_MASK) =~= Seq::<int>::empty());
    assert(variant_spec(BASE_STITCH_MASK) =~= rows_spec(BASE_STITCH_MASK, 32));
    lemma_rows_len_when_uncovered(BASE_STITCH_MASK, 32);
}


/// 1 when `b` holds, else 0.
pub open spec fn flag(b: bool) -> int {
    if b { 1 } else { 0 }
}

/// The number of stitched edges of `mask`.
pub open spec fn stitched_edge_count(mask: u8) -> int {
    flag(has_edge(mask, Edge::NegU)) + flag(has_edge(mask, Edge::PosU))
        + flag(has_edge(mask, Edge::NegV)) + flag(has_edge(mask, Edge::PosV))
}

/// The number of grid corners where two stitched edges meet.
pub open spec fn stitched_corner_count(mask: u8) -> int {
    let nu = has_edge(mask, Edge::NegU);
    let pu = has_edge(mask, Edge::PosU);
    let nv = has_edge(mask, Edge::NegV);
    let pv = has_edge(mask, Edge::PosV);
    flag(nu && nv) + flag(pu && nv) + flag(nu && pv) + flag(pu && pv)
}

/// The cells of row `y` that a corner block or a stitch pair takes are those left of `row_lo`
/// and those from `row_hi` on.
spec fn row_lo(mask: u8, y: int) -> int {
    let nu = has_edge(mask, Edge::NegU);
    if (y == 0 && has_edge(mask, Edge::NegV)) || (y == 31 && has_edge(mask, Edge::PosV)) {
        32
    } else if (y == 1 && has_edge(mask, Edge::NegV)) || (y == 30 && has_edge(mask, Edge::PosV)) {
        2 * flag(nu)
    } else {
        flag(nu)
    }
}

spec fn row_hi(mask: u8, y: int) -> int {
    let pu = has_edge(mask, Edge::PosU);
    if (y == 0 && has_edge(mask, Edge::NegV)) || (y == 31 && has_edge(mask, Edge::PosV)) {
        32
    } else if (y == 1 && has_edge(mask, Edge::NegV)) || (y == 30 && has_edge(mask, Edge::PosV)) {
        32 - 2 * flag(pu)
    } else {
        32 - flag(pu)
    }
}

proof fn lemma_covered_cells_of_row(mask: u8, x: int, y: int)
    requires
        0 <= x < 32,
        0 <= y < 32,
    ensures
        covered_spec(mask, x, y) == (x < row_lo(mask, y) || x >= row_hi(mask, y)),
{
}

/// Cells of the first `nx` of row `y` that are not taken by a corner block or a stitch pair.
spec fn uncovered_in_row(mask: u8, y: int, nx: nat) -> nat
    decreases nx,
{
    if nx == 0 {
        0
    } else {
        uncovered_in_row(mask, y, (nx - 1) as nat) + if covered_spec(mask, nx - 1, y) { 0nat } else { 1nat }
    }
}

proof fn lemma_row_len(mask: u8, y: int, nx: nat)
    requires
        0 <= y < 32,
        nx <= 32,
    ensures
        row_spec(mask, y, nx).len() == 6 * uncovered_in_row(mask, y, nx),
        uncovered_in_row(mask, y, nx) == if nx <= row_lo(mask, y) { 0 } else if nx <= row_hi(mask, y) {
            nx - row_lo(mask, y)
        } else {
            row_hi(mask, y) - row_lo(mask, y)
        },
    decreases nx,
{
    if nx > 0 {
        lemma_row_len(mask, y, (nx - 1) as nat);
        lemma_covered_cells_of_row(mask, nx - 1, y);
    }
}

/// Cells of the first `ny` rows left as full cells.
spec fn uncovered_in_rows(mask: u8, ny: nat) -> nat
    decreases ny,
{
    if ny == 0 {
        0
    } else {
        uncovered_in_rows(mask, (ny - 1) as nat) + uncovered_in_row(mask, ny - 1, 32)
    }
}

proof fn lemma_rows_len(mask: u8, ny: nat)
    requires
        ny <= 32,
    ensures
        rows_spec(mask, ny).len() == 6 * uncovered_in_rows(mask, ny),
        2 <= ny <= 30 ==> uncovered_in_rows(mask, ny) == (row_hi(mask, 0) - row_lo(mask, 0))
            + (row_hi(mask, 1) - row_lo(mask, 1)) + (ny - 2) * (32 - flag(has_edge(mask, Edge::NegU)) - flag(has_edge(mask, Edge::PosU))),
    decreases ny,
{
    if ny > 0 {
        lemma_rows_len(mask, (ny - 1) as nat);
        lemma_row_len(mask, ny - 1, 32);
        assert(uncovered_in_rows(mask, 0) == 0);
        let k = 32 - flag(has_edge(mask, Edge::NegU)) - flag(has_edge(mask, Edge::PosU));
        let w0 = row_hi(mask, 0) - row_lo(mask, 0);
        let w1 = row_hi(mask, 1) - row_lo(mask, 1);
        if ny == 2 {
            lemma_row_len(mask, 0, 32);
            assert(uncovered_in_rows(mask, 1) == uncovered_in_row(mask, 0, 32));
            assert(uncovered_in_row(mask, 0, 32) == w0);
            assert(uncovered_in_row(mask, 1, 32) == w1);
            assert(uncovered_in_rows(mask, 2) == w0 + w1);
            assert((ny - 2) * k == 0);
        }
        if 3 <= ny <= 30 {
            assert(uncovered_in_row(mask, ny - 1, 32) == k);
            assert(uncovered_in_rows(mask, (ny - 1) as nat) == w0 + w1 + (ny - 3) * k);
            assert((ny - 3) * k + k == (ny - 2) * k) by (nonlinear_arith);
            assert(uncovered_in_rows(mask, ny) == w0 + w1 + (ny - 2) * k);
        }
    }
}

proof fn lemma_stripe_len(edge: Edge, start: int, n: nat)
    ensures
        stripe_spec(edge, start, n).len() == 9 * n,
    decreases n,
{
    if n > 0 {
        lemma_stripe_len(edge, start, (n - 1) as nat);
    }
}

/// The index count of every variant: the full grid's 6144 indices, less 48 for each stitched
/// edge and 6 more for each corner where two stitched edges meet.
pub proof fn lemma_variant_index_count(mask: u8)
    ensures
        variant_spec(mask).len() == 6144 - 48 * stitched_edge_count(mask) - 6 * stitched_corner_count(mask),
{
    let nu = has_edge(mask, Edge::NegU);
    let pu = has_edge(mask, Edge::PosU);
    let nv = has_edge(mask, Edge::NegV);
    let pv = has_edge(mask, Edge::PosV);
    lemma_rows_len(mask, 30);
    lemma_rows_len(mask, 31);
    lemma_rows_len(mask, 32);
    lemma_row_len(mask, 30, 32);
    lemma_row_len(mask, 31, 32);
    assert(uncovered_in_rows(mask, 32) == uncovered_in_rows(mask, 30) + uncovered_in_row(mask, 30, 32)
        + uncovered_in_row(mask, 31, 32));
    lemma_stripe_len(Edge::NegU, stripe_start(mask, Edge::NegU), ((stripe_end(mask, Edge::NegU) - stripe_start(mask, Edge::NegU)) / 2) as nat);
    lemma_stripe_len(Edge::PosU, stripe_start(mask, Edge::PosU), ((stripe_end(mask, Edge::PosU) - stripe_start(mask, Edge::PosU)) / 2) as nat);
    lemma_stripe_len(Edge::NegV, stripe_start(mask, Edge::NegV), ((stripe_end(mask, Edge::NegV) - stripe_start(mask, Edge::NegV)) / 2) as nat);
    lemma_stripe_len(Edge::PosV, stripe_start(mask, Edge::PosV), ((stripe_end(mask, Edge::PosV) - stripe_start(mask, Edge::PosV)) / 2) as nat);
    assert(corners_spec(mask).len() == 12 * stitched_corner_count(mask));
}

/// Every cell of the 32 x 32 grid is triangulated exactly once: by one corner block, by the
/// stitch pairs of one edge, or as a full cell of two triangles.
pub proof fn lemma_variant_tiles_grid(mask: u8, x: int, y: int)
    requires
        0 <= x < 32,
        0 <= y < 32,
    ensures
        flag(corner_cell(mask, 4, x, y))
            + flag(stripe_cell(mask, Edge::NegU, stripe_end(mask, Edge::NegU), x, y))
            + flag(stripe_cell(mask, Edge::PosU, stripe_end(mask, Edge::PosU), x, y))
            + flag(stripe_cell(mask, Edge::NegV, stripe_end(mask, Edge::NegV), x, y))
            + flag(stripe_cell(mask, Edge::PosV, stripe_end(mask, Edge::PosV), x, y))
            + flag(!covered_spec(mask, x, y)) == 1,
{
}

/// Column of the visible vertex with index `v` (row-major over 33 x 33 points).
pub open spec fn grid_x(v: int) -> int {
    v % 33
}

/// Row of the visible vertex with index `v`.
pub open spec fn grid_y(v: int) -> int {
    v / 33
}

/// Twice the signed area of the triangle `(p, q, r)` of vertex indices, in grid coordinates.
pub open spec fn orientation(p: int, q: int, r: int) -> int {
    (grid_x(q) - grid_x(p)) * (grid_y(r) - grid_y(p)) - (grid_y(q) - grid_y(p)) * (grid_x(r) - grid_x(p))
}

/// Triangle `t` of the index list `s` has positive orientation: the winding that the whole
/// chunk mesh shares, so that every triangle faces the same way.
pub open spec fn triangle_front_facing(s: Seq<int>, t: int) -> bool {
    orientation(s[3 * t], s[3 * t + 1], s[3 * t + 2]) > 0
}

/// `s` is a list of whole triangles, each with positive orientation.
pub open spec fn all_front_facing(s: Seq<int>) -> bool {
    &&& s.len() % 3 == 0
    &&& forall|t: int| 0 <= t < s.len() / 3 ==> #[trigger] triangle_front_facing(s, t)
}

proof fn lemma_vertex_coords(x: int, y: int)
    requires
        0 <= x < 33,
        0 <= y,
    ensures
        grid_x(vidx(x, y)) == x,
        grid_y(vidx(x, y)) == y,
{
    vstd::arithmetic::div_mod::lemma_fundamental_div_mod_converse(vidx(x, y), 33, y, x);
}

proof fn lemma_orientation_of(p: int, q: int, r: int, dx1: int, dy1: int, dx2: int, dy2: int)
    requires
        grid_x(q) - grid_x(p) == dx1,
        grid_y(q) - grid_y(p) == dy1,
        grid_x(r) - grid_x(p) == dx2,
        grid_y(r) - grid_y(p) == dy2,
    ensures
        orientation(p, q, r) == dx1 * dy2 - dy1 * dx2,
{
}

proof fn lemma_front_facing_concat(a: Seq<int>, b: Seq<int>)
    requires
        all_front_facing(a),
        all_front_facing(b),
    ensures
        all_front_facing(a + b),
{
    let c = a + b;
    let na = a.len() / 3;
    let nb = b.len() / 3;
    assert(a.len() == 3 * na);
    assert(b.len() == 3 * nb);
    assert(c.len() == 3 * (na + nb));
    assert(c.len() / 3 == na + nb);
    assert forall|t: int| 0 <= t < c.len() / 3 implies #[trigger] triangle_front_facing(c, t) by {
        if t < na {
            assert(triangle_front_facing(a, t));
            assert(c[3 * t] == a[3 * t]);
            assert(c[3 * t + 1] == a[3 * t + 1]);
            assert(c[3 * t + 2] == a[3 * t + 2]);
        } else {
            let u = t - na;
            assert(triangle_front_facing(b, u));
            assert(3 * t == a.len() + 3 * u);
            assert(c[3 * t] == b[3 * u]);
            assert(c[3 * t + 1] == b[3 * u + 1]);
            assert(c[3 * t + 2] == b[3 * u + 2]);
        }
    }
}

proof fn lemma_front_facing_empty()
    ensures
        all_front_facing(Seq::<int>::empty()),
{
}

proof fn lemma_base_cell_front_facing(x: int, y: int)
    requires
        0 <= x < 32,
        0 <= y < 32,
    ensures
        all_front_facing(base_cell_spec(x, y)),
{
    lemma_vertex_coords(x, y);
    lemma_vertex_coords(x + 1, y);
    lemma_vertex_coords(x, y + 1);
    lemma_vertex_coords(x + 1, y + 1);
    let s = base_cell_spec(x, y);
    let (a, b, c, d) = (vidx(x, y), vidx(x + 1, y), vidx(x, y + 1), vidx(x + 1, y + 1));
    lemma_orientation_of(a, d, c, 1, 1, 0, 1);
    lemma_orientation_of(a, b, d, 1, 0, 1, 1);
    assert(triangle_front_facing(s, 0));
    assert(triangle_front_facing(s, 1));
    assert forall|t: int| 0 <= t < s.len() / 3 implies #[trigger] triangle_front_facing(s, t) by {
        assert(t == 0 || t == 1);
    }
}

proof fn lemma_corner_block_front_facing(x0: int, y0: int)
    requires
        0 <= x0 <= 30,
        0 <= y0 <= 30,
    ensures
        all_front_facing(corner_block_spec(x0, y0)),
{
    lemma_vertex_coords(x0, y0);
    lemma_vertex_coords(x0 + 2, y0);
    lemma_vertex_coords(x0 + 2, y0 + 2);
    lemma_vertex_coords(x0, y0 + 2);
    lemma_vertex_coords(x0 + 1, y0 + 1);
    let s = corner_block_spec(x0, y0);
    let (a, b, c, d, m) = (vidx(x0, y0), vidx(x0 + 2, y0), vidx(x0 + 2, y0 + 2), vidx(x0, y0 + 2), vidx(x0 + 1, y0 + 1));
    lemma_orientation_of(a, b, m, 2, 0, 1, 1);
    lemma_orientation_of(b, c, m, 0, 2, -1, 1);
    lemma_orientation_of(c, d, m, -2, 0, -1, -1);
    lemma_orientation_of(d, a, m, 0, -2, 1, -1);
    assert(triangle_front_facing(s, 0));
    assert(triangle_front_facing(s, 1));
    assert(triangle_front_facing(s, 2));
    assert(triangle_front_facing(s, 3));
    assert forall|t: int| 0 <= t < s.len() / 3 implies #[trigger] triangle_front_facing(s, t) by {
        assert(t == 0 || t == 1 || t == 2 || t == 3);
    }
}

proof fn lemma_stitch_pair_front_facing(edge: Edge, p: int)
    requires
        0 <= p <= 30,
    ensures
        all_front_facing(stitch_pair_spec(edge, p)),
{
    lemma_vertex_coords(0, p);
    lemma_vertex_coords(1, p);
    lemma_vertex_coords(1, p + 1);
    lemma_vertex_coords(0, p + 2);
    lemma_vertex_coords(1, p + 2);
    lemma_vertex_coords(32, p);
    lemma_vertex_coords(31, p);
    lemma_vertex_coords(31, p + 1);
    lemma_vertex_coords(32, p + 2);
    lemma_vertex_coords(31, p + 2);
    lemma_vertex_coords(p, 0);
    lemma_vertex_coords(p, 1);
    lemma_vertex_coords(p + 1, 1);
    lemma_vertex_coords(p + 2, 0);
    lemma_vertex_coords(p + 2, 1);
    lemma_vertex_coords(p, 32);
    lemma_vertex_coords(p, 31);
    lemma_vertex_coords(p + 1, 31);
    lemma_vertex_coords(p + 2, 32);
    lemma_vertex_coords(p + 2, 31);
    let s = stitch_pair_spec(edge, p);
    match edge {
        Edge::NegU => {
            let (p0, i0, i1, p2, i2) = (vidx(0, p), vidx(1, p), vidx(1, p + 1), vidx(0, p + 2), vidx(1, p + 2));
            lemma_orientation_of(p0, i0, i1, 1, 0, 1, 1);
            lemma_orientation_of(p0, i1, p2, 1, 1, 0, 2);
            lemma_orientation_of(p2, i1, i2, 1, -1, 1, 0);
        },
        Edge::PosU => {
            let (p0, i0, i1, p2, i2) = (vidx(32, p), vidx(31, p), vidx(31, p + 1), vidx(32, p + 2), vidx(31, p + 2));
            lemma_orientation_of(p0, i1, i0, -1, 1, -1, 0);
            lemma_orientation_of(p0, p2, i1, 0, 2, -1, 1);
            lemma_orientation_of(p2, i2, i1, -1, 0, -1, -1);
        },
        Edge::NegV => {
            let (p0, i0, i1, p2, i2) = (vidx(p, 0), vidx(p, 1), vidx(p + 1, 1), vidx(p + 2, 0), vidx(p + 2, 1));
            lemma_orientation_of(p0, i1, i0, 1, 1, 0, 1);
            lemma_orientation_of(p0, p2, i1, 2, 0, 1, 1);
            lemma_orientation_of(p2, i2, i1, 0, 1, -1, 1);
        },
        Edge::PosV => {
            let (p0, i0, i1, p2, i2) = (vidx(p, 32), vidx(p, 31), vidx(p + 1, 31), vidx(p + 2, 32), vidx(p + 2, 31));
            lemma_orientation_of(p0, i0, i1, 0, -1, 1, -1);
            lemma_orientation_of(p0, i1, p2, 1, -1, 2, 0);
            lemma_orientation_of(p2, i1, i2, -1, -1, 0, -1);
        },
    }
    assert(triangle_front_facing(s, 0));
    assert(triangle_front_facing(s, 1));
    assert(triangle_front_facing(s, 2));
    assert forall|t: int| 0 <= t < s.len() / 3 implies #[trigger] triangle_front_facing(s, t) by {
        assert(t == 0 || t == 1 || t == 2);
    }
}

proof fn lemma_stripe_front_facing(edge: Edge, start: int, n: nat)
    requires
        0 <= start,
        start + 2 * n <= 32,
    ensures
        all_front_facing(stripe_spec(edge, start, n)),
    decreases n,
{
    if n > 0 {
        lemma_stripe_front_facing(edge, start, (n - 1) as nat);
        lemma_stitch_pair_front_facing(edge, start + 2 * (n - 1));
        lemma_front_facing_concat(stripe_spec(edge, start, (n - 1) as nat), stitch_pair_spec(edge, start + 2 * (n - 1)));
    }
}

proof fn lemma_row_front_facing(mask: u8, y: int, nx: nat)
    requires
        0 <= y < 32,
        nx <= 32,
    ensures
        all_front_facing(row_spec(mask, y, nx)),
    decreases nx,
{
    if nx > 0 {
        lemma_row_front_facing(mask, y, (nx - 1) as nat);
        let x = nx - 1;
        let cell = if covered_spec(mask, x, y) { Seq::<int>::empty() } else { base_cell_spec(x, y) };
        lemma_base_cell_front_facing(x, y);
        lemma_front_facing_concat(row_spec(mask, y, (nx - 1) as nat), cell);
    }
}

proof fn lemma_rows_front_facing(mask: u8, ny: nat)
    requires
        ny <= 32,
    ensures
        all_front_facing(rows_spec(mask, ny)),
    decreases ny,
{
    if ny > 0 {
        lemma_rows_front_facing(mask, (ny - 1) as nat);
        lemma_row_front_facing(mask, ny - 1, 32);
        lemma_front_facing_concat(rows_spec(mask, (ny - 1) as nat), row_spec(mask, ny - 1, 32));
    }
}

proof fn lemma_stripe_of_front_facing(mask: u8, edge: Edge)
    ensures
        all_front_facing(stripe_of(mask, edge)),
{
    if has_edge(mask, edge) {
        let start = stripe_start(mask, edge);
        let n = ((stripe_end(mask, edge) - start) / 2) as nat;
        lemma_stripe_front_facing(edge, start, n);
    }
}

/// Every triangle of every variant of the chunk mesh (full cells, corner blocks and stitch
/// pairs alike) has positive orientation in grid coordinates: the mesh is wound one way, so
/// none of it faces inward.
pub proof fn lemma_variant_front_facing(mask: u8)
    ensures
        all_front_facing(variant_spec(mask)),
{
    let nu = has_edge(mask, Edge::NegU);
    let pu = has_edge(mask, Edge::PosU);
    let nv = has_edge(mask, Edge::NegV);
    let pv = has_edge(mask, Edge::PosV);
    lemma_corner_block_front_facing(0, 0);
    lemma_corner_block_front_facing(30, 0);
    lemma_corner_block_front_facing(0, 30);
    lemma_corner_block_front_facing(30, 30);
    let c0 = if nu && nv { corner_block_spec(0, 0) } else { seq![] };
    let c1 = if pu && nv { corner_block_spec(30, 0) } else { seq![] };
    let c2 = if nu && pv { corner_block_spec(0, 30) } else { seq![] };
    let c3 = if pu && pv { corner_block_spec(30, 30) } else { seq![] };
    lemma_front_facing_concat(c0, c1);
    lemma_front_facing_concat(c0 + c1, c2);
    lemma_front_facing_concat(c0 + c1 + c2, c3);
    assert(corners_spec(mask) == c0 + c1 + c2 + c3);
    lemma_stripe_of_front_facing(mask, Edge::NegU);
    lemma_stripe_of_front_facing(mask, Edge::PosU);
    lemma_stripe_of_front_facing(mask, Edge::NegV);
    lemma_stripe_of_front_facing(mask, Edge::PosV);
    lemma_rows_front_facing(mask, 32);
    let a1 = corners_spec(mask) + stripe_of(mask, Edge::NegU);
    lemma_front_facing_concat(corners_spec(mask), stripe_of(mask, Edge::NegU));
    let a2 = a1 + stripe_of(mask, Edge::PosU);
    lemma_front_facing_concat(a1, stripe_of(mask, Edge::PosU));
    let a3 = a2 + stripe_of(mask, Edge::NegV);
    lemma_front_facing_concat(a2, stripe_of(mask, Edge::NegV));
    let a4 = a3 + stripe_of(mask, Edge::PosV);
    lemma_front_facing_concat(a3, stripe_of(mask, Edge::PosV));
    lemma_front_facing_concat(a4, rows_spec(mask, 32));
}

/// The vertex at position `step` along the border of the grid on `edge`.
pub open spec fn boundary_vertex(edge: Edge, step: int) -> int {
    match edge {
        Edge::NegU => vidx(0, step),
        Edge::PosU => vidx(32, step),
        Edge::NegV => vidx(step, 0),
        Edge::PosV => vidx(step, 32),
    }
}

/// No entry of `s` is `v`.
pub open spec fn avoids(s: Seq<int>, v: int) -> bool {
    forall|i: int| 0 <= i < s.len() ==> s[i] != v
}

proof fn lemma_concat_avoids(a: Seq<int>, b: Seq<int>, v: int)
    requires
        avoids(a, v),
        avoids(b, v),
    ensures
        avoids(a + b, v),
{
    assert forall|i: int| 0 <= i < (a + b).len() implies (a + b)[i] != v by {
        if i < a.len() {
            assert((a + b)[i] == a[i]);
        } else {
            assert((a + b)[i] == b[i - a.len()]);
        }
    }
}

proof fn lemma_stripe_avoids(edge: Edge, start: int, n: nat, v: int)
    requires
        forall|j: int| 0 <= j < n ==> avoids(#[trigger] stitch_pair_spec(edge, start + 2 * j), v),
    ensures
        avoids(stripe_spec(edge, start, n), v),
    decreases n,
{
    if n > 0 {
        lemma_stripe_avoids(edge, start, (n - 1) as nat, v);
        assert(avoids(stitch_pair_spec(edge, start + 2 * (n - 1)), v));
        lemma_concat_avoids(stripe_spec(edge, start, (n - 1) as nat), stitch_pair_spec(edge, start + 2 * (n - 1)), v);
    }
}

proof fn lemma_row_avoids(mask: u8, y: int, nx: nat, v: int)
    requires
        forall|x: int| 0 <= x < nx && !covered_spec(mask, x, y) ==> avoids(#[trigger] base_cell_spec(x, y), v),
    ensures
        avoids(row_spec(mask, y, nx), v),
    decreases nx,
{
    if nx > 0 {
        lemma_row_avoids(mask, y, (nx - 1) as nat, v);
        let x = nx - 1;
        let cell = if covered_spec(mask, x, y) { seq![] } else { base_cell_spec(x, y) };
        lemma_concat_avoids(row_spec(mask, y, (nx - 1) as nat), cell, v);
    }
}

proof fn lemma_rows_avoid(mask: u8, ny: nat, v: int)
    requires
        forall|x: int, y: int| 0 <= x < 32 && 0 <= y < ny && !covered_spec(mask, x, y)
            ==> avoids(#[trigger] base_cell_spec(x, y), v),
    ensures
        avoids(rows_spec(mask, ny), v),
    decreases ny,
{
    if ny > 0 {
        lemma_rows_avoid(mask, (ny - 1) as nat, v);
        lemma_row_avoids(mask, ny - 1, 32, v);
        lemma_concat_avoids(rows_spec(mask, (ny - 1) as nat), row_spec(mask, ny - 1, 32), v);
    }
}

proof fn lemma_pair_avoids_odd_boundary(mask: u8, e: Edge, e2: Edge, p: int, step: int)
    requires
        has_edge(mask, e),
        has_edge(mask, e2),
        stripe_start(mask, e2) <= p,
        p + 2 <= stripe_end(mask, e2),
        (p - stripe_start(mask, e2)) % 2 == 0,
        0 <= step <= 32,
        step % 2 == 1,
    ensures
        avoids(stitch_pair_spec(e2, p), boundary_vertex(e, step)),
{
}

proof fn lemma_border_cells_covered(mask: u8, e: Edge, k: int)
    requires
        has_edge(mask, e),
        0 <= k < 32,
    ensures
        e == Edge::NegU ==> covered_spec(mask, 0, k),
        e == Edge::PosU ==> covered_spec(mask, 31, k),
        e == Edge::NegV ==> covered_spec(mask, k, 0),
        e == Edge::PosV ==> covered_spec(mask, k, 31),
{
}

/// On every stitched edge of a valid mask, the odd border vertices (those the coarser
/// neighbor does not have) are used by no triangle of the variant.
pub proof fn lemma_stitched_edge_skips_odd_vertices(mask: u8, e: Edge, step: int)
    requires
        valid_mask(mask),
        has_edge(mask, e),
        0 <= step <= 32,
        step % 2 == 1,
    ensures
        !variant_spec(mask).contains(boundary_vertex(e, step)),
{
    let v = boundary_vertex(e, step);
    let nu = has_edge(mask, Edge::NegU);
    let pu = has_edge(mask, Edge::PosU);
    let nv = has_edge(mask, Edge::NegV);
    let pv = has_edge(mask, Edge::PosV);
    let empty = Seq::<int>::empty();
    let c1 = if nu && nv { corner_block_spec(0, 0) } else { empty };
    let c2 = if pu && nv { corner_block_spec(30, 0) } else { empty };
    let c3 = if nu && pv { corner_block_spec(0, 30) } else { empty };
    let c4 = if pu && pv { corner_block_spec(30, 30) } else { empty };
    assert(avoids(c1, v) && avoids(c2, v) && avoids(c3, v) && avoids(c4, v));
    lemma_concat_avoids(c1, c2, v);
    lemma_concat_avoids(c1 + c2, c3, v);
    lemma_concat_avoids(c1 + c2 + c3, c4, v);
    assert(corners_spec(mask) == c1 + c2 + c3 + c4);
    assert forall|e2: Edge| avoids(#[trigger] stripe_of(mask, e2), v) by {
        if has_edge(mask, e2) {
            let st = stripe_start(mask, e2);
            let n = ((stripe_end(mask, e2) - st) / 2) as nat;
            assert forall|j: int| 0 <= j < n implies avoids(#[trigger] stitch_pair_spec(e2, st + 2 * j), v) by {
                lemma_pair_avoids_odd_boundary(mask, e, e2, st + 2 * j, step);
            }
            lemma_stripe_avoids(e2, st, n, v);
        }
    }
    assert forall|x: int, y: int| 0 <= x < 32 && 0 <= y < 32 && !covered_spec(mask, x, y)
        implies avoids(#[trigger] base_cell_spec(x, y), v) by {
        lemma_border_cells_covered(mask, e, y);
        lemma_border_cells_covered(mask, e, x);
    }
    lemma_rows_avoid(mask, 32, v);
    let a = corners_spec(mask);
    lemma_concat_avoids(a, stripe_of(mask, Edge::NegU), v);
    let a = a + stripe_of(mask, Edge::NegU);
    lemma_concat_avoids(a, stripe_of(mask, Edge::PosU), v);
    let a = a + stripe_of(mask, Edge::PosU);
    lemma_concat_avoids(a, stripe_of(mask, Edge::NegV), v);
    let a = a + stripe_of(mask, Edge::NegV);
    lemma_concat_avoids(a, stripe_of(mask, Edge::PosV), v);
    let a = a + stripe_of(mask, Edge::PosV);
    lemma_concat_avoids(a, rows_spec(mask, 32), v);
    assert(a + rows_spec(mask, 32) == variant_spec(mask));
}


proof fn lemma_stripe_contains(edge: Edge, start: int, n: nat, j: int, v: int)
    requires
        0 <= j < n,
        stitch_pair_spec(edge, start + 2 * j).contains(v),
    ensures
        stripe_spec(edge, start, n).contains(v),
    decreases n,
{
    let prev = stripe_spec(edge, start, (n - 1) as nat);
    let last = stitch_pair_spec(edge, start + 2 * (n - 1));
    assert(stripe_spec(edge, start, n) == prev + last);
    if j == n - 1 {
        let k = choose|k: int| 0 <= k < last.len() && last[k] == v;
        assert((prev + last)[prev.len() + k] == v);
    } else {
        lemma_stripe_contains(edge, start, (n - 1) as nat, j, v);
        let k = choose|k: int| 0 <= k < prev.len() && prev[k] == v;
        assert((prev + last)[k] == v);
    }
}

proof fn lemma_contains_left(a: Seq<int>, b: Seq<int>, v: int)
    requires
        a.contains(v),
    ensures
        (a + b).contains(v),
{
    let k = choose|k: int| 0 <= k < a.len() && a[k] == v;
    assert((a + b)[k] == v);
}

proof fn lemma_contains_right(a: Seq<int>, b: Seq<int>, v: int)
    requires
        b.contains(v),
    ensures
        (a + b).contains(v),
{
    let k = choose|k: int| 0 <= k < b.len() && b[k] == v;
    assert((a + b)[a.len() + k] == v);
}

/// On every stitched edge of a valid mask, every even border vertex (the ones the coarser
/// neighbor shares) is used by some triangle of the variant.
pub proof fn lemma_stitched_edge_keeps_even_vertices(mask: u8, e: Edge, step: int)
    requires
        valid_mask(mask),
        has_edge(mask, e),
        0 <= step <= 32,
        step % 2 == 0,
    ensures
        variant_spec(mask).contains(boundary_vertex(e, step)),
{
    let v = boundary_vertex(e, step);
    let nu = has_edge(mask, Edge::NegU);
    let pu = has_edge(mask, Edge::PosU);
    let nv = has_edge(mask, Edge::NegV);
    let pv = has_edge(mask, Edge::PosV);
    let empty = Seq::<int>::empty();
    let c1 = if nu && nv { corner_block_spec(0, 0) } else { empty };
    let c2 = if pu && nv { corner_block_spec(30, 0) } else { empty };
    let c3 = if nu && pv { corner_block_spec(0, 30) } else { empty };
    let c4 = if pu && pv { corner_block_spec(30, 30) } else { empty };
    assert(corners_spec(mask) == c1 + c2 + c3 + c4);
    let st = stripe_start(mask, e);
    let en = stripe_end(mask, e);
    let n = ((en - st) / 2) as nat;
    let s_e = stripe_of(mask, e);
    if step < st || step > en || (step == en && en == 30) {
        // The vertex belongs to a corner block.
        if e == Edge::NegU && step < 2 {
            assert(c1[0] == vidx(0, 0) && c1[9] == vidx(0, 2));
            assert(c1.contains(v));
            lemma_contains_left(c1, c2, v);
            lemma_contains_left(c1 + c2, c3, v);
            lemma_contains_left(c1 + c2 + c3, c4, v);
        } else if e == Edge::NegU {
            assert(c3[0] == vidx(0, 30) && c3[9] == vidx(0, 32));
            assert(c3.contains(v));
            lemma_contains_right(c1 + c2, c3, v);
            lemma_contains_left(c1 + c2 + c3, c4, v);
        } else if e == Edge::PosU && step < 2 {
            assert(c2[0] == vidx(30, 0) && c2[1] == vidx(32, 0) && c2[4] == vidx(32, 2));
            assert(c2.contains(v));
            lemma_contains_right(c1, c2, v);
            lemma_contains_left(c1 + c2, c3, v);
            lemma_contains_left(c1 + c2 + c3, c4, v);
        } else if e == Edge::PosU {
            assert(c4[1] == vidx(32, 30) && c4[4] == vidx(32, 32));
            assert(c4.contains(v));
            lemma_contains_right(c1 + c2 + c3, c4, v);
        } else if e == Edge::NegV && step < 2 {
            assert(c1[0] == vidx(0, 0) && c1[1] == vidx(2, 0));
            assert(c1.contains(v));
            lemma_contains_left(c1, c2, v);
            lemma_contains_left(c1 + c2, c3, v);
            lemma_contains_left(c1 + c2 + c3, c4, v);
        } else if e == Edge::NegV {
            assert(c2[0] == vidx(30, 0) && c2[1] == vidx(32, 0));
            assert(c2.contains(v));
            lemma_contains_right(c1, c2, v);
            lemma_contains_left(c1 + c2, c3, v);
            lemma_contains_left(c1 + c2 + c3, c4, v);
        } else if e == Edge::PosV && step < 2 {
            assert(c3[6] == vidx(2, 32) && c3[7] == vidx(0, 32));
            assert(c3.contains(v));
            lemma_contains_right(c1 + c2, c3, v);
            lemma_contains_left(c1 + c2 + c3, c4, v);
        } else {
            assert(c4[4] == vidx(32, 32) && c4[7] == vidx(30, 32));
            assert(c4.contains(v));
            lemma_contains_right(c1 + c2 + c3, c4, v);
        }
        assert(corners_spec(mask).contains(v));
        lemma_contains_left(corners_spec(mask), stripe_of(mask, Edge::NegU), v);
        lemma_contains_left(corners_spec(mask) + stripe_of(mask, Edge::NegU), stripe_of(mask, Edge::PosU), v);
        lemma_contains_left(corners_spec(mask) + stripe_of(mask, Edge::NegU) + stripe_of(mask, Edge::PosU),
            stripe_of(mask, Edge::NegV), v);
        lemma_contains_left(corners_spec(mask) + stripe_of(mask, Edge::NegU) + stripe_of(mask, Edge::PosU)
            + stripe_of(mask, Edge::NegV), stripe_of(mask, Edge::PosV), v);
        lemma_contains_left(corners_spec(mask) + stripe_of(mask, Edge::NegU) + stripe_of(mask, Edge::PosU)
            + stripe_of(mask, Edge::NegV) + stripe_of(mask, Edge::PosV), rows_spec(mask, 32), v);
    } else {
        // The vertex belongs to a stitch pair of the edge itself.
        let j = if step < en { (step - st) / 2 } else { (step - st) / 2 - 1 };
        let pair = stitch_pair_spec(e, st + 2 * j);
        if step < en {
            assert(pair[0] == v);
        } else {
            assert(pair[6] == v);
        }
        assert(pair.contains(v));
        lemma_stripe_contains(e, st, n, j, v);
        assert(s_e.contains(v));
        let a0 = corners_spec(mask);
        let a1 = a0 + stripe_of(mask, Edge::NegU);
        let a2 = a1 + stripe_of(mask, Edge::PosU);
        let a3 = a2 + stripe_of(mask, Edge::NegV);
        let a4 = a3 + stripe_of(mask, Edge::PosV);
        match e {
            Edge::NegU => {
                lemma_contains_right(a0, s_e, v);
                lemma_contains_left(a1, stripe_of(mask, Edge::PosU), v);
                lemma_contains_left(a2, stripe_of(mask, Edge::NegV), v);
                lemma_contains_left(a3, stripe_of(mask, Edge::PosV), v);
            },
            Edge::PosU => {
                lemma_contains_right(a1, s_e, v);
                lemma_contains_left(a2, stripe_of(mask, Edge::NegV), v);
                lemma_contains_left(a3, stripe_of(mask, Edge::PosV), v);
            },
            Edge::NegV => {
                lemma_contains_right(a2, s_e, v);
                lemma_contains_left(a3, stripe_of(mask, Edge::PosV), v);
            },
            Edge::PosV => {
                lemma_contains_right(a3, s_e, v);
            },
        }
        lemma_contains_left(a4, rows_spec(mask, 32), v);
    }
}


/// The shared index buffers of a chunk mesh: the base variant and one variant per stitch mask.
#[derive(Debug)]
pub struct CanonicalChunkTopology {
    base_indices: Vec<i32>,
    stitch_variants: Vec<Vec<i32>>,
}

impl CanonicalChunkTopology {
    #[verifier::type_invariant]
    spec fn holds_variants(self) -> bool {
        &&& as_ints(self.base_indices@) == variant_spec(BASE_STITCH_MASK)
        &&& self.stitch_variants@.len() == STITCH_VARIANT_COUNT
        &&& forall|m: int| 0 <= m < 16 ==> as_ints(#[trigger] self.stitch_variants@[m]@) == variant_spec(m as u8)
    }

    /// The index buffer of the variant for `mask`.
    pub closed spec fn variant(self, mask: u8) -> Seq<i32> {
        self.stitch_variants@[mask as int]@
    }

    /// The base index buffer.
    pub closed spec fn base(self) -> Seq<i32> {
        self.base_indices@
    }

    pub fn vertex_count(&self) -> (n: u32)
        ensures
            n == 1089,
    {
        VISIBLE_VERTICES_PER_EDGE * VISIBLE_VERTICES_PER_EDGE
    }

    pub fn sampled_vertex_count(&self) -> (n: u32)
        ensures
            n == 1225,
    {
        SAMPLED_VERTICES_PER_EDGE * SAMPLED_VERTICES_PER_EDGE
    }

    pub fn base_indices(&self) -> (s: &[i32])
        ensures
            s@ == self.base(),
            as_ints(s@) == variant_spec(BASE_STITCH_MASK),
            all_front_facing(as_ints(s@)),
    {
        proof {
            use_type_invariant(self);
            lemma_variant_front_facing(BASE_STITCH_MASK);
        }
        self.base_indices.as_slice()
    }

    pub fn stitch_indices(&self, stitch_mask: u8) -> (r: Result<&[i32], StitchError>)
        ensures
            match r {
                Ok(s) => valid_mask(stitch_mask) && s@ == self.variant(stitch_mask)
                    && as_ints(s@) == variant_spec(stitch_mask) && all_front_facing(as_ints(s@)),
                Err(e) => !valid_mask(stitch_mask) && e == StitchError::InvalidStitchMask(stitch_mask),
            },
    {
        proof {
            use_type_invariant(self);
            lemma_variant_front_facing(stitch_mask);
        }
        validate_stitch_mask(stitch_mask)?;
        Ok(self.stitch_variants[stitch_mask as usize].as_slice())
    }

    pub fn index_count_for_mask(&self, stitch_mask: u8) -> (r: Result<u32, StitchError>)
        ensures
            match r {
                Ok(n) => valid_mask(stitch_mask) && n == variant_spec(stitch_mask).len()
                    && n == 6144 - 48 * stitched_edge_count(stitch_mask) - 6 * stitched_corner_count(stitch_mask),
                Err(e) => !valid_mask(stitch_mask) && e == StitchError::InvalidStitchMask(stitch_mask),
            },
    {
        let indices = self.stitch_indices(stitch_mask)?;
        proof {
            lemma_variant_index_count(stitch_mask);
            lemma_variant_well_formed(stitch_mask);
            assert(as_ints(indices@).len() == indices@.len());
        }
        Ok(indices.len() as u32)
    }
}

/// Builds the shared index buffers of the chunk mesh.
pub fn canonical_chunk_topology() -> (t: CanonicalChunkTopology)
    ensures
        as_ints(t.base()) == variant_spec(BASE_STITCH_MASK),
        forall|m: u8| valid_mask(m) ==> as_ints(#[trigger] t.variant(m)) == variant_spec(m),
{
    let base_indices = match build_variant_indices(BASE_STITCH_MASK) {
        Ok(v) => v,
        Err(_) => {
            assert(false);
            Vec::new()
        },
    };
    let mut stitch_variants: Vec<Vec<i32>> = Vec::new();
    let mut mask: u8 = 0;
    while mask < STITCH_VARIANT_COUNT as u8
        invariant
            mask <= 16,
            stitch_variants@.len() == mask,
            forall|m: int| 0 <= m < mask ==> as_ints(#[trigger] stitch_variants@[m]@) == variant_spec(m as u8),
        decreases 16 - mask,
    {
        let indices = match build_variant_indices(mask) {
            Ok(v) => v,
            Err(_) => {
                assert(false);
                Vec::new()
            },
        };
        stitch_variants.push(indices);
        mask += 1;
    }
    let t = CanonicalChunkTopology { base_indices, stitch_variants };
    proof {
        assert forall|m: u8| valid_mask(m) implies as_ints(#[trigger] t.variant(m)) == variant_spec(m) by {
            assert(as_ints(t.stitch_variants@[m as int]@) == variant_spec((m as int) as u8));
        }
    }
    t
}

} // verus!
