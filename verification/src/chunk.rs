use vstd::prelude::*;
use vstd::arithmetic::power2::{pow2, lemma_pow2_pos, lemma_pow2_unfold, lemma_pow2_adds, lemma2_to64};
use vstd::arithmetic::div_mod::{lemma_div_denominator, lemma_multiply_divide_lt};
use vstd::arithmetic::mul::lemma_mul_is_commutative;
use vstd::bits::{lemma_u32_shr_is_div, lemma_u32_shl_is_mul, lemma_u32_pow2_no_overflow};

verus! {

/// One of the six faces of the cube that the planet surface is projected from.
#[derive(Clone, Copy, Debug, PartialEq, Eq, Structural, Hash, PartialOrd, Ord)]
pub enum Face {
    Px,
    Nx,
    Py,
    Ny,
    Pz,
    Nz,
}

impl Face {
    pub const ALL: [Face; 6] = [Face::Px, Face::Nx, Face::Py, Face::Ny, Face::Pz, Face::Nz];
}

/// The ordinal of a face in `Face::ALL`.
pub open spec fn face_ordinal_spec(face: Face) -> nat {
    match face {
        Face::Px => 0,
        Face::Nx => 1,
        Face::Py => 2,
        Face::Ny => 3,
        Face::Pz => 4,
        Face::Nz => 5,
    }
}

/// One of the four edges of a chunk (or of a face) in its local (u, v) frame.
#[derive(Clone, Copy, Debug, PartialEq, Eq, Structural, Hash, PartialOrd, Ord)]
pub enum Edge {
    NegU,
    PosU,
    NegV,
    PosV,
}

/// The ordinal of an edge in `Edge::ALL`.
pub open spec fn edge_ordinal_spec(edge: Edge) -> nat {
    match edge {
        Edge::NegU => 0,
        Edge::PosU => 1,
        Edge::NegV => 2,
        Edge::PosV => 3,
    }
}

/// The edge on the opposite side of a chunk.
pub open spec fn opposite_edge_spec(edge: Edge) -> Edge {
    match edge {
        Edge::NegU => Edge::PosU,
        Edge::PosU => Edge::NegU,
        Edge::NegV => Edge::PosV,
        Edge::PosV => Edge::NegV,
    }
}

impl Edge {
    pub const ALL: [Edge; 4] = [Edge::NegU, Edge::PosU, Edge::NegV, Edge::PosV];

    /// The name of an edge as it appears in summaries.
    pub open spec fn label_spec(self) -> Seq<char> {
        match self {
            Edge::NegU => "neg_u"@,
            Edge::PosU => "pos_u"@,
            Edge::NegV => "neg_v"@,
            Edge::PosV => "pos_v"@,
        }
    }

    pub fn label(self) -> (s: &'static str)
        ensures
            s@ == self.label_spec(),
    {
        match self {
            Edge::NegU => "neg_u",
            Edge::PosU => "pos_u",
            Edge::NegV => "neg_v",
            Edge::PosV => "pos_v",
        }
    }
}

/// Number of chunks along one side of a face at `lod`: `2^lod`, or 0 where that does not fit
/// in a `u32`.
pub open spec fn resolution_spec(lod: nat) -> nat {
    if lod < 32 {
        pow2(lod)
    } else {
        0
    }
}

/// Address of one chunk of the cube-sphere quadtree.
#[derive(Clone, Copy, Debug, PartialEq, Eq, Structural, Hash, PartialOrd, Ord)]
pub struct ChunkKey {
    pub face: Face,
    pub lod: u8,
    pub x: u32,
    pub y: u32,
}

/// Builds a key from its parts.
pub open spec fn key(face: Face, lod: nat, x: nat, y: nat) -> ChunkKey {
    ChunkKey { face, lod: lod as u8, x: x as u32, y: y as u32 }
}

impl ChunkKey {
    /// The key addresses an existing chunk: its coordinates lie inside the face grid of its level.
    pub open spec fn valid(self) -> bool {
        &&& resolution_spec(self.lod as nat) > 0
        &&& self.x < resolution_spec(self.lod as nat)
        &&& self.y < resolution_spec(self.lod as nat)
    }

    /// The parent one level up, where there is one.
    pub open spec fn parent_spec(self) -> Option<ChunkKey> {
        if self.lod > 0 {
            Some(key(self.face, (self.lod - 1) as nat, (self.x / 2) as nat, (self.y / 2) as nat))
        } else {
            None
        }
    }

    /// The ancestor at level `target` (the key itself at its own level).
    pub open spec fn ancestor_spec(self, target: nat) -> Option<ChunkKey> {
        if target > self.lod {
            None
        } else {
            let d = (self.lod - target) as nat;
            Some(key(self.face, target, self.x as nat / pow2(d), self.y as nat / pow2(d)))
        }
    }

    /// `self` lies inside `ancestor` (or is it).
    pub open spec fn descends_from(self, ancestor: ChunkKey) -> bool {
        &&& self.face == ancestor.face
        &&& self.lod >= ancestor.lod
        &&& self.x as nat / pow2((self.lod - ancestor.lod) as nat) == ancestor.x
        &&& self.y as nat / pow2((self.lod - ancestor.lod) as nat) == ancestor.y
    }

    /// The four children exist as keys: the level and doubled coordinates fit their types.
    pub open spec fn has_children(self) -> bool {
        &&& self.lod < 255
        &&& 2 * self.x <= u32::MAX
        &&& 2 * self.y <= u32::MAX
    }

    /// The four children in the order (0,0), (1,0), (0,1), (1,1) of their offset.
    pub open spec fn children_spec(self) -> Seq<ChunkKey> {
        let l = (self.lod + 1) as nat;
        let bx = 2 * self.x as nat;
        let by = 2 * self.y as nat;
        seq![
            key(self.face, l, bx, by),
            key(self.face, l, bx + 1, by),
            key(self.face, l, bx, by + 1),
            key(self.face, l, bx + 1, by + 1),
        ]
    }

    pub fn new(face: Face, lod: u8, x: u32, y: u32) -> (k: Self)
        ensures
            k == (ChunkKey { face, lod, x, y }),
    {
        ChunkKey { face, lod, x, y }
    }

    pub fn resolution_for_lod(lod: u8) -> (r: u32)
        ensures
            r == resolution_spec(lod as nat),
    {
        if lod < 32 {
            proof {
                lemma_u32_pow2_no_overflow(lod as nat);
                lemma_u32_shl_is_mul(1, lod as u32);
            }
            1u32 << (lod as u32)
        } else {
            0
        }
    }

    pub fn is_valid_for_lod(&self) -> (b: bool)
        ensures
            b == self.valid(),
    {
        let resolution = Self::resolution_for_lod(self.lod);
        resolution > 0 && self.x < resolution && self.y < resolution
    }

    pub fn parent(&self) -> (p: Option<Self>)
        ensures
            p == self.parent_spec(),
    {
        if self.lod > 0 {
            Some(Self::new(self.face, self.lod - 1, self.x / 2, self.y / 2))
        } else {
            None
        }
    }

    pub fn ancestor_at_lod(&self, target_lod: u8) -> (a: Option<Self>)
        ensures
            a == self.ancestor_spec(target_lod as nat),
    {
        if target_lod > self.lod {
            return None;
        }
        let mut current = *self;
        proof {
            lemma2_to64();
            assert(self.x as nat / pow2(0) == self.x);
            assert(self.y as nat / pow2(0) == self.y);
        }
        while current.lod > target_lod
            invariant
                target_lod <= current.lod <= self.lod,
                current.face == self.face,
                current.x == self.x as nat / pow2((self.lod - current.lod) as nat),
                current.y == self.y as nat / pow2((self.lod - current.lod) as nat),
            decreases current.lod,
        {
            let next = current.parent();
            proof {
                let d = (self.lod - current.lod) as nat;
                lemma_pow2_pos(d);
                lemma_pow2_unfold(d + 1);
                lemma_div_denominator(self.x as int, pow2(d) as int, 2);
                lemma_div_denominator(self.y as int, pow2(d) as int, 2);
                assert(pow2(d) * 2 == pow2(d + 1));
            }
            match next {
                Some(p) => {
                    current = p;
                },
                None => {
                    return None;
                },
            }
        }
        Some(current)
    }

    pub fn children(&self) -> (c: Option<[Self; 4]>)
        ensures
            match c {
                Some(cs) => self.has_children() && cs@ == self.children_spec(),
                None => !self.has_children(),
            },
    {
        if self.lod == 255 || self.x > u32::MAX / 2 || self.y > u32::MAX / 2 {
            return None;
        }
        let child_lod = self.lod + 1;
        let base_x = self.x * 2;
        let base_y = self.y * 2;
        let cs = [
            Self::new(self.face, child_lod, base_x, base_y),
            Self::new(self.face, child_lod, base_x + 1, base_y),
            Self::new(self.face, child_lod, base_x, base_y + 1),
            Self::new(self.face, child_lod, base_x + 1, base_y + 1),
        ];
        assert(cs@ =~= self.children_spec());
        Some(cs)
    }

    pub fn is_descendant_of(&self, ancestor: &Self) -> (b: bool)
        requires
            self.face == ancestor.face && self.lod >= ancestor.lod ==> self.lod - ancestor.lod < 32,
        ensures
            b == self.descends_from(*ancestor),
    {
        if self.face != ancestor.face || self.lod < ancestor.lod {
            return false;
        }
        let shift = (self.lod - ancestor.lod) as u32;
        proof {
            lemma_u32_shr_is_div(self.x, shift);
            lemma_u32_shr_is_div(self.y, shift);
        }
        (self.x >> shift) == ancestor.x && (self.y >> shift) == ancestor.y
    }
}

/// The four same-level neighbors of a chunk, indexed by `Edge` ordinal.
#[derive(Clone, Copy, Debug, PartialEq, Eq)]
pub struct ChunkNeighbors {
    pub same_lod: [ChunkKey; 4],
}

impl ChunkNeighbors {
    pub fn new(same_lod: [ChunkKey; 4]) -> (n: Self)
        ensures
            n.same_lod == same_lod,
    {
        ChunkNeighbors { same_lod }
    }

    /// The neighbor across `edge`.
    pub open spec fn get_spec(self, edge: Edge) -> ChunkKey {
        self.same_lod@[edge_ordinal_spec(edge) as int]
    }

    pub fn get(&self, edge: Edge) -> (k: ChunkKey)
        ensures
            k == self.get_spec(edge),
    {
        match edge {
            Edge::NegU => self.same_lod[0],
            Edge::PosU => self.same_lod[1],
            Edge::NegV => self.same_lod[2],
            Edge::PosV => self.same_lod[3],
        }
    }
}

/// Position of a face in `Face::ALL`.
pub fn face_index(face: Face) -> (i: usize)
    ensures
        i == face_ordinal_spec(face),
        i < 6,
        Face::ALL@[i as int] == face,
{
    match face {
        Face::Px => 0,
        Face::Nx => 1,
        Face::Py => 2,
        Face::Ny => 3,
        Face::Pz => 4,
        Face::Nz => 5,
    }
}

/// Position of an edge in `Edge::ALL`.
pub fn edge_index(edge: Edge) -> (i: usize)
    ensures
        i == edge_ordinal_spec(edge),
        i < 4,
        Edge::ALL@[i as int] == edge,
{
    match edge {
        Edge::NegU => 0,
        Edge::PosU => 1,
        Edge::NegV => 2,
        Edge::PosV => 3,
    }
}

/// The face grid of every level fits in a `u32`.
pub proof fn lemma_resolution_fits(lod: nat)
    ensures
        resolution_spec(lod) < u32::MAX,
        lod < 32 ==> resolution_spec(lod) > 0,
{
    if lod < 32 {
        lemma_u32_pow2_no_overflow(lod);
    }
}

/// Every key descends from itself.
pub proof fn lemma_descends_from_reflexive(k: ChunkKey)
    ensures
        k.descends_from(k),
{
    lemma2_to64();
    assert(k.x as nat / pow2(0) == k.x);
    assert(k.y as nat / pow2(0) == k.y);
}

/// The four children of a key name it as their parent, descend from it, and are valid keys
/// whenever the key is valid and the level below still fits the face grid.
pub proof fn lemma_children_of_key(k: ChunkKey)
    requires
        k.has_children(),
    ensures
        k.children_spec().len() == 4,
        forall|i: int| 0 <= i < 4 ==> (#[trigger] k.children_spec()[i]).parent_spec() == Some(k),
        forall|i: int| 0 <= i < 4 ==> (#[trigger] k.children_spec()[i]).descends_from(k),
        forall|i: int|
            0 <= i < 4 && k.valid() && k.lod + 1 < 32 ==> (#[trigger] k.children_spec()[i]).valid(),
{
    lemma2_to64();
    lemma_pow2_unfold((k.lod + 1) as nat);
    assert forall|i: int| 0 <= i < 4 implies (#[trigger] k.children_spec()[i]).descends_from(k) by {
        let c = k.children_spec()[i];
        assert(c.lod - k.lod == 1);
        assert(pow2(1) == 2);
        assert((2 * k.x as nat) / 2 == k.x);
        assert((2 * k.x as nat + 1) / 2 == k.x);
        assert((2 * k.y as nat) / 2 == k.y);
        assert((2 * k.y as nat + 1) / 2 == k.y);
        assert(c.x as nat == 2 * k.x as nat || c.x as nat == 2 * k.x as nat + 1);
        assert(c.y as nat == 2 * k.y as nat || c.y as nat == 2 * k.y as nat + 1);
    }
}

/// The ancestor of a key at any level up to its own is a key it descends from, and the
/// ancestor of a valid key is valid.
pub proof fn lemma_ancestor_of_key(k: ChunkKey, target: nat)
    requires
        target <= k.lod,
    ensures
        k.ancestor_spec(target) is Some,
        k.descends_from(k.ancestor_spec(target).unwrap()),
        k.valid() ==> k.ancestor_spec(target).unwrap().valid(),
{
    let d = (k.lod - target) as nat;
    lemma_pow2_pos(d);
    let a = k.ancestor_spec(target).unwrap();
    assert(k.x as nat / pow2(d) <= k.x) by {
        vstd::arithmetic::div_mod::lemma_div_is_ordered_by_denominator(k.x as int, 1, pow2(d) as int);
        lemma2_to64();
    }
    assert(k.y as nat / pow2(d) <= k.y) by {
        vstd::arithmetic::div_mod::lemma_div_is_ordered_by_denominator(k.y as int, 1, pow2(d) as int);
        lemma2_to64();
    }
    assert(a.lod == target);
    assert(a.x == k.x as nat / pow2(d));
    assert(a.y == k.y as nat / pow2(d));
    if k.valid() {
        lemma_pow2_adds(target, d);
        lemma_pow2_pos(target);
        lemma_mul_is_commutative(pow2(target) as int, pow2(d) as int);
        lemma_multiply_divide_lt(k.x as int, pow2(d) as int, pow2(target) as int);
        lemma_multiply_divide_lt(k.y as int, pow2(d) as int, pow2(target) as int);
    }
}

/// Descent is transitive: a key inside `b`, where `b` lies inside `c`, lies inside `c`.
pub proof fn lemma_descends_from_transitive(a: ChunkKey, b: ChunkKey, c: ChunkKey)
    requires
        a.descends_from(b),
        b.descends_from(c),
    ensures
        a.descends_from(c),
{
    let d1 = (a.lod - b.lod) as nat;
    let d2 = (b.lod - c.lod) as nat;
    lemma_pow2_pos(d1);
    lemma_pow2_pos(d2);
    lemma_pow2_adds(d1, d2);
    assert((a.lod - c.lod) as nat == d1 + d2);
    lemma_div_denominator(a.x as int, pow2(d1) as int, pow2(d2) as int);
    lemma_div_denominator(a.y as int, pow2(d1) as int, pow2(d2) as int);
}

} // verus!
