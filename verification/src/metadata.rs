use vstd::prelude::*;
use std::collections::HashMap;
use crate::chunk::{ChunkKey, Face, face_index, face_ordinal_spec, resolution_spec, lemma_resolution_fits};
use crate::topology::TopologyError;

verus! {

broadcast use vstd::std_specs::hash::group_hash_axioms;

/// A 128-bit code that identifies a chunk key: face, level, x and y in disjoint bit ranges.
pub open spec fn key_code_spec(k: ChunkKey) -> u128 {
    (face_ordinal_spec(k.face) * 0x1_0000_0000_0000_0000_00 + k.lod * 0x1_0000_0000_0000_0000
        + k.x * 0x1_0000_0000 + k.y) as u128
}

/// Distinct keys have distinct codes.
pub proof fn lemma_key_code_injective(a: ChunkKey, b: ChunkKey)
    ensures
        key_code_spec(a) == key_code_spec(b) ==> a == b,
{
    let fa = face_ordinal_spec(a.face) as int;
    let fb = face_ordinal_spec(b.face) as int;
    let ca = fa * 0x1_0000_0000_0000_0000_00 + a.lod * 0x1_0000_0000_0000_0000 + a.x * 0x1_0000_0000 + a.y;
    let cb = fb * 0x1_0000_0000_0000_0000_00 + b.lod * 0x1_0000_0000_0000_0000 + b.x * 0x1_0000_0000 + b.y;
    assert(0 <= ca < 0x1_0000_0000_0000_0000_0000_0000_0000_0000);
    assert(0 <= cb < 0x1_0000_0000_0000_0000_0000_0000_0000_0000);
    if ca == cb {
        assert(fa == fb && a.lod as int == b.lod as int && a.x as int == b.x as int && a.y as int == b.y as int)
            by (nonlinear_arith)
            requires
                ca == fa * 0x1_0000_0000_0000_0000_00 + a.lod * 0x1_0000_0000_0000_0000 + a.x * 0x1_0000_0000 + a.y,
                cb == fb * 0x1_0000_0000_0000_0000_00 + b.lod * 0x1_0000_0000_0000_0000 + b.x * 0x1_0000_0000 + b.y,
                ca == cb,
                0 <= a.y < 0x1_0000_0000, 0 <= b.y < 0x1_0000_0000,
                0 <= a.x < 0x1_0000_0000, 0 <= b.x < 0x1_0000_0000,
                0 <= a.lod < 0x100, 0 <= b.lod < 0x100,
        ;
        assert(a.face == b.face) by {
            match a.face {
                Face::Px => {}, Face::Nx => {}, Face::Py => {}, Face::Ny => {}, Face::Pz => {}, Face::Nz => {},
            }
        }
    }
}

proof fn lemma_face_ordinal_injective(a: Face, b: Face)
    ensures
        face_ordinal_spec(a) == face_ordinal_spec(b) ==> a == b,
        face_ordinal_spec(a) < 6,
{
}

pub(crate) fn key_code(k: &ChunkKey) -> (c: u128)
    ensures
        c == key_code_spec(*k),
{
    let f = face_index(k.face) as u128;
    f * 0x1_0000_0000_0000_0000_00 + (k.lod as u128) * 0x1_0000_0000_0000_0000 + (k.x as u128) * 0x1_0000_0000
        + (k.y as u128)
}

/// Number of occupied slots.
pub open spec fn count_some<V>(s: Seq<Option<V>>) -> nat
    decreases s.len(),
{
    if s.len() == 0 {
        0
    } else {
        count_some(s.drop_last()) + if s.last() is Some { 1nat } else { 0nat }
    }
}

/// Number of occupied slots over a sequence of slot lists.
pub open spec fn count_nested<V>(s: Seq<Seq<Option<V>>>) -> nat
    decreases s.len(),
{
    if s.len() == 0 {
        0
    } else {
        count_nested(s.drop_last()) + count_some(s.last())
    }
}

/// Number of occupied slots over levels of faces of slot lists.
pub open spec fn count_levels<V>(s: Seq<Seq<Seq<Option<V>>>>) -> nat
    decreases s.len(),
{
    if s.len() == 0 {
        0
    } else {
        count_levels(s.drop_last()) + count_nested(s.last())
    }
}

proof fn lemma_count_some_update<V>(s: Seq<Option<V>>, i: int, v: Option<V>)
    requires
        0 <= i < s.len(),
    ensures
        count_some(s.update(i, v)) + (if s[i] is Some { 1int } else { 0int })
            == count_some(s) + (if v is Some { 1int } else { 0int }),
    decreases s.len(),
{
    let t = s.update(i, v);
    if i == s.len() - 1 {
        assert(t.drop_last() =~= s.drop_last());
    } else {
        lemma_count_some_update(s.drop_last(), i, v);
        assert(t.drop_last() =~= s.drop_last().update(i, v));
    }
}

proof fn lemma_count_nested_update<V>(s: Seq<Seq<Option<V>>>, i: int, v: Seq<Option<V>>)
    requires
        0 <= i < s.len(),
    ensures
        count_nested(s.update(i, v)) + count_some(s[i]) == count_nested(s) + count_some(v),
    decreases s.len(),
{
    let t = s.update(i, v);
    if i == s.len() - 1 {
        assert(t.drop_last() =~= s.drop_last());
    } else {
        lemma_count_nested_update(s.drop_last(), i, v);
        assert(t.drop_last() =~= s.drop_last().update(i, v));
    }
}

proof fn lemma_count_levels_update<V>(s: Seq<Seq<Seq<Option<V>>>>, i: int, v: Seq<Seq<Option<V>>>)
    requires
        0 <= i < s.len(),
    ensures
        count_levels(s.update(i, v)) + count_nested(s[i]) == count_levels(s) + count_nested(v),
    decreases s.len(),
{
    let t = s.update(i, v);
    if i == s.len() - 1 {
        assert(t.drop_last() =~= s.drop_last());
    } else {
        lemma_count_levels_update(s.drop_last(), i, v);
        assert(t.drop_last() =~= s.drop_last().update(i, v));
    }
}

proof fn lemma_count_some_prefix<V>(s: Seq<Option<V>>, n: int)
    requires
        0 <= n <= s.len(),
    ensures
        count_some(s.take(n)) <= count_some(s),
    decreases s.len(),
{
    if n < s.len() {
        lemma_count_some_prefix(s.drop_last(), n);
        assert(s.drop_last().take(n) =~= s.take(n));
    } else {
        assert(s.take(n) =~= s);
    }
}

proof fn lemma_count_nested_ge<V>(s: Seq<Seq<Option<V>>>, i: int)
    requires
        0 <= i < s.len(),
    ensures
        count_some(s[i]) <= count_nested(s),
    decreases s.len(),
{
    if i < s.len() - 1 {
        lemma_count_nested_ge(s.drop_last(), i);
    }
}

proof fn lemma_count_levels_ge<V>(s: Seq<Seq<Seq<Option<V>>>>, i: int)
    requires
        0 <= i < s.len(),
    ensures
        count_nested(s[i]) <= count_levels(s),
    decreases s.len(),
{
    if i < s.len() - 1 {
        lemma_count_levels_ge(s.drop_last(), i);
    }
}

proof fn lemma_count_some_empty<V>(n: nat)
    ensures
        count_some(Seq::<Option<V>>::new(n, |i: int| None::<V>)) == 0,
    decreases n,
{
    if n > 0 {
        lemma_count_some_empty::<V>((n - 1) as nat);
        assert(Seq::<Option<V>>::new(n, |i: int| None::<V>).drop_last()
            =~= Seq::<Option<V>>::new((n - 1) as nat, |i: int| None::<V>));
    }
}

proof fn lemma_count_some_full<V>(s: Seq<Option<V>>)
    requires
        forall|i: int| 0 <= i < s.len() ==> (#[trigger] s[i]) is Some,
    ensures
        count_some(s) == s.len(),
    decreases s.len(),
{
    if s.len() > 0 {
        lemma_count_some_full(s.drop_last());
    }
}

proof fn lemma_count_nested_empty_faces<V>(s: Seq<Seq<Option<V>>>)
    requires
        forall|i: int| 0 <= i < s.len() ==> (#[trigger] s[i]).len() == 0,
    ensures
        count_nested(s) == 0,
    decreases s.len(),
{
    if s.len() > 0 {
        lemma_count_nested_empty_faces(s.drop_last());
    }
}

proof fn lemma_count_levels_empty<V>(s: Seq<Seq<Seq<Option<V>>>>)
    requires
        forall|i: int, j: int| 0 <= i < s.len() && 0 <= j < s[i].len() ==> (#[trigger] s[i][j]).len() == 0,
    ensures
        count_levels(s) == 0,
    decreases s.len(),
{
    if s.len() > 0 {
        lemma_count_levels_empty(s.drop_last());
        lemma_count_nested_empty_faces(s.last());
    }
}

/// Position of a chunk in the slot list of its face at its level.
pub open spec fn slot_of(k: ChunkKey) -> int {
    k.y * resolution_spec(k.lod as nat) + k.x
}

/// The slot of a chunk of a level below 32 is its row times the row length plus its column.
pub proof fn lemma_slot_is_row_major(k: ChunkKey)
    requires
        k.lod < 32,
    ensures
        slot_of(k) == k.y * vstd::arithmetic::power2::pow2(k.lod as nat) + k.x,
{
}

/// Number of slots of one face at `lod`.
pub open spec fn slot_count_spec(lod: nat) -> int {
    (resolution_spec(lod) * resolution_spec(lod)) as int
}

/// Chunk values stored per key: in a dense slot list per (level, face) up to a level, and in a
/// map for the deeper levels.
#[derive(Debug)]
pub struct MetadataStore<V: Copy> {
    dense_max_lod: u8,
    dense_levels: Vec<Vec<Vec<Option<V>>>>,
    sparse_levels: HashMap<u128, V>,
    len: usize,
}

impl<V: Copy> MetadataStore<V> {

    /// A store that keeps levels up to `min(dense_max_lod, runtime_max_lod)` dense and holds
    /// nothing yet.
    pub fn new(runtime_max_lod: u8, dense_max_lod: u8) -> (s: Self)
        ensures
            s.wf(),
            s.dense_max() == if dense_max_lod < runtime_max_lod { dense_max_lod } else { runtime_max_lod },
            s.count() == 0,
            s.sparse_count_spec() == 0,
            forall|k: ChunkKey| (#[trigger] s.get_spec(k)) is None,
            forall|lod: nat, f: Face| !#[trigger] s.face_built(lod, f),
    {
        let dense_max_lod = if dense_max_lod < runtime_max_lod { dense_max_lod } else { runtime_max_lod };
        let level_count = dense_max_lod as usize + 1;
        let mut dense_levels: Vec<Vec<Vec<Option<V>>>> = Vec::new();
        let mut l: usize = 0;
        while l < level_count
            invariant
                l <= level_count,
                level_count == dense_max_lod + 1,
                dense_levels@.len() == l,
                forall|i: int| 0 <= i < l ==> (#[trigger] dense_levels@[i])@.len() == 6,
                forall|i: int, f: int| 0 <= i < l && 0 <= f < 6 ==> (#[trigger] dense_levels@[i]@[f])@.len() == 0,
            decreases level_count - l,
        {
            let mut faces: Vec<Vec<Option<V>>> = Vec::new();
            let mut f: usize = 0;
            while f < 6
                invariant
                    f <= 6,
                    faces@.len() == f,
                    forall|j: int| 0 <= j < f ==> (#[trigger] faces@[j])@.len() == 0,
                decreases 6 - f,
            {
                faces.push(Vec::new());
                f += 1;
            }
            dense_levels.push(faces);
            l += 1;
        }
        let sparse_levels: HashMap<u128, V> = HashMap::new();
        proof {
            let lv = Seq::new(dense_levels@.len(), |i: int|
                Seq::new(dense_levels@[i]@.len(), |f: int| dense_levels@[i]@[f]@));
            lemma_count_levels_empty(lv);
        }
        MetadataStore { dense_max_lod, dense_levels, sparse_levels, len: 0 }
    }

    pub fn len(&self) -> (n: usize)
        requires
            self.wf(),
        ensures
            n == self.count(),
    {
        self.len
    }

    pub fn is_empty(&self) -> (b: bool)
        requires
            self.wf(),
        ensures
            b == (self.count() == 0),
    {
        self.len == 0
    }

    pub fn dense_max_lod(&self) -> (l: u8)
        ensures
            l == self.dense_max(),
    {
        self.dense_max_lod
    }

    pub fn sparse_count(&self) -> (n: usize)
        ensures
            n == self.sparse_count_spec(),
    {
        self.sparse_levels.len()
    }

    fn is_dense_lod(&self, lod: u8) -> (b: bool)
        ensures
            b == (lod <= self.dense_max_lod),
    {
        lod <= self.dense_max_lod
    }

    /// Every face of a dense level has its slot list laid out.
    pub fn level_is_built(&self, lod: u8) -> (b: bool)
        requires
            self.wf(),
        ensures
            b == (lod <= self.dense_max() && forall|f: Face| #[trigger] self.face_built(lod as nat, f)),
    {
        if !self.is_dense_lod(lod) {
            return false;
        }
        let faces = &self.dense_levels[lod as usize];
        let mut f: usize = 0;
        while f < 6
            invariant
                f <= 6,
                faces@.len() == 6,
                *faces == self.dense_levels@[lod as int],
                lod <= self.dense_max_lod,
                forall|j: int| 0 <= j < f ==> (#[trigger] faces@[j])@.len() > 0,
            decreases 6 - f,
        {
            if faces[f].len() == 0 {
                proof {
                    let face = Face::ALL@[f as int];
                    assert(face_ordinal_spec(face) == f) by {
                        assert(f == 0 || f == 1 || f == 2 || f == 3 || f == 4 || f == 5);
                    }
                    assert(!self.face_built(lod as nat, face));
                }
                return false;
            }
            f += 1;
        }
        proof {
            assert forall|face: Face| #[trigger] self.face_built(lod as nat, face) by {
                assert(face_ordinal_spec(face) < 6);
            }
        }
        true
    }

    /// The value stored for `key`.
    pub fn get_stored(&self, key: &ChunkKey) -> (v: Option<V>)
        requires
            self.wf(),
        ensures
            v == self.get_spec(*key),
    {
        if self.is_dense_lod(key.lod) {
            if !key.is_valid_for_lod() {
                return None;
            }
            let slots = &self.dense_levels[key.lod as usize][face_index(key.face)];
            if slots.len() == 0 {
                return None;
            }
            let resolution = ChunkKey::resolution_for_lod(key.lod) as usize;
            proof {
                lemma_resolution_fits(key.lod as nat);
                assert(slots@.len() == slot_count_spec(key.lod as nat));
                assert(key.y * resolution + key.x < resolution * resolution) by (nonlinear_arith)
                    requires key.y < resolution, key.x < resolution;
            }
            slots[key.y as usize * resolution + key.x as usize]
        } else {
            match self.sparse_levels.get(&key_code(key)) {
                Some(v) => Some(*v),
                None => None,
            }
        }
    }

    pub fn contains_key(&self, key: &ChunkKey) -> (b: bool)
        requires
            self.wf(),
        ensures
            b == (self.get_spec(*key) is Some),
    {
        self.get_stored(key).is_some()
    }


    /// Stores `value` for `key`, returning the value it replaces. A key of a dense level must be
    /// valid; the slot list of its face is laid out on first use.
    pub fn insert(&mut self, key: ChunkKey, value: V) -> (r: Result<Option<V>, TopologyError>)
        requires
            old(self).wf(),
            old(self).count() < usize::MAX,
            key.lod <= old(self).dense_max() && key.valid() ==> slot_count_spec(key.lod as nat) <= usize::MAX,
        ensures
            final(self).wf(),
            final(self).dense_max() == old(self).dense_max(),
            key.lod <= old(self).dense_max() && !key.valid() ==> {
                &&& r == Err::<Option<V>, TopologyError>(TopologyError::InvalidChunkKey)
                &&& *final(self) == *old(self)
            },
            !(key.lod <= old(self).dense_max() && !key.valid()) ==> {
                &&& r == Ok::<Option<V>, TopologyError>(old(self).get_spec(key))
                &&& final(self).get_spec(key) == Some(value)
                &&& forall|k: ChunkKey| k != key ==> #[trigger] final(self).get_spec(k) == old(self).get_spec(k)
                &&& final(self).count() == old(self).count() + if old(self).get_spec(key) is None { 1int } else { 0int }
                &&& forall|lod: nat, f: Face| #[trigger] final(self).face_built(lod, f)
                    == (old(self).face_built(lod, f) || (key.lod <= old(self).dense_max() && lod == key.lod && f == key.face))
            },
    {
        if self.is_dense_lod(key.lod) {
            if !key.is_valid_for_lod() {
                return Err(TopologyError::InvalidChunkKey);
            }
            Ok(self.insert_dense(key, value))
        } else {
            Ok(self.insert_sparse(key, value))
        }
    }

    fn insert_dense(&mut self, key: ChunkKey, value: V) -> (previous: Option<V>)
        requires
            old(self).wf(),
            old(self).count() < usize::MAX,
            key.lod <= old(self).dense_max_lod,
            key.valid(),
            slot_count_spec(key.lod as nat) <= usize::MAX,
        ensures
            previous == old(self).get_spec(key),
            final(self).wf(),
            final(self).dense_max() == old(self).dense_max(),
            final(self).get_spec(key) == Some(value),
            forall|k: ChunkKey| k != key ==> #[trigger] final(self).get_spec(k) == old(self).get_spec(k),
            final(self).count() == old(self).count() + if old(self).get_spec(key) is None { 1int } else { 0int },
            forall|lod: nat, f: Face| #[trigger] final(self).face_built(lod, f)
                == (old(self).face_built(lod, f) || (lod == key.lod && f == key.face)),
    {
        let ghost old_levels = self.levels();
        let resolution = ChunkKey::resolution_for_lod(key.lod) as usize;
        proof {
            lemma_resolution_fits(key.lod as nat);
            assert(key.y * resolution + key.x < resolution * resolution) by (nonlinear_arith)
                requires key.y < resolution, key.x < resolution;
        }
        let slot_count = resolution * resolution;
        let slot = key.y as usize * resolution + key.x as usize;
        let l = key.lod as usize;
        let f = face_index(key.face);
        let ghost fresh_face = self.dense_levels@[l as int]@[f as int]@.len() == 0;
        if self.dense_levels[l][f].len() == 0 {
            self.dense_levels[l][f].resize(slot_count, None);
            proof {
                assert(self.dense_levels@[l as int]@[f as int]@ =~= Seq::new(slot_count as nat, |i: int| None::<V>));
                lemma_count_some_empty::<V>(slot_count as nat);
                lemma_count_nested_update(old_levels[l as int], f as int, Seq::new(slot_count as nat, |i: int| None::<V>));
                lemma_count_levels_update(old_levels, l as int,
                    old_levels[l as int].update(f as int, Seq::new(slot_count as nat, |i: int| None::<V>)));
                assert(self.levels() =~~= old_levels.update(l as int,
                    old_levels[l as int].update(f as int, Seq::new(slot_count as nat, |i: int| None::<V>))));
            }
        }
        let ghost mid_levels = self.levels();
        let previous = self.dense_levels[l][f][slot];
        self.dense_levels[l][f].set(slot, Some(value));
        if previous.is_none() {
            self.len = self.len + 1;
        }
        proof {
            let slots = mid_levels[l as int][f as int];
            lemma_count_some_update(slots, slot as int, Some(value));
            lemma_count_nested_update(mid_levels[l as int], f as int, slots.update(slot as int, Some(value)));
            lemma_count_levels_update(mid_levels, l as int,
                mid_levels[l as int].update(f as int, slots.update(slot as int, Some(value))));
            assert(self.levels() =~~= mid_levels.update(l as int,
                mid_levels[l as int].update(f as int, slots.update(slot as int, Some(value)))));
            let old_slots = old(self).dense_levels@[l as int]@[f as int]@;
            let base = if fresh_face { Seq::new(slot_count as nat, |i: int| None::<V>) } else { old_slots };
            assert(self.dense_levels@[l as int]@[f as int]@ == base.update(slot as int, Some(value)));
            assert forall|k: ChunkKey| k != key implies #[trigger] self.get_spec(k) == old(self).get_spec(k) by {
                lemma_face_ordinal_injective(k.face, key.face);
                if k.lod <= self.dense_max_lod {
                    let kl = k.lod as int;
                    let kf = face_ordinal_spec(k.face) as int;
                    if kl == l && kf == f {
                        assert(k.face == key.face);
                        if k.valid() {
                            assert(slot_of(k) != slot_of(key)) by (nonlinear_arith)
                                requires
                                    k != key, k.lod == key.lod, k.face == key.face,
                                    k.x < resolution, k.y < resolution, key.x < resolution, key.y < resolution,
                                    slot_of(k) == k.y * resolution + k.x,
                                    slot_of(key) == key.y * resolution + key.x;
                            assert(0 <= slot_of(k) < resolution * resolution) by (nonlinear_arith)
                                requires
                                    k.x < resolution, k.y < resolution,
                                    slot_of(k) == k.y * resolution + k.x;
                        }
                    } else {
                        assert(self.dense_levels@[kl]@[kf] == old(self).dense_levels@[kl]@[kf]);
                    }
                }
            }
            assert forall|lod: nat, fc: Face| #[trigger] self.face_built(lod, fc)
                == (old(self).face_built(lod, fc) || (lod == key.lod && fc == key.face)) by {
                lemma_face_ordinal_injective(fc, key.face);
            }
        }
        assert(previous == old(self).get_spec(key));
        assert(self.get_spec(key) == Some(value));
        assert(self.count() == old(self).count() + if old(self).get_spec(key) is None { 1int } else { 0int });
        assert(self.wf());
        previous
    }

    fn insert_sparse(&mut self, key: ChunkKey, value: V) -> (previous: Option<V>)
        requires
            old(self).wf(),
            old(self).count() < usize::MAX,
            key.lod > old(self).dense_max_lod,
        ensures
            previous == old(self).get_spec(key),
            final(self).wf(),
            final(self).dense_max() == old(self).dense_max(),
            final(self).get_spec(key) == Some(value),
            forall|k: ChunkKey| k != key ==> #[trigger] final(self).get_spec(k) == old(self).get_spec(k),
            final(self).count() == old(self).count() + if old(self).get_spec(key) is None { 1int } else { 0int },
            forall|lod: nat, f: Face| #[trigger] final(self).face_built(lod, f) == old(self).face_built(lod, f),
    {
        let code = key_code(&key);
        let previous = self.sparse_levels.insert(code, value);
        if previous.is_none() {
            self.len = self.len + 1;
        }
        proof {
            assert forall|k: ChunkKey| k != key implies #[trigger] self.get_spec(k) == old(self).get_spec(k) by {
                lemma_key_code_injective(k, key);
            }
            if previous is Some {
                assert(self.sparse_levels@.len() == old(self).sparse_levels@.len()) by {
                    assert(self.sparse_levels@ =~= old(self).sparse_levels@.insert(code, value));
                }
            }
            assert(self.levels() =~~= old(self).levels());
        }
        previous
    }


    /// Number of values stored in the slot list of `face` at dense level `lod`.
    pub closed spec fn face_count(self, lod: nat, face: Face) -> nat {
        count_some(self.dense_levels@[lod as int]@[face_ordinal_spec(face) as int]@)
    }

    fn face_slot_count(&self, lod: u8) -> (n: usize)
        requires
            slot_count_spec(lod as nat) <= usize::MAX,
        ensures
            n == slot_count_spec(lod as nat),
    {
        let resolution = ChunkKey::resolution_for_lod(lod) as usize;
        resolution * resolution
    }

    /// Replaces the whole slot list of `face` at dense level `lod` with `entries`, given in
    /// row-major slot order.
    pub fn set_face_level(&mut self, face: Face, lod: u8, entries: Vec<V>) -> (r: Result<(), TopologyError>)
        requires
            old(self).wf(),
            slot_count_spec(lod as nat) <= usize::MAX,
            old(self).count() + entries@.len() <= usize::MAX,
        ensures
            final(self).wf(),
            final(self).dense_max() == old(self).dense_max(),
            (lod > old(self).dense_max() || entries@.len() != slot_count_spec(lod as nat)) ==> {
                &&& r == Err::<(), TopologyError>(TopologyError::InvalidChunkKey)
                &&& *final(self) == *old(self)
            },
            !(lod > old(self).dense_max() || entries@.len() != slot_count_spec(lod as nat)) ==> {
                &&& r is Ok
                &&& forall|k: ChunkKey| k.face == face && k.lod == lod && k.valid()
                    ==> #[trigger] final(self).get_spec(k) == Some(entries@[slot_of(k)])
                &&& forall|k: ChunkKey| k.face == face && k.lod == lod && k.valid() && lod < 32
                    ==> #[trigger] final(self).get_spec(k)
                        == Some(entries@[k.y * vstd::arithmetic::power2::pow2(lod as nat) + k.x])
                &&& forall|k: ChunkKey| !(k.face == face && k.lod == lod)
                    ==> #[trigger] final(self).get_spec(k) == old(self).get_spec(k)
                &&& final(self).count() == old(self).count() - old(self).face_count(lod as nat, face) + entries@.len()
                &&& forall|l: nat, f: Face| #[trigger] final(self).face_built(l, f)
                    == (old(self).face_built(l, f) || (l == lod && f == face && entries@.len() > 0))
            },
    {
        if !self.is_dense_lod(lod) {
            return Err(TopologyError::InvalidChunkKey);
        }
        let slot_count = self.face_slot_count(lod);
        if entries.len() != slot_count {
            return Err(TopologyError::InvalidChunkKey);
        }
        let l = lod as usize;
        let fi = face_index(face);
        let ghost old_levels = self.levels();
        let ghost old_slots = self.dense_levels@[l as int]@[fi as int]@;
        proof {
            lemma_count_nested_ge(old_levels[l as int], fi as int);
            lemma_count_levels_ge(old_levels, l as int);
        }
        let mut previous_count: usize = 0;
        let mut i: usize = 0;
        let n = self.dense_levels[l][fi].len();
        while i < n
            invariant
                i <= n,
                n == old_slots.len(),
                old_slots == self.dense_levels@[l as int]@[fi as int]@,
                previous_count == count_some(old_slots.take(i as int)),
                count_some(old_slots) <= old(self).count(),
                old(self).count() <= usize::MAX,
                *self == *old(self),
                l < self.dense_levels@.len(),
                fi < self.dense_levels@[l as int]@.len(),
            decreases n - i,
        {
            proof {
                assert(old_slots.take((i + 1) as int).drop_last() =~= old_slots.take(i as int));
                lemma_count_some_prefix(old_slots, (i + 1) as int);
            }
            if self.dense_levels[l][fi][i].is_some() {
                previous_count += 1;
            }
            i += 1;
        }
        proof {
            assert(old_slots.take(n as int) =~= old_slots);
        }
        let mut slots: Vec<Option<V>> = Vec::new();
        let mut j: usize = 0;
        while j < entries.len()
            invariant
                j <= entries@.len(),
                slots@.len() == j,
                forall|t: int| 0 <= t < j ==> #[trigger] slots@[t] == Some(entries@[t]),
            decreases entries@.len() - j,
        {
            slots.push(Some(entries[j]));
            j += 1;
        }
        proof {
            lemma_count_some_full(slots@);
            lemma_count_nested_update(old_levels[l as int], fi as int, slots@);
            lemma_count_levels_update(old_levels, l as int, old_levels[l as int].update(fi as int, slots@));
        }
        self.len = if self.len >= previous_count { self.len - previous_count } else { 0 };
        self.len = self.len + entries.len();
        self.dense_levels[l][fi] = slots;
        proof {
            assert(self.levels() =~~= old_levels.update(l as int, old_levels[l as int].update(fi as int, slots@)));
            assert forall|k: ChunkKey| k.face == face && k.lod == lod && k.valid()
                implies #[trigger] self.get_spec(k) == Some(entries@[slot_of(k)]) by {
                let res = resolution_spec(lod as nat);
                assert(0 <= slot_of(k) < res * res) by (nonlinear_arith)
                    requires k.x < res, k.y < res, slot_of(k) == k.y * res + k.x;
            }
            assert forall|k: ChunkKey| !(k.face == face && k.lod == lod)
                implies #[trigger] self.get_spec(k) == old(self).get_spec(k) by {
                lemma_face_ordinal_injective(k.face, face);
            }
            assert forall|k: ChunkKey| k.face == face && k.lod == lod && k.valid() && lod < 32
                implies #[trigger] self.get_spec(k)
                    == Some(entries@[k.y * vstd::arithmetic::power2::pow2(lod as nat) + k.x]) by {
                lemma_slot_is_row_major(k);
            }
            assert forall|lv: nat, fc: Face| #[trigger] self.face_built(lv, fc)
                == (old(self).face_built(lv, fc) || (lv == lod && fc == face && entries@.len() > 0)) by {
                lemma_face_ordinal_injective(fc, face);
            }
        }
        Ok(())
    }

    /// The dense slot lists as plain sequences.
    pub closed spec fn levels(self) -> Seq<Seq<Seq<Option<V>>>> {
        Seq::new(self.dense_levels@.len(), |l: int|
            Seq::new(self.dense_levels@[l]@.len(), |f: int| self.dense_levels@[l]@[f]@))
    }

    /// The slot lists have one list per face and level, each empty or of full size, and the
    /// stored count matches the occupied slots and map entries.
    pub closed spec fn wf(self) -> bool {
        &&& self.dense_levels@.len() == self.dense_max_lod + 1
        &&& forall|l: int| 0 <= l < self.dense_levels@.len() ==> (#[trigger] self.dense_levels@[l])@.len() == 6
        &&& forall|l: int, f: int| 0 <= l < self.dense_levels@.len() && 0 <= f < 6 ==> {
            let n = (#[trigger] self.dense_levels@[l]@[f])@.len();
            n == 0 || n == slot_count_spec(l as nat)
        }
        &&& self.len == count_levels(self.levels()) + self.sparse_levels@.len()
    }

    /// The deepest level kept in dense slot lists.
    pub closed spec fn dense_max(self) -> u8 {
        self.dense_max_lod
    }

    /// The slot list of `face` at `lod` has been laid out.
    pub closed spec fn face_built(self, lod: nat, face: Face) -> bool {
        lod <= self.dense_max_lod && self.dense_levels@[lod as int]@[face_ordinal_spec(face) as int]@.len() > 0
    }

    /// The value stored for `k`, if any.
    pub closed spec fn get_spec(self, k: ChunkKey) -> Option<V> {
        if k.lod <= self.dense_max_lod {
            let slots = self.dense_levels@[k.lod as int]@[face_ordinal_spec(k.face) as int]@;
            if k.valid() && slots.len() > 0 {
                slots[slot_of(k)]
            } else {
                None
            }
        } else if self.sparse_levels@.contains_key(key_code_spec(k)) {
            Some(self.sparse_levels@[key_code_spec(k)])
        } else {
            None
        }
    }

    /// Number of stored values.
    pub closed spec fn count(self) -> nat {
        count_levels(self.levels()) + self.sparse_levels@.len()
    }

    /// Number of values stored above the dense levels.
    pub closed spec fn sparse_count_spec(self) -> nat {
        self.sparse_levels@.len()
    }
}

} // verus!
