use vstd::prelude::*;
use crate::chunk::{ChunkKey, face_ordinal_spec};
use crate::metadata::{key_code, key_code_spec};

verus! {

broadcast use vstd::seq_lib::group_to_multiset_ensures;

/// Keys in ascending order: by face, then level, then x, then y.
pub open spec fn keys_sorted(s: Seq<ChunkKey>) -> bool {
    forall|i: int, j: int| 0 <= i < j < s.len() ==> key_code_spec(#[trigger] s[i]) <= key_code_spec(#[trigger] s[j])
}

/// The order of key codes is the lexicographic order of (face, level, x, y), the field order
/// of `ChunkKey`.
pub proof fn lemma_key_code_order(a: ChunkKey, b: ChunkKey)
    ensures
        (key_code_spec(a) < key_code_spec(b)) == (
            face_ordinal_spec(a.face) < face_ordinal_spec(b.face)
            || (face_ordinal_spec(a.face) == face_ordinal_spec(b.face) && a.lod < b.lod)
            || (face_ordinal_spec(a.face) == face_ordinal_spec(b.face) && a.lod == b.lod && a.x < b.x)
            || (face_ordinal_spec(a.face) == face_ordinal_spec(b.face) && a.lod == b.lod && a.x == b.x
                && a.y < b.y)
        ),
{
    let fa = face_ordinal_spec(a.face) as int;
    let fb = face_ordinal_spec(b.face) as int;
    assert(fa < 6 && fb < 6);
}

/// Swaps two neighboring entries.
fn swap_adjacent(v: &mut Vec<ChunkKey>, j: usize)
    requires
        0 < j < old(v).len(),
    ensures
        final(v)@ == old(v)@.update(j as int, old(v)@[j - 1]).update(j - 1, old(v)@[j as int]),
        final(v)@.to_multiset() == old(v)@.to_multiset(),
{
    let x = v[j];
    let y = v[j - 1];
    proof {
        let s0 = v@;
        let s1 = s0.update(j as int, y);
        let s2 = s1.update(j - 1, x);
        assert(s2.to_multiset() =~= s0.to_multiset()) by {
            broadcast use vstd::multiset::group_multiset_properties;
            assert(s1.to_multiset() == s0.to_multiset().insert(y).remove(x));
            assert(s2.to_multiset() == s1.to_multiset().insert(x).remove(y));
        }
    }
    v.set(j, y);
    v.set(j - 1, x);
}

/// Sorts keys ascending (face, level, x, y), as `sort_unstable` on `ChunkKey` does.
pub fn sort_keys(v: &mut Vec<ChunkKey>)
    ensures
        final(v)@.to_multiset() == old(v)@.to_multiset(),
        final(v)@.len() == old(v)@.len(),
        keys_sorted(final(v)@),
{
    let n = v.len();
    let mut i: usize = 0;
    while i < n
        invariant
            i <= n,
            v@.len() == n,
            v@.to_multiset() == old(v)@.to_multiset(),
            forall|a: int, b: int| 0 <= a < b < i ==> key_code_spec(#[trigger] v@[a]) <= key_code_spec(#[trigger] v@[b]),
        decreases n - i,
    {
        let mut j: usize = i;
        while j > 0 && key_code(&v[j]) < key_code(&v[j - 1])
            invariant
                j <= i < n,
                v@.len() == n,
                v@.to_multiset() == old(v)@.to_multiset(),
                forall|a: int, b: int| 0 <= a < b <= i && a != j && b != j
                    ==> key_code_spec(#[trigger] v@[a]) <= key_code_spec(#[trigger] v@[b]),
                forall|b: int| j < b <= i ==> key_code_spec(v@[j as int]) <= key_code_spec(#[trigger] v@[b]),
            decreases j,
        {
            swap_adjacent(v, j);
            j -= 1;
        }
        proof {
            assert forall|a: int, b: int| 0 <= a < b <= i implies key_code_spec(#[trigger] v@[a])
                <= key_code_spec(#[trigger] v@[b]) by {
                if b == j && a + 1 < j {
                    assert(key_code_spec(v@[a]) <= key_code_spec(v@[j - 1]));
                }
            }
        }
        i += 1;
    }
}

/// Keys in strictly ascending order (hence without repeats).
pub open spec fn keys_strictly_sorted(s: Seq<ChunkKey>) -> bool {
    forall|i: int, j: int| 0 <= i < j < s.len() ==> key_code_spec(#[trigger] s[i]) < key_code_spec(#[trigger] s[j])
}

/// Sorts a list of distinct keys ascending: the same keys, strictly ordered.
pub fn sort_key_set(v: &mut Vec<ChunkKey>)
    requires
        old(v)@.no_duplicates(),
    ensures
        keys_strictly_sorted(final(v)@),
        final(v)@.len() == old(v)@.len(),
        forall|k: ChunkKey| #[trigger] final(v)@.contains(k) == old(v)@.contains(k),
{
    let ghost before = v@;
    sort_keys(v);
    proof {
        broadcast use vstd::multiset::group_multiset_axioms;
        before.lemma_multiset_has_no_duplicates();
        assert forall|k: ChunkKey| v@.to_multiset().contains(k) implies v@.to_multiset().count(k) == 1 by {
            assert(before.to_multiset().contains(k));
        }
        v@.lemma_multiset_has_no_duplicates_conv();
        assert forall|k: ChunkKey| #[trigger] v@.contains(k) == before.contains(k) by {
            assert(v@.contains(k) == (v@.to_multiset().count(k) > 0));
            assert(before.contains(k) == (before.to_multiset().count(k) > 0));
        }
        assert forall|i: int, j: int| 0 <= i < j < v@.len() implies key_code_spec(#[trigger] v@[i]) < key_code_spec(#[trigger] v@[j]) by {
            crate::metadata::lemma_key_code_injective(v@[i], v@[j]);
        }
    }
}

} // verus!
