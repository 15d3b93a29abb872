use vstd::prelude::*;
use vstd::arithmetic::power2::{pow2, lemma_pow2_pos, lemma2_to64};
use vstd::arithmetic::div_mod::lemma_div_denominator;
use crate::chunk::{
    ChunkKey, Edge, lemma_ancestor_of_key, lemma_descends_from_reflexive,
    lemma_descends_from_transitive,
};
use crate::topology::{TopologyError, neighbor_spec, same_lod_neighbors, lemma_neighbor_round_trip};
use crate::metadata::MetadataStore;
use crate::mesh_topology::{fine_to_coarse_mask, stitch_mask_from_neighbor_lods, variant_spec, CANONICAL_TOPOLOGY_CLASS};
use crate::surface::SurfaceClassKey;

verus! {

/// `k` itself or the nearest of its ancestors that `s` holds.
pub open spec fn covering_ancestor(s: Seq<ChunkKey>, k: ChunkKey) -> Option<ChunkKey>
    decreases k.lod,
{
    if s.contains(k) {
        Some(k)
    } else if k.lod > 0 {
        covering_ancestor(s, k.parent_spec().unwrap())
    } else {
        None
    }
}

/// No key of `s` lies inside another key of `s` (nor occurs twice).
pub open spec fn is_antichain(s: Seq<ChunkKey>) -> bool {
    forall|i: int, j: int|
        0 <= i < s.len() && 0 <= j < s.len() && i != j ==> !(#[trigger] s[i]).descends_from(#[trigger] s[j])
}

/// Every key of `s` addresses an existing chunk.
pub open spec fn all_valid(s: Seq<ChunkKey>) -> bool {
    forall|i: int| 0 <= i < s.len() ==> (#[trigger] s[i]).valid()
}

/// Across `e`, chunk `k` meets a selected chunk more than one level coarser than itself.
pub open spec fn lod_gap(s: Seq<ChunkKey>, k: ChunkKey, e: Edge) -> bool {
    match covering_ancestor(s, neighbor_spec(k, e)) {
        Some(a) => k.lod > a.lod + 1,
        None => false,
    }
}

/// No selected chunk meets a selected neighbor more than one level coarser than itself.
pub open spec fn lod_balanced(s: Seq<ChunkKey>) -> bool {
    forall|i: int, e: Edge| 0 <= i < s.len() ==> !#[trigger] lod_gap(s, s[i], e)
}

/// The ancestor of `k` one level finer than the coarse chunk it meets across `e`: collapsing
/// the selection there closes the gap.
pub open spec fn gap_target(s: Seq<ChunkKey>, k: ChunkKey, e: Edge) -> ChunkKey {
    k.ancestor_spec((covering_ancestor(s, neighbor_spec(k, e)).unwrap().lod + 1) as nat).unwrap()
}

/// `t` closes some gap of `s`.
pub open spec fn is_gap_target(s: Seq<ChunkKey>, t: ChunkKey) -> bool {
    exists|i: int, e: Edge| 0 <= i < s.len() && #[trigger] lod_gap(s, s[i], e) && t == gap_target(s, s[i], e)
}

/// Sum over the keys of their level plus one: collapsing chunks into an ancestor lowers it.
pub open spec fn lod_weight(s: Seq<ChunkKey>) -> nat
    decreases s.len(),
{
    if s.len() == 0 {
        0
    } else {
        lod_weight(s.drop_last()) + s.last().lod as nat + 1
    }
}

/// `s` without the keys that lie inside `t` (`t` itself included), in order.
pub open spec fn without_descendants(s: Seq<ChunkKey>, t: ChunkKey) -> Seq<ChunkKey>
    decreases s.len(),
{
    if s.len() == 0 {
        s
    } else {
        let rest = without_descendants(s.drop_last(), t);
        if s.last().descends_from(t) {
            rest
        } else {
            rest.push(s.last())
        }
    }
}

/// Some key of `s` lies inside `t`.
pub open spec fn has_descendant(s: Seq<ChunkKey>, t: ChunkKey) -> bool {
    exists|i: int| 0 <= i < s.len() && (#[trigger] s[i]).descends_from(t)
}

/// The selection after collapsing everything inside `t` into `t`.
pub open spec fn collapsed(s: Seq<ChunkKey>, t: ChunkKey) -> Seq<ChunkKey> {
    if has_descendant(s, t) {
        without_descendants(s, t).push(t)
    } else {
        s
    }
}

/// The parent of a key is its ancestor one level up.
pub proof fn lemma_parent_is_ancestor(k: ChunkKey)
    requires
        k.lod > 0,
    ensures
        k.parent_spec() == k.ancestor_spec((k.lod - 1) as nat),
        k.descends_from(k.parent_spec().unwrap()),
        k.valid() ==> k.parent_spec().unwrap().valid(),
        k.parent_spec().unwrap().lod == k.lod - 1,
{
    lemma2_to64();
    lemma_ancestor_of_key(k, (k.lod - 1) as nat);
}

/// A key that descends from another of the same level is that key.
pub proof fn lemma_descends_same_level(a: ChunkKey, b: ChunkKey)
    requires
        a.descends_from(b),
        a.lod == b.lod,
    ensures
        a == b,
{
    lemma2_to64();
    assert(a.x as nat / pow2(0) == a.x);
    assert(a.y as nat / pow2(0) == a.y);
}

/// The ancestors of a key are nested: of two of them, the finer one lies inside the coarser.
pub proof fn lemma_ancestors_nested(a: ChunkKey, b: ChunkKey, c: ChunkKey)
    requires
        a.descends_from(b),
        a.descends_from(c),
        c.lod <= b.lod,
    ensures
        b.descends_from(c),
{
    let d1 = (a.lod - b.lod) as nat;
    let d2 = (b.lod - c.lod) as nat;
    lemma_pow2_pos(d1);
    lemma_pow2_pos(d2);
    vstd::arithmetic::power2::lemma_pow2_adds(d1, d2);
    assert((a.lod - c.lod) as nat == d1 + d2);
    lemma_div_denominator(a.x as int, pow2(d1) as int, pow2(d2) as int);
    lemma_div_denominator(a.y as int, pow2(d1) as int, pow2(d2) as int);
}

/// What `covering_ancestor` finds is a held key that `k` descends from, no finer than `k`;
/// when it finds nothing, no held key contains `k`.
pub proof fn lemma_covering_ancestor(s: Seq<ChunkKey>, k: ChunkKey)
    ensures
        match covering_ancestor(s, k) {
            Some(a) => s.contains(a) && k.descends_from(a) && a.lod <= k.lod && (k.valid() ==> a.valid()),
            None => forall|i: int| 0 <= i < s.len() ==> !k.descends_from(#[trigger] s[i]),
        },
    decreases k.lod,
{
    if s.contains(k) {
        lemma_descends_from_reflexive(k);
    } else if k.lod > 0 {
        let p = k.parent_spec().unwrap();
        lemma_parent_is_ancestor(k);
        lemma_covering_ancestor(s, p);
        match covering_ancestor(s, p) {
            Some(a) => {
                lemma_descends_from_transitive(k, p, a);
            },
            None => {
                assert forall|i: int| 0 <= i < s.len() implies !k.descends_from(#[trigger] s[i]) by {
                    if k.descends_from(s[i]) {
                        if s[i].lod == k.lod {
                            lemma_descends_same_level(k, s[i]);
                        } else {
                            lemma_ancestors_nested(k, p, s[i]);
                        }
                    }
                }
            },
        }
    } else {
        assert forall|i: int| 0 <= i < s.len() implies !k.descends_from(#[trigger] s[i]) by {
            if k.descends_from(s[i]) {
                lemma_descends_same_level(k, s[i]);
            }
        }
    }
}

/// The same `covering_ancestor` is found in two selections that agree on which keys contain `k`.
pub proof fn lemma_covering_ancestor_depends_on_containers(s1: Seq<ChunkKey>, s2: Seq<ChunkKey>, k: ChunkKey)
    requires
        forall|a: ChunkKey| k.descends_from(a) ==> (s1.contains(a) == s2.contains(a)),
    ensures
        covering_ancestor(s1, k) == covering_ancestor(s2, k),
    decreases k.lod,
{
    lemma_descends_from_reflexive(k);
    if !s1.contains(k) && k.lod > 0 {
        let p = k.parent_spec().unwrap();
        lemma_parent_is_ancestor(k);
        assert forall|a: ChunkKey| p.descends_from(a) implies (s1.contains(a) == s2.contains(a)) by {
            lemma_descends_from_transitive(k, p, a);
        }
        lemma_covering_ancestor_depends_on_containers(s1, s2, p);
    }
}


/// An antichain is a list without repeats whose distinct members do not contain each other.
pub proof fn lemma_antichain_by_members(s: Seq<ChunkKey>)
    ensures
        is_antichain(s) == (s.no_duplicates() && forall|a: ChunkKey, b: ChunkKey|
            s.contains(a) && s.contains(b) && a != b ==> !a.descends_from(b)),
{
    if is_antichain(s) {
        assert forall|i: int, j: int| 0 <= i < s.len() && 0 <= j < s.len() && i != j implies s[i] != s[j] by {
            if s[i] == s[j] {
                lemma_descends_from_reflexive(s[i]);
                assert(s[i].descends_from(s[j]));
            }
        }
        assert forall|a: ChunkKey, b: ChunkKey| s.contains(a) && s.contains(b) && a != b implies !a.descends_from(b) by {
            let i = choose|i: int| 0 <= i < s.len() && s[i] == a;
            let j = choose|j: int| 0 <= j < s.len() && s[j] == b;
            assert(s[i].descends_from(s[j]) == a.descends_from(b));
        }
    }
    if s.no_duplicates() && forall|a: ChunkKey, b: ChunkKey|
        s.contains(a) && s.contains(b) && a != b ==> !a.descends_from(b) {
        assert forall|i: int, j: int| 0 <= i < s.len() && 0 <= j < s.len() && i != j
            implies !(#[trigger] s[i]).descends_from(#[trigger] s[j]) by {
            assert(s.contains(s[i]) && s.contains(s[j]));
        }
    }
}

/// What removing the keys inside `t` keeps: the other keys, no longer and no heavier.
pub proof fn lemma_without_descendants(s: Seq<ChunkKey>, t: ChunkKey)
    ensures
        forall|x: ChunkKey| #[trigger] without_descendants(s, t).contains(x) == (s.contains(x) && !x.descends_from(t)),
        s.no_duplicates() ==> without_descendants(s, t).no_duplicates(),
        without_descendants(s, t).len() <= s.len(),
        has_descendant(s, t) ==> without_descendants(s, t).len() + 1 <= s.len(),
        lod_weight(without_descendants(s, t)) <= lod_weight(s),
        has_descendant(s, t) ==> lod_weight(without_descendants(s, t)) + t.lod + 1 <= lod_weight(s),
        (exists|i: int| 0 <= i < s.len() && (#[trigger] s[i]).descends_from(t) && s[i] != t)
            ==> lod_weight(without_descendants(s, t)) + t.lod + 2 <= lod_weight(s),
    decreases s.len(),
{
    if s.len() > 0 {
        let p = s.drop_last();
        let x = s.last();
        lemma_without_descendants(p, t);
        let w = without_descendants(p, t);
        assert(s =~= p.push(x));
        assert forall|y: ChunkKey| #[trigger] s.contains(y) == (p.contains(y) || y == x) by {
            if s.contains(y) {
                let i = choose|i: int| 0 <= i < s.len() && s[i] == y;
                if i < p.len() {
                    assert(p[i] == y);
                }
            }
            if p.contains(y) {
                let i = choose|i: int| 0 <= i < p.len() && p[i] == y;
                assert(s[i] == y);
            }
            if y == x {
                assert(s[s.len() - 1] == y);
            }
        }
        if x.descends_from(t) {
            if x != t {
                assert(x.lod != t.lod) by {
                    if x.lod == t.lod {
                        lemma_descends_same_level(x, t);
                    }
                }
            }
        } else {
            assert forall|y: ChunkKey| #[trigger] w.push(x).contains(y) == (w.contains(y) || y == x) by {
                if w.push(x).contains(y) {
                    let i = choose|i: int| 0 <= i < w.push(x).len() && w.push(x)[i] == y;
                    if i < w.len() {
                        assert(w[i] == y);
                    }
                }
                if w.contains(y) {
                    let i = choose|i: int| 0 <= i < w.len() && w[i] == y;
                    assert(w.push(x)[i] == y);
                }
                if y == x {
                    assert(w.push(x)[w.len() as int] == y);
                }
            }
            assert(w.push(x).drop_last() =~= w);
            if s.no_duplicates() {
                assert(!p.contains(x)) by {
                    if p.contains(x) {
                        let i = choose|i: int| 0 <= i < p.len() && p[i] == x;
                        assert(s[i] == s[s.len() - 1]);
                    }
                }
                assert(p.no_duplicates()) by {
                    assert forall|i: int, j: int| 0 <= i < p.len() && 0 <= j < p.len() && i != j implies p[i] != p[j] by {
                        assert(s[i] == p[i] && s[j] == p[j]);
                    }
                }
                assert(w.push(x).no_duplicates()) by {
                    assert forall|i: int, j: int| 0 <= i < w.push(x).len() && 0 <= j < w.push(x).len() && i != j
                        implies w.push(x)[i] != w.push(x)[j] by {
                        if i < w.len() && j < w.len() {
                            assert(w.push(x)[i] == w[i] && w.push(x)[j] == w[j]);
                        } else if i < w.len() {
                            assert(w.contains(w[i]));
                        } else {
                            assert(w.contains(w[j]));
                        }
                    }
                }
            }
        }
        if has_descendant(s, t) && !has_descendant(p, t) {
            let i = choose|i: int| 0 <= i < s.len() && (#[trigger] s[i]).descends_from(t);
            if i < p.len() {
                assert(p[i] == s[i]);
            }
        }
        if exists|i: int| 0 <= i < s.len() && (#[trigger] s[i]).descends_from(t) && s[i] != t {
            let i = choose|i: int| 0 <= i < s.len() && (#[trigger] s[i]).descends_from(t) && s[i] != t;
            if i < p.len() {
                assert(p[i] == s[i]);
                assert(has_descendant(p, t));
            }
        }
        if has_descendant(p, t) {
            let i = choose|i: int| 0 <= i < p.len() && (#[trigger] p[i]).descends_from(t);
            assert(s[i] == p[i]);
        }
    }
}

/// Collapsing into `t` keeps an antichain an antichain and valid keys valid, lowers the weight
/// and does not lengthen the selection.
pub proof fn lemma_collapsed(s: Seq<ChunkKey>, t: ChunkKey)
    requires
        t.valid(),
    ensures
        is_antichain(s) ==> is_antichain(collapsed(s, t)),
        all_valid(s) ==> all_valid(collapsed(s, t)),
        collapsed(s, t).len() <= s.len(),
        lod_weight(collapsed(s, t)) <= lod_weight(s),
        (exists|i: int| 0 <= i < s.len() && (#[trigger] s[i]).descends_from(t) && s[i] != t)
            ==> lod_weight(collapsed(s, t)) < lod_weight(s),
        forall|x: ChunkKey| #[trigger] collapsed(s, t).contains(x)
            == if has_descendant(s, t) { (s.contains(x) && !x.descends_from(t)) || x == t } else { s.contains(x) },
{
    lemma_without_descendants(s, t);
    if has_descendant(s, t) {
        let w = without_descendants(s, t);
        let c = w.push(t);
        assert(c.drop_last() =~= w);
        assert forall|y: ChunkKey| #[trigger] c.contains(y) == (w.contains(y) || y == t) by {
            if c.contains(y) {
                let i = choose|i: int| 0 <= i < c.len() && c[i] == y;
                if i < w.len() {
                    assert(w[i] == y);
                }
            }
            if w.contains(y) {
                let i = choose|i: int| 0 <= i < w.len() && w[i] == y;
                assert(c[i] == y);
            }
            if y == t {
                assert(c[w.len() as int] == y);
            }
        }
        if is_antichain(s) {
            lemma_antichain_by_members(s);
            lemma_descends_from_reflexive(t);
            assert(!w.contains(t));
            assert(c.no_duplicates()) by {
                assert forall|i: int, j: int| 0 <= i < c.len() && 0 <= j < c.len() && i != j implies c[i] != c[j] by {
                    if i < w.len() && j < w.len() {
                        assert(c[i] == w[i] && c[j] == w[j]);
                    } else if i < w.len() {
                        assert(w.contains(w[i]));
                    } else {
                        assert(w.contains(w[j]));
                    }
                }
            }
            let d = choose|i: int| 0 <= i < s.len() && (#[trigger] s[i]).descends_from(t);
            assert forall|a: ChunkKey, b: ChunkKey| c.contains(a) && c.contains(b) && a != b implies !a.descends_from(b) by {
                if a == t {
                    // b is a kept key: were t inside b, the descendant s[d] would lie inside b too.
                    if t.descends_from(b) {
                        lemma_descends_from_transitive(s[d], t, b);
                        assert(s.contains(s[d]));
                    }
                } else if b == t {
                } else {
                }
            }
            lemma_antichain_by_members(c);
        }
        if all_valid(s) {
            assert forall|i: int| 0 <= i < c.len() implies (#[trigger] c[i]).valid() by {
                if i < w.len() {
                    assert(w.contains(c[i]));
                    assert(s.contains(c[i]));
                }
            }
        }
    }
}


/// Some selected chunk contains `p`.
pub open spec fn covers(s: Seq<ChunkKey>, p: ChunkKey) -> bool {
    exists|i: int| 0 <= i < s.len() && p.descends_from(#[trigger] s[i])
}

/// The finest cells of the surface that `before` covers, `after` covers too.
pub open spec fn keeps_coverage(before: Seq<ChunkKey>, after: Seq<ChunkKey>) -> bool {
    forall|p: ChunkKey| p.lod >= 31 && #[trigger] covers(before, p) ==> covers(after, p)
}

/// Coverage is carried by membership.
pub proof fn lemma_covers_by_members(s1: Seq<ChunkKey>, s2: Seq<ChunkKey>, p: ChunkKey, a: ChunkKey)
    requires
        s2.contains(a),
        p.descends_from(a),
    ensures
        covers(s2, p),
{
    let j = choose|j: int| 0 <= j < s2.len() && s2[j] == a;
    assert(p.descends_from(s2[j]));
}

/// Collapsing never uncovers a cell.
pub proof fn lemma_collapsed_keeps_coverage(s: Seq<ChunkKey>, t: ChunkKey)
    requires
        t.valid(),
    ensures
        keeps_coverage(s, collapsed(s, t)),
{
    lemma_collapsed(s, t);
    assert forall|p: ChunkKey| p.lod >= 31 && #[trigger] covers(s, p) implies covers(collapsed(s, t), p) by {
        let i = choose|i: int| 0 <= i < s.len() && p.descends_from(#[trigger] s[i]);
        let a = s[i];
        assert(s.contains(a));
        if has_descendant(s, t) && a.descends_from(t) {
            lemma_descends_from_transitive(p, a, t);
            lemma_covers_by_members(s, collapsed(s, t), p, t);
        } else {
            lemma_covers_by_members(s, collapsed(s, t), p, a);
        }
    }
}

/// A cell finer than a chunk lies inside one of its four children.
pub proof fn lemma_cell_in_child(p: ChunkKey, c: ChunkKey)
    requires
        p.descends_from(c),
        p.lod > c.lod,
        c.has_children(),
    ensures
        exists|m: int| 0 <= m < 4 && p.descends_from(#[trigger] c.children_spec()[m]),
{
    lemma_ancestor_of_key(p, (c.lod + 1) as nat);
    let a = p.ancestor_spec((c.lod + 1) as nat).unwrap();
    lemma_ancestors_nested(p, a, c);
    lemma2_to64();
    assert(a.lod == c.lod + 1);
    assert(a.x as nat / 2 == c.x && a.y as nat / 2 == c.y);
    let cs = c.children_spec();
    if a.x as nat == 2 * c.x as nat && a.y as nat == 2 * c.y as nat {
        assert(cs[0] == a);
    } else if a.x as nat == 2 * c.x as nat + 1 && a.y as nat == 2 * c.y as nat {
        assert(cs[1] == a);
    } else if a.x as nat == 2 * c.x as nat && a.y as nat == 2 * c.y as nat + 1 {
        assert(cs[2] == a);
    } else {
        assert(cs[3] == a);
    }
}

/// Whether `set` holds `k`.
pub fn holds_key(set: &Vec<ChunkKey>, k: &ChunkKey) -> (b: bool)
    ensures
        b == set@.contains(*k),
{
    let mut i: usize = 0;
    while i < set.len()
        invariant
            i <= set@.len(),
            forall|j: int| 0 <= j < i ==> set@[j] != *k,
        decreases set@.len() - i,
    {
        if set[i] == *k {
            return true;
        }
        i += 1;
    }
    false
}

/// The selected chunk that covers `key`: `key` itself or its nearest selected ancestor.
pub fn find_active_ancestor_covering(key: ChunkKey, active_set: &Vec<ChunkKey>) -> (r: Option<ChunkKey>)
    ensures
        r == covering_ancestor(active_set@, key),
{
    let mut current = key;
    loop
        invariant
            covering_ancestor(active_set@, key) == covering_ancestor(active_set@, current),
        decreases current.lod,
    {
        if holds_key(active_set, &current) {
            return Some(current);
        }
        match current.parent() {
            Some(p) => {
                proof {
                    lemma_parent_is_ancestor(current);
                }
                current = p;
            },
            None => {
                return None;
            },
        }
    }
}

/// Replaces every selected chunk inside `collapse_target` (the target itself included) by the
/// target. Returns whether any selected chunk lay inside it; otherwise nothing changes.
pub fn collapse_selected_descendants(selected: &mut Vec<ChunkKey>, collapse_target: ChunkKey) -> (progressed: bool)
    requires
        all_valid(old(selected)@),
        collapse_target.valid(),
    ensures
        progressed == has_descendant(old(selected)@, collapse_target),
        final(selected)@ == collapsed(old(selected)@, collapse_target),
{
    let ghost s0 = selected@;
    let mut kept: Vec<ChunkKey> = Vec::new();
    let mut found = false;
    let mut i: usize = 0;
    while i < selected.len()
        invariant
            selected@ == s0,
            all_valid(s0),
            collapse_target.valid(),
            i <= s0.len(),
            kept@ == without_descendants(s0.take(i as int), collapse_target),
            found == exists|j: int| 0 <= j < i && (#[trigger] s0[j]).descends_from(collapse_target),
        decreases s0.len() - i,
    {
        let k = selected[i];
        assert(s0.take(i + 1).drop_last() =~= s0.take(i as int));
        assert(s0.take(i + 1).last() == k);
        if k.is_descendant_of(&collapse_target) {
            found = true;
        } else {
            kept.push(k);
        }
        i += 1;
    }
    assert(s0.take(s0.len() as int) =~= s0);
    if !found {
        return false;
    }
    kept.push(collapse_target);
    *selected = kept;
    true
}

/// The targets that close every neighbor-level gap of the selection, each once. Fails when
/// the selection holds a key that is not a valid chunk.
pub fn collect_neighbor_collapse_targets(selected: &Vec<ChunkKey>) -> (r: Result<Vec<ChunkKey>, TopologyError>)
    ensures
        match r {
            Ok(targets) => {
                &&& all_valid(selected@)
                &&& targets@.no_duplicates()
                &&& forall|j: int| 0 <= j < targets@.len() ==> is_gap_target(selected@, #[trigger] targets@[j])
                &&& forall|i: int, e: Edge| 0 <= i < selected@.len() && #[trigger] lod_gap(selected@, selected@[i], e)
                    ==> targets@.contains(gap_target(selected@, selected@[i], e))
            },
            Err(e) => !all_valid(selected@) && e == TopologyError::InvalidChunkKey,
        },
{
    let ghost s = selected@;
    let mut targets: Vec<ChunkKey> = Vec::new();
    let mut i: usize = 0;
    while i < selected.len()
        invariant
            s == selected@,
            i <= s.len(),
            forall|j: int| 0 <= j < i ==> (#[trigger] s[j]).valid(),
            targets@.no_duplicates(),
            forall|j: int| 0 <= j < targets@.len() ==> is_gap_target(s, #[trigger] targets@[j]),
            forall|j: int, e: Edge| 0 <= j < i && #[trigger] lod_gap(s, s[j], e) ==> targets@.contains(gap_target(s, s[j], e)),
        decreases s.len() - i,
    {
        let key = selected[i];
        let neighbors = match same_lod_neighbors(key) {
            Ok(n) => n,
            Err(e) => {
                return Err(e);
            },
        };
        let mut ei: usize = 0;
        while ei < 4
            invariant
                s == selected@,
                i < s.len(),
                key == s[i as int],
                key.valid(),
                ei <= 4,
                forall|k: int| 0 <= k < 4 ==> #[trigger] neighbors.same_lod@[k] == neighbor_spec(key, Edge::ALL@[k]),
                forall|j: int| 0 <= j < i ==> (#[trigger] s[j]).valid(),
                targets@.no_duplicates(),
                forall|j: int| 0 <= j < targets@.len() ==> is_gap_target(s, #[trigger] targets@[j]),
                forall|j: int, e: Edge| 0 <= j < i && #[trigger] lod_gap(s, s[j], e) ==> targets@.contains(gap_target(s, s[j], e)),
                forall|k: int| 0 <= k < ei && #[trigger] lod_gap(s, key, Edge::ALL@[k])
                    ==> targets@.contains(gap_target(s, key, Edge::ALL@[k])),
            decreases 4 - ei,
        {
            let edge = Edge::ALL[ei];
            let neighbor_same_lod = neighbors.same_lod[ei];
            let ghost prev = targets@;
            proof {
                lemma_neighbor_round_trip(key, edge);
                lemma_covering_ancestor(s, neighbor_same_lod);
            }
            if let Some(active_ancestor) = find_active_ancestor_covering(neighbor_same_lod, selected) {
                if key.lod > active_ancestor.lod + 1 {
                    let target = key.ancestor_at_lod(active_ancestor.lod + 1);
                    proof {
                        lemma_ancestor_of_key(key, (active_ancestor.lod + 1) as nat);
                        assert(lod_gap(s, s[i as int], edge));
                    }
                    if let Some(collapse_target) = target {
                        if !holds_key(&targets, &collapse_target) {
                            proof {
                                assert(is_gap_target(s, collapse_target));
                                assert forall|j: int| 0 <= j < targets@.len() + 1
                                    implies is_gap_target(s, #[trigger] targets@.push(collapse_target)[j]) by {
                                    if j < targets@.len() {
                                        assert(targets@.push(collapse_target)[j] == targets@[j]);
                                    }
                                }
                                assert(targets@.push(collapse_target).no_duplicates()) by {
                                    let t2 = targets@.push(collapse_target);
                                    assert forall|a: int, b: int| 0 <= a < t2.len() && 0 <= b < t2.len() && a != b
                                        implies t2[a] != t2[b] by {
                                        if a < targets@.len() && b < targets@.len() {
                                        } else if a < targets@.len() {
                                            assert(targets@.contains(t2[a]));
                                        } else {
                                            assert(targets@.contains(t2[b]));
                                        }
                                    }
                                }
                            }
                            targets.push(collapse_target);
                        }
                    }
                }
            }
            proof {
                assert(Edge::ALL@[ei as int] == edge);
                assert forall|y: ChunkKey| prev.contains(y) implies #[trigger] targets@.contains(y) by {
                    let j = choose|j: int| 0 <= j < prev.len() && prev[j] == y;
                    assert(targets@[j] == y);
                }
                if lod_gap(s, key, edge) {
                    let t = gap_target(s, key, edge);
                    if !prev.contains(t) {
                        assert(targets@[prev.len() as int] == t);
                    }
                }
            }
            ei += 1;
        }
        proof {
            assert forall|e: Edge| #[trigger] lod_gap(s, key, e) implies targets@.contains(gap_target(s, key, e)) by {
                let k: int = match e { Edge::NegU => 0, Edge::PosU => 1, Edge::NegV => 2, Edge::PosV => 3 };
                assert(Edge::ALL@[k] == e);
            }
        }
        i += 1;
    }
    Ok(targets)
}

/// A gap target of valid keys is a valid chunk that some selected key lies strictly inside.
pub proof fn lemma_gap_target(s: Seq<ChunkKey>, t: ChunkKey)
    requires
        all_valid(s),
        is_gap_target(s, t),
    ensures
        t.valid(),
        has_descendant(s, t),
        exists|i: int| 0 <= i < s.len() && (#[trigger] s[i]).descends_from(t) && s[i] != t,
{
    let (i, e) = choose|i: int, e: Edge| 0 <= i < s.len() && #[trigger] lod_gap(s, s[i], e) && t == gap_target(s, s[i], e);
    let k = s[i];
    assert(k.valid());
    let a = covering_ancestor(s, neighbor_spec(k, e)).unwrap();
    lemma_ancestor_of_key(k, (a.lod + 1) as nat);
    assert(t.lod == a.lod + 1);
    assert(k.descends_from(t) && k != t);
}

/// Across `e`, the same-level neighbor of `k` is covered by a selected chunk coarser than `x`.
pub open spec fn neighbor_coarser(s: Seq<ChunkKey>, k: ChunkKey, e: Edge, x: ChunkKey) -> bool {
    match covering_ancestor(s, neighbor_spec(k, e)) {
        Some(c) => c.lod < x.lod,
        None => false,
    }
}

/// Every key of `f` that `s` does not hold is no coarser than a neighbor demands: some chunk
/// strictly inside it meets, across some edge, a chunk of `f` coarser than the key.
pub open spec fn collapses_justified(s: Seq<ChunkKey>, f: Seq<ChunkKey>) -> bool {
    forall|x: ChunkKey| #[trigger] f.contains(x) && !s.contains(x) ==>
        exists|k: ChunkKey, e: Edge| k.descends_from(x) && k != x && #[trigger] neighbor_coarser(f, k, e, x)
}

/// The chunk of `s` that covers `p` is no finer than the one of `base`, where `base` covers it.
pub open spec fn cover_no_finer(s: Seq<ChunkKey>, base: Seq<ChunkKey>, p: ChunkKey) -> bool {
    match covering_ancestor(base, p) {
        Some(a) => covering_ancestor(s, p) matches Some(c) && c.lod <= a.lod,
        None => true,
    }
}

/// What the collapsing fallback gives from `s`: valid chunks with no neighbor-level gap, no more
/// of them, the same surface covered, an antichain and a list without repeats kept, and each new
/// chunk no coarser than a neighbor demands.
pub open spec fn forced_collapse_result(s: Seq<ChunkKey>, f: Seq<ChunkKey>) -> bool {
    &&& all_valid(f)
    &&& lod_balanced(f)
    &&& f.len() <= s.len()
    &&& is_antichain(s) ==> is_antichain(f)
    &&& s.no_duplicates() ==> f.no_duplicates()
    &&& keeps_coverage(s, f)
    &&& is_antichain(s) ==> collapses_justified(s, f)
}

/// The covering ancestor is the finest held chunk that contains the key.
pub proof fn lemma_cover_finest(s: Seq<ChunkKey>, p: ChunkKey, a: ChunkKey)
    requires
        s.contains(a),
        p.descends_from(a),
    ensures
        covering_ancestor(s, p) matches Some(c) && c.lod >= a.lod,
    decreases p.lod,
{
    if !s.contains(p) {
        if p.lod == a.lod {
            lemma_descends_same_level(p, a);
        }
        let q = p.parent_spec().unwrap();
        lemma_parent_is_ancestor(p);
        lemma_ancestors_nested(p, q, a);
        lemma_cover_finest(s, q, a);
    }
}

/// Collapsing an antichain never makes the chunk that covers a key finer.
pub proof fn lemma_collapse_coarsens_cover(s: Seq<ChunkKey>, t: ChunkKey, p: ChunkKey)
    requires
        is_antichain(s),
        t.valid(),
        covering_ancestor(s, p) is Some,
    ensures
        covering_ancestor(collapsed(s, t), p) matches Some(c2) && c2.lod <= covering_ancestor(s, p).unwrap().lod,
{
    let c = covering_ancestor(s, p).unwrap();
    lemma_covering_ancestor(s, p);
    lemma_collapsed(s, t);
    let s2 = collapsed(s, t);
    if has_descendant(s, t) {
        if !p.descends_from(t) {
            assert forall|a: ChunkKey| p.descends_from(a) implies (s.contains(a) == s2.contains(a)) by {
                if a.descends_from(t) {
                    lemma_descends_from_transitive(p, a, t);
                }
            }
            lemma_covering_ancestor_depends_on_containers(s, s2, p);
        } else {
            lemma_covering_ancestor(s2, p);
            lemma_cover_finest(s2, p, t);
            let c2 = covering_ancestor(s2, p).unwrap();
            if c2 != t {
                lemma_cover_finest(s, p, c2);
            } else if t.lod > c.lod {
                lemma_ancestors_nested(p, t, c);
                let i = choose|i: int| 0 <= i < s.len() && (#[trigger] s[i]).descends_from(t);
                let d = s[i];
                lemma_descends_from_transitive(d, t, c);
                lemma_antichain_by_members(s);
                assert(s.contains(d));
                assert(d == c);
            }
        }
    }
}

/// Collapsing keeps a list without repeats without repeats.
pub proof fn lemma_collapsed_no_duplicates(s: Seq<ChunkKey>, t: ChunkKey)
    requires
        s.no_duplicates(),
    ensures
        collapsed(s, t).no_duplicates(),
{
    lemma_without_descendants(s, t);
    if has_descendant(s, t) {
        let w = without_descendants(s, t);
        lemma_descends_from_reflexive(t);
        assert(!w.contains(t));
        assert forall|i: int, j: int| 0 <= i < w.push(t).len() && 0 <= j < w.push(t).len() && i != j
            implies w.push(t)[i] != w.push(t)[j] by {
            if i < w.len() && j < w.len() {
                assert(w.push(t)[i] == w[i] && w.push(t)[j] == w[j]);
            } else if i < w.len() {
                assert(w.contains(w[i]));
            } else {
                assert(w.contains(w[j]));
            }
        }
    }
}

/// One collapse at a gap target of `base` keeps the new chunks justified, for an antichain whose
/// covers are no finer than those of `base`.
proof fn lemma_collapse_step_justified(old_s: Seq<ChunkKey>, base: Seq<ChunkKey>, s: Seq<ChunkKey>, t: ChunkKey)
    requires
        is_antichain(s),
        all_valid(base),
        is_gap_target(base, t),
        collapses_justified(old_s, s),
        forall|p: ChunkKey| #[trigger] cover_no_finer(s, base, p),
    ensures
        collapses_justified(old_s, collapsed(s, t)),
        forall|p: ChunkKey| #[trigger] cover_no_finer(collapsed(s, t), base, p),
{
    lemma_gap_target(base, t);
    lemma_collapsed(s, t);
    let s2 = collapsed(s, t);
    assert forall|p: ChunkKey| #[trigger] cover_no_finer(s2, base, p) by {
        assert(cover_no_finer(s, base, p));
        if covering_ancestor(base, p) is Some {
            lemma_collapse_coarsens_cover(s, t, p);
        }
    }
    assert forall|x: ChunkKey| #[trigger] s2.contains(x) && !old_s.contains(x) implies
        exists|k: ChunkKey, e: Edge| k.descends_from(x) && k != x && #[trigger] neighbor_coarser(s2, k, e, x) by {
        if s.contains(x) {
            let (k, e) = choose|k: ChunkKey, e: Edge| k.descends_from(x) && k != x && #[trigger] neighbor_coarser(s, k, e, x);
            lemma_collapse_coarsens_cover(s, t, neighbor_spec(k, e));
            assert(neighbor_coarser(s2, k, e, x));
        } else {
            assert(x == t);
            let (i, e) = choose|i: int, e: Edge| 0 <= i < base.len() && #[trigger] lod_gap(base, base[i], e) && t == gap_target(base, base[i], e);
            let k = base[i];
            let nb = neighbor_spec(k, e);
            let a = covering_ancestor(base, nb).unwrap();
            lemma_ancestor_of_key(k, (a.lod + 1) as nat);
            assert(t.lod == a.lod + 1);
            assert(cover_no_finer(s, base, nb));
            lemma_collapse_coarsens_cover(s, t, nb);
            assert(neighbor_coarser(s2, k, e, x));
        }
    }
}

/// Collapses over-fine branches of the selection into the ancestor one level finer than the
/// coarse chunk they meet, pass after pass, until no selected chunk meets a selected neighbor
/// more than one level coarser than itself. Fails, changing nothing, on a selection that holds
/// a key that is not a valid chunk.
pub fn force_collapse_neighbor_lod_delta(selected: &mut Vec<ChunkKey>) -> (r: Result<(), TopologyError>)
    ensures
        match r {
            Ok(()) => forced_collapse_result(old(selected)@, final(selected)@),
            Err(e) => {
                &&& !all_valid(old(selected)@)
                &&& final(selected)@ == old(selected)@
                &&& e == TopologyError::InvalidChunkKey
            },
        },
{
    loop
        invariant
            selected@ == old(selected)@ || all_valid(selected@),
            selected@.len() <= old(selected)@.len(),
            is_antichain(old(selected)@) ==> is_antichain(selected@),
            old(selected)@.no_duplicates() ==> selected@.no_duplicates(),
            is_antichain(old(selected)@) ==> collapses_justified(old(selected)@, selected@),
            keeps_coverage(old(selected)@, selected@),
        decreases lod_weight(selected@),
    {
        let targets = match collect_neighbor_collapse_targets(selected) {
            Ok(t) => t,
            Err(e) => {
                return Err(e);
            },
        };
        if targets.len() == 0 {
            proof {
                assert forall|i: int, e: Edge| 0 <= i < selected@.len() implies !#[trigger] lod_gap(selected@, selected@[i], e) by {
                    if lod_gap(selected@, selected@[i], e) {
                        assert(targets@.contains(gap_target(selected@, selected@[i], e)));
                    }
                }
            }
            return Ok(());
        }
        let ghost pass_start = selected@;
        let mut progressed = false;
        let mut t: usize = 0;
        while t < targets.len()
            invariant
                all_valid(pass_start),
                all_valid(selected@),
                0 < targets@.len(),
                t <= targets@.len(),
                forall|j: int| 0 <= j < targets@.len() ==> is_gap_target(pass_start, #[trigger] targets@[j]),
                lod_weight(selected@) <= lod_weight(pass_start),
                t == 0 ==> selected@ == pass_start,
                t > 0 ==> progressed && lod_weight(selected@) < lod_weight(pass_start),
                selected@.len() <= old(selected)@.len(),
                is_antichain(old(selected)@) ==> is_antichain(selected@),
                old(selected)@.no_duplicates() ==> selected@.no_duplicates(),
                is_antichain(old(selected)@) ==> collapses_justified(old(selected)@, selected@),
                is_antichain(old(selected)@) ==> forall|p: ChunkKey| #[trigger] cover_no_finer(selected@, pass_start, p),
                keeps_coverage(old(selected)@, selected@),
            decreases targets@.len() - t,
        {
            let target = targets[t];
            proof {
                lemma_gap_target(pass_start, target);
                lemma_collapsed(selected@, target);
                lemma_collapsed_keeps_coverage(selected@, target);
                if selected@.no_duplicates() {
                    lemma_collapsed_no_duplicates(selected@, target);
                }
                if is_antichain(old(selected)@) {
                    lemma_collapse_step_justified(old(selected)@, pass_start, selected@, target);
                }
            }
            let c = collapse_selected_descendants(selected, target);
            progressed = progressed || c;
            t += 1;
        }
        if !progressed {
            return Ok(());
        }
    }
}

/// A valid chunk above the two finest representable levels has four valid children.
pub proof fn lemma_valid_has_children(k: ChunkKey)
    requires
        k.valid(),
        k.lod < 31,
    ensures
        k.has_children(),
        k.children_spec().len() == 4,
        forall|m: int| 0 <= m < 4 ==> (#[trigger] k.children_spec()[m]).valid(),
        forall|m: int| 0 <= m < 4 ==> (#[trigger] k.children_spec()[m]).descends_from(k),
        forall|m: int| 0 <= m < 4 ==> (#[trigger] k.children_spec()[m]).lod == k.lod + 1,
{
    vstd::arithmetic::power2::lemma_pow2_strictly_increases(k.lod as nat, 31);
    lemma2_to64();
    assert(k.has_children());
    crate::chunk::lemma_children_of_key(k);
}

/// Membership after removing one entry of a list without repeats.
pub proof fn lemma_remove_members(s: Seq<ChunkKey>, i: int)
    requires
        0 <= i < s.len(),
    ensures
        forall|x: ChunkKey| #[trigger] s.remove(i).contains(x) ==> s.contains(x),
        forall|x: ChunkKey| s.contains(x) && x != s[i] ==> #[trigger] s.remove(i).contains(x),
        s.no_duplicates() ==> s.remove(i).no_duplicates(),
        s.no_duplicates() ==> forall|x: ChunkKey| #[trigger] s.remove(i).contains(x) == (s.contains(x) && x != s[i]),
{
    s.remove_ensures(i);
    let r = s.remove(i);
    assert forall|x: ChunkKey| #[trigger] r.contains(x) implies s.contains(x) by {
        let j = choose|j: int| 0 <= j < r.len() && r[j] == x;
        if j < i {
            assert(s[j] == x);
        } else {
            assert(s[j + 1] == x);
        }
    }
    assert forall|x: ChunkKey| s.contains(x) && x != s[i] implies #[trigger] r.contains(x) by {
        let j = choose|j: int| 0 <= j < s.len() && s[j] == x;
        if j < i {
            assert(r[j] == x);
        } else {
            assert(r[j - 1] == x);
        }
    }
    if s.no_duplicates() {
        assert forall|a: int, b: int| 0 <= a < r.len() && 0 <= b < r.len() && a != b implies r[a] != r[b] by {
            let sa = if a < i { a } else { a + 1 };
            let sb = if b < i { b } else { b + 1 };
            assert(r[a] == s[sa] && r[b] == s[sb]);
        }
        assert forall|x: ChunkKey| #[trigger] r.contains(x) == (s.contains(x) && x != s[i]) by {
            if r.contains(x) {
                let j = choose|j: int| 0 <= j < r.len() && r[j] == x;
                let sj = if j < i { j } else { j + 1 };
                assert(s[sj] == x);
            }
            if s.contains(x) && x != s[i] {
                let j = choose|j: int| 0 <= j < s.len() && s[j] == x;
                if j < i {
                    assert(r[j] == x);
                } else {
                    assert(r[j - 1] == x);
                }
            }
        }
    }
}

/// Membership after appending one entry.
pub proof fn lemma_push_members(s: Seq<ChunkKey>, k: ChunkKey)
    ensures
        forall|x: ChunkKey| #[trigger] s.push(k).contains(x) == (s.contains(x) || x == k),
        s.no_duplicates() && !s.contains(k) ==> s.push(k).no_duplicates(),
{
    let p = s.push(k);
    assert forall|x: ChunkKey| #[trigger] p.contains(x) == (s.contains(x) || x == k) by {
        if p.contains(x) {
            let j = choose|j: int| 0 <= j < p.len() && p[j] == x;
            if j < s.len() {
                assert(s[j] == x);
            }
        }
        if s.contains(x) {
            let j = choose|j: int| 0 <= j < s.len() && s[j] == x;
            assert(p[j] == x);
        }
        if x == k {
            assert(p[s.len() as int] == x);
        }
    }
    if s.no_duplicates() && !s.contains(k) {
        assert forall|a: int, b: int| 0 <= a < p.len() && 0 <= b < p.len() && a != b implies p[a] != p[b] by {
            if a < s.len() && b < s.len() {
                assert(p[a] == s[a] && p[b] == s[b]);
            } else if a < s.len() {
                assert(s.contains(s[a]));
            } else {
                assert(s.contains(s[b]));
            }
        }
    }
}

/// Replacing a selected chunk by its four children keeps an antichain an antichain.
pub proof fn lemma_split_antichain(s: Seq<ChunkKey>, c: ChunkKey, s2: Seq<ChunkKey>)
    requires
        is_antichain(s),
        s.contains(c),
        c.has_children(),
        s2.no_duplicates(),
        forall|x: ChunkKey| #[trigger] s2.contains(x)
            == ((s.contains(x) && x != c) || c.children_spec().contains(x)),
    ensures
        is_antichain(s2),
{
    lemma_antichain_by_members(s);
    crate::chunk::lemma_children_of_key(c);
    let cs = c.children_spec();
    assert forall|x: ChunkKey| #[trigger] cs.contains(x) implies x.descends_from(c) && x.lod == c.lod + 1 && !s.contains(x) by {
        let m = choose|m: int| 0 <= m < 4 && cs[m] == x;
        assert(cs[m].descends_from(c));
        if s.contains(x) {
            assert(x != c);
        }
    }
    assert forall|a: ChunkKey, b: ChunkKey| s2.contains(a) && s2.contains(b) && a != b implies !a.descends_from(b) by {
        if a.descends_from(b) {
            if cs.contains(a) && cs.contains(b) {
                lemma_descends_same_level(a, b);
            } else if cs.contains(a) {
                // b is a kept key: it cannot be the child itself, so it contains the parent.
                if b.lod == a.lod {
                    lemma_descends_same_level(a, b);
                } else {
                    lemma_ancestors_nested(a, c, b);
                }
            } else if cs.contains(b) {
                lemma_descends_from_transitive(a, b, c);
            }
        }
    }
    lemma_antichain_by_members(s2);
}

/// Removes `k` from `set`; returns whether it was there.
fn remove_key(set: &mut Vec<ChunkKey>, k: &ChunkKey) -> (removed: bool)
    ensures
        removed == old(set)@.contains(*k),
        removed ==> exists|i: int| 0 <= i < old(set)@.len() && old(set)@[i] == *k && final(set)@ == old(set)@.remove(i),
        !removed ==> final(set)@ == old(set)@,
{
    let mut i: usize = 0;
    while i < set.len()
        invariant
            set@ == old(set)@,
            i <= set@.len(),
            forall|j: int| 0 <= j < i ==> set@[j] != *k,
        decreases set@.len() - i,
    {
        if set[i] == *k {
            set.remove(i);
            return true;
        }
        i += 1;
    }
    false
}

/// Adds `k` to `set` unless it is there already.
fn insert_key(set: &mut Vec<ChunkKey>, k: ChunkKey)
    ensures
        final(set)@ == if old(set)@.contains(k) { old(set)@ } else { old(set)@.push(k) },
{
    if !holds_key(set, &k) {
        set.push(k);
    }
}

/// Whether two key lists are equal.
fn same_keys(a: &Vec<ChunkKey>, b: &Vec<ChunkKey>) -> (r: bool)
    ensures
        r == (a@ == b@),
{
    if a.len() != b.len() {
        return false;
    }
    let mut i: usize = 0;
    while i < a.len()
        invariant
            a@.len() == b@.len(),
            i <= a@.len(),
            forall|j: int| 0 <= j < i ==> a@[j] == b@[j],
        decreases a@.len() - i,
    {
        if a[i] != b[i] {
            return false;
        }
        i += 1;
    }
    assert(a@ =~= b@);
    true
}

/// Whether `state` is one of `seen`.
fn state_seen(seen: &Vec<Vec<ChunkKey>>, state: &Vec<ChunkKey>) -> (r: bool)
    ensures
        r == exists|j: int| 0 <= j < seen@.len() && (#[trigger] seen@[j])@ == state@,
{
    let mut j: usize = 0;
    while j < seen.len()
        invariant
            j <= seen@.len(),
            forall|m: int| 0 <= m < j ==> (#[trigger] seen@[m])@ != state@,
        decreases seen@.len() - j,
    {
        if same_keys(&seen[j], state) {
            return true;
        }
        j += 1;
    }
    false
}

/// The selection as a sorted list: the same selection always gives the same list.
pub fn normalized_selection_state(selected: &Vec<ChunkKey>) -> (state: Vec<ChunkKey>)
    ensures
        state@.to_multiset() == selected@.to_multiset(),
        crate::order::keys_sorted(state@),
{
    let mut state: Vec<ChunkKey> = Vec::new();
    let mut i: usize = 0;
    while i < selected.len()
        invariant
            i <= selected@.len(),
            state@ == selected@.take(i as int),
        decreases selected@.len() - i,
    {
        state.push(selected[i]);
        i += 1;
        assert(state@ =~= selected@.take(i as int));
    }
    assert(selected@.take(selected@.len() as int) =~= selected@);
    crate::order::sort_keys(&mut state);
    state
}

/// Records that chunk metadata for `key` is wanted, once.
fn request_metadata(requested: &mut Vec<ChunkKey>, key: ChunkKey)
    ensures
        final(requested)@ == if old(requested)@.contains(key) { old(requested)@ } else { old(requested)@.push(key) },
{
    insert_key(requested, key);
}

/// `c` is a selected valid chunk whose four children are valid and have stored metadata.
pub open spec fn ready_split<V: Copy>(store: MetadataStore<V>, s: Seq<ChunkKey>, c: ChunkKey) -> bool {
    &&& s.contains(c)
    &&& c.valid()
    &&& c.lod < 30
    &&& forall|m: int| 0 <= m < 4 ==> (store.get_spec(#[trigger] c.children_spec()[m]) is Some)
}

/// `requested` extends `before` by keys whose metadata is not stored.
pub open spec fn requests_extend<V: Copy>(store: MetadataStore<V>, before: Seq<ChunkKey>, requested: Seq<ChunkKey>) -> bool {
    &&& before.len() <= requested.len()
    &&& requested.subrange(0, before.len() as int) == before
    &&& forall|j: int| before.len() <= j < requested.len() ==> (store.get_spec(#[trigger] requested[j]) is None)
}

proof fn lemma_request_step<V: Copy>(store: MetadataStore<V>, before: Seq<ChunkKey>, req: Seq<ChunkKey>, key: ChunkKey)
    requires
        requests_extend(store, before, req),
        store.get_spec(key) is None,
    ensures
        requests_extend(store, before, if req.contains(key) { req } else { req.push(key) }),
{
    if !req.contains(key) {
        assert(req.push(key).subrange(0, before.len() as int) =~= req.subrange(0, before.len() as int));
    }
}

/// The larger of two counts.
pub open spec fn max_len(a: nat, b: nat) -> nat {
    if a < b { b } else { a }
}

/// The four children of `c` have stored metadata.
pub open spec fn children_stored<V: Copy>(store: MetadataStore<V>, c: ChunkKey) -> bool {
    forall|m: int| 0 <= m < 4 ==> (store.get_spec(#[trigger] c.children_spec()[m]) is Some)
}

/// `c` is the coarse side of a neighbor-level gap of `s`: the selected chunk that covers the
/// neighbor of a selected chunk more than one level finer.
pub open spec fn is_coarse_side(s: Seq<ChunkKey>, c: ChunkKey) -> bool {
    exists|i: int, e: Edge| 0 <= i < s.len() && #[trigger] lod_gap(s, s[i], e)
        && covering_ancestor(s, neighbor_spec(s[i], e)) == Some(c)
}

/// Splitting `c` in `cur` gives `next`: `c` is ready, the cap leaves room for its children, and
/// `next` holds the chunks of `cur` but `c`, and the four children of `c`, each once.
pub open spec fn split_step<V: Copy>(store: MetadataStore<V>, cap: usize, cur: Seq<ChunkKey>, c: ChunkKey, next: Seq<ChunkKey>) -> bool {
    &&& ready_split(store, cur, c)
    &&& cur.len() + 3 <= cap
    &&& forall|x: ChunkKey| #[trigger] next.contains(x) == ((cur.contains(x) && x != c) || c.children_spec().contains(x))
    &&& next.len() <= cur.len() + 3
    &&& next.no_duplicates()
}

/// `t` is one level finer than the coarse side of a gap of `base` whose children's metadata is
/// not all stored, on the fine side of that gap.
pub open spec fn collapse_justified_by<V: Copy>(store: MetadataStore<V>, base: Seq<ChunkKey>, t: ChunkKey) -> bool {
    exists|i: int, e: Edge| 0 <= i < base.len() && #[trigger] lod_gap(base, base[i], e)
        && t == gap_target(base, base[i], e)
        && !children_stored(store, covering_ancestor(base, neighbor_spec(base[i], e)).unwrap())
}

/// One step of normalization from `cur` to `next`, found on the selection `base` of the pass:
/// a split (`op.0`) of a ready coarse side of a gap of `base`, or a collapse at the fine side of
/// a gap of `base` whose coarse side cannot be split.
pub open spec fn normalization_step<V: Copy>(
    store: MetadataStore<V>,
    cap: usize,
    base: Seq<ChunkKey>,
    cur: Seq<ChunkKey>,
    op: (bool, ChunkKey),
    next: Seq<ChunkKey>,
) -> bool {
    if op.0 {
        split_step(store, cap, cur, op.1, next) && is_coarse_side(base, op.1)
    } else {
        next == collapsed(cur, op.1) && collapse_justified_by(store, base, op.1)
    }
}

/// `states` runs from its first selection to its last by the steps `ops`; step `j` was found on
/// the earlier selection `states[bases[j]]`.
pub open spec fn normalization_trace<V: Copy>(
    store: MetadataStore<V>,
    cap: usize,
    states: Seq<Seq<ChunkKey>>,
    bases: Seq<int>,
    ops: Seq<(bool, ChunkKey)>,
) -> bool {
    &&& states.len() == ops.len() + 1
    &&& bases.len() == ops.len()
    &&& forall|j: int| 0 <= j < ops.len() ==> #[trigger] trace_step(store, cap, states, bases, ops, j)
}

/// Step `j` of a trace: it was found on an earlier selection and leads from `states[j]` to
/// `states[j + 1]`.
pub open spec fn trace_step<V: Copy>(
    store: MetadataStore<V>,
    cap: usize,
    states: Seq<Seq<ChunkKey>>,
    bases: Seq<int>,
    ops: Seq<(bool, ChunkKey)>,
    j: int,
) -> bool {
    0 <= bases[j] <= j && normalization_step(store, cap, states[bases[j]], states[j], ops[j], states[j + 1])
}

/// The number of splits among `ops`.
pub open spec fn split_count(ops: Seq<(bool, ChunkKey)>) -> nat
    decreases ops.len(),
{
    if ops.len() == 0 {
        0
    } else {
        split_count(ops.drop_last()) + if ops.last().0 { 1nat } else { 0nat }
    }
}

/// A count that stops at `usize::MAX`.
pub open spec fn saturated(n: nat) -> nat {
    if n < usize::MAX { n } else { usize::MAX as nat }
}

/// Each key that `requested` adds to `before` is a child of the coarse side of a gap of one of
/// the selections `states`.
pub open spec fn requests_justified(states: Seq<Seq<ChunkKey>>, before: Seq<ChunkKey>, requested: Seq<ChunkKey>) -> bool {
    forall|j: int| before.len() <= j < requested.len() ==> #[trigger] request_justified_at(states, requested, j)
}

/// `requested[j]` is a child of the coarse side of a gap of one of the selections `states`.
pub open spec fn request_justified_at(states: Seq<Seq<ChunkKey>>, requested: Seq<ChunkKey>, j: int) -> bool {
    exists|i: int, c: ChunkKey| 0 <= i < states.len() && #[trigger] is_coarse_side(states[i], c) && c.children_spec().contains(requested[j])
}

/// What normalization did, told by the selections it passed through: it starts from `before`,
/// each step is a justified split or collapse, the count is the number of splits, and the result
/// is the last selection or the collapsing fallback applied to it.
pub open spec fn normalization_outcome<V: Copy>(
    store: MetadataStore<V>,
    cap: usize,
    before: Seq<ChunkKey>,
    requested_before: Seq<ChunkKey>,
    after: Seq<ChunkKey>,
    requested_after: Seq<ChunkKey>,
    r: Result<usize, TopologyError>,
    states: Seq<Seq<ChunkKey>>,
    bases: Seq<int>,
    ops: Seq<(bool, ChunkKey)>,
) -> bool {
    &&& normalization_trace(store, cap, states, bases, ops)
    &&& states[0] == before
    &&& requests_justified(states, requested_before, requested_after)
    &&& r matches Ok(n) ==> {
        &&& n == saturated(split_count(ops))
        &&& (after == states.last() || forced_collapse_result(states.last(), after))
    }
}

proof fn lemma_trace_push<V: Copy>(
    store: MetadataStore<V>,
    cap: usize,
    states: Seq<Seq<ChunkKey>>,
    bases: Seq<int>,
    ops: Seq<(bool, ChunkKey)>,
    b: int,
    op: (bool, ChunkKey),
    next: Seq<ChunkKey>,
)
    requires
        normalization_trace(store, cap, states, bases, ops),
        0 <= b < states.len(),
        normalization_step(store, cap, states[b], states.last(), op, next),
    ensures
        normalization_trace(store, cap, states.push(next), bases.push(b), ops.push(op)),
        split_count(ops.push(op)) == split_count(ops) + if op.0 { 1nat } else { 0nat },
        states.push(next)[0] == states[0],
{
    let s2 = states.push(next);
    let b2 = bases.push(b);
    let o2 = ops.push(op);
    assert(o2.drop_last() =~= ops);
    assert forall|j: int| 0 <= j < o2.len() implies #[trigger] trace_step(store, cap, s2, b2, o2, j) by {
        if j < ops.len() {
            assert(trace_step(store, cap, states, bases, ops, j));
            assert(o2[j] == ops[j]);
            assert(b2[j] == bases[j]);
            assert(s2[b2[j]] == states[bases[j]]);
            assert(s2[j] == states[j]);
            assert(s2[j + 1] == states[j + 1]);
        } else {
            assert(s2[j] == states.last());
            assert(b2[j] == b);
            assert(s2[b] == states[b]);
            assert(s2[j + 1] == next);
            assert(o2[j] == op);
        }
    }
    assert(normalization_trace(store, cap, s2, b2, o2));
}

proof fn lemma_requests_justified_push(states: Seq<Seq<ChunkKey>>, next: Seq<ChunkKey>, before: Seq<ChunkKey>, requested: Seq<ChunkKey>)
    requires
        requests_justified(states, before, requested),
    ensures
        requests_justified(states.push(next), before, requested),
{
    assert forall|j: int| before.len() <= j < requested.len() implies #[trigger] request_justified_at(states.push(next), requested, j) by {
        assert(request_justified_at(states, requested, j));
        let (i, c) = choose|i: int, c: ChunkKey| 0 <= i < states.len() && #[trigger] is_coarse_side(states[i], c) && c.children_spec().contains(requested[j]);
        assert(states.push(next)[i] == states[i]);
    }
}

proof fn lemma_request_justified(states: Seq<Seq<ChunkKey>>, before: Seq<ChunkKey>, requested: Seq<ChunkKey>, i: int, c: ChunkKey, child: ChunkKey)
    requires
        requests_justified(states, before, requested),
        0 <= i < states.len(),
        is_coarse_side(states[i], c),
        c.children_spec().contains(child),
    ensures
        requests_justified(states, before, if requested.contains(child) { requested } else { requested.push(child) }),
{
    let r2 = requested.push(child);
    if !requested.contains(child) {
        assert forall|j: int| before.len() <= j < r2.len() implies #[trigger] request_justified_at(states, r2, j) by {
            if j < requested.len() {
                assert(request_justified_at(states, requested, j));
                assert(r2[j] == requested[j]);
            } else {
                assert(r2[j] == child);
            }
        }
    }
}

/// What normalization has done so far: the selections start from `before`, the steps are
/// justified for a selection without repeats, and `splits` counts the splits.
spec fn trace_progress<V: Copy>(
    store: MetadataStore<V>,
    cap: usize,
    before: Seq<ChunkKey>,
    states: Seq<Seq<ChunkKey>>,
    bases: Seq<int>,
    ops: Seq<(bool, ChunkKey)>,
    splits: nat,
) -> bool {
    &&& states.len() == ops.len() + 1
    &&& bases.len() == ops.len()
    &&& states[0] == before
    &&& before.no_duplicates() ==> normalization_trace(store, cap, states, bases, ops)
    &&& splits == saturated(split_count(ops))
}

/// Normalization owes at least one split: it may make a pass and scan every neighbor of the
/// selection, the cap leaves room for four children, and some coarse side of a gap of the
/// selection has the metadata of its four children stored.
pub open spec fn split_owed<V: Copy>(store: MetadataStore<V>, s: Seq<ChunkKey>, max_passes: usize, max_work_items: usize, cap: usize) -> bool {
    &&& max_passes > 0
    &&& 4 * s.len() <= max_work_items
    &&& s.len() + 3 <= cap
    &&& exists|c: ChunkKey| #[trigger] is_coarse_side(s, c) && children_stored(store, c)
}

/// Every child of a coarse side of a gap of `s` whose metadata is not stored is in `requested`.
pub open spec fn missing_children_requested<V: Copy>(store: MetadataStore<V>, s: Seq<ChunkKey>, requested: Seq<ChunkKey>) -> bool {
    forall|c: ChunkKey, m: int| #![trigger is_coarse_side(s, c), c.children_spec()[m]]
        is_coarse_side(s, c) && 0 <= m < 4 && (store.get_spec(c.children_spec()[m]) is None)
            ==> requested.contains(c.children_spec()[m])
}

/// Where `k` meets a chunk more than one level coarser across `e`, the children of that chunk
/// whose metadata is not stored are in `requested`.
spec fn gap_requests_done<V: Copy>(store: MetadataStore<V>, s: Seq<ChunkKey>, k: ChunkKey, e: Edge, requested: Seq<ChunkKey>) -> bool {
    lod_gap(s, k, e) ==> forall|m: int| 0 <= m < 4
        && (store.get_spec(#[trigger] covering_ancestor(s, neighbor_spec(k, e)).unwrap().children_spec()[m]) is None)
        ==> requested.contains(covering_ancestor(s, neighbor_spec(k, e)).unwrap().children_spec()[m])
}

proof fn lemma_requests_grow<V: Copy>(store: MetadataStore<V>, s: Seq<ChunkKey>, r1: Seq<ChunkKey>, r2: Seq<ChunkKey>)
    requires
        forall|x: ChunkKey| r1.contains(x) ==> #[trigger] r2.contains(x),
    ensures
        missing_children_requested(store, s, r1) ==> missing_children_requested(store, s, r2),
{
}

proof fn lemma_gap_requests_grow<V: Copy>(store: MetadataStore<V>, s: Seq<ChunkKey>, k: ChunkKey, e: Edge, r1: Seq<ChunkKey>, r2: Seq<ChunkKey>)
    requires
        forall|x: ChunkKey| r1.contains(x) ==> #[trigger] r2.contains(x),
    ensures
        gap_requests_done(store, s, k, e, r1) ==> gap_requests_done(store, s, k, e, r2),
{
}

proof fn lemma_split_count_push(ops: Seq<(bool, ChunkKey)>, op: (bool, ChunkKey))
    ensures
        split_count(ops.push(op)) == split_count(ops) + if op.0 { 1nat } else { 0nat },
{
    assert(ops.push(op).drop_last() =~= ops);
}

proof fn lemma_justified_collapse_is_gap_target<V: Copy>(store: MetadataStore<V>, base: Seq<ChunkKey>, t: ChunkKey)
    requires
        collapse_justified_by(store, base, t),
    ensures
        is_gap_target(base, t),
{
    let (i, e) = choose|i: int, e: Edge| 0 <= i < base.len() && #[trigger] lod_gap(base, base[i], e)
        && t == gap_target(base, base[i], e)
        && !children_stored(store, covering_ancestor(base, neighbor_spec(base[i], e)).unwrap());
    assert(lod_gap(base, base[i], e));
}

proof fn lemma_outcome<V: Copy>(
    store: MetadataStore<V>,
    cap: usize,
    before: Seq<ChunkKey>,
    requested_before: Seq<ChunkKey>,
    states: Seq<Seq<ChunkKey>>,
    bases: Seq<int>,
    ops: Seq<(bool, ChunkKey)>,
    splits: nat,
    after: Seq<ChunkKey>,
    requested_after: Seq<ChunkKey>,
    r: Result<usize, TopologyError>,
)
    requires
        trace_progress(store, cap, before, states, bases, ops, splits),
        before.no_duplicates(),
        requests_justified(states, requested_before, requested_after),
        r matches Ok(n) ==> n == splits && (after == states.last() || forced_collapse_result(states.last(), after)),
    ensures
        normalization_outcome(store, cap, before, requested_before, after, requested_after, r, states, bases, ops),
{
}

/// Splits or collapses selected chunks until no selected chunk meets a selected neighbor more
/// than one level coarser than itself.
///
/// Each pass looks at every selected chunk's four same-level neighbors. Where the selected chunk
/// covering a neighbor is more than one level coarser, that coarse chunk is split when the
/// metadata of its four children is stored (and the split keeps the selection within
/// `hard_chunk_cap`); otherwise the fine side is collapsed into its ancestor one level finer
/// than the coarse chunk, and the missing children are recorded in `requested`. A pass that
/// repeats an earlier selection, a scan beyond `max_work_items` neighbor checks, a hard cap that
/// blocks every split, or the end of `max_passes` passes hands over to
/// `force_collapse_neighbor_lod_delta`. Returns the number of splits made; fails, changing
/// nothing, on a selection that holds a key that is not a valid chunk.
///
/// For a selection without repeats, the selections it passes through form a trace
/// (`normalization_outcome`): every split is of a ready coarse side within the cap, every
/// collapse is at the fine side of a gap whose coarse side is not ready, the count is the number
/// of splits, each requested key is a missing child of a coarse side, and the result is the last
/// selection of the trace or the collapsing fallback applied to it. When the first pass may scan
/// every neighbor, every missing child of a coarse side of a gap of the input is requested
/// (`missing_children_requested`), and when that pass finds a ready coarse side within the cap
/// (`split_owed`), at least one split is made.
#[verifier::rlimit(60)]
pub fn normalize_neighbor_lod_delta_with_limits<V: Copy>(
    store: &MetadataStore<V>,
    selected: &mut Vec<ChunkKey>,
    requested: &mut Vec<ChunkKey>,
    max_passes: usize,
    max_work_items: usize,
    hard_chunk_cap: usize,
) -> (r: Result<usize, TopologyError>)
    requires
        store.wf(),
    ensures
        match r {
            Ok(_) => {
                &&& all_valid(final(selected)@)
                &&& lod_balanced(final(selected)@)
                &&& final(selected)@.len() <= max_len(old(selected)@.len(), hard_chunk_cap as nat)
                &&& is_antichain(old(selected)@) ==> is_antichain(final(selected)@)
                &&& keeps_coverage(old(selected)@, final(selected)@)
            },
            Err(e) => {
                &&& !all_valid(old(selected)@)
                &&& final(selected)@ == old(selected)@
                &&& e == TopologyError::InvalidChunkKey
            },
        },
        requests_extend(*store, old(requested)@, final(requested)@),
        split_owed(*store, old(selected)@, max_passes, max_work_items, hard_chunk_cap) ==> (r matches Ok(n) ==> n >= 1),
        (max_passes > 0 && 4 * old(selected)@.len() <= max_work_items && r is Ok)
            ==> missing_children_requested(*store, old(selected)@, final(requested)@),
        old(selected)@.no_duplicates() ==> exists|states: Seq<Seq<ChunkKey>>, bases: Seq<int>, ops: Seq<(bool, ChunkKey)>|
            #[trigger] normalization_outcome(*store, hard_chunk_cap, old(selected)@, old(requested)@,
                final(selected)@, final(requested)@, r, states, bases, ops),
{
    let mut splits_applied: usize = 0;
    let ghost mut states: Seq<Seq<ChunkKey>> = seq![selected@];
    let ghost mut bases: Seq<int> = Seq::empty();
    let ghost mut ops: Seq<(bool, ChunkKey)> = Seq::empty();
    let ghost owed = split_owed(*store, selected@, max_passes, max_work_items, hard_chunk_cap);
    let ghost full = max_passes > 0 && 4 * selected@.len() <= max_work_items;
    let ghost mut first_scan_done = false;
    let mut seen_states: Vec<Vec<ChunkKey>> = Vec::new();
    let mut work_items: usize = 0;
    let mut pass: usize = 0;
    proof {
        assert(requested@.subrange(0, requested@.len() as int) =~= requested@);
    }
    while pass < max_passes
        invariant_except_break
            full && pass == 0 ==> selected@ == old(selected)@ && work_items == 0 && seen_states@.len() == 0,
        invariant
            store.wf(),
            selected@ == old(selected)@ || all_valid(selected@),
            selected@.len() <= max_len(old(selected)@.len(), hard_chunk_cap as nat),
            is_antichain(old(selected)@) ==> is_antichain(selected@),
                keeps_coverage(old(selected)@, selected@),
            requests_extend(*store, old(requested)@, requested@),
            trace_progress(*store, hard_chunk_cap, old(selected)@, states, bases, ops, splits_applied as nat),
            states.last() == selected@,
            old(selected)@.no_duplicates() ==> selected@.no_duplicates(),
            requests_justified(states, old(requested)@, requested@),
            owed == split_owed(*store, old(selected)@, max_passes, max_work_items, hard_chunk_cap),
            full == (max_passes > 0 && 4 * old(selected)@.len() <= max_work_items),
            owed ==> full,
            first_scan_done ==> missing_children_requested(*store, old(selected)@, requested@),
            full && pass > 0 ==> first_scan_done,
            owed && pass > 0 ==> splits_applied >= 1,
            owed ==> splits_applied >= 1 || (pass == 0 && seen_states@.len() == 0),
        ensures
            owed ==> splits_applied >= 1,
            full ==> first_scan_done,
            first_scan_done ==> missing_children_requested(*store, old(selected)@, requested@),
        decreases max_passes - pass,
    {
        let state = normalized_selection_state(selected);
        if state_seen(&seen_states, &state) {
            let collapse_result = force_collapse_neighbor_lod_delta(selected);
            let res: Result<usize, TopologyError> = match collapse_result {
                Ok(()) => Ok(splits_applied),
                Err(e) => Err(e),
            };
            proof {
                if old(selected)@.no_duplicates() {
                    lemma_outcome(*store, hard_chunk_cap, old(selected)@, old(requested)@, states, bases, ops,
                        splits_applied as nat, selected@, requested@, res);
                }
            }
            return res;
        }
        seen_states.push(state);

        let ghost pass_start = selected@;
        let ghost pass_idx: int = states.len() - 1;
        let mut split_targets: Vec<ChunkKey> = Vec::new();
        let mut collapse_targets: Vec<ChunkKey> = Vec::new();
        let mut i: usize = 0;
        while i < selected.len()
            invariant
                store.wf(),
                selected@ == pass_start,
                pass_start == old(selected)@ || all_valid(pass_start),
                i <= pass_start.len(),
                forall|j: int| 0 <= j < i ==> (#[trigger] pass_start[j]).valid(),
                forall|j: int| 0 <= j < split_targets@.len() ==> ready_split(*store, pass_start, #[trigger] split_targets@[j]),
                forall|j: int| 0 <= j < split_targets@.len() ==> is_coarse_side(pass_start, #[trigger] split_targets@[j]),
                forall|j: int| 0 <= j < collapse_targets@.len() ==> collapse_justified_by(*store, pass_start, #[trigger] collapse_targets@[j]),
                selected@.len() <= max_len(old(selected)@.len(), hard_chunk_cap as nat),
                is_antichain(old(selected)@) ==> is_antichain(selected@),
                keeps_coverage(old(selected)@, selected@),
                requests_extend(*store, old(requested)@, requested@),
                trace_progress(*store, hard_chunk_cap, old(selected)@, states, bases, ops, splits_applied as nat),
                0 <= pass_idx < states.len(),
                states[pass_idx] == pass_start,
                requests_justified(states, old(requested)@, requested@),
                states.last() == selected@,
                old(selected)@.no_duplicates() ==> selected@.no_duplicates(),
                owed == split_owed(*store, old(selected)@, max_passes, max_work_items, hard_chunk_cap),
                full == (max_passes > 0 && 4 * old(selected)@.len() <= max_work_items),
                owed ==> full,
                first_scan_done ==> missing_children_requested(*store, old(selected)@, requested@),
                full && pass > 0 ==> first_scan_done,
                full && pass == 0 ==> pass_start == old(selected)@ && work_items == 4 * i,
                full && pass == 0 ==> forall|j: int, e: Edge| 0 <= j < i
                    ==> #[trigger] gap_requests_done(*store, pass_start, pass_start[j], e, requested@),
                owed && pass > 0 ==> splits_applied >= 1,
                forall|j: int, e: Edge| 0 <= j < i && #[trigger] lod_gap(pass_start, pass_start[j], e)
                    && children_stored(*store, covering_ancestor(pass_start, neighbor_spec(pass_start[j], e)).unwrap())
                    ==> split_targets@.len() > 0,
            decreases pass_start.len() - i,
        {
            let key = selected[i];
            let neighbors = match same_lod_neighbors(key) {
                Ok(n) => n,
                Err(e) => {
                    let res: Result<usize, TopologyError> = Err(e);
                    proof {
                        if old(selected)@.no_duplicates() {
                            lemma_outcome(*store, hard_chunk_cap, old(selected)@, old(requested)@, states, bases, ops,
                                splits_applied as nat, selected@, requested@, res);
                        }
                    }
                    return res;
                },
            };
            let mut ei: usize = 0;
            while ei < 4
                invariant
                    store.wf(),
                    selected@ == pass_start,
                    pass_start == old(selected)@ || all_valid(pass_start),
                    i < pass_start.len(),
                    key == pass_start[i as int],
                    key.valid(),
                    ei <= 4,
                    forall|k: int| 0 <= k < 4 ==> #[trigger] neighbors.same_lod@[k] == neighbor_spec(key, Edge::ALL@[k]),
                    forall|j: int| 0 <= j < i ==> (#[trigger] pass_start[j]).valid(),
                    forall|j: int| 0 <= j < split_targets@.len() ==> ready_split(*store, pass_start, #[trigger] split_targets@[j]),
                    forall|j: int| 0 <= j < split_targets@.len() ==> is_coarse_side(pass_start, #[trigger] split_targets@[j]),
                    forall|j: int| 0 <= j < collapse_targets@.len() ==> collapse_justified_by(*store, pass_start, #[trigger] collapse_targets@[j]),
                    selected@.len() <= max_len(old(selected)@.len(), hard_chunk_cap as nat),
                    is_antichain(old(selected)@) ==> is_antichain(selected@),
                keeps_coverage(old(selected)@, selected@),
                    requests_extend(*store, old(requested)@, requested@),
                    trace_progress(*store, hard_chunk_cap, old(selected)@, states, bases, ops, splits_applied as nat),
                0 <= pass_idx < states.len(),
                states[pass_idx] == pass_start,
                requests_justified(states, old(requested)@, requested@),
                    states.last() == selected@,
                    old(selected)@.no_duplicates() ==> selected@.no_duplicates(),
                    owed == split_owed(*store, old(selected)@, max_passes, max_work_items, hard_chunk_cap),
                    full == (max_passes > 0 && 4 * old(selected)@.len() <= max_work_items),
                    owed ==> full,
                    first_scan_done ==> missing_children_requested(*store, old(selected)@, requested@),
                    full && pass > 0 ==> first_scan_done,
                    full && pass == 0 ==> pass_start == old(selected)@ && work_items == 4 * i + ei,
                    full && pass == 0 ==> forall|j: int, e: Edge| 0 <= j < i
                        ==> #[trigger] gap_requests_done(*store, pass_start, pass_start[j], e, requested@),
                    full && pass == 0 ==> forall|k: int| 0 <= k < ei
                        ==> #[trigger] gap_requests_done(*store, pass_start, key, Edge::ALL@[k], requested@),
                    owed && pass > 0 ==> splits_applied >= 1,
                    forall|j: int, e: Edge| 0 <= j < i && #[trigger] lod_gap(pass_start, pass_start[j], e)
                        && children_stored(*store, covering_ancestor(pass_start, neighbor_spec(pass_start[j], e)).unwrap())
                        ==> split_targets@.len() > 0,
                    forall|k: int| 0 <= k < ei && #[trigger] lod_gap(pass_start, key, Edge::ALL@[k])
                        && children_stored(*store, covering_ancestor(pass_start, neighbor_spec(key, Edge::ALL@[k])).unwrap())
                        ==> split_targets@.len() > 0,
                decreases 4 - ei,
            {
                let ghost w0 = work_items;
                if work_items < usize::MAX {
                    work_items = work_items + 1;
                }
                proof {
                    if full && pass == 0 {
                        assert(4 * i + ei + 1 <= 4 * pass_start.len()) by(nonlinear_arith)
                            requires
                                i < pass_start.len(),
                                ei < 4,
                        ;
                        assert(work_items == w0 + 1);
                    }
                }
                if work_items > max_work_items {
                    let collapse_result = force_collapse_neighbor_lod_delta(selected);
                    let res: Result<usize, TopologyError> = match collapse_result {
                        Ok(()) => Ok(splits_applied),
                        Err(e) => Err(e),
                    };
                    proof {
                        if old(selected)@.no_duplicates() {
                            lemma_outcome(*store, hard_chunk_cap, old(selected)@, old(requested)@, states, bases, ops,
                                splits_applied as nat, selected@, requested@, res);
                        }
                    }
                    return res;
                }
                let edge = Edge::ALL[ei];
                let neighbor_same_lod = neighbors.same_lod[ei];
                proof {
                    assert(Edge::ALL@[ei as int] == edge);
                    lemma_neighbor_round_trip(key, edge);
                    lemma_covering_ancestor(pass_start, neighbor_same_lod);
                }
                if let Some(active_ancestor) = find_active_ancestor_covering(neighbor_same_lod, selected) {
                    if key.lod > active_ancestor.lod + 1 {
                        proof {
                            assert(lod_gap(pass_start, pass_start[i as int], edge));
                            lemma_valid_has_children(active_ancestor);
                            assert(is_coarse_side(pass_start, active_ancestor));
                        }
                        let coarse_children = match active_ancestor.children() {
                            Some(cs) => cs,
                            None => {
                                proof {
                                    assert(false);
                                }
                                return Ok(splits_applied);
                            },
                        };
                        let mut coarse_children_ready = true;
                        let mut m: usize = 0;
                        let ghost req0 = requested@;
                        while m < 4
                            invariant
                                forall|x: ChunkKey| req0.contains(x) ==> #[trigger] requested@.contains(x),
                                forall|q: int| 0 <= q < m && (store.get_spec(#[trigger] coarse_children@[q]) is None)
                                    ==> requested@.contains(coarse_children@[q]),
                                store.wf(),
                                m <= 4,
                                coarse_children@ == active_ancestor.children_spec(),
                                coarse_children_ready == forall|q: int| 0 <= q < m
                                    ==> (store.get_spec(#[trigger] coarse_children@[q]) is Some),
                                requests_extend(*store, old(requested)@, requested@),
                                0 <= pass_idx < states.len(),
                                states[pass_idx] == pass_start,
                                is_coarse_side(pass_start, active_ancestor),
                                requests_justified(states, old(requested)@, requested@),
                            decreases 4 - m,
                        {
                            let child = coarse_children[m];
                            if !store.contains_key(&child) {
                                proof {
                                    lemma_request_step(*store, old(requested)@, requested@, child);
                                    assert(active_ancestor.children_spec()[m as int] == child);
                                    assert(active_ancestor.children_spec().contains(child));
                                    lemma_request_justified(states, old(requested)@, requested@, pass_idx, active_ancestor, child);
                                }
                                proof {
                                    lemma_push_members(requested@, child);
                                }
                                request_metadata(requested, child);
                                coarse_children_ready = false;
                            }
                            m += 1;
                        }
                        proof {
                            lemma_requests_grow(*store, old(selected)@, req0, requested@);
                            if full && pass == 0 {
                                assert forall|j: int, e: Edge| 0 <= j < i implies
                                    #[trigger] gap_requests_done(*store, pass_start, pass_start[j], e, requested@) by {
                                    lemma_gap_requests_grow(*store, pass_start, pass_start[j], e, req0, requested@);
                                }
                                assert forall|k: int| 0 <= k < ei implies
                                    #[trigger] gap_requests_done(*store, pass_start, key, Edge::ALL@[k], requested@) by {
                                    lemma_gap_requests_grow(*store, pass_start, key, Edge::ALL@[k], req0, requested@);
                                }
                            }
                            assert(gap_requests_done(*store, pass_start, key, edge, requested@)) by {
                                assert forall|q: int| 0 <= q < 4 && (store.get_spec(#[trigger] active_ancestor.children_spec()[q]) is None)
                                    implies requested@.contains(active_ancestor.children_spec()[q]) by {
                                    assert(coarse_children@[q] == active_ancestor.children_spec()[q]);
                                }
                            }
                        }
                        if coarse_children_ready {
                            proof {
                                assert(ready_split(*store, pass_start, active_ancestor));
                                lemma_push_members(split_targets@, active_ancestor);
                            }
                            if !holds_key(&split_targets, &active_ancestor) {
                                split_targets.push(active_ancestor);
                                proof {
                                    assert forall|j: int| 0 <= j < split_targets@.len()
                                        implies ready_split(*store, pass_start, #[trigger] split_targets@[j])
                                            && is_coarse_side(pass_start, split_targets@[j]) by {
                                        if j + 1 < split_targets@.len() {
                                            assert(split_targets@[j] == split_targets@.drop_last()[j]);
                                        }
                                    }
                                }
                            }
                        } else {
                            let target = key.ancestor_at_lod(active_ancestor.lod + 1);
                            proof {
                                lemma_ancestor_of_key(key, (active_ancestor.lod + 1) as nat);
                            }
                            if let Some(collapse_target) = target {
                                proof {
                                    assert(is_gap_target(pass_start, collapse_target));
                                    assert(!children_stored(*store, active_ancestor)) by {
                                        let q = choose|q: int| 0 <= q < 4 && !(store.get_spec(#[trigger] coarse_children@[q]) is Some);
                                        assert(coarse_children@[q] == active_ancestor.children_spec()[q]);
                                    }
                                    assert(collapse_justified_by(*store, pass_start, collapse_target));
                                }
                                if !holds_key(&collapse_targets, &collapse_target) {
                                    collapse_targets.push(collapse_target);
                                    proof {
                                        assert forall|j: int| 0 <= j < collapse_targets@.len()
                                            implies collapse_justified_by(*store, pass_start, #[trigger] collapse_targets@[j]) by {
                                            if j + 1 < collapse_targets@.len() {
                                                assert(collapse_targets@[j] == collapse_targets@.drop_last()[j]);
                                            }
                                        }
                                    }
                                }
                            }
                        }
                    }
                }
                proof {
                    assert(Edge::ALL@[ei as int] == edge);
                    assert(gap_requests_done(*store, pass_start, key, edge, requested@));
                }
                ei += 1;
            }
            proof {
                assert forall|e: Edge| #[trigger] lod_gap(pass_start, key, e)
                    && children_stored(*store, covering_ancestor(pass_start, neighbor_spec(key, e)).unwrap())
                    implies split_targets@.len() > 0 by {
                    let k: int = match e { Edge::NegU => 0, Edge::PosU => 1, Edge::NegV => 2, Edge::PosV => 3 };
                    assert(Edge::ALL@[k] == e);
                }
                if full && pass == 0 {
                    assert forall|j: int, e: Edge| 0 <= j < i + 1 implies
                        #[trigger] gap_requests_done(*store, pass_start, pass_start[j], e, requested@) by {
                        if j == i {
                            let k: int = match e { Edge::NegU => 0, Edge::PosU => 1, Edge::NegV => 2, Edge::PosV => 3 };
                            assert(Edge::ALL@[k] == e);
                            assert(gap_requests_done(*store, pass_start, key, Edge::ALL@[k], requested@));
                        }
                    }
                }
            }
            i += 1;
        }

        proof {
            if owed && pass == 0 {
                let c = choose|c: ChunkKey| #[trigger] is_coarse_side(pass_start, c) && children_stored(*store, c);
                let (j, e) = choose|j: int, e: Edge| 0 <= j < pass_start.len() && #[trigger] lod_gap(pass_start, pass_start[j], e)
                    && covering_ancestor(pass_start, neighbor_spec(pass_start[j], e)) == Some(c);
                assert(split_targets@.len() > 0);
            }
        }
        proof {
            if full && pass == 0 {
                assert forall|c: ChunkKey, m: int|
                    #![trigger is_coarse_side(old(selected)@, c), c.children_spec()[m]]
                    is_coarse_side(old(selected)@, c) && 0 <= m < 4 && (store.get_spec(c.children_spec()[m]) is None)
                    implies requested@.contains(c.children_spec()[m]) by {
                    let (j, e) = choose|j: int, e: Edge| 0 <= j < pass_start.len() && #[trigger] lod_gap(pass_start, pass_start[j], e)
                        && covering_ancestor(pass_start, neighbor_spec(pass_start[j], e)) == Some(c);
                    assert(gap_requests_done(*store, pass_start, pass_start[j], e, requested@));
                }
                first_scan_done = true;
            }
        }
        if split_targets.len() == 0 && collapse_targets.len() == 0 {
            break;
        }
        proof {
            assert(all_valid(pass_start));
        }

        let mut progressed_this_pass = false;
        let mut hard_cap_blocked = false;
        let mut t: usize = 0;
        while t < split_targets.len()
            invariant
                store.wf(),
                all_valid(pass_start),
                all_valid(selected@),
                t <= split_targets@.len(),
                forall|j: int| 0 <= j < split_targets@.len() ==> ready_split(*store, pass_start, #[trigger] split_targets@[j]),
                forall|j: int| 0 <= j < split_targets@.len() ==> is_coarse_side(pass_start, #[trigger] split_targets@[j]),
                t == 0 ==> selected@ == pass_start,
                t > 0 ==> progressed_this_pass || hard_cap_blocked,
                selected@.len() <= max_len(old(selected)@.len(), hard_chunk_cap as nat),
                is_antichain(old(selected)@) ==> is_antichain(selected@),
                keeps_coverage(old(selected)@, selected@),
                requests_extend(*store, old(requested)@, requested@),
                trace_progress(*store, hard_chunk_cap, old(selected)@, states, bases, ops, splits_applied as nat),
                0 <= pass_idx < states.len(),
                states[pass_idx] == pass_start,
                requests_justified(states, old(requested)@, requested@),
                states.last() == selected@,
                old(selected)@.no_duplicates() ==> selected@.no_duplicates(),
                owed == split_owed(*store, old(selected)@, max_passes, max_work_items, hard_chunk_cap),
                owed && pass == 0 ==> pass_start == old(selected)@,
                owed && pass == 0 ==> split_targets@.len() > 0,
                owed ==> full,
                full ==> first_scan_done,
                first_scan_done ==> missing_children_requested(*store, old(selected)@, requested@),
                owed && pass == 0 && t > 0 ==> progressed_this_pass,
                owed && (pass > 0 || t > 0) ==> splits_applied >= 1,
            decreases split_targets@.len() - t,
        {
            let coarse_key = split_targets[t];
            t += 1;
            if hard_chunk_cap < 3 || selected.len() > hard_chunk_cap - 3 {
                hard_cap_blocked = true;
                continue;
            }
            let ghost before = selected@;
            proof {
                lemma_valid_has_children(coarse_key);
            }
            if !remove_key(selected, &coarse_key) {
                continue;
            }
            let ghost removed = selected@;
            proof {
                let idx = choose|idx: int| 0 <= idx < before.len() && before[idx] == coarse_key && removed == before.remove(idx);
                lemma_remove_members(before, idx);
                if is_antichain(before) {
                    lemma_antichain_by_members(before);
                }
            }
            let children = match coarse_key.children() {
                Some(cs) => cs,
                None => {
                    proof {
                        assert(false);
                    }
                    return Ok(splits_applied);
                },
            };
            let mut all_children_ready = true;
            let mut m: usize = 0;
            let ghost req0 = requested@;
            while m < 4
                invariant
                    forall|x: ChunkKey| req0.contains(x) ==> #[trigger] requested@.contains(x),
                    store.wf(),
                    m <= 4,
                    children@ == coarse_key.children_spec(),
                    ready_split(*store, pass_start, coarse_key),
                    all_children_ready,
                    removed.len() + 1 == before.len(),
                    selected@.len() <= removed.len() + m,
                    forall|x: ChunkKey| #[trigger] selected@.contains(x)
                        == (removed.contains(x) || exists|q: int| 0 <= q < m && children@[q] == x),
                    removed.no_duplicates() ==> selected@.no_duplicates(),
                    forall|q: int| 0 <= q < 4 ==> (#[trigger] children@[q]).valid(),
                    all_valid(removed),
                    all_valid(selected@),
                    requests_extend(*store, old(requested)@, requested@),
                    0 <= pass_idx < states.len(),
                    states[pass_idx] == pass_start,
                    is_coarse_side(pass_start, coarse_key),
                    requests_justified(states, old(requested)@, requested@),
                decreases 4 - m,
            {
                let child = children[m];
                proof {
                    lemma_push_members(selected@, child);
                }
                if store.contains_key(&child) {
                    insert_key(selected, child);
                } else {
                    proof {
                        lemma_request_step(*store, old(requested)@, requested@, child);
                        assert(coarse_key.children_spec()[m as int] == child);
                        assert(coarse_key.children_spec().contains(child));
                        lemma_request_justified(states, old(requested)@, requested@, pass_idx, coarse_key, child);
                    }
                    proof {
                        lemma_push_members(requested@, child);
                    }
                    request_metadata(requested, child);
                    all_children_ready = false;
                }
                proof {
                    assert forall|j: int| 0 <= j < selected@.len() implies (#[trigger] selected@[j]).valid() by {
                        assert(selected@.contains(selected@[j]));
                    }
                }
                m += 1;
            }
            proof {
                lemma_requests_grow(*store, old(selected)@, req0, requested@);
            }
            if !all_children_ready {
                insert_key(selected, coarse_key);
            } else {
                proof {
                    assert forall|p: ChunkKey| p.lod >= 31 && #[trigger] covers(before, p) implies covers(selected@, p) by {
                        let i = choose|i: int| 0 <= i < before.len() && p.descends_from(#[trigger] before[i]);
                        let a = before[i];
                        assert(before.contains(a));
                        if a == coarse_key {
                            lemma_cell_in_child(p, coarse_key);
                            let m = choose|m: int| 0 <= m < 4 && p.descends_from(#[trigger] coarse_key.children_spec()[m]);
                            assert(children@[m] == coarse_key.children_spec()[m]);
                            lemma_covers_by_members(before, selected@, p, children@[m]);
                        } else {
                            assert(removed.contains(a));
                            lemma_covers_by_members(before, selected@, p, a);
                        }
                    }
                    if is_antichain(old(selected)@) {
                        assert forall|x: ChunkKey| #[trigger] selected@.contains(x)
                            == ((before.contains(x) && x != coarse_key) || coarse_key.children_spec().contains(x)) by {
                            if coarse_key.children_spec().contains(x) {
                                let q = choose|q: int| 0 <= q < 4 && coarse_key.children_spec()[q] == x;
                                assert(children@[q] == x);
                            }
                            if exists|q: int| 0 <= q < 4 && children@[q] == x {
                                let q = choose|q: int| 0 <= q < 4 && children@[q] == x;
                                assert(coarse_key.children_spec()[q] == x);
                            }
                        }
                        lemma_split_antichain(before, coarse_key, selected@);
                    }
                }
                proof {
                    if old(selected)@.no_duplicates() {
                        assert forall|x: ChunkKey| #[trigger] selected@.contains(x)
                            == ((before.contains(x) && x != coarse_key) || coarse_key.children_spec().contains(x)) by {
                            if coarse_key.children_spec().contains(x) {
                                let q = choose|q: int| 0 <= q < 4 && coarse_key.children_spec()[q] == x;
                                assert(children@[q] == x);
                            }
                            if exists|q: int| 0 <= q < 4 && children@[q] == x {
                                let q = choose|q: int| 0 <= q < 4 && children@[q] == x;
                                assert(coarse_key.children_spec()[q] == x);
                            }
                        }
                        assert(ready_split(*store, before, coarse_key));
                        assert(split_step(*store, hard_chunk_cap, before, coarse_key, selected@));
                        assert(normalization_step(*store, hard_chunk_cap, states[pass_idx], states.last(), (true, coarse_key), selected@));
                        lemma_trace_push(*store, hard_chunk_cap, states, bases, ops, pass_idx, (true, coarse_key), selected@);
                    }
                    lemma_split_count_push(ops, (true, coarse_key));
                    lemma_requests_justified_push(states, selected@, old(requested)@, requested@);
                    states = states.push(selected@);
                    bases = bases.push(pass_idx);
                    ops = ops.push((true, coarse_key));
                }
                if splits_applied < usize::MAX {
                    splits_applied = splits_applied + 1;
                }
                progressed_this_pass = true;
            }
        }

        let mut c: usize = 0;
        while c < collapse_targets.len()
            invariant
                all_valid(pass_start),
                all_valid(selected@),
                c <= collapse_targets@.len(),
                forall|j: int| 0 <= j < collapse_targets@.len() ==> collapse_justified_by(*store, pass_start, #[trigger] collapse_targets@[j]),
                split_targets@.len() > 0 ==> progressed_this_pass || hard_cap_blocked,
                split_targets@.len() == 0 && c == 0 ==> selected@ == pass_start,
                split_targets@.len() == 0 && c > 0 ==> progressed_this_pass,
                selected@.len() <= max_len(old(selected)@.len(), hard_chunk_cap as nat),
                is_antichain(old(selected)@) ==> is_antichain(selected@),
                keeps_coverage(old(selected)@, selected@),
                store.wf(),
                requests_extend(*store, old(requested)@, requested@),
                trace_progress(*store, hard_chunk_cap, old(selected)@, states, bases, ops, splits_applied as nat),
                0 <= pass_idx < states.len(),
                states[pass_idx] == pass_start,
                requests_justified(states, old(requested)@, requested@),
                states.last() == selected@,
                old(selected)@.no_duplicates() ==> selected@.no_duplicates(),
                owed ==> splits_applied >= 1,
                owed && pass == 0 ==> progressed_this_pass,
                full ==> first_scan_done,
                first_scan_done ==> missing_children_requested(*store, old(selected)@, requested@),
            decreases collapse_targets@.len() - c,
        {
            let collapse_target = collapse_targets[c];
            proof {
                lemma_justified_collapse_is_gap_target(*store, pass_start, collapse_target);
                lemma_gap_target(pass_start, collapse_target);
                lemma_collapsed(selected@, collapse_target);
                lemma_collapsed_keeps_coverage(selected@, collapse_target);
                if selected@.no_duplicates() {
                    lemma_collapsed_no_duplicates(selected@, collapse_target);
                }
            }
            let collapsed_any = collapse_selected_descendants(selected, collapse_target);
            proof {
                if old(selected)@.no_duplicates() {
                    assert(normalization_step(*store, hard_chunk_cap, states[pass_idx], states.last(), (false, collapse_target), selected@));
                    lemma_trace_push(*store, hard_chunk_cap, states, bases, ops, pass_idx, (false, collapse_target), selected@);
                }
                lemma_split_count_push(ops, (false, collapse_target));
                lemma_requests_justified_push(states, selected@, old(requested)@, requested@);
                states = states.push(selected@);
                bases = bases.push(pass_idx);
                ops = ops.push((false, collapse_target));
            }
            progressed_this_pass = progressed_this_pass || collapsed_any;
            c += 1;
        }

        if !progressed_this_pass {
            if hard_cap_blocked {
                let collapse_result = force_collapse_neighbor_lod_delta(selected);
                let res: Result<usize, TopologyError> = match collapse_result {
                    Ok(()) => Ok(splits_applied),
                    Err(e) => Err(e),
                };
                proof {
                    if old(selected)@.no_duplicates() {
                        lemma_outcome(*store, hard_chunk_cap, old(selected)@, old(requested)@, states, bases, ops,
                            splits_applied as nat, selected@, requested@, res);
                    }
                }
                return res;
            }
            proof {
                if old(selected)@.no_duplicates() {
                    lemma_outcome(*store, hard_chunk_cap, old(selected)@, old(requested)@, states, bases, ops,
                        splits_applied as nat, selected@, requested@, Ok(splits_applied));
                }
            }
            return Ok(splits_applied);
        }
        pass += 1;
    }

    let collapse_result = force_collapse_neighbor_lod_delta(selected);
    let res: Result<usize, TopologyError> = match collapse_result {
        Ok(()) => Ok(splits_applied),
        Err(e) => Err(e),
    };
    proof {
        if old(selected)@.no_duplicates() {
            lemma_outcome(*store, hard_chunk_cap, old(selected)@, old(requested)@, states, bases, ops,
                splits_applied as nat, selected@, requested@, res);
        }
    }
    res
}

/// Neighbor-normalization passes per frame.
pub const MAX_NEIGHBOR_NORMALIZATION_PASSES_PER_FRAME: usize = 64;

/// Neighbor checks per frame before normalization falls back to collapsing.
pub const MAX_NEIGHBOR_NORMALIZATION_WORK_ITEMS_PER_FRAME: usize = 16384;

/// `normalize_neighbor_lod_delta_with_limits` with the per-frame pass and work limits.
pub fn normalize_neighbor_lod_delta<V: Copy>(
    store: &MetadataStore<V>,
    selected: &mut Vec<ChunkKey>,
    requested: &mut Vec<ChunkKey>,
    hard_chunk_cap: usize,
) -> (r: Result<usize, TopologyError>)
    requires
        store.wf(),
    ensures
        match r {
            Ok(_) => {
                &&& all_valid(final(selected)@)
                &&& lod_balanced(final(selected)@)
                &&& final(selected)@.len() <= max_len(old(selected)@.len(), hard_chunk_cap as nat)
                &&& is_antichain(old(selected)@) ==> is_antichain(final(selected)@)
                &&& keeps_coverage(old(selected)@, final(selected)@)
            },
            Err(e) => {
                &&& !all_valid(old(selected)@)
                &&& final(selected)@ == old(selected)@
                &&& e == TopologyError::InvalidChunkKey
            },
        },
        requests_extend(*store, old(requested)@, final(requested)@),
        split_owed(*store, old(selected)@, MAX_NEIGHBOR_NORMALIZATION_PASSES_PER_FRAME,
            MAX_NEIGHBOR_NORMALIZATION_WORK_ITEMS_PER_FRAME, hard_chunk_cap) ==> (r matches Ok(n) ==> n >= 1),
        (4 * old(selected)@.len() <= MAX_NEIGHBOR_NORMALIZATION_WORK_ITEMS_PER_FRAME && r is Ok)
            ==> missing_children_requested(*store, old(selected)@, final(requested)@),
        old(selected)@.no_duplicates() ==> exists|states: Seq<Seq<ChunkKey>>, bases: Seq<int>, ops: Seq<(bool, ChunkKey)>|
            #[trigger] normalization_outcome(*store, hard_chunk_cap, old(selected)@, old(requested)@,
                final(selected)@, final(requested)@, r, states, bases, ops),
{
    normalize_neighbor_lod_delta_with_limits(
        store,
        selected,
        requested,
        MAX_NEIGHBOR_NORMALIZATION_PASSES_PER_FRAME,
        MAX_NEIGHBOR_NORMALIZATION_WORK_ITEMS_PER_FRAME,
        hard_chunk_cap,
    )
}

/// The levels at which the selection covers the four same-level neighbors of `key`, in
/// `Edge::ALL` order; a neighbor that no selected chunk covers counts at the key's own level.
pub open spec fn covered_neighbor_lods(s: Seq<ChunkKey>, key: ChunkKey) -> Seq<u8> {
    Seq::new(4, |i: int| match covering_ancestor(s, neighbor_spec(key, Edge::ALL@[i])) {
        Some(a) => a.lod,
        None => key.lod,
    })
}

/// The stitch mask that a selected chunk needs: the edges toward a neighbor that the
/// selection covers one level coarser. Where the key is not a valid chunk, it fails.
pub fn required_stitch_mask_for_selection(key: ChunkKey, desired_render: &Vec<ChunkKey>) -> (r: Result<u8, TopologyError>)
    requires
        key.valid() ==> forall|e: Edge| !#[trigger] lod_gap(desired_render@, key, e),
    ensures
        match r {
            Ok(mask) => {
                &&& key.valid()
                &&& mask as int == fine_to_coarse_mask(key.lod, covered_neighbor_lods(desired_render@, key))
                &&& mask <= 15
            },
            Err(e) => !key.valid() && e == TopologyError::InvalidChunkKey,
        },
{
    let neighbors = same_lod_neighbors(key)?;
    let mut neighbor_lods: [u8; 4] = [key.lod; 4];
    let mut i: usize = 0;
    while i < 4
        invariant
            key.valid(),
            i <= 4,
            neighbor_lods@.len() == 4,
            forall|k: int| 0 <= k < 4 ==> #[trigger] neighbors.same_lod@[k] == neighbor_spec(key, Edge::ALL@[k]),
            forall|k: int| 0 <= k < i ==> neighbor_lods@[k] == #[trigger] covered_neighbor_lods(desired_render@, key)[k],
            forall|k: int| i <= k < 4 ==> neighbor_lods@[k] == key.lod,
        decreases 4 - i,
    {
        let neighbor_same_lod = neighbors.same_lod[i];
        if let Some(covering_key) = find_active_ancestor_covering(neighbor_same_lod, desired_render) {
            neighbor_lods[i] = covering_key.lod;
        }
        i += 1;
    }
    proof {
        assert forall|k: int| 0 <= k < 4 implies crate::mesh_topology::supported_delta(key.lod, #[trigger] neighbor_lods@[k]) by {
            let e = Edge::ALL@[k];
            lemma_neighbor_round_trip(key, e);
            lemma_covering_ancestor(desired_render@, neighbor_spec(key, e));
            assert(!lod_gap(desired_render@, key, e));
            assert(neighbor_lods@[k] == covered_neighbor_lods(desired_render@, key)[k]);
        }
        assert(neighbor_lods@ =~= covered_neighbor_lods(desired_render@, key));
    }
    match stitch_mask_from_neighbor_lods(key.lod, neighbor_lods) {
        Ok(mask) => Ok(mask),
        Err(_) => {
            proof {
                assert(crate::mesh_topology::supported_delta(key.lod, neighbor_lods@[0]));
                assert(crate::mesh_topology::supported_delta(key.lod, neighbor_lods@[1]));
                assert(crate::mesh_topology::supported_delta(key.lod, neighbor_lods@[2]));
                assert(crate::mesh_topology::supported_delta(key.lod, neighbor_lods@[3]));
                assert(false);
            }
            Err(TopologyError::InvalidChunkKey)
        },
    }
}

/// The render formats that every chunk surface of the planet shares.
#[derive(Clone, Copy, Debug, PartialEq, Eq, Structural)]
pub struct RenderSurfaceFormat {
    pub material_class: u8,
    pub format_mask: u64,
    pub vertex_stride: usize,
    pub attribute_stride: usize,
    pub index_stride: usize,
}

/// The surface class a selected chunk needs: the canonical chunk mesh with the stitch mask
/// that its selected neighbors call for, in the planet's render format.
pub fn required_surface_class_for_selection(
    key: ChunkKey,
    desired_render: &Vec<ChunkKey>,
    format: &RenderSurfaceFormat,
) -> (r: Result<SurfaceClassKey, TopologyError>)
    requires
        key.valid() ==> forall|e: Edge| !#[trigger] lod_gap(desired_render@, key, e),
    ensures
        match r {
            Ok(class) => {
                let mask = fine_to_coarse_mask(key.lod, covered_neighbor_lods(desired_render@, key));
                &&& key.valid()
                &&& class == SurfaceClassKey::new_spec(CANONICAL_TOPOLOGY_CLASS, mask as u8, mask as u8,
                    format.material_class, 1089, variant_spec(mask as u8).len() as u32, format.format_mask,
                    format.vertex_stride, format.attribute_stride, format.index_stride)
            },
            Err(e) => !key.valid() && e == TopologyError::InvalidChunkKey,
        },
{
    let stitch_mask = required_stitch_mask_for_selection(key, desired_render)?;
    match SurfaceClassKey::canonical_chunk(
        stitch_mask,
        format.material_class,
        format.format_mask,
        format.vertex_stride,
        format.attribute_stride,
        format.index_stride,
    ) {
        Ok(class) => Ok(class),
        Err(_) => {
            proof {
                assert(false);
            }
            Err(TopologyError::InvalidChunkKey)
        },
    }
}

/// After normalization every selected chunk can be given its surface class: no selected chunk
/// meets a neighbor more than one level coarser.
pub proof fn lemma_balanced_selection_has_surface_classes(s: Seq<ChunkKey>, i: int)
    requires
        lod_balanced(s),
        0 <= i < s.len(),
    ensures
        forall|e: Edge| !#[trigger] lod_gap(s, s[i], e),
{
    assert forall|e: Edge| !#[trigger] lod_gap(s, s[i], e) by {
        assert(!lod_gap(s, s[i], e));
    }
}

/// `a` is a strict ancestor of some key of `s`: the selection holds finer chunks inside it.
pub open spec fn is_split_ancestor(s: Seq<ChunkKey>, a: ChunkKey) -> bool {
    exists|i: int| 0 <= i < s.len() && (#[trigger] s[i]).lod > a.lod && s[i].descends_from(a)
}

/// The chunks that are currently split: every strict ancestor of a rendered chunk, once.
pub fn build_current_split_ancestors(active_render: &Vec<ChunkKey>) -> (ancestors: Vec<ChunkKey>)
    ensures
        ancestors@.no_duplicates(),
        forall|a: ChunkKey| #[trigger] ancestors@.contains(a) == is_split_ancestor(active_render@, a),
{
    let mut ancestors: Vec<ChunkKey> = Vec::new();
    let mut i: usize = 0;
    while i < active_render.len()
        invariant
            i <= active_render@.len(),
            ancestors@.no_duplicates(),
            forall|a: ChunkKey| #[trigger] ancestors@.contains(a)
                == exists|j: int| 0 <= j < i && (#[trigger] active_render@[j]).lod > a.lod && active_render@[j].descends_from(a),
        decreases active_render@.len() - i,
    {
        let key = active_render[i];
        let ghost before = ancestors@;
        let mut current = key;
        proof {
            lemma_descends_from_reflexive(key);
        }
        loop
            invariant
                ancestors@.no_duplicates(),
                key.descends_from(current),
                current.lod <= key.lod,
                forall|a: ChunkKey| #[trigger] ancestors@.contains(a)
                    == (before.contains(a) || (current.lod <= a.lod && a.lod < key.lod && key.descends_from(a))),
            ensures
                current.lod == 0,
                ancestors@.no_duplicates(),
                forall|a: ChunkKey| #[trigger] ancestors@.contains(a)
                    == (before.contains(a) || (current.lod <= a.lod && a.lod < key.lod && key.descends_from(a))),
            decreases current.lod,
        {
            match current.parent() {
                Some(p) => {
                    proof {
                        lemma_parent_is_ancestor(current);
                        lemma_descends_from_transitive(key, current, p);
                        lemma_push_members(ancestors@, p);
                        assert forall|a: ChunkKey| a.lod == p.lod && key.descends_from(a) implies a == p by {
                            lemma_ancestors_nested(key, p, a);
                            lemma_descends_same_level(p, a);
                        }
                    }
                    if !holds_key(&ancestors, &p) {
                        ancestors.push(p);
                    }
                    current = p;
                },
                None => {
                    break;
                },
            }
        }
        proof {
            assert(current.lod == 0);
            assert forall|a: ChunkKey| #[trigger] ancestors@.contains(a)
                == exists|j: int| 0 <= j < i + 1 && (#[trigger] active_render@[j]).lod > a.lod && active_render@[j].descends_from(a) by {
                if exists|j: int| 0 <= j < i + 1 && (#[trigger] active_render@[j]).lod > a.lod && active_render@[j].descends_from(a) {
                    let j = choose|j: int| 0 <= j < i + 1 && (#[trigger] active_render@[j]).lod > a.lod && active_render@[j].descends_from(a);
                    if j < i {
                        assert(before.contains(a));
                    }
                }
                if before.contains(a) {
                    let j = choose|j: int| 0 <= j < i && (#[trigger] active_render@[j]).lod > a.lod && active_render@[j].descends_from(a);
                    assert(0 <= j < i + 1 && active_render@[j].lod > a.lod);
                }
                if key.lod > a.lod && key.descends_from(a) {
                    assert(active_render@[i as int] == key);
                }
            }
        }
        i += 1;
    }
    ancestors
}

/// The desired chunks that overlap `key` on its face: inside it or containing it, in order.
pub open spec fn intersecting(desired: Seq<ChunkKey>, key: ChunkKey) -> Seq<ChunkKey> {
    desired.filter(|c: ChunkKey| c.face == key.face && (c.descends_from(key) || key.descends_from(c)))
}

/// The desired chunks that overlap `key` on its face.
pub fn desired_keys_intersecting(key: ChunkKey, desired: &Vec<ChunkKey>) -> (r: Vec<ChunkKey>)
    requires
        all_valid(desired@),
        key.valid(),
    ensures
        r@ == intersecting(desired@, key),
{
    let mut r: Vec<ChunkKey> = Vec::new();
    let mut i: usize = 0;
    while i < desired.len()
        invariant
            i <= desired@.len(),
            all_valid(desired@),
            key.valid(),
            r@ == intersecting(desired@.take(i as int), key),
        decreases desired@.len() - i,
    {
        let candidate = desired[i];
        proof {
            reveal(Seq::filter);
            assert(desired@.take(i + 1).drop_last() =~= desired@.take(i as int));
            assert(desired@.take(i + 1).last() == candidate);
        }
        assert(candidate.valid());
        if candidate.face == key.face && (candidate.is_descendant_of(&key) || key.is_descendant_of(&candidate)) {
            r.push(candidate);
        }
        i += 1;
    }
    assert(desired@.take(desired@.len() as int) =~= desired@);
    r
}

/// `key` can leave the render set once every desired chunk that overlaps it is ready (or
/// none does).
pub fn coverage_ready_for_key(key: ChunkKey, desired: &Vec<ChunkKey>, ready_desired: &Vec<ChunkKey>) -> (b: bool)
    requires
        all_valid(desired@),
        key.valid(),
    ensures
        b == forall|j: int| 0 <= j < intersecting(desired@, key).len()
            ==> ready_desired@.contains(#[trigger] intersecting(desired@, key)[j]),
{
    let intersections = desired_keys_intersecting(key, desired);
    let mut i: usize = 0;
    while i < intersections.len()
        invariant
            i <= intersections@.len(),
            intersections@ == intersecting(desired@, key),
            forall|j: int| 0 <= j < i ==> ready_desired@.contains(#[trigger] intersections@[j]),
        decreases intersections@.len() - i,
    {
        if !holds_key(ready_desired, &intersections[i]) {
            return false;
        }
        i += 1;
    }
    true
}

/// The surface class of a chunk with no coarser neighbor, in the planet's render format.
pub fn base_chunk_surface_class(format: &RenderSurfaceFormat) -> (r: Result<SurfaceClassKey, TopologyError>)
    ensures
        r == Ok::<SurfaceClassKey, TopologyError>(SurfaceClassKey::new_spec(CANONICAL_TOPOLOGY_CLASS, 0, 0,
            format.material_class, 1089, variant_spec(0).len() as u32, format.format_mask,
            format.vertex_stride, format.attribute_stride, format.index_stride)),
{
    match SurfaceClassKey::canonical_chunk(
        crate::mesh_topology::BASE_STITCH_MASK,
        format.material_class,
        format.format_mask,
        format.vertex_stride,
        format.attribute_stride,
        format.index_stride,
    ) {
        Ok(class) => Ok(class),
        Err(_) => Err(TopologyError::InvalidChunkKey),
    }
}

/// What one refinement step did to the selection.
#[derive(Clone, Copy, Debug, PartialEq, Eq, Structural)]
pub enum RefinementStep {
    /// The candidate had left the selection.
    NotSelected,
    /// None of its children is to be rendered.
    NoChildren,
    /// Replacing it would exceed the chunk target or the hard cap.
    CapHit,
    /// It was replaced by its children.
    Refined,
}

/// Replaces a selected chunk by those of its children that are to be rendered, unless that
/// would take the selection past `min(target_render_chunks, hard_render_chunk_cap)` chunks.
pub fn refine_selection_step(
    selected: &mut Vec<ChunkKey>,
    candidate: ChunkKey,
    child_entries: &Vec<ChunkKey>,
    target_render_chunks: usize,
    hard_render_chunk_cap: usize,
) -> (step: RefinementStep)
    requires
        old(selected)@.no_duplicates(),
    ensures
        final(selected)@.no_duplicates(),
        !old(selected)@.contains(candidate) ==> step == RefinementStep::NotSelected && final(selected)@ == old(selected)@,
        old(selected)@.contains(candidate) && child_entries@.len() == 0
            ==> step == RefinementStep::NoChildren && final(selected)@ == old(selected)@,
        old(selected)@.contains(candidate) && child_entries@.len() > 0 && ({
            let projected = old(selected)@.len() - 1 + child_entries@.len();
            projected > target_render_chunks || projected > hard_render_chunk_cap
        }) ==> step == RefinementStep::CapHit && final(selected)@ == old(selected)@,
        step == RefinementStep::Refined ==> {
            &&& forall|k: ChunkKey| #[trigger] final(selected)@.contains(k)
                == ((old(selected)@.contains(k) && k != candidate) || child_entries@.contains(k))
            &&& final(selected)@.len() <= old(selected)@.len() - 1 + child_entries@.len()
            &&& final(selected)@.len() <= target_render_chunks
            &&& final(selected)@.len() <= hard_render_chunk_cap
        },
        step == RefinementStep::Refined || step == RefinementStep::CapHit || step == RefinementStep::NoChildren
            || step == RefinementStep::NotSelected,
        old(selected)@.contains(candidate) && child_entries@.len() > 0 && ({
            let projected = old(selected)@.len() - 1 + child_entries@.len();
            projected <= target_render_chunks && projected <= hard_render_chunk_cap
        }) ==> step == RefinementStep::Refined,
{
    if !holds_key(selected, &candidate) {
        return RefinementStep::NotSelected;
    }
    if child_entries.len() == 0 {
        return RefinementStep::NoChildren;
    }
    let soft_cap = if target_render_chunks < hard_render_chunk_cap { target_render_chunks } else { hard_render_chunk_cap };
    let others = selected.len() - 1;
    if child_entries.len() > soft_cap || others > soft_cap - child_entries.len() {
        return RefinementStep::CapHit;
    }
    let ghost before = selected@;
    remove_key(selected, &candidate);
    proof {
        let idx = choose|idx: int| 0 <= idx < before.len() && before[idx] == candidate && selected@ == before.remove(idx);
        lemma_remove_members(before, idx);
    }
    let ghost removed = selected@;
    let mut i: usize = 0;
    while i < child_entries.len()
        invariant
            i <= child_entries@.len(),
            selected@.no_duplicates(),
            selected@.len() <= removed.len() + i,
            removed.len() + 1 == before.len(),
            forall|k: ChunkKey| #[trigger] selected@.contains(k)
                == (removed.contains(k) || exists|j: int| 0 <= j < i && child_entries@[j] == k),
        decreases child_entries@.len() - i,
    {
        let child = child_entries[i];
        proof {
            lemma_push_members(selected@, child);
        }
        insert_key(selected, child);
        proof {
            assert forall|k: ChunkKey| #[trigger] selected@.contains(k)
                == (removed.contains(k) || exists|j: int| 0 <= j < i + 1 && child_entries@[j] == k) by {
                if exists|j: int| 0 <= j < i + 1 && child_entries@[j] == k {
                    let j = choose|j: int| 0 <= j < i + 1 && child_entries@[j] == k;
                    if j < i {
                        assert(exists|j2: int| 0 <= j2 < i && child_entries@[j2] == k);
                    }
                }
                if exists|j: int| 0 <= j < i && child_entries@[j] == k {
                    assert(exists|j2: int| 0 <= j2 < i + 1 && child_entries@[j2] == k);
                }
            }
        }
        i += 1;
    }
    proof {
        assert forall|k: ChunkKey| #[trigger] selected@.contains(k)
            == ((before.contains(k) && k != candidate) || child_entries@.contains(k)) by {
            if child_entries@.contains(k) {
                let j = choose|j: int| 0 <= j < child_entries@.len() && child_entries@[j] == k;
                assert(exists|j2: int| 0 <= j2 < child_entries@.len() && child_entries@[j2] == k);
            }
        }
    }
    RefinementStep::Refined
}

/// Refining a selected chunk into its own children keeps the selection an antichain.
pub proof fn lemma_refinement_keeps_antichain(before: Seq<ChunkKey>, candidate: ChunkKey, children: Seq<ChunkKey>, after: Seq<ChunkKey>)
    requires
        is_antichain(before),
        before.contains(candidate),
        candidate.has_children(),
        forall|k: ChunkKey| #[trigger] children.contains(k) ==> candidate.children_spec().contains(k),
        after.no_duplicates(),
        forall|k: ChunkKey| #[trigger] after.contains(k) == ((before.contains(k) && k != candidate) || children.contains(k)),
    ensures
        is_antichain(after),
{
    lemma_antichain_by_members(before);
    crate::chunk::lemma_children_of_key(candidate);
    let cs = candidate.children_spec();
    assert forall|x: ChunkKey| #[trigger] children.contains(x) implies x.descends_from(candidate) && x.lod == candidate.lod + 1 && !before.contains(x) by {
        let m = choose|m: int| 0 <= m < 4 && cs[m] == x;
        assert(cs[m].descends_from(candidate));
        if before.contains(x) {
            assert(x != candidate);
        }
    }
    assert forall|a: ChunkKey, b: ChunkKey| after.contains(a) && after.contains(b) && a != b implies !a.descends_from(b) by {
        if a.descends_from(b) {
            if children.contains(a) && children.contains(b) {
                lemma_descends_same_level(a, b);
            } else if children.contains(a) {
                if b.lod == a.lod {
                    lemma_descends_same_level(a, b);
                } else {
                    lemma_ancestors_nested(a, candidate, b);
                }
            } else if children.contains(b) {
                lemma_descends_from_transitive(a, b, candidate);
            }
        }
    }
    lemma_antichain_by_members(after);
}

} // verus!
