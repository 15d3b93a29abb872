use vstd::prelude::*;
use crate::assets::{anchor_spec, asset_group_anchor_key, asset_group_key_for_chunk, group_key_spec, AssetGroupKey};
use crate::chunk::ChunkKey;
use crate::order::{keys_strictly_sorted, sort_key_set};

verus! {

/// The group of the `j`-th asset placed on the `i`-th chunk; each chunk comes with the family
/// of each of its assets, in placement order.
pub open spec fn group_of(chunks: Seq<(ChunkKey, Vec<u16>)>, i: int, j: int, chunk_span: u32) -> AssetGroupKey {
    group_key_spec(chunks[i].0, chunks[i].1@[j], chunk_span)
}

/// `(i, j)` names an asset: the `j`-th asset of the `i`-th chunk.
pub open spec fn is_asset(chunks: Seq<(ChunkKey, Vec<u16>)>, i: int, j: int) -> bool {
    0 <= i < chunks.len() && 0 <= j < chunks[i].1@.len()
}

/// Asset `(i, j)` comes before asset `(a, b)` in the walk over chunks and their assets.
pub open spec fn walk_before(i: int, j: int, a: int, b: int) -> bool {
    i < a || (i == a && j < b)
}

/// No chunk is listed twice.
pub open spec fn distinct_chunks(chunks: Seq<(ChunkKey, Vec<u16>)>) -> bool {
    forall|a: int, b: int| 0 <= a < b < chunks.len() ==> (#[trigger] chunks[a]).0 != (#[trigger] chunks[b]).0
}

/// `k` is the key of one of the first `n` chunks.
pub open spec fn came_from(chunks: Seq<(ChunkKey, Vec<u16>)>, k: ChunkKey, n: int) -> bool {
    exists|a: int| 0 <= a < n && chunks[a].0 == k
}

/// One asset group to build: its key, the chunk that anchors its origin, the chunks that
/// contribute assets (ascending), and its assets as (chunk index, asset index) in walk order.
#[derive(Debug)]
pub struct AssetGroupPlan {
    pub key: AssetGroupKey,
    pub anchor: ChunkKey,
    pub source_chunks: Vec<ChunkKey>,
    pub members: Vec<(usize, usize)>,
}

/// What a plan for group `g` holds: exactly the assets of group `g`, in walk order, and the
/// chunks they come from, ascending.
pub open spec fn plans_group(chunks: Seq<(ChunkKey, Vec<u16>)>, chunk_span: u32, plan: AssetGroupPlan) -> bool {
    &&& plan.anchor == anchor_spec(plan.key, chunk_span)
    &&& forall|m: int| 0 <= m < plan.members@.len() ==> {
        &&& is_asset(chunks, (#[trigger] plan.members@[m]).0 as int, plan.members@[m].1 as int)
        &&& group_of(chunks, plan.members@[m].0 as int, plan.members@[m].1 as int, chunk_span) == plan.key
    }
    &&& forall|i: int, j: int| is_asset(chunks, i, j) && #[trigger] group_of(chunks, i, j, chunk_span) == plan.key
        ==> plan.members@.contains((i as usize, j as usize))
    &&& forall|m1: int, m2: int| 0 <= m1 < m2 < plan.members@.len()
        ==> walk_before((#[trigger] plan.members@[m1]).0 as int, plan.members@[m1].1 as int,
            (#[trigger] plan.members@[m2]).0 as int, plan.members@[m2].1 as int)
    &&& keys_strictly_sorted(plan.source_chunks@)
    &&& forall|k: ChunkKey| #[trigger] plan.source_chunks@.contains(k)
        <==> exists|m: int| 0 <= m < plan.members@.len() && chunks[(#[trigger] plan.members@[m]).0 as int].0 == k
}

fn holds_group_key(keys: &Vec<AssetGroupKey>, g: &AssetGroupKey) -> (b: bool)
    ensures
        b == keys@.contains(*g),
{
    let mut t: usize = 0;
    while t < keys.len()
        invariant
            t <= keys@.len(),
            forall|s: int| 0 <= s < t ==> keys@[s] != *g,
        decreases keys@.len() - t,
    {
        if keys[t] == *g {
            return true;
        }
        t += 1;
    }
    false
}

/// The groups that the assets fall into, each once, in order of first appearance.
fn distinct_group_keys(chunks: &Vec<(ChunkKey, Vec<u16>)>, chunk_span: u32) -> (keys: Vec<AssetGroupKey>)
    ensures
        keys@.no_duplicates(),
        forall|g: AssetGroupKey| #[trigger] keys@.contains(g)
            <==> exists|i: int, j: int| is_asset(chunks@, i, j) && group_of(chunks@, i, j, chunk_span) == g,
{
    let mut keys: Vec<AssetGroupKey> = Vec::new();
    let mut i: usize = 0;
    while i < chunks.len()
        invariant
            i <= chunks@.len(),
            keys@.no_duplicates(),
            forall|g: AssetGroupKey| #[trigger] keys@.contains(g)
                <==> exists|a: int, b: int| is_asset(chunks@, a, b) && a < i && group_of(chunks@, a, b, chunk_span) == g,
        decreases chunks@.len() - i,
    {
        let mut j: usize = 0;
        while j < chunks[i].1.len()
            invariant
                i < chunks@.len(),
                j <= chunks@[i as int].1@.len(),
                keys@.no_duplicates(),
                forall|g: AssetGroupKey| #[trigger] keys@.contains(g)
                    <==> exists|a: int, b: int| is_asset(chunks@, a, b) && walk_before(a, b, i as int, j as int)
                        && group_of(chunks@, a, b, chunk_span) == g,
            decreases chunks@[i as int].1@.len() - j,
        {
            let g = asset_group_key_for_chunk(chunks[i].0, chunks[i].1[j], chunk_span);
            assert(g == group_of(chunks@, i as int, j as int, chunk_span));
            let ghost before = keys@;
            if !holds_group_key(&keys, &g) {
                keys.push(g);
            }
            proof {
                assert forall|h: AssetGroupKey| #[trigger] keys@.contains(h)
                    <==> exists|a: int, b: int| is_asset(chunks@, a, b) && walk_before(a, b, i as int, j + 1)
                        && group_of(chunks@, a, b, chunk_span) == h by {
                    if keys@.contains(h) {
                        if h == g {
                            assert(is_asset(chunks@, i as int, j as int) && walk_before(i as int, j as int, i as int, j + 1));
                        } else {
                            assert(before.contains(h));
                        }
                    }
                    if exists|a: int, b: int| is_asset(chunks@, a, b) && walk_before(a, b, i as int, j + 1)
                        && group_of(chunks@, a, b, chunk_span) == h {
                        let (a, b) = choose|a: int, b: int| is_asset(chunks@, a, b) && walk_before(a, b, i as int, j + 1)
                            && group_of(chunks@, a, b, chunk_span) == h;
                        if walk_before(a, b, i as int, j as int) {
                            assert(before.contains(h));
                        } else {
                            assert(h == g);
                        }
                        if before.contains(h) {
                            assert(keys@.contains(h)) by {
                                let t = choose|t: int| 0 <= t < before.len() && before[t] == h;
                                assert(keys@[t] == h);
                            }
                        }
                        if h == g && !before.contains(h) {
                            assert(keys@[keys@.len() - 1] == h);
                        }
                    }
                }
            }
            j += 1;
        }
        proof {
            assert forall|g: AssetGroupKey| #[trigger] keys@.contains(g)
                <==> exists|a: int, b: int| is_asset(chunks@, a, b) && a < i + 1 && group_of(chunks@, a, b, chunk_span) == g by {
                if keys@.contains(g) {
                    let (a, b) = choose|a: int, b: int| is_asset(chunks@, a, b) && walk_before(a, b, i as int, j as int)
                        && group_of(chunks@, a, b, chunk_span) == g;
                    assert(is_asset(chunks@, a, b) && a < i + 1);
                }
                if exists|a: int, b: int| is_asset(chunks@, a, b) && a < i + 1 && group_of(chunks@, a, b, chunk_span) == g {
                    let (a, b) = choose|a: int, b: int| is_asset(chunks@, a, b) && a < i + 1 && group_of(chunks@, a, b, chunk_span) == g;
                    assert(walk_before(a, b, i as int, j as int));
                }
            }
        }
        i += 1;
    }
    proof {
        assert forall|g: AssetGroupKey| #[trigger] keys@.contains(g)
            <==> exists|a: int, b: int| is_asset(chunks@, a, b) && group_of(chunks@, a, b, chunk_span) == g by {
            if exists|a: int, b: int| is_asset(chunks@, a, b) && group_of(chunks@, a, b, chunk_span) == g {
                let (a, b) = choose|a: int, b: int| is_asset(chunks@, a, b) && group_of(chunks@, a, b, chunk_span) == g;
                assert(is_asset(chunks@, a, b) && a < i && group_of(chunks@, a, b, chunk_span) == g);
            }
        }
    }
    keys
}

/// The assets of group `g` in walk order, and the chunks they come from, each once.
fn collect_group(chunks: &Vec<(ChunkKey, Vec<u16>)>, chunk_span: u32, g: AssetGroupKey)
    -> (r: (Vec<(usize, usize)>, Vec<ChunkKey>))
    requires
        distinct_chunks(chunks@),
    ensures
        forall|m: int| 0 <= m < r.0@.len() ==> {
            &&& is_asset(chunks@, (#[trigger] r.0@[m]).0 as int, r.0@[m].1 as int)
            &&& group_of(chunks@, r.0@[m].0 as int, r.0@[m].1 as int, chunk_span) == g
        },
        forall|i: int, j: int| is_asset(chunks@, i, j) && #[trigger] group_of(chunks@, i, j, chunk_span) == g
            ==> r.0@.contains((i as usize, j as usize)),
        forall|m1: int, m2: int| 0 <= m1 < m2 < r.0@.len()
            ==> walk_before((#[trigger] r.0@[m1]).0 as int, r.0@[m1].1 as int,
                (#[trigger] r.0@[m2]).0 as int, r.0@[m2].1 as int),
        r.1@.no_duplicates(),
        forall|k: ChunkKey| #[trigger] r.1@.contains(k)
            <==> exists|m: int| 0 <= m < r.0@.len() && chunks@[(#[trigger] r.0@[m]).0 as int].0 == k,
{
    let mut members: Vec<(usize, usize)> = Vec::new();
    let mut sources: Vec<ChunkKey> = Vec::new();
    let mut i: usize = 0;
    while i < chunks.len()
        invariant
            i <= chunks@.len(),
            distinct_chunks(chunks@),
            forall|m: int| 0 <= m < members@.len() ==> {
                &&& is_asset(chunks@, (#[trigger] members@[m]).0 as int, members@[m].1 as int)
                &&& members@[m].0 < i
                &&& group_of(chunks@, members@[m].0 as int, members@[m].1 as int, chunk_span) == g
            },
            forall|a: int, b: int| is_asset(chunks@, a, b) && a < i && #[trigger] group_of(chunks@, a, b, chunk_span) == g
                ==> members@.contains((a as usize, b as usize)),
            forall|m1: int, m2: int| 0 <= m1 < m2 < members@.len()
                ==> walk_before((#[trigger] members@[m1]).0 as int, members@[m1].1 as int,
                    (#[trigger] members@[m2]).0 as int, members@[m2].1 as int),
            sources@.no_duplicates(),
            forall|t: int| 0 <= t < sources@.len() ==> #[trigger] came_from(chunks@, sources@[t], i as int),
            forall|k: ChunkKey| #[trigger] sources@.contains(k)
                <==> exists|m: int| 0 <= m < members@.len() && chunks@[(#[trigger] members@[m]).0 as int].0 == k,
        decreases chunks@.len() - i,
    {
        let mut listed = false;
        let mut j: usize = 0;
        let ghost members_before = members@;
        let ghost sources_before = sources@;
        while j < chunks[i].1.len()
            invariant
                i < chunks@.len(),
                j <= chunks@[i as int].1@.len(),
                distinct_chunks(chunks@),
                members_before.len() <= members@.len(),
                members@.subrange(0, members_before.len() as int) == members_before,
                forall|m: int| 0 <= m < members@.len() ==> {
                    &&& is_asset(chunks@, (#[trigger] members@[m]).0 as int, members@[m].1 as int)
                    &&& walk_before(members@[m].0 as int, members@[m].1 as int, i as int, j as int)
                    &&& group_of(chunks@, members@[m].0 as int, members@[m].1 as int, chunk_span) == g
                },
                forall|m: int| members_before.len() <= m < members@.len() ==> (#[trigger] members@[m]).0 == i,
                forall|m: int| 0 <= m < members_before.len() ==> (#[trigger] members@[m]).0 < i,
                forall|a: int, b: int| is_asset(chunks@, a, b) && walk_before(a, b, i as int, j as int)
                    && #[trigger] group_of(chunks@, a, b, chunk_span) == g
                    ==> members@.contains((a as usize, b as usize)),
                forall|m1: int, m2: int| 0 <= m1 < m2 < members@.len()
                    ==> walk_before((#[trigger] members@[m1]).0 as int, members@[m1].1 as int,
                        (#[trigger] members@[m2]).0 as int, members@[m2].1 as int),
                listed == (members@.len() > members_before.len()),
                !listed ==> sources@ == sources_before,
                listed ==> sources@ == sources_before.push(chunks@[i as int].0),
                listed ==> !sources_before.contains(chunks@[i as int].0),
                sources_before.no_duplicates(),
                forall|t: int| 0 <= t < sources_before.len() ==> #[trigger] came_from(chunks@, sources_before[t], i as int),
                forall|k: ChunkKey| #[trigger] sources_before.contains(k)
                    <==> exists|m: int| 0 <= m < members_before.len() && chunks@[(#[trigger] members_before[m]).0 as int].0 == k,
            decreases chunks@[i as int].1@.len() - j,
        {
            let here = asset_group_key_for_chunk(chunks[i].0, chunks[i].1[j], chunk_span);
            assert(here == group_of(chunks@, i as int, j as int, chunk_span));
            if here == g {
                let ghost m_before = members@;
                members.push((i, j));
                proof {
                    assert(members@.subrange(0, members_before.len() as int) =~= members_before) by {
                        assert forall|t: int| 0 <= t < members_before.len() implies members@[t] == members_before[t] by {
                            assert(members@[t] == m_before[t]);
                            assert(m_before.subrange(0, members_before.len() as int)[t] == members_before[t]);
                        }
                    }
                    assert forall|a: int, b: int| is_asset(chunks@, a, b) && walk_before(a, b, i as int, j + 1)
                        && #[trigger] group_of(chunks@, a, b, chunk_span) == g
                        implies members@.contains((a as usize, b as usize)) by {
                        if walk_before(a, b, i as int, j as int) {
                            assert(m_before.contains((a as usize, b as usize)));
                            let t = choose|t: int| 0 <= t < m_before.len() && m_before[t] == (a as usize, b as usize);
                            assert(members@[t] == (a as usize, b as usize));
                        } else {
                            assert(members@[members@.len() - 1] == (a as usize, b as usize));
                        }
                    }
                }
                if !listed {
                    proof {
                        assert(!sources_before.contains(chunks@[i as int].0)) by {
                            if sources_before.contains(chunks@[i as int].0) {
                                let t = choose|t: int| 0 <= t < sources_before.len() && sources_before[t] == chunks@[i as int].0;
                                assert(came_from(chunks@, sources_before[t], i as int));
                                let a = choose|a: int| 0 <= a < i && chunks@[a].0 == sources_before[t];
                                assert(chunks@[a].0 != chunks@[i as int].0);
                            }
                        }
                    }
                    sources.push(chunks[i].0);
                    listed = true;
                }
            } else {
                proof {
                    assert forall|a: int, b: int| is_asset(chunks@, a, b) && walk_before(a, b, i as int, j + 1)
                        && #[trigger] group_of(chunks@, a, b, chunk_span) == g
                        implies members@.contains((a as usize, b as usize)) by {
                        assert(walk_before(a, b, i as int, j as int));
                    }
                }
            }
            j += 1;
        }
        proof {
            assert(sources@.no_duplicates()) by {
                if listed {
                    assert forall|a: int, b: int| 0 <= a < b < sources@.len() implies sources@[a] != sources@[b] by {
                        if b == sources@.len() - 1 {
                            assert(sources@[a] == sources_before[a]);
                        } else {
                            assert(sources@[a] == sources_before[a] && sources@[b] == sources_before[b]);
                        }
                    }
                }
            }
            assert forall|t: int| 0 <= t < sources@.len() implies #[trigger] came_from(chunks@, sources@[t], i + 1) by {
                if t < sources_before.len() {
                    assert(sources@[t] == sources_before[t]);
                    assert(came_from(chunks@, sources_before[t], i as int));
                } else {
                    assert(sources@[t] == chunks@[i as int].0);
                }
            }
            assert forall|k: ChunkKey| #[trigger] sources@.contains(k)
                <==> exists|m: int| 0 <= m < members@.len() && chunks@[(#[trigger] members@[m]).0 as int].0 == k by {
                if sources@.contains(k) {
                    let t = choose|t: int| 0 <= t < sources@.len() && sources@[t] == k;
                    if t < sources_before.len() {
                        assert(sources_before[t] == k);
                        assert(sources_before.contains(k));
                        let m = choose|m: int| 0 <= m < members_before.len() && chunks@[(#[trigger] members_before[m]).0 as int].0 == k;
                        assert(members@[m] == members_before[m]);
                    } else {
                        assert(listed);
                        let m = members_before.len() as int;
                        assert(members@[m].0 == i);
                    }
                }
                if exists|m: int| 0 <= m < members@.len() && chunks@[(#[trigger] members@[m]).0 as int].0 == k {
                    let m = choose|m: int| 0 <= m < members@.len() && chunks@[(#[trigger] members@[m]).0 as int].0 == k;
                    if m < members_before.len() {
                        assert(members@[m] == members_before[m]);
                        assert(sources_before.contains(k));
                        let t = choose|t: int| 0 <= t < sources_before.len() && sources_before[t] == k;
                        assert(sources@[t] == k);
                    } else {
                        assert(members@[m].0 == i);
                        assert(listed);
                        assert(sources@[sources@.len() - 1] == k);
                    }
                }
            }
            assert forall|a: int, b: int| is_asset(chunks@, a, b) && a < i + 1 && #[trigger] group_of(chunks@, a, b, chunk_span) == g
                implies members@.contains((a as usize, b as usize)) by {
                assert(walk_before(a, b, i as int, j as int));
            }
        }
        i += 1;
    }
    (members, sources)
}

/// Sorts the assets of active chunks into groups: one plan per group that any asset falls
/// into, in order of first appearance, each with exactly that group's assets in walk order and
/// the chunks they come from, ascending.
pub fn plan_asset_groups(chunks: &Vec<(ChunkKey, Vec<u16>)>, chunk_span: u32) -> (plans: Vec<AssetGroupPlan>)
    requires
        distinct_chunks(chunks@),
    ensures
        forall|p: int, q: int| 0 <= p < q < plans@.len() ==> (#[trigger] plans@[p]).key != (#[trigger] plans@[q]).key,
        forall|p: int| 0 <= p < plans@.len() ==> plans_group(chunks@, chunk_span, #[trigger] plans@[p]),
        forall|p: int| 0 <= p < plans@.len() ==> (#[trigger] plans@[p]).members@.len() > 0,
        forall|i: int, j: int| is_asset(chunks@, i, j) ==> exists|p: int| 0 <= p < plans@.len()
            && (#[trigger] plans@[p]).key == group_of(chunks@, i, j, chunk_span),
{
    let keys = distinct_group_keys(chunks, chunk_span);
    let mut plans: Vec<AssetGroupPlan> = Vec::new();
    let mut p: usize = 0;
    while p < keys.len()
        invariant
            p <= keys@.len(),
            plans@.len() == p,
            distinct_chunks(chunks@),
            keys@.no_duplicates(),
            forall|g: AssetGroupKey| #[trigger] keys@.contains(g)
                <==> exists|i: int, j: int| is_asset(chunks@, i, j) && group_of(chunks@, i, j, chunk_span) == g,
            forall|q: int| 0 <= q < p ==> (#[trigger] plans@[q]).key == keys@[q],
            forall|q: int| 0 <= q < p ==> plans_group(chunks@, chunk_span, #[trigger] plans@[q]),
            forall|q: int| 0 <= q < p ==> (#[trigger] plans@[q]).members@.len() > 0,
        decreases keys@.len() - p,
    {
        let g = keys[p];
        let (members, mut sources) = collect_group(chunks, chunk_span, g);
        sort_key_set(&mut sources);
        proof {
            assert(keys@.contains(g));
            let (i, j) = choose|i: int, j: int| is_asset(chunks@, i, j) && group_of(chunks@, i, j, chunk_span) == g;
            assert(members@.contains((i as usize, j as usize)));
        }
        let plan = AssetGroupPlan {
            key: g,
            anchor: asset_group_anchor_key(g, chunk_span),
            source_chunks: sources,
            members,
        };
        plans.push(plan);
        p += 1;
    }
    proof {
        assert forall|i: int, j: int| is_asset(chunks@, i, j) implies exists|p: int| 0 <= p < plans@.len()
            && (#[trigger] plans@[p]).key == group_of(chunks@, i, j, chunk_span) by {
            let g = group_of(chunks@, i, j, chunk_span);
            assert(keys@.contains(g));
            let q = choose|q: int| 0 <= q < keys@.len() && keys@[q] == g;
            assert(plans@[q].key == g);
        }
    }
    plans
}

} // verus!
