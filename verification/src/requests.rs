use vstd::prelude::*;
use std::collections::HashMap;
use crate::chunk::ChunkKey;
use crate::metadata::{key_code, key_code_spec, lemma_key_code_injective};
use crate::payload::PayloadBuildRequirements;
use crate::surface::SurfaceClassKey;
use crate::strategy::RenderBackendKind;
use crate::lod_balance::holds_key;

verus! {

broadcast use vstd::std_specs::hash::group_hash_axioms;

/// Outstanding worker requests, at most one per chunk.
#[derive(Debug)]
pub struct PendingRequests<V> {
    entries: HashMap<u128, V>,
}

impl<V> PendingRequests<V> {
    /// The request pending for each chunk.
    pub closed spec fn view(&self) -> Map<ChunkKey, V> {
        Map::new(
            |k: ChunkKey| self.entries@.contains_key(key_code_spec(k)),
            |k: ChunkKey| self.entries@[key_code_spec(k)],
        )
    }

    /// Every stored code is the code of some chunk.
    pub closed spec fn wf(&self) -> bool {
        forall|c: u128| #[trigger] self.entries@.contains_key(c) ==> exists|k: ChunkKey| key_code_spec(k) == c
    }

    /// Number of pending requests.
    pub closed spec fn count(&self) -> nat {
        self.entries@.len()
    }

    pub fn new() -> (p: Self)
        ensures
            p.wf(),
            p.view() == Map::<ChunkKey, V>::empty(),
            p.count() == 0,
    {
        let p = PendingRequests { entries: HashMap::new() };
        assert(p.view() =~= Map::<ChunkKey, V>::empty());
        p
    }

    pub fn len(&self) -> (n: usize)
        ensures
            n == self.count(),
    {
        self.entries.len()
    }

    /// The request pending for `key`.
    pub fn get(&self, key: &ChunkKey) -> (r: Option<&V>)
        ensures
            match r {
                Some(v) => self.view().contains_key(*key) && *v == self.view()[*key],
                None => !self.view().contains_key(*key),
            },
    {
        self.entries.get(&key_code(key))
    }

    /// Records `value` as the request pending for `key`, replacing any earlier one.
    pub fn insert(&mut self, key: ChunkKey, value: V)
        requires
            old(self).wf(),
        ensures
            final(self).wf(),
            final(self).view() == old(self).view().insert(key, value),
    {
        self.entries.insert(key_code(&key), value);
        proof {
            assert forall|k: ChunkKey| #[trigger] self.view().contains_key(k) == old(self).view().insert(key, value).contains_key(k) by {
                lemma_key_code_injective(k, key);
            }
            assert forall|k: ChunkKey| self.view().contains_key(k) implies #[trigger] self.view()[k] == old(self).view().insert(key, value)[k] by {
                lemma_key_code_injective(k, key);
            }
            assert(self.view() =~= old(self).view().insert(key, value));
            assert forall|c: u128| #[trigger] self.entries@.contains_key(c) implies exists|k: ChunkKey| key_code_spec(k) == c by {
                if c != key_code_spec(key) {
                    assert(old(self).entries@.contains_key(c));
                }
            }
        }
    }

    /// Drops the request pending for `key`, returning it.
    pub fn remove(&mut self, key: &ChunkKey) -> (r: Option<V>)
        requires
            old(self).wf(),
        ensures
            final(self).wf(),
            final(self).view() == old(self).view().remove(*key),
            r == if old(self).view().contains_key(*key) { Some(old(self).view()[*key]) } else { None::<V> },
    {
        let r = self.entries.remove(&key_code(key));
        proof {
            assert forall|k: ChunkKey| #[trigger] self.view().contains_key(k) == old(self).view().remove(*key).contains_key(k) by {
                lemma_key_code_injective(k, *key);
            }
            assert forall|k: ChunkKey| self.view().contains_key(k) implies #[trigger] self.view()[k] == old(self).view().remove(*key)[k] by {
                lemma_key_code_injective(k, *key);
            }
            assert(self.view() =~= old(self).view().remove(*key));
        }
        r
    }

    /// Keeps only the requests for chunks in `keys`.
    pub fn retain_keys(&mut self, keys: &Vec<ChunkKey>)
        requires
            old(self).wf(),
        ensures
            final(self).wf(),
            forall|k: ChunkKey| #[trigger] final(self).view().contains_key(k)
                == (old(self).view().contains_key(k) && keys@.contains(k)),
            forall|k: ChunkKey| final(self).view().contains_key(k) ==> #[trigger] final(self).view()[k] == old(self).view()[k],
    {
        let ghost before = self.view();
        let mut kept: PendingRequests<V> = PendingRequests::new();
        let mut i: usize = 0;
        while i < keys.len()
            invariant
                i <= keys@.len(),
                self.wf(),
                kept.wf(),
                forall|k: ChunkKey| #[trigger] kept.view().contains_key(k)
                    == (before.contains_key(k) && exists|j: int| 0 <= j < i && keys@[j] == k),
                forall|k: ChunkKey| kept.view().contains_key(k) ==> #[trigger] kept.view()[k] == before[k],
                forall|k: ChunkKey| #[trigger] self.view().contains_key(k)
                    == (before.contains_key(k) && !exists|j: int| 0 <= j < i && keys@[j] == k),
                forall|k: ChunkKey| self.view().contains_key(k) ==> #[trigger] self.view()[k] == before[k],
            decreases keys@.len() - i,
        {
            let key = keys[i];
            let ghost self_before = self.view();
            let ghost kept_before = kept.view();
            if let Some(value) = self.remove(&key) {
                kept.insert(key, value);
            }
            proof {
                assert forall|k: ChunkKey| #[trigger] kept.view().contains_key(k)
                    == (before.contains_key(k) && exists|j: int| 0 <= j < i + 1 && keys@[j] == k) by {
                    if exists|j: int| 0 <= j < i + 1 && keys@[j] == k {
                        let j = choose|j: int| 0 <= j < i + 1 && keys@[j] == k;
                        if j < i {
                            assert(exists|j2: int| 0 <= j2 < i && keys@[j2] == k);
                        }
                    }
                    if exists|j: int| 0 <= j < i && keys@[j] == k {
                        assert(exists|j2: int| 0 <= j2 < i + 1 && keys@[j2] == k);
                    }
                }
                assert forall|k: ChunkKey| #[trigger] self.view().contains_key(k)
                    == (before.contains_key(k) && !exists|j: int| 0 <= j < i + 1 && keys@[j] == k) by {
                    if exists|j: int| 0 <= j < i + 1 && keys@[j] == k {
                        let j = choose|j: int| 0 <= j < i + 1 && keys@[j] == k;
                        if j < i {
                            assert(exists|j2: int| 0 <= j2 < i && keys@[j2] == k);
                        }
                    }
                    if exists|j: int| 0 <= j < i && keys@[j] == k {
                        assert(exists|j2: int| 0 <= j2 < i + 1 && keys@[j2] == k);
                    }
                }
            }
            i += 1;
        }
        proof {
            assert forall|k: ChunkKey| #[trigger] kept.view().contains_key(k) == (before.contains_key(k) && keys@.contains(k)) by {
                if keys@.contains(k) {
                    let j = choose|j: int| 0 <= j < keys@.len() && keys@[j] == k;
                    assert(exists|j2: int| 0 <= j2 < keys@.len() && keys@[j2] == k);
                }
            }
        }
        *self = kept;
    }
}

/// A payload request in flight: its epoch and what it was asked to build.
#[derive(Clone, Debug, PartialEq, Eq, Structural)]
pub struct PendingPayloadRequest {
    pub epoch: u64,
    pub surface_class: SurfaceClassKey,
    pub requirements: PayloadBuildRequirements,
}

/// The next epoch: one more, saturating.
pub open spec fn next_epoch(epoch: u64) -> u64 {
    if epoch < u64::MAX { (epoch + 1) as u64 } else { u64::MAX }
}

/// Takes an epoch for a new request and advances the counter.
fn take_epoch(next: &mut u64) -> (epoch: u64)
    ensures
        epoch == *old(next),
        *final(next) == next_epoch(*old(next)),
{
    let epoch = *next;
    *next = next.saturating_add(1);
    epoch
}

/// Registers a metadata request for `key` unless its metadata is stored or a request is
/// already pending; returns the new request's epoch.
pub fn request_chunk_meta_if_missing(
    pending: &mut PendingRequests<u64>,
    key: ChunkKey,
    meta_stored: bool,
    next_meta_epoch: &mut u64,
) -> (r: Option<u64>)
    requires
        old(pending).wf(),
    ensures
        final(pending).wf(),
        if meta_stored || old(pending).view().contains_key(key) {
            &&& r is None
            &&& final(pending).view() == old(pending).view()
            &&& *final(next_meta_epoch) == *old(next_meta_epoch)
        } else {
            &&& r == Some(*old(next_meta_epoch))
            &&& final(pending).view() == old(pending).view().insert(key, *old(next_meta_epoch))
            &&& *final(next_meta_epoch) == next_epoch(*old(next_meta_epoch))
        },
{
    if meta_stored || pending.get(&key).is_some() {
        return None;
    }
    let epoch = take_epoch(next_meta_epoch);
    pending.insert(key, epoch);
    Some(epoch)
}

/// Accepts a finished metadata job only when it answers the request pending for its chunk
/// (same epoch); the request is then settled. A stale result changes nothing.
pub fn accept_meta_result(pending: &mut PendingRequests<u64>, key: ChunkKey, epoch: u64) -> (accepted: bool)
    requires
        old(pending).wf(),
    ensures
        final(pending).wf(),
        accepted == (old(pending).view().contains_key(key) && old(pending).view()[key] == epoch),
        accepted ==> final(pending).view() == old(pending).view().remove(key),
        !accepted ==> final(pending).view() == old(pending).view(),
{
    match pending.get(&key) {
        Some(expected) => {
            if *expected != epoch {
                return false;
            }
        },
        None => {
            return false;
        },
    }
    pending.remove(&key);
    true
}

/// What to do with a chunk whose render payload the selection needs.
#[derive(Clone, Copy, Debug, PartialEq, Eq, Structural)]
pub enum PayloadRequestDecision {
    /// The resident payload already fits; any pending request is dropped.
    Resident,
    /// A pending request already asks for what is needed.
    AlreadyPending,
    /// A new request goes out with this epoch.
    Submit(u64),
}

/// Decides the payload request of one chunk: none when the resident payload fits (dropping a
/// pending request), none when the pending request builds the needed surface class with at
/// least the needed requirements, else a new request under a fresh epoch that replaces any
/// pending one.
pub fn plan_payload_request(
    pending: &mut PendingRequests<PendingPayloadRequest>,
    key: ChunkKey,
    resident_matches: bool,
    surface_class: &SurfaceClassKey,
    requirements: PayloadBuildRequirements,
    next_payload_epoch: &mut u64,
) -> (d: PayloadRequestDecision)
    requires
        old(pending).wf(),
    ensures
        final(pending).wf(),
        resident_matches ==> {
            &&& d == PayloadRequestDecision::Resident
            &&& final(pending).view() == old(pending).view().remove(key)
            &&& *final(next_payload_epoch) == *old(next_payload_epoch)
        },
        !resident_matches && old(pending).view().contains_key(key)
            && old(pending).view()[key].surface_class == *surface_class
            && old(pending).view()[key].requirements.satisfies_spec(requirements) ==> {
            &&& d == PayloadRequestDecision::AlreadyPending
            &&& final(pending).view() == old(pending).view()
            &&& *final(next_payload_epoch) == *old(next_payload_epoch)
        },
        !resident_matches && !(old(pending).view().contains_key(key)
            && old(pending).view()[key].surface_class == *surface_class
            && old(pending).view()[key].requirements.satisfies_spec(requirements)) ==> {
            &&& d == PayloadRequestDecision::Submit(*old(next_payload_epoch))
            &&& final(pending).view() == old(pending).view().insert(key, PendingPayloadRequest {
                epoch: *old(next_payload_epoch),
                surface_class: *surface_class,
                requirements,
            })
            &&& *final(next_payload_epoch) == next_epoch(*old(next_payload_epoch))
        },
{
    if resident_matches {
        pending.remove(&key);
        return PayloadRequestDecision::Resident;
    }
    let covered = match pending.get(&key) {
        Some(p) => p.surface_class == *surface_class && p.requirements.satisfies(requirements),
        None => false,
    };
    if covered {
        return PayloadRequestDecision::AlreadyPending;
    }
    let epoch = take_epoch(next_payload_epoch);
    pending.insert(key, PendingPayloadRequest { epoch, surface_class: surface_class.clone(), requirements });
    PayloadRequestDecision::Submit(epoch)
}

/// Accepts a prepared payload only when it answers the request pending for its chunk: same
/// epoch, surface class and requirements. The request is then settled; a stale result changes
/// nothing.
pub fn accept_prepared_payload(
    pending: &mut PendingRequests<PendingPayloadRequest>,
    key: ChunkKey,
    epoch: u64,
    surface_class: &SurfaceClassKey,
    requirements: PayloadBuildRequirements,
) -> (accepted: bool)
    requires
        old(pending).wf(),
    ensures
        final(pending).wf(),
        accepted == (old(pending).view().contains_key(key) && old(pending).view()[key] == (PendingPayloadRequest {
            epoch,
            surface_class: *surface_class,
            requirements,
        })),
        accepted ==> final(pending).view() == old(pending).view().remove(key),
        !accepted ==> final(pending).view() == old(pending).view(),
{
    let matches = match pending.get(&key) {
        Some(p) => p.epoch == epoch && p.surface_class == *surface_class && p.requirements == requirements,
        None => false,
    };
    if !matches {
        return false;
    }
    pending.remove(&key);
    true
}

/// What a chunk's payload must carry: render data for the server-pool backend, and a
/// collision mesh when the chunk is desired or active for collision.
pub fn payload_requirements_for_key(
    render_backend: RenderBackendKind,
    desired_physics: &Vec<ChunkKey>,
    active_physics: &Vec<ChunkKey>,
    key: ChunkKey,
) -> (r: PayloadBuildRequirements)
    ensures
        r == (PayloadBuildRequirements {
            cpu_render_data: render_backend == RenderBackendKind::ServerPool,
            collision_mesh: desired_physics@.contains(key) || active_physics@.contains(key),
        }),
{
    let cpu_render_data = match render_backend {
        RenderBackendKind::ServerPool => true,
    };
    PayloadBuildRequirements::new(cpu_render_data, holds_key(desired_physics, &key) || holds_key(active_physics, &key))
}

/// A resident payload fits the selection when it has the required surface class, a valid
/// render tile layout, and at least the required contents.
pub fn payload_satisfies_requirements(
    payload_surface_class: &SurfaceClassKey,
    render_tile_layout_valid: bool,
    payload_requirements: PayloadBuildRequirements,
    surface_class: &SurfaceClassKey,
    requirements: PayloadBuildRequirements,
) -> (b: bool)
    ensures
        b == (*payload_surface_class == *surface_class && render_tile_layout_valid
            && payload_requirements.satisfies_spec(requirements)),
{
    *payload_surface_class == *surface_class && render_tile_layout_valid && payload_requirements.satisfies(requirements)
}

/// Once a newer request for a chunk has gone out (under a later epoch), a result of an older
/// request for it no longer matches what is pending, so `accept_prepared_payload` drops it.
pub proof fn lemma_superseded_result_is_stale(
    pending: Map<ChunkKey, PendingPayloadRequest>,
    key: ChunkKey,
    newer: PendingPayloadRequest,
    older_epoch: u64,
    surface_class: SurfaceClassKey,
    requirements: PayloadBuildRequirements,
)
    requires
        older_epoch < newer.epoch,
    ensures
        pending.insert(key, newer)[key] != (PendingPayloadRequest { epoch: older_epoch, surface_class, requirements }),
{
}

/// Epochs handed out one after another increase until the counter saturates.
pub proof fn lemma_epochs_increase(epoch: u64)
    requires
        epoch < u64::MAX,
    ensures
        next_epoch(epoch) > epoch,
{
}

} // verus!
