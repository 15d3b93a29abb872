use vstd::prelude::*;
use crate::chunk::ChunkKey;
use crate::config::{keys_overlap_hierarchically, keys_overlap_spec};

verus! {

/// A queued job: the epoch of its request, its chunk, and what the worker needs to build it.
#[derive(Debug)]
pub struct QueuedJob<J> {
    pub epoch: u64,
    pub key: ChunkKey,
    pub job: J,
}

/// The queued jobs that a newer request supersedes: older ones for an overlapping chunk.
pub open spec fn supersedes<J>(epoch: u64, key: ChunkKey, queued: QueuedJob<J>) -> bool {
    queued.epoch < epoch && keys_overlap_spec(queued.key, key)
}

/// The jobs of `s` that `drop` leaves in place, in order.
pub open spec fn kept<J>(s: Seq<QueuedJob<J>>, drop: spec_fn(QueuedJob<J>) -> bool) -> Seq<QueuedJob<J>>
    decreases s.len(),
{
    if s.len() == 0 {
        Seq::empty()
    } else if drop(s.last()) {
        kept(s.drop_last(), drop)
    } else {
        kept(s.drop_last(), drop).push(s.last())
    }
}

/// Keeping never adds jobs.
pub proof fn lemma_kept_len<J>(s: Seq<QueuedJob<J>>, drop: spec_fn(QueuedJob<J>) -> bool)
    ensures
        kept(s, drop).len() <= s.len(),
    decreases s.len(),
{
    if s.len() > 0 {
        lemma_kept_len(s.drop_last(), drop);
    }
}

/// `q` was requested before `epoch` for a chunk that contains the chunk `key` or lies inside it.
pub open spec fn older_overlapping<J>(q: QueuedJob<J>, epoch: u64, key: ChunkKey) -> bool {
    q.epoch < epoch && q.key.face == key.face && (q.key.descends_from(key) || key.descends_from(q.key))
}

/// The kept jobs are exactly the jobs of `s` that `drop` spares.
pub proof fn lemma_kept_members<J>(s: Seq<QueuedJob<J>>, drop: spec_fn(QueuedJob<J>) -> bool, q: QueuedJob<J>)
    ensures
        kept(s, drop).contains(q) <==> (s.contains(q) && !drop(q)),
    decreases s.len(),
{
    if s.len() > 0 {
        lemma_kept_members(s.drop_last(), drop, q);
        if s.contains(q) && !drop(q) && !s.drop_last().contains(q) {
            let i = choose|i: int| 0 <= i < s.len() && s[i] == q;
            if i < s.len() - 1 {
                assert(s.drop_last()[i] == q);
            }
            assert(kept(s, drop).last() == q);
        }
        if kept(s.drop_last(), drop).contains(q) {
            let i = choose|i: int| 0 <= i < kept(s.drop_last(), drop).len() && kept(s.drop_last(), drop)[i] == q;
            if !drop(s.last()) {
                assert(kept(s, drop)[i] == q);
            }
        }
        if s.drop_last().contains(q) {
            let i = choose|i: int| 0 <= i < s.drop_last().len() && s.drop_last()[i] == q;
            assert(s[i] == q);
        }
    }
}

/// After a job is queued, no job older than it for an overlapping chunk is left waiting: a
/// superseded request is never built.
pub proof fn lemma_superseded_jobs_leave<J>(s: Seq<QueuedJob<J>>, epoch: u64, key: ChunkKey, q: QueuedJob<J>)
    ensures
        kept(s, |j: QueuedJob<J>| supersedes(epoch, key, j)).contains(q)
            <==> (s.contains(q) && !supersedes(epoch, key, q)),
{
    lemma_kept_members(s, |j: QueuedJob<J>| supersedes(epoch, key, j), q);
}

/// A first-in first-out queue of worker jobs, each tagged with its request epoch and chunk.
#[derive(Debug)]
pub struct JobQueue<J> {
    jobs: Vec<QueuedJob<J>>,
}

impl<J> JobQueue<J> {
    pub closed spec fn view(&self) -> Seq<QueuedJob<J>> {
        self.jobs@
    }

    /// Every queued chunk has a level that fits the hierarchy tests.
    pub closed spec fn wf(&self) -> bool {
        forall|i: int| 0 <= i < self.jobs@.len() ==> (#[trigger] self.jobs@[i]).key.lod < 32
    }

    pub fn new() -> (q: Self)
        ensures
            q.wf(),
            q.view() == Seq::<QueuedJob<J>>::empty(),
    {
        JobQueue { jobs: Vec::new() }
    }

    pub fn len(&self) -> (n: usize)
        ensures
            n == self.view().len(),
    {
        self.jobs.len()
    }

    /// Keeps the jobs that `drop` spares, in order.
    fn retain_jobs(&mut self, epoch: u64, key: ChunkKey, by_overlap: bool)
        requires
            old(self).wf(),
            key.lod < 32,
        ensures
            final(self).wf(),
            by_overlap ==> final(self).view() == kept(old(self).view(), |q: QueuedJob<J>| supersedes(epoch, key, q)),
            !by_overlap ==> final(self).view() == kept(old(self).view(), |q: QueuedJob<J>| q.key == key),
    {
        let ghost drop: spec_fn(QueuedJob<J>) -> bool = if by_overlap {
            |q: QueuedJob<J>| supersedes(epoch, key, q)
        } else {
            |q: QueuedJob<J>| q.key == key
        };
        let ghost queued_before = self.jobs@;
        let mut remaining: Vec<QueuedJob<J>> = Vec::new();
        std::mem::swap(&mut remaining, &mut self.jobs);
        let mut taken: Vec<QueuedJob<J>> = Vec::new();
        while remaining.len() > 0
            invariant
                remaining@.len() <= queued_before.len(),
                remaining@ == queued_before.subrange(queued_before.len() - remaining@.len(), queued_before.len() as int),
                forall|i: int| 0 <= i < queued_before.len() ==> (#[trigger] queued_before[i]).key.lod < 32,
                key.lod < 32,
                taken@ == kept(queued_before.subrange(0, queued_before.len() - remaining@.len()), drop),
                drop == (if by_overlap {
                    |q: QueuedJob<J>| supersedes(epoch, key, q)
                } else {
                    |q: QueuedJob<J>| q.key == key
                }),
                forall|i: int| 0 <= i < taken@.len() ==> (#[trigger] taken@[i]).key.lod < 32,
            decreases remaining@.len(),
        {
            let ghost done = queued_before.len() - remaining@.len();
            let ghost rest = remaining@;
            let queued = remaining.remove(0);
            assert(queued == rest[0]);
            assert(rest[0] == queued_before[done]);
            assert(remaining@ =~= queued_before.subrange(done + 1, queued_before.len() as int));
            let ghost prefix = queued_before.subrange(0, done + 1);
            assert(prefix.drop_last() =~= queued_before.subrange(0, done));
            assert(prefix.last() == queued);
            let dropped = if by_overlap {
                queued.epoch < epoch && keys_overlap_hierarchically(queued.key, key)
            } else {
                queued.key == key
            };
            assert(dropped == drop(queued));
            if !dropped {
                taken.push(queued);
            }
        }
        assert(queued_before.subrange(0, queued_before.len() as int) =~= queued_before);
        self.jobs = taken;
    }

    /// Queues a job after dropping the queued jobs it supersedes; returns how many were dropped.
    pub fn submit_superseding(&mut self, epoch: u64, key: ChunkKey, job: J) -> (superseded: usize)
        requires
            old(self).wf(),
            key.lod < 32,
        ensures
            final(self).wf(),
            final(self).view() == kept(old(self).view(), |q: QueuedJob<J>| supersedes(epoch, key, q))
                .push(QueuedJob { epoch, key, job }),
            superseded == old(self).view().len() - (final(self).view().len() - 1),
            forall|i: int| 0 <= i < final(self).view().len() - 1
                ==> !older_overlapping(#[trigger] final(self).view()[i], epoch, key),
            forall|q: QueuedJob<J>| #[trigger] old(self).view().contains(q) && !older_overlapping(q, epoch, key)
                ==> final(self).view().contains(q),
    {
        let before = self.jobs.len();
        self.retain_jobs(epoch, key, true);
        proof {
            lemma_kept_len(old(self).view(), |q: QueuedJob<J>| supersedes(epoch, key, q));
        }
        let after = self.jobs.len();
        let ghost remaining = self.jobs@;
        self.jobs.push(QueuedJob { epoch, key, job });
        proof {
            assert forall|i: int| 0 <= i < self.jobs@.len() - 1 implies !older_overlapping(#[trigger] self.jobs@[i], epoch, key) by {
                let q = self.jobs@[i];
                assert(remaining[i] == q);
                assert(remaining.contains(q));
                lemma_superseded_jobs_leave(old(self).view(), epoch, key, q);
            }
            assert forall|q: QueuedJob<J>| #[trigger] old(self).view().contains(q) && !older_overlapping(q, epoch, key)
                implies self.jobs@.contains(q) by {
                lemma_superseded_jobs_leave(old(self).view(), epoch, key, q);
                let i = choose|i: int| 0 <= i < remaining.len() && remaining[i] == q;
                assert(self.jobs@[i] == q);
            }
        }
        before - after
    }

    /// Queues a job after dropping any queued job for the same chunk.
    pub fn submit_replacing(&mut self, epoch: u64, key: ChunkKey, job: J)
        requires
            old(self).wf(),
            key.lod < 32,
        ensures
            final(self).wf(),
            final(self).view() == kept(old(self).view(), |q: QueuedJob<J>| q.key == key)
                .push(QueuedJob { epoch, key, job }),
    {
        self.retain_jobs(epoch, key, false);
        self.jobs.push(QueuedJob { epoch, key, job });
    }

    /// Takes the oldest queued job.
    pub fn pop_front(&mut self) -> (front: Option<QueuedJob<J>>)
        requires
            old(self).wf(),
        ensures
            final(self).wf(),
            old(self).view().len() == 0 ==> front is None && final(self).view() == old(self).view(),
            old(self).view().len() > 0 ==> front == Some(old(self).view()[0])
                && final(self).view() == old(self).view().drop_first(),
    {
        if self.jobs.len() == 0 {
            None
        } else {
            let front = self.jobs.remove(0);
            proof {
                assert forall|i: int| 0 <= i < self.jobs@.len() implies (#[trigger] self.jobs@[i]).key.lod < 32 by {
                    assert(self.jobs@[i] == old(self).jobs@[i + 1]);
                }
                assert(self.jobs@ =~= old(self).jobs@.drop_first());
            }
            Some(front)
        }
    }
}

} // verus!
