use vstd::prelude::*;
use std::collections::VecDeque;
use crate::surface::{SurfaceClassKey, issues_spec, names, lemma_no_issues_iff_equal};
use crate::payload::RenderFallbackReason;

verus! {

/// Recycled render surfaces, queued per surface class in the order they were returned.
#[derive(Debug)]
pub struct SurfacePool<E> {
    classes: Vec<SurfaceClassKey>,
    queues: Vec<VecDeque<E>>,
}

/// How a render commit obtains its surface.
#[derive(Debug)]
pub enum RenderWarmPath<E> {
    ReuseCurrentSurface,
    ReusePooledSurface(E),
    ColdPath(RenderFallbackReason),
}

impl<E> SurfacePool<E> {
    /// Each class appears once, with a non-empty queue.
    pub closed spec fn wf(self) -> bool {
        &&& self.classes@.len() == self.queues@.len()
        &&& forall|i: int, j: int| 0 <= i < j < self.classes@.len() ==> self.classes@[i] != self.classes@[j]
        &&& forall|i: int| 0 <= i < self.queues@.len() ==> (#[trigger] self.queues@[i])@.len() > 0
    }

    /// Position of `class` in the class list, if it has a queue.
    pub closed spec fn position(self, class: SurfaceClassKey) -> Option<int> {
        if exists|i: int| 0 <= i < self.classes@.len() && self.classes@[i] == class {
            Some(choose|i: int| 0 <= i < self.classes@.len() && self.classes@[i] == class)
        } else {
            None
        }
    }

    /// The queued surfaces of `class`, oldest first.
    pub closed spec fn queue(self, class: SurfaceClassKey) -> Seq<E> {
        match self.position(class) {
            Some(i) => self.queues@[i]@,
            None => Seq::empty(),
        }
    }

    /// Number of classes with queued surfaces.
    pub closed spec fn class_count(self) -> nat {
        self.classes@.len()
    }

    /// Number of queued surfaces over all classes.
    pub closed spec fn total(self) -> nat {
        total_len(self.queues@)
    }

    proof fn lemma_position(self, class: SurfaceClassKey, i: int)
        requires
            self.wf(),
            0 <= i < self.classes@.len(),
            self.classes@[i] == class,
        ensures
            self.position(class) == Some(i),
    {
        let j = choose|j: int| 0 <= j < self.classes@.len() && self.classes@[j] == class;
        if j != i {
            if j < i {
                assert(self.classes@[j] != self.classes@[i]);
            } else {
                assert(self.classes@[i] != self.classes@[j]);
            }
        }
    }

    fn find(&self, class: &SurfaceClassKey) -> (r: Option<usize>)
        requires
            self.wf(),
        ensures
            match r {
                Some(i) => self.position(*class) == Some(i as int),
                None => self.position(*class) is None,
            },
    {
        let mut i: usize = 0;
        while i < self.classes.len()
            invariant
                i <= self.classes@.len(),
                self.wf(),
                forall|j: int| 0 <= j < i ==> self.classes@[j] != *class,
            decreases self.classes@.len() - i,
        {
            if self.classes[i] == *class {
                proof {
                    self.lemma_position(*class, i as int);
                }
                return Some(i);
            }
            i += 1;
        }
        None
    }


    /// Queues `entry` at the back of the queue of `class`.
    pub fn push(&mut self, class: SurfaceClassKey, entry: E)
        requires
            old(self).wf(),
        ensures
            final(self).wf(),
            final(self).queue(class) == old(self).queue(class).push(entry),
            forall|c: SurfaceClassKey| c != class ==> #[trigger] final(self).queue(c) == old(self).queue(c),
            final(self).total() == old(self).total() + 1,
    {
        match self.find(&class) {
            Some(i) => {
                let ghost old_queues = self.queues@;
                self.queues[i].push_back(entry);
                proof {
                    lemma_total_len_update(old_queues, i as int, self.queues@[i as int]);
                    assert(self.queues@ =~= old_queues.update(i as int, self.queues@[i as int]));
                    self.lemma_position(class, i as int);
                    assert forall|c: SurfaceClassKey| c != class implies #[trigger] self.queue(c) == old(self).queue(c) by {
                        if let Some(j) = old(self).position(c) {
                            old(self).lemma_position_valid(c);
                            self.lemma_position(c, j);
                        } else {
                            self.lemma_position_absent(c);
                        }
                    }
                }
            },
            None => {
                let mut queue: VecDeque<E> = VecDeque::new();
                queue.push_back(entry);
                let ghost old_queues = self.queues@;
                self.classes.push(class);
                self.queues.push(queue);
                proof {
                    assert(self.queues@.drop_last() =~= old_queues);
                    assert forall|i: int, j: int| 0 <= i < j < self.classes@.len()
                        implies self.classes@[i] != self.classes@[j] by {
                        if j == self.classes@.len() - 1 {
                            old(self).lemma_position_absent_means(class, i);
                        }
                    }
                    self.lemma_position(class, self.classes@.len() - 1);
                    assert(queue@ =~= Seq::<E>::empty().push(entry));
                    assert forall|c: SurfaceClassKey| c != class implies #[trigger] self.queue(c) == old(self).queue(c) by {
                        if let Some(j) = old(self).position(c) {
                            old(self).lemma_position_valid(c);
                            self.lemma_position(c, j);
                        } else {
                            self.lemma_position_absent(c);
                        }
                    }
                }
            },
        }
    }

    proof fn lemma_position_valid(self, class: SurfaceClassKey)
        requires
            self.position(class) is Some,
        ensures
            0 <= self.position(class).unwrap() < self.classes@.len(),
            self.classes@[self.position(class).unwrap()] == class,
    {
    }

    proof fn lemma_position_absent_means(self, class: SurfaceClassKey, i: int)
        requires
            self.position(class) is None,
            0 <= i < self.classes@.len(),
        ensures
            self.classes@[i] != class,
    {
    }

    proof fn lemma_position_absent(self, class: SurfaceClassKey)
        requires
            forall|i: int| 0 <= i < self.classes@.len() ==> self.classes@[i] != class,
        ensures
            self.position(class) is None,
    {
    }

    /// Takes the oldest queued surface of `class`; a class whose queue empties is dropped.
    pub fn pop(&mut self, class: &SurfaceClassKey) -> (r: Option<E>)
        requires
            old(self).wf(),
        ensures
            final(self).wf(),
            old(self).queue(*class).len() == 0 ==> r is None && *final(self) == *old(self),
            old(self).queue(*class).len() > 0 ==> r == Some(old(self).queue(*class)[0])
                && final(self).queue(*class) == old(self).queue(*class).drop_first(),
            forall|c: SurfaceClassKey| c != *class ==> #[trigger] final(self).queue(c) == old(self).queue(c),
            final(self).total() == old(self).total() - if old(self).queue(*class).len() > 0 { 1int } else { 0int },
    {
        let i = match self.find(class) {
            Some(i) => i,
            None => {
                return None;
            },
        };
        proof {
            self.lemma_position_valid(*class);
        }
        let ghost old_queues = self.queues@;
        let entry = self.queues[i].pop_front();
        proof {
            lemma_total_len_update(old_queues, i as int, self.queues@[i as int]);
            assert(self.queues@ =~= old_queues.update(i as int, self.queues@[i as int]));
        }
        if self.queues[i].len() == 0 {
            let ghost mid_queues = self.queues@;
            let ghost mid_classes = self.classes@;
            let _ = self.classes.remove(i);
            let _ = self.queues.remove(i);
            proof {
                lemma_total_len_remove(mid_queues, i as int);
                assert(self.queues@ =~= mid_queues.remove(i as int));
                assert forall|c: SurfaceClassKey| c != *class implies #[trigger] self.queue(c) == old(self).queue(c) by {
                    if let Some(j) = old(self).position(c) {
                        old(self).lemma_position_valid(c);
                        assert(j != i);
                        if j < i {
                            self.lemma_position(c, j);
                        } else {
                            self.lemma_position(c, j - 1);
                        }
                    } else {
                        assert forall|k: int| 0 <= k < self.classes@.len() implies self.classes@[k] != c by {
                            if k < i {
                                old(self).lemma_position_absent_means(c, k);
                            } else {
                                old(self).lemma_position_absent_means(c, k + 1);
                            }
                        }
                        self.lemma_position_absent(c);
                    }
                }
                assert forall|k: int| 0 <= k < self.classes@.len() implies self.classes@[k] != *class by {
                    if k < i {
                        assert(mid_classes[k] != mid_classes[i as int]);
                    } else {
                        assert(mid_classes[i as int] != mid_classes[k + 1]);
                    }
                }
                self.lemma_position_absent(*class);
            }
        } else {
            proof {
                self.lemma_position(*class, i as int);
                assert forall|c: SurfaceClassKey| c != *class implies #[trigger] self.queue(c) == old(self).queue(c) by {
                    if let Some(j) = old(self).position(c) {
                        old(self).lemma_position_valid(c);
                        self.lemma_position(c, j);
                    } else {
                        self.lemma_position_absent(c);
                    }
                }
            }
        }
        entry
    }


    /// Number of queued surfaces of `class`.
    pub fn queue_len(&self, class: &SurfaceClassKey) -> (n: usize)
        requires
            self.wf(),
        ensures
            n == self.queue(*class).len(),
    {
        match self.find(class) {
            Some(i) => self.queues[i].len(),
            None => 0,
        }
    }

    /// Queues a returned surface unless its class already holds `watermark` surfaces; a surface
    /// that is not queued is handed back to be freed.
    pub fn recycle(&mut self, class: SurfaceClassKey, entry: E, watermark: usize) -> (rejected: Option<E>)
        requires
            old(self).wf(),
        ensures
            final(self).wf(),
            old(self).queue(class).len() < watermark ==> rejected is None
                && final(self).queue(class) == old(self).queue(class).push(entry)
                && final(self).total() == old(self).total() + 1,
            old(self).queue(class).len() >= watermark ==> rejected == Some(entry) && *final(self) == *old(self),
            forall|c: SurfaceClassKey| c != class ==> #[trigger] final(self).queue(c) == old(self).queue(c),
    {
        if self.queue_len(&class) < watermark {
            self.push(class, entry);
            None
        } else {
            Some(entry)
        }
    }

    /// Number of queued surfaces over all classes.
    pub fn entry_count(&self) -> (n: usize)
        requires
            self.wf(),
            self.total() <= usize::MAX,
        ensures
            n == self.total(),
    {
        let mut total: usize = 0;
        let mut i: usize = 0;
        while i < self.queues.len()
            invariant
                i <= self.queues@.len(),
                total == total_len(self.queues@.take(i as int)),
                total_len(self.queues@) <= usize::MAX,
            decreases self.queues@.len() - i,
        {
            proof {
                assert(self.queues@.take((i + 1) as int).drop_last() =~= self.queues@.take(i as int));
                lemma_total_len_prefix(self.queues@, (i + 1) as int);
            }
            total = total + self.queues[i].len();
            i += 1;
        }
        assert(self.queues@.take(i as int) =~= self.queues@);
        total
    }

    /// The queued classes with the number of surfaces queued for each.
    pub fn class_lengths(&self) -> (r: Vec<(SurfaceClassKey, usize)>)
        requires
            self.wf(),
        ensures
            r@.len() == self.class_count(),
            forall|i: int| 0 <= i < r@.len() ==> (#[trigger] r@[i]).1 == self.queue(r@[i].0).len() && r@[i].1 > 0,
            forall|c: SurfaceClassKey| self.queue(c).len() > 0 ==> exists|i: int| 0 <= i < r@.len() && (#[trigger] r@[i]).0 == c,
    {
        let mut r: Vec<(SurfaceClassKey, usize)> = Vec::new();
        let mut i: usize = 0;
        while i < self.classes.len()
            invariant
                i <= self.classes@.len(),
                self.wf(),
                r@.len() == i,
                forall|j: int| 0 <= j < i ==> (#[trigger] r@[j]).0 == self.classes@[j] && r@[j].1 == self.queues@[j]@.len(),
            decreases self.classes@.len() - i,
        {
            r.push((self.classes[i].clone(), self.queues[i].len()));
            i += 1;
        }
        proof {
            assert forall|j: int| 0 <= j < r@.len() implies (#[trigger] r@[j]).1 == self.queue(r@[j].0).len() && r@[j].1 > 0 by {
                self.lemma_position(self.classes@[j], j);
            }
            assert forall|c: SurfaceClassKey| self.queue(c).len() > 0 implies exists|k: int| 0 <= k < r@.len() && (#[trigger] r@[k]).0 == c by {
                let j = self.position(c).unwrap();
                self.lemma_position_valid(c);
                assert(r@[j].0 == c);
            }
        }
        r
    }

    /// Chooses how a chunk gets a surface of class `required`: keep its current surface when
    /// that already has the required class, otherwise take the oldest pooled surface of the
    /// required class, otherwise build a new one, recording why nothing could be reused.
    pub fn choose_render_warm_path(&mut self, current_surface_class: Option<&SurfaceClassKey>,
        required_surface_class: &SurfaceClassKey) -> (path: RenderWarmPath<E>)
        requires
            old(self).wf(),
        ensures
            final(self).wf(),
            current_surface_class matches Some(c) && *c == *required_surface_class ==> {
                &&& path is ReuseCurrentSurface
                &&& *final(self) == *old(self)
            },
            !(current_surface_class matches Some(c) && *c == *required_surface_class) ==> {
                &&& old(self).queue(*required_surface_class).len() > 0 ==> {
                    &&& path == RenderWarmPath::ReusePooledSurface(old(self).queue(*required_surface_class)[0])
                    &&& final(self).queue(*required_surface_class) == old(self).queue(*required_surface_class).drop_first()
                }
                &&& old(self).queue(*required_surface_class).len() == 0 ==> {
                    &&& *final(self) == *old(self)
                    &&& match current_surface_class {
                        Some(c) => path matches RenderWarmPath::ColdPath(RenderFallbackReason::IncompatibleCurrentSurfaceClass(issues))
                            && names(issues@) == issues_spec(*c, *required_surface_class),
                        None => path matches RenderWarmPath::ColdPath(RenderFallbackReason::MissingCurrentSurfaceClass),
                    }
                }
                &&& forall|c: SurfaceClassKey| c != *required_surface_class ==> #[trigger] final(self).queue(c) == old(self).queue(c)
            },
    {
        if let Some(current_surface_class) = current_surface_class {
            let issues = current_surface_class.compatibility_issues(required_surface_class);
            proof {
                lemma_no_issues_iff_equal(*current_surface_class, *required_surface_class);
            }
            if issues.len() == 0 {
                return RenderWarmPath::ReuseCurrentSurface;
            }
            if let Some(entry) = self.pop(required_surface_class) {
                return RenderWarmPath::ReusePooledSurface(entry);
            }
            return RenderWarmPath::ColdPath(RenderFallbackReason::IncompatibleCurrentSurfaceClass(issues));
        }
        if let Some(entry) = self.pop(required_surface_class) {
            return RenderWarmPath::ReusePooledSurface(entry);
        }
        RenderWarmPath::ColdPath(RenderFallbackReason::MissingCurrentSurfaceClass)
    }

    pub fn new() -> (p: Self)
        ensures
            p.wf(),
            forall|c: SurfaceClassKey| (#[trigger] p.queue(c)).len() == 0,
            p.total() == 0,
    {
        SurfacePool { classes: Vec::new(), queues: Vec::new() }
    }
}

/// Queues a returned physics body unless the pool already holds `watermark` bodies; a body
/// that is not queued is handed back to be freed.
pub fn recycle_into<E>(pool: &mut VecDeque<E>, entry: E, watermark: usize) -> (rejected: Option<E>)
    ensures
        old(pool)@.len() < watermark ==> rejected is None && final(pool)@ == old(pool)@.push(entry),
        old(pool)@.len() >= watermark ==> rejected == Some(entry) && final(pool)@ == old(pool)@,
{
    if pool.len() < watermark {
        pool.push_back(entry);
        None
    } else {
        Some(entry)
    }
}

/// Sum of the queue lengths.
pub open spec fn total_len<E>(queues: Seq<VecDeque<E>>) -> nat
    decreases queues.len(),
{
    if queues.len() == 0 {
        0
    } else {
        total_len(queues.drop_last()) + queues.last()@.len()
    }
}


proof fn lemma_total_len_update<E>(queues: Seq<VecDeque<E>>, i: int, q: VecDeque<E>)
    requires
        0 <= i < queues.len(),
    ensures
        total_len(queues.update(i, q)) + queues[i]@.len() == total_len(queues) + q@.len(),
    decreases queues.len(),
{
    let t = queues.update(i, q);
    if i == queues.len() - 1 {
        assert(t.drop_last() =~= queues.drop_last());
    } else {
        lemma_total_len_update(queues.drop_last(), i, q);
        assert(t.drop_last() =~= queues.drop_last().update(i, q));
    }
}

proof fn lemma_total_len_remove<E>(queues: Seq<VecDeque<E>>, i: int)
    requires
        0 <= i < queues.len(),
    ensures
        total_len(queues.remove(i)) + queues[i]@.len() == total_len(queues),
    decreases queues.len(),
{
    let t = queues.remove(i);
    if i == queues.len() - 1 {
        assert(t =~= queues.drop_last());
    } else {
        lemma_total_len_remove(queues.drop_last(), i);
        assert(t.drop_last() =~= queues.drop_last().remove(i));
    }
}


proof fn lemma_total_len_prefix<E>(queues: Seq<VecDeque<E>>, n: int)
    requires
        0 <= n <= queues.len(),
    ensures
        total_len(queues.take(n)) <= total_len(queues),
    decreases queues.len(),
{
    if n < queues.len() {
        lemma_total_len_prefix(queues.drop_last(), n);
        assert(queues.drop_last().take(n) =~= queues.take(n));
    } else {
        assert(queues.take(n) =~= queues);
    }
}

} // verus!
