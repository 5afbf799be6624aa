use vstd::prelude::*;

use std::collections::VecDeque;

use crate::message::copy_bytes;

verus! {

/// Default depth of a subscriber's queue.
pub const CHANNEL_CAPACITY: usize = 50;

/// A queue after `f` arrives: when full, its oldest frame is dropped first.
pub open spec fn enqueue(q: Seq<Seq<u8>>, f: Seq<u8>, capacity: nat) -> Seq<Seq<u8>> {
    if q.len() >= capacity {
        q.drop_first().push(f)
    } else {
        q.push(f)
    }
}

/// A queue after `fs` arrive one by one.
pub open spec fn enqueue_all(q: Seq<Seq<u8>>, fs: Seq<Seq<u8>>, capacity: nat) -> Seq<Seq<u8>>
    decreases fs.len(),
{
    if fs.len() == 0 {
        q
    } else {
        enqueue(enqueue_all(q, fs.drop_last(), capacity), fs.last(), capacity)
    }
}

pub open spec fn frames_view(q: VecDeque<Vec<u8>>) -> Seq<Seq<u8>> {
    q@.map_values(|f: Vec<u8>| f@)
}

/// One subscriber's queue of frames.
pub struct Subscription {
    id: u64,
    frames: VecDeque<Vec<u8>>,
}

/// Fans frames out to every subscriber, each with a bounded queue.
pub struct Broadcaster {
    capacity: usize,
    next_id: u64,
    closed: bool,
    subscribers: Vec<Subscription>,
}

impl Broadcaster {
    pub closed spec fn capacity(&self) -> nat {
        self.capacity as nat
    }

    pub closed spec fn is_closed(&self) -> bool {
        self.closed
    }

    /// Each live subscriber's id and queued frames, oldest first.
    pub closed spec fn queues(&self) -> Seq<(u64, Seq<Seq<u8>>)> {
        self.subscribers@.map_values(|s: Subscription| (s.id, frames_view(s.frames)))
    }

    pub closed spec fn next_id(&self) -> u64 {
        self.next_id
    }

    pub open spec fn has_subscriber(&self, id: u64) -> bool {
        exists|i: int| 0 <= i < self.queues().len() && self.queues()[i].0 == id
    }

    pub open spec fn wf(&self) -> bool {
        &&& self.capacity() > 0
        &&& forall|i: int|
            0 <= i < self.queues().len() ==> (#[trigger] self.queues()[i]).1.len() <= self.capacity()
        &&& forall|i: int| 0 <= i < self.queues().len() ==> (#[trigger] self.queues()[i]).0 < self.next_id()
        &&& forall|i: int, j: int|
            0 <= i < self.queues().len() && 0 <= j < self.queues().len() && #[trigger] self.queues()[i].0
                == #[trigger] self.queues()[j].0 ==> i == j
    }

    pub fn new(capacity: usize) -> (r: Broadcaster)
        requires
            capacity > 0,
        ensures
            r.wf(),
            r.capacity() == capacity,
            r.queues().len() == 0,
            !r.is_closed(),
    {
        let r = Broadcaster { capacity, next_id: 0, closed: false, subscribers: Vec::new() };
        assert(r.queues() =~= Seq::<(u64, Seq<Seq<u8>>)>::empty());
        r
    }

    /// Whether the broadcaster was closed.
    pub fn finished(&self) -> (r: bool)
        ensures
            r == self.is_closed(),
    {
        self.closed
    }

    pub fn subscriber_count(&self) -> (r: usize)
        ensures
            r == self.queues().len(),
    {
        self.subscribers.len()
    }

    /// A new subscriber with an empty queue; `None` once the broadcaster is closed
    /// (or its ids are used up).
    pub fn subscribe(&mut self) -> (r: Option<u64>)
        requires
            old(self).wf(),
        ensures
            final(self).wf(),
            final(self).capacity() == old(self).capacity(),
            final(self).is_closed() == old(self).is_closed(),
            old(self).is_closed() ==> r is None,
            !old(self).is_closed() && old(self).next_id() < u64::MAX ==> r == Some(old(self).next_id()),
            r is None ==> final(self).queues() == old(self).queues(),
            r matches Some(id) ==> !old(self).has_subscriber(id) && final(self).queues()
                == old(self).queues().push((id, Seq::<Seq<u8>>::empty())),
    {
        if self.closed || self.next_id == u64::MAX {
            return None;
        }
        let id = self.next_id;
        let ghost q0 = self.queues();
        self.subscribers.push(Subscription { id, frames: VecDeque::new() });
        self.next_id = self.next_id + 1;
        proof {
            assert(frames_view(self.subscribers@[q0.len() as int].frames) =~= Seq::<Seq<u8>>::empty());
            assert(self.queues() =~= q0.push((id, Seq::<Seq<u8>>::empty())));
            if exists|i: int| 0 <= i < q0.len() && q0[i].0 == id {
                let i = choose|i: int| 0 <= i < q0.len() && q0[i].0 == id;
                assert(q0[i].0 < id);
            }
        }
        Some(id)
    }

    /// Enqueues `frame` for every subscriber, dropping the oldest frame of a full queue.
    pub fn publish(&mut self, frame: &Vec<u8>)
        requires
            old(self).wf(),
        ensures
            final(self).wf(),
            final(self).capacity() == old(self).capacity(),
            final(self).is_closed() == old(self).is_closed(),
            final(self).queues().len() == old(self).queues().len(),
            forall|i: int|
                0 <= i < old(self).queues().len() ==> #[trigger] final(self).queues()[i] == (
                old(self).queues()[i].0,
                enqueue(old(self).queues()[i].1, frame@, old(self).capacity()),
            ),
    {
        let ghost q0 = self.queues();
        let mut i: usize = 0;
        while i < self.subscribers.len()
            invariant
                self.wf(),
                self.capacity() == old(self).capacity(),
                self.is_closed() == old(self).is_closed(),
                self.next_id() == old(self).next_id(),
                q0 == old(self).queues(),
                self.queues().len() == q0.len(),
                i <= q0.len(),
                forall|j: int|
                    0 <= j < i ==> #[trigger] self.queues()[j] == (q0[j].0, enqueue(
                        q0[j].1,
                        frame@,
                        self.capacity(),
                    )),
                forall|j: int| i <= j < q0.len() ==> #[trigger] self.queues()[j] == q0[j],
            decreases q0.len() - i,
        {
            let ghost subs0 = self.subscribers@;
            let ghost qb = self.queues();
            assert(qb[i as int] == (subs0[i as int].id, frames_view(subs0[i as int].frames)));
            let mut sub = self.subscribers.remove(i);
            assert(sub == subs0[i as int]);
            let ghost before = frames_view(sub.frames);
            assert(before == q0[i as int].1);
            if sub.frames.len() >= self.capacity {
                sub.frames.pop_front();
            }
            sub.frames.push_back(copy_bytes(frame));
            let ghost after = frames_view(sub.frames);
            assert(after =~= enqueue(before, frame@, self.capacity()));
            self.subscribers.insert(i, sub);
            proof {
                assert(self.subscribers@ =~= subs0.update(i as int, sub));
                assert(self.queues() =~= qb.update(i as int, (q0[i as int].0, after)));
            }
            i = i + 1;
        }
    }

    /// The oldest frame queued for subscriber `id`; `None` when its queue is
    /// empty or it is not subscribed.
    pub fn recv(&mut self, id: u64) -> (r: Option<Vec<u8>>)
        requires
            old(self).wf(),
        ensures
            final(self).wf(),
            final(self).capacity() == old(self).capacity(),
            final(self).is_closed() == old(self).is_closed(),
            final(self).queues().len() == old(self).queues().len(),
            !old(self).has_subscriber(id) ==> r is None && final(self).queues() == old(self).queues(),
            forall|i: int|
                0 <= i < old(self).queues().len() && old(self).queues()[i].0 == id ==> {
                    let q = old(self).queues()[i].1;
                    &&& q.len() == 0 ==> r is None && final(self).queues() == old(self).queues()
                    &&& q.len() > 0 ==> (r matches Some(f) && f@ == q[0] && final(self).queues()
                        == old(self).queues().update(i, (id, q.drop_first())))
                },
    {
        let ghost q0 = self.queues();
        let mut i: usize = 0;
        while i < self.subscribers.len()
            invariant
                self.wf(),
                self.queues() == q0,
                q0 == old(self).queues(),
                self.capacity() == old(self).capacity(),
                self.is_closed() == old(self).is_closed(),
                self.next_id() == old(self).next_id(),
                i <= q0.len(),
                forall|j: int| 0 <= j < i ==> (#[trigger] q0[j]).0 != id,
            decreases q0.len() - i,
        {
            if self.subscribers[i].id == id {
                assert(q0[i as int].0 == id);
                let mut sub = self.subscribers.remove(i);
                let r = sub.frames.pop_front();
                let ghost after = frames_view(sub.frames);
                self.subscribers.insert(i, sub);
                proof {
                    let q = q0[i as int].1;
                    if q.len() > 0 {
                        assert(after =~= q.drop_first());
                        assert(self.queues() =~= q0.update(i as int, (id, q.drop_first())));
                    } else {
                        assert(after =~= q);
                        assert(self.queues() =~= q0);
                    }
                    assert forall|k: int| 0 <= k < q0.len() && q0[k].0 == id implies k == i by {}
                }
                return match r {
                    Some(f) => Some(f),
                    None => None,
                };
            }
            i = i + 1;
        }
        None
    }

    /// Removes subscriber `id`; its queued frames are dropped.
    pub fn unsubscribe(&mut self, id: u64)
        requires
            old(self).wf(),
        ensures
            final(self).wf(),
            final(self).capacity() == old(self).capacity(),
            final(self).is_closed() == old(self).is_closed(),
            !final(self).has_subscriber(id),
            forall|j: int|
                0 <= j < old(self).queues().len() && old(self).queues()[j].0 != id ==> exists|
                    k: int,
                | 0 <= k < final(self).queues().len() && #[trigger] final(self).queues()[k]
                    == #[trigger] old(self).queues()[j],
            final(self).queues().len() <= old(self).queues().len(),
    {
        let ghost q0 = self.queues();
        let mut i: usize = 0;
        while i < self.subscribers.len()
            invariant
                self.wf(),
                self.queues() == q0,
                q0 == old(self).queues(),
                self.capacity() == old(self).capacity(),
                self.is_closed() == old(self).is_closed(),
                self.next_id() == old(self).next_id(),
                i <= q0.len(),
                forall|j: int| 0 <= j < i ==> (#[trigger] q0[j]).0 != id,
            decreases q0.len() - i,
        {
            if self.subscribers[i].id == id {
                assert(q0[i as int].0 == id);
                self.subscribers.remove(i);
                proof {
                    assert(self.queues() =~= q0.remove(i as int));
                    assert forall|j: int| 0 <= j < q0.len() && q0[j].0 != id implies exists|k: int|
                        0 <= k < self.queues().len() && #[trigger] self.queues()[k] == #[trigger] q0[j] by {
                        if j < i {
                            assert(self.queues()[j] == q0[j]);
                        } else {
                            assert(j != i);
                            assert(self.queues()[j - 1] == q0[j]);
                        }
                    }
                    assert forall|k: int| 0 <= k < self.queues().len() implies (#[trigger] self.queues()[k]).0 != id by {
                        if k < i {
                            assert(self.queues()[k] == q0[k]);
                        } else {
                            assert(self.queues()[k] == q0[k + 1]);
                            assert(q0[k + 1].0 == q0[i as int].0 ==> k + 1 == i);
                        }
                    }
                }
                return;
            }
            i = i + 1;
        }
        proof {
            assert forall|j: int| 0 <= j < q0.len() && q0[j].0 != id implies exists|k: int|
                0 <= k < self.queues().len() && #[trigger] self.queues()[k] == #[trigger] q0[j] by {
                assert(self.queues()[j] == q0[j]);
            }
        }
    }

    /// Closes the broadcaster: no subscription can be made any more; each
    /// subscriber still reads the frames already queued for it, then its stream ends.
    pub fn close(&mut self)
        requires
            old(self).wf(),
        ensures
            final(self).wf(),
            final(self).is_closed(),
            final(self).queues() == old(self).queues(),
            final(self).capacity() == old(self).capacity(),
    {
        self.closed = true;
        assert(self.queues() == old(self).queues());
        assert(self.next_id() == old(self).next_id());
    }
}

/// Lossy fan-out bound: however many frames are published, a subscriber never
/// holds more than the queue depth, and what it holds is the latest of them.
pub proof fn lemma_fan_out_bound(q: Seq<Seq<u8>>, fs: Seq<Seq<u8>>, capacity: nat)
    requires
        capacity > 0,
        q.len() <= capacity,
    ensures
        enqueue_all(q, fs, capacity).len() <= capacity,
        fs.len() >= capacity ==> enqueue_all(q, fs, capacity) == fs.subrange(
            fs.len() - capacity,
            fs.len() as int,
        ),
    decreases fs.len(),
{
    if fs.len() > 0 {
        let prev = fs.drop_last();
        lemma_fan_out_bound(q, prev, capacity);
        let e = enqueue_all(q, prev, capacity);
        if fs.len() >= capacity {
            if prev.len() >= capacity {
                assert(e == prev.subrange(prev.len() - capacity, prev.len() as int));
                assert(enqueue(e, fs.last(), capacity) =~= fs.subrange(
                    fs.len() - capacity,
                    fs.len() as int,
                ));
            } else {
                lemma_enqueue_len(q, prev, capacity);
                assert(e.len() == capacity - 1 || e.len() >= prev.len());
                lemma_enqueue_suffix(q, prev, capacity);
                assert(e.len() >= capacity - 1 ==> e.subrange(e.len() - prev.len(), e.len() as int)
                    == prev);
                assert(enqueue(e, fs.last(), capacity) =~= fs.subrange(
                    fs.len() - capacity,
                    fs.len() as int,
                ));
            }
        }
    }
}

proof fn lemma_enqueue_len(q: Seq<Seq<u8>>, fs: Seq<Seq<u8>>, capacity: nat)
    requires
        capacity > 0,
        q.len() <= capacity,
    ensures
        enqueue_all(q, fs, capacity).len() == if q.len() + fs.len() <= capacity {
            q.len() + fs.len()
        } else {
            capacity
        },
    decreases fs.len(),
{
    if fs.len() > 0 {
        lemma_enqueue_len(q, fs.drop_last(), capacity);
    }
}

proof fn lemma_enqueue_suffix(q: Seq<Seq<u8>>, fs: Seq<Seq<u8>>, capacity: nat)
    requires
        capacity > 0,
        q.len() <= capacity,
        fs.len() <= capacity,
    ensures
        enqueue_all(q, fs, capacity).subrange(
            enqueue_all(q, fs, capacity).len() - fs.len(),
            enqueue_all(q, fs, capacity).len() as int,
        ) == fs,
    decreases fs.len(),
{
    lemma_enqueue_len(q, fs, capacity);
    if fs.len() == 0 {
        let e = enqueue_all(q, fs, capacity);
        assert(e.subrange(e.len() as int, e.len() as int) =~= fs);
    } else {
        let prev = fs.drop_last();
        lemma_enqueue_suffix(q, prev, capacity);
        lemma_enqueue_len(q, prev, capacity);
        let e = enqueue_all(q, prev, capacity);
        let e2 = enqueue(e, fs.last(), capacity);
        assert(e.subrange(e.len() - prev.len(), e.len() as int) == prev);
        let off = e.len() - prev.len();
        assert forall|j: int| 0 <= j < prev.len() implies #[trigger] e[off + j] == prev[j] by {
            assert(e.subrange(off, e.len() as int)[j] == e[off + j]);
        }
        assert forall|j: int| 0 <= j < fs.len() implies #[trigger] e2.subrange(
            e2.len() - fs.len(),
            e2.len() as int,
        )[j] == fs[j] by {
            if j < prev.len() {
                assert(fs[j] == prev[j]);
                if e.len() >= capacity {
                    assert(e2[e2.len() - fs.len() + j] == e[e2.len() - fs.len() + j + 1]);
                } else {
                    assert(e2[e2.len() - fs.len() + j] == e[e2.len() - fs.len() + j]);
                }
            }
        }
        assert(e2.subrange(e2.len() - fs.len(), e2.len() as int) =~= fs);
    }
}

} // verus!
