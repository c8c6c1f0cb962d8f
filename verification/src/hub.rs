//! The broadcast hub: a single process-wide fan-out of accepted messages.
//! Every subscriber holds a bounded buffer; publishing never blocks, and a
//! lagging subscriber at capacity loses its own oldest buffered message
//! rather than stalling delivery to anyone else.

use vstd::prelude::*;

use crate::message::ChatMessage;
use crate::message::MessageView;

verus! {

/// The buffered messages of one subscriber, as values.
pub open spec fn queue_view(q: Seq<ChatMessage>) -> Seq<MessageView> {
    q.map_values(|m: ChatMessage| m@)
}

/// What one publish does to one subscriber's buffer of capacity `cap`:
/// append when there is room, otherwise drop the oldest to make room.
pub open spec fn push_bounded(q: Seq<MessageView>, m: MessageView, cap: nat) -> Seq<MessageView> {
    if q.len() < cap {
        q.push(m)
    } else {
        q.drop_first().push(m)
    }
}

/// Law: a subscriber with room receives every published message, appended
/// in publish order.
pub proof fn lemma_publish_delivers(q: Seq<MessageView>, m: MessageView, cap: nat)
    requires
        q.len() < cap,
    ensures
        push_bounded(q, m, cap) == q.push(m),
{
}

/// Law: a lagging subscriber (buffer at capacity) drops only its own
/// oldest buffered message; the publish still reaches it and its buffer
/// stays at capacity. No other subscriber is involved.
pub proof fn lemma_publish_lagging(q: Seq<MessageView>, m: MessageView, cap: nat)
    requires
        q.len() == cap,
        cap >= 1,
    ensures
        push_bounded(q, m, cap) == q.drop_first().push(m),
        push_bounded(q, m, cap).len() == cap,
{
}

/// Law: two messages published in sequence to a subscriber with room for
/// both arrive appended in publish order.
pub proof fn lemma_publish_order(q: Seq<MessageView>, m1: MessageView, m2: MessageView, cap: nat)
    requires
        q.len() + 1 < cap,
    ensures
        push_bounded(push_bounded(q, m1, cap), m2, cap) == q.push(m1).push(m2),
{
}

/// One subscription: a handle and its bounded buffer.
struct Subscriber {
    id: u64,
    queue: Vec<ChatMessage>,
}

/// The process-wide multi-producer/multi-consumer fan-out channel. Its
/// mathematical value is the sequence of subscriptions, each a handle with
/// its buffered message values.
pub struct Hub {
    capacity: usize,
    next_id: u64,
    subs: Vec<Subscriber>,
}

impl View for Hub {
    type V = Seq<(u64, Seq<MessageView>)>;

    closed spec fn view(&self) -> Seq<(u64, Seq<MessageView>)> {
        self.subs@.map_values(|s: Subscriber| (s.id, queue_view(s.queue@)))
    }
}

impl Hub {
    /// The buffer capacity every subscriber was created with.
    pub closed spec fn capacity_spec(&self) -> nat {
        self.capacity as nat
    }

    /// The handle the next subscription will receive.
    pub closed spec fn next_handle(&self) -> u64 {
        self.next_id
    }

    /// Internal shape: a positive capacity, handles below the next one and
    /// pairwise distinct, and every buffer within capacity.
    pub closed spec fn wf(&self) -> bool {
        &&& self.capacity >= 1
        &&& forall|i: int| 0 <= i < self.subs@.len() ==> (#[trigger] self.subs@[i].id)
            < self.next_id
        &&& forall|i: int, j: int|
            0 <= i < j < self.subs@.len() ==> (#[trigger] self.subs@[i].id) != (
            #[trigger] self.subs@[j].id)
        &&& forall|i: int| 0 <= i < self.subs@.len() ==> (#[trigger] self.subs@[i].queue@.len())
            <= self.capacity
    }

    /// Whether `h` is a live subscription handle.
    pub open spec fn has_handle(&self, h: u64) -> bool {
        exists|i: int| 0 <= i < self@.len() && (#[trigger] self@[i]).0 == h
    }

    /// The position of handle `h` among the subscriptions.
    pub open spec fn handle_index(&self, h: u64) -> int {
        choose|i: int| 0 <= i < self@.len() && (#[trigger] self@[i]).0 == h
    }

    /// The buffered message values of handle `h`.
    pub open spec fn queue_of(&self, h: u64) -> Seq<MessageView> {
        self@[self.handle_index(h)].1
    }

    /// A hub with the given per-subscriber buffer capacity and no
    /// subscribers yet.
    pub fn new(capacity: usize) -> (r: Hub)
        requires
            capacity >= 1,
        ensures
            r.wf(),
            r@ == Seq::<(u64, Seq<MessageView>)>::empty(),
            r.capacity_spec() == capacity,
            r.next_handle() == 0,
    {
        let h = Hub { capacity, next_id: 0, subs: Vec::new() };
        proof {
            assert(h@ =~= Seq::<(u64, Seq<MessageView>)>::empty());
        }
        h
    }

    /// Opens a new subscription with an empty buffer. The handle is fresh:
    /// only messages published from this point on reach it.
    pub fn subscribe(&mut self) -> (h: u64)
        requires
            old(self).wf(),
            old(self).next_handle() < u64::MAX,
        ensures
            final(self).wf(),
            h == old(self).next_handle(),
            final(self).next_handle() == old(self).next_handle() + 1,
            final(self).capacity_spec() == old(self).capacity_spec(),
            final(self)@ == old(self)@.push((h, Seq::<MessageView>::empty())),
            !old(self).has_handle(h),
            final(self).has_handle(h),
            final(self).queue_of(h) == Seq::<MessageView>::empty(),
    {
        let h = self.next_id;
        self.next_id = self.next_id + 1;
        self.subs.push(Subscriber { id: h, queue: Vec::new() });
        proof {
            let newv = self@;
            let oldv = old(self)@;
            assert(self.subs@.drop_last() =~= old(self).subs@);
            assert(queue_view(Seq::<ChatMessage>::empty()) =~= Seq::<MessageView>::empty());
            assert(newv =~~= oldv.push((h, Seq::<MessageView>::empty())));
            assert(newv[newv.len() - 1].0 == h);
            let hi = self.handle_index(h);
            assert(0 <= hi < newv.len() && newv[hi].0 == h);
            if hi < newv.len() - 1 {
                assert(old(self).subs@[hi].id == h);
                assert(false);
            }
            assert(self.queue_of(h) =~= Seq::<MessageView>::empty());
        }
        h
    }

    /// Publishes `m` to every current subscriber, without blocking: each
    /// buffer becomes `push_bounded` of its old contents. Publishing with
    /// no subscribers is a no-op.
    pub fn publish(&mut self, m: &ChatMessage)
        requires
            old(self).wf(),
        ensures
            final(self).wf(),
            final(self).capacity_spec() == old(self).capacity_spec(),
            final(self).next_handle() == old(self).next_handle(),
            final(self)@.len() == old(self)@.len(),
            forall|i: int|
                0 <= i < old(self)@.len() ==> (#[trigger] final(self)@[i]).0 == old(self)@[i].0,
            forall|i: int|
                0 <= i < old(self)@.len() ==> (#[trigger] final(self)@[i]).1 == push_bounded(
                    old(self)@[i].1,
                    m@,
                    old(self).capacity_spec(),
                ),
    {
        let n = self.subs.len();
        let mut i: usize = 0;
        while i < n
            invariant
                old(self).wf(),
                n == self.subs@.len(),
                n == old(self).subs@.len(),
                i <= n,
                self.capacity == old(self).capacity,
                self.next_id == old(self).next_id,
                forall|j: int|
                    0 <= j < i ==> (#[trigger] self.subs@[j].id) == old(self).subs@[j].id,
                forall|j: int|
                    0 <= j < i ==> queue_view(#[trigger] self.subs@[j].queue@) == push_bounded(
                        queue_view(old(self).subs@[j].queue@),
                        m@,
                        old(self).capacity as nat,
                    ),
                forall|j: int|
                    0 <= j < i ==> (#[trigger] self.subs@[j].queue@.len()) <= self.capacity,
                forall|j: int| i <= j < n ==> (#[trigger] self.subs@[j]) == old(self).subs@[j],
            decreases n - i,
        {
            let ghost prev = self.subs@;
            let mut sub = self.subs.remove(i);
            let ghost oldq = sub.queue@;
            if sub.queue.len() >= self.capacity {
                sub.queue.remove(0);
            }
            sub.queue.push(m.duplicate());
            proof {
                assert(old(self).subs@[i as int].queue@.len() <= self.capacity);
                if oldq.len() < self.capacity {
                    assert(sub.queue@ =~= oldq.push(sub.queue@.last()));
                    assert(queue_view(sub.queue@) =~= push_bounded(
                        queue_view(oldq),
                        m@,
                        old(self).capacity as nat,
                    ));
                } else {
                    assert(sub.queue@ =~= oldq.drop_first().push(sub.queue@.last()));
                    assert(queue_view(sub.queue@) =~= push_bounded(
                        queue_view(oldq),
                        m@,
                        old(self).capacity as nat,
                    ));
                }
            }
            self.subs.insert(i, sub);
            proof {
                assert(self.subs@ =~= prev.update(i as int, sub));
            }
            i += 1;
        }
        proof {
            assert(final(self)@.len() == old(self)@.len());
            assert forall|i2: int| 0 <= i2 < old(self)@.len() implies (#[trigger] self@[i2]).0
                == old(self)@[i2].0 && (self@[i2]).1 == push_bounded(
                old(self)@[i2].1,
                m@,
                old(self).capacity_spec(),
            ) by {
                assert(self@[i2].0 == self.subs@[i2].id);
                assert(old(self)@[i2].1 == queue_view(old(self).subs@[i2].queue@));
            }
        }
    }

    /// Takes the oldest buffered message for handle `h`, if any.
    pub fn recv(&mut self, h: u64) -> (r: Option<ChatMessage>)
        requires
            old(self).wf(),
            old(self).has_handle(h),
        ensures
            final(self).wf(),
            final(self).capacity_spec() == old(self).capacity_spec(),
            final(self).next_handle() == old(self).next_handle(),
            final(self)@.len() == old(self)@.len(),
            final(self).handle_index(h) == old(self).handle_index(h),
            forall|i: int|
                0 <= i < old(self)@.len() ==> (#[trigger] final(self)@[i]).0 == old(self)@[i].0,
            forall|i: int|
                0 <= i < old(self)@.len() && i != old(self).handle_index(h) ==> (
                #[trigger] final(self)@[i]).1 == old(self)@[i].1,
            old(self).queue_of(h).len() == 0 ==> r is None && final(self)@ == old(self)@,
            old(self).queue_of(h).len() > 0 ==> (r matches Some(m) && m@ == old(self).queue_of(h)[0]
                && final(self).queue_of(h) == old(self).queue_of(h).drop_first()),
    {
        let n = self.subs.len();
        let mut idx: usize = 0;
        while idx < n
            invariant
                old(self).wf(),
                old(self).has_handle(h),
                self == old(self),
                n == self.subs@.len(),
                idx <= n,
                forall|j: int| 0 <= j < idx ==> (#[trigger] self.subs@[j].id) != h,
            decreases n - idx,
        {
            if self.subs[idx].id == h {
                proof {
                    let hi = old(self).handle_index(h);
                    assert(0 <= hi < old(self)@.len() && old(self)@[hi].0 == h);
                    assert(old(self).subs@[hi].id == h);
                    if hi != idx as int {
                        assert(false);
                    }
                    assert(old(self).queue_of(h) == queue_view(
                        old(self).subs@[idx as int].queue@,
                    ));
                }
                if self.subs[idx].queue.len() == 0 {
                    return None;
                }
                let ghost prev = self.subs@;
                let mut sub = self.subs.remove(idx);
                let msg = sub.queue.remove(0);
                self.subs.insert(idx, sub);
                proof {
                    assert(self.subs@ =~= prev.update(idx as int, sub));
                    assert(queue_view(sub.queue@) =~= queue_view(
                        old(self).subs@[idx as int].queue@,
                    ).drop_first());
                    assert(final(self).handle_index(h) == old(self).handle_index(h)) by {
                        let hi2 = self.handle_index(h);
                        assert(self@[idx as int].0 == h);
                        assert(0 <= hi2 < self@.len() && self@[hi2].0 == h);
                        if hi2 != idx as int {
                            assert(self.subs@[hi2].id == h);
                            assert(old(self).subs@[hi2].id == h);
                            assert(false);
                        }
                    }
                }
                return Some(msg);
            }
            idx += 1;
        }
        proof {
            let hi = old(self).handle_index(h);
            assert(0 <= hi < old(self)@.len() && old(self)@[hi].0 == h);
            assert(old(self).subs@[hi].id == h);
            assert(false);
        }
        None
    }

    /// Ends the subscription for handle `h`, releasing its buffer.
    pub fn unsubscribe(&mut self, h: u64)
        requires
            old(self).wf(),
        ensures
            final(self).wf(),
            final(self).capacity_spec() == old(self).capacity_spec(),
            final(self).next_handle() == old(self).next_handle(),
            old(self).has_handle(h) ==> final(self)@ == old(self)@.remove(
                old(self).handle_index(h),
            ),
            !old(self).has_handle(h) ==> final(self)@ == old(self)@,
            !final(self).has_handle(h),
    {
        let n = self.subs.len();
        let mut idx: usize = 0;
        while idx < n
            invariant
                old(self).wf(),
                self == old(self),
                n == self.subs@.len(),
                idx <= n,
                forall|j: int| 0 <= j < idx ==> (#[trigger] self.subs@[j].id) != h,
            decreases n - idx,
        {
            if self.subs[idx].id == h {
                proof {
                    assert(old(self)@[idx as int].0 == h);
                    let hi = old(self).handle_index(h);
                    assert(0 <= hi < old(self)@.len() && old(self)@[hi].0 == h);
                    assert(old(self).subs@[hi].id == h);
                    if hi != idx as int {
                        assert(false);
                    }
                }
                self.subs.remove(idx);
                proof {
                    assert(self@ =~= old(self)@.remove(idx as int));
                    assert forall|i: int| 0 <= i < self@.len() implies (#[trigger] self@[i]).0 != h
                        by {
                        if i < idx as int {
                            assert(self.subs@[i].id == old(self).subs@[i].id);
                        } else {
                            assert(self.subs@[i].id == old(self).subs@[i + 1].id);
                        }
                    }
                }
                return ;
            }
            idx += 1;
        }
        proof {
            if old(self).has_handle(h) {
                let hi = old(self).handle_index(h);
                assert(0 <= hi < old(self)@.len() && old(self)@[hi].0 == h);
                assert(old(self).subs@[hi].id == h);
                assert(false);
            }
            assert forall|i: int| 0 <= i < self@.len() implies (#[trigger] self@[i]).0 != h by {
                assert(self.subs@[i].id != h);
            }
        }
    }
}

} // verus!
