//! Bounded broadcast of events to every subscriber.
//!
//! Each subscriber has a queue of its own with room for `capacity` events.
//! Publishing appends the event to every queue and never waits: a queue
//! that is full gives up its oldest event to make room. A subscriber that
//! falls behind therefore loses events of its own and nobody else's.

use std::collections::VecDeque;
use vstd::prelude::*;
use crate::event::{Event, EventView};

verus! {

/// Names one subscription of a [`Fanout`].
pub type SubscriberId = usize;

/// The values of a run of events, in order.
pub open spec fn event_views(events: Seq<Event>) -> Seq<EventView> {
    events.map_values(|e: Event| e@)
}

/// The last `capacity` items of a queue; all of it when it has no more.
pub open spec fn keep_latest<E>(q: Seq<E>, capacity: nat) -> Seq<E> {
    if q.len() > capacity {
        q.skip(q.len() - capacity)
    } else {
        q
    }
}

/// A queue after one more event arrived for a subscriber with room for
/// `capacity` events.
pub open spec fn enqueue<E>(q: Seq<E>, e: E, capacity: nat) -> Seq<E> {
    keep_latest(q.push(e), capacity)
}

/// Every queue after one more event arrived.
pub open spec fn deliver(
    pending: Map<SubscriberId, Seq<EventView>>,
    e: EventView,
    capacity: nat,
) -> Map<SubscriberId, Seq<EventView>> {
    Map::new(
        |id: SubscriberId| pending.contains_key(id),
        |id: SubscriberId| enqueue(pending[id], e, capacity),
    )
}

/// Mathematical value of a [`Fanout`].
pub struct FanoutView {
    /// Room in each subscriber's queue.
    pub capacity: nat,
    /// What each subscriber has yet to receive, oldest first.
    pub pending: Map<SubscriberId, Seq<EventView>>,
}

/// The publish/subscribe hub that handlers share.
pub struct Fanout {
    capacity: usize,
    slots: Vec<Option<VecDeque<Event>>>,
}

impl View for Fanout {
    type V = FanoutView;

    closed spec fn view(&self) -> FanoutView {
        FanoutView {
            capacity: self.capacity as nat,
            pending: Map::new(
                |id: SubscriberId| id < self.slots.len() && self.slots[id as int] is Some,
                |id: SubscriberId| event_views(self.slots[id as int]->Some_0@),
            ),
        }
    }
}

impl Fanout {
    /// The invariant of the hub: no queue holds more than `capacity` events.
    pub open spec fn wf(&self) -> bool {
        forall|id: SubscriberId| #[trigger]
            self@.pending.contains_key(id) ==> self@.pending[id].len() <= self@.capacity
    }

    /// The invariant in terms of the representation.
    spec fn bounded(&self) -> bool {
        forall|i: int|
            0 <= i < self.slots.len() ==> (#[trigger] self.slots[i] matches Some(q) ==> q@.len()
                <= self.capacity)
    }

    proof fn lemma_bounded(&self)
        ensures
            self.wf() <==> self.bounded(),
    {
        if self.wf() {
            assert forall|i: int| 0 <= i < self.slots.len() implies (
            #[trigger] self.slots[i] matches Some(q) ==> q@.len() <= self.capacity) by {
                if let Some(q) = self.slots[i] {
                    assert(self@.pending.contains_key(i as usize));
                }
            }
        }
    }

    /// A hub without subscribers whose queues will hold `capacity` events.
    pub fn new(capacity: usize) -> (hub: Fanout)
        ensures
            hub.wf(),
            hub@.capacity == capacity,
            hub@.pending == Map::<SubscriberId, Seq<EventView>>::empty(),
    {
        let hub = Fanout { capacity, slots: Vec::new() };
        proof {
            hub.lemma_bounded();
        }
        hub
    }

    /// Room in each subscriber's queue.
    pub fn capacity(&self) -> (capacity: usize)
        ensures
            capacity == self@.capacity,
    {
        self.capacity
    }

    /// Opens a subscription with an empty queue. The new subscription gets
    /// the smallest id that is not in use.
    pub fn subscribe(&mut self) -> (id: SubscriberId)
        requires
            old(self).wf(),
        ensures
            final(self).wf(),
            !old(self)@.pending.contains_key(id),
            forall|j: SubscriberId| j < id ==> old(self)@.pending.contains_key(j),
            final(self)@.capacity == old(self)@.capacity,
            final(self)@.pending == old(self)@.pending.insert(id, Seq::empty()),
    {
        proof {
            self.lemma_bounded();
        }
        let mut i: usize = 0;
        while i < self.slots.len() && self.slots[i].is_some()
            invariant
                i <= self.slots.len(),
                forall|j: int| 0 <= j < i ==> self.slots[j] is Some,
            decreases self.slots.len() - i,
        {
            i += 1;
        }
        let queue: VecDeque<Event> = VecDeque::new();
        assert(event_views(queue@) =~= Seq::<EventView>::empty());
        if i < self.slots.len() {
            self.slots[i] = Some(queue);
        } else {
            self.slots.push(Some(queue));
        }
        proof {
            self.lemma_bounded();
        }
        i
    }

    /// Closes a subscription and discards what it had pending. Other
    /// subscriptions are not touched; an id that is not open is left alone.
    pub fn unsubscribe(&mut self, id: SubscriberId)
        requires
            old(self).wf(),
        ensures
            final(self).wf(),
            final(self)@.capacity == old(self)@.capacity,
            final(self)@.pending == old(self)@.pending.remove(id),
    {
        proof {
            self.lemma_bounded();
        }
        if id < self.slots.len() {
            self.slots[id] = None;
        }
        proof {
            self.lemma_bounded();
        }
    }

    /// Hands an event to every subscriber. A queue that is full drops its
    /// oldest event first; the publisher is never held up or refused.
    pub fn publish(&mut self, event: &Event)
        requires
            old(self).wf(),
        ensures
            final(self).wf(),
            final(self)@.capacity == old(self)@.capacity,
            final(self)@.pending == deliver(old(self)@.pending, event@, old(self)@.capacity),
    {
        proof {
            self.lemma_bounded();
        }
        let capacity = self.capacity;
        let mut i: usize = 0;
        while i < self.slots.len()
            invariant
                i <= self.slots.len(),
                self.slots.len() == old(self).slots.len(),
                self.capacity == capacity == old(self).capacity,
                self.bounded(),
                forall|j: int| i <= j < self.slots.len() ==> self.slots[j] == old(self).slots[j],
                forall|j: int|
                    0 <= j < i ==> (#[trigger] self.slots[j] is Some) == (old(
                        self,
                    ).slots[j] is Some),
                forall|j: int|
                    0 <= j < i && old(self).slots[j] is Some ==> event_views(
                        (#[trigger] self.slots[j])->Some_0@,
                    ) == enqueue(
                        event_views(old(self).slots[j]->Some_0@),
                        event@,
                        capacity as nat,
                    ),
            decreases self.slots.len() - i,
        {
            match &mut self.slots[i] {
                Some(queue) => {
                    if capacity > 0 {
                        if queue.len() >= capacity {
                            queue.pop_front();
                        }
                        queue.push_back(event.clone());
                    }
                },
                None => {},
            }
            i += 1;
        }
        proof {
            self.lemma_bounded();
        }
    }

    /// Takes the oldest pending event of a subscription, if it has one.
    pub fn poll(&mut self, id: SubscriberId) -> (event: Option<Event>)
        requires
            old(self).wf(),
        ensures
            final(self).wf(),
            final(self)@.capacity == old(self)@.capacity,
            match event {
                Some(e) => {
                    &&& old(self)@.pending.contains_key(id)
                    &&& old(self)@.pending[id].len() > 0
                    &&& e@ == old(self)@.pending[id][0]
                    &&& final(self)@.pending == old(self)@.pending.insert(
                        id,
                        old(self)@.pending[id].drop_first(),
                    )
                },
                None => {
                    &&& old(self)@.pending.contains_key(id) ==> old(self)@.pending[id].len() == 0
                    &&& final(self)@ == old(self)@
                },
            },
    {
        proof {
            self.lemma_bounded();
        }
        if id >= self.slots.len() {
            return None;
        }
        let event = match &mut self.slots[id] {
            Some(queue) => queue.pop_front(),
            None => None,
        };
        proof {
            self.lemma_bounded();
            if event is Some {
                let before = old(self).slots[id as int]->Some_0@;
                assert(event_views(before.subrange(1, before.len() as int)) =~= event_views(
                    before,
                ).drop_first());
            } else {
                assert(self@.pending =~= old(self)@.pending);
            }
        }
        event
    }

    /// How many events a subscription has pending; nothing for an id that
    /// is not open.
    pub fn backlog(&self, id: SubscriberId) -> (count: Option<usize>)
        ensures
            match count {
                Some(n) => self@.pending.contains_key(id) && n == self@.pending[id].len(),
                None => !self@.pending.contains_key(id),
            },
    {
        if id >= self.slots.len() {
            return None;
        }
        match &self.slots[id] {
            Some(queue) => Some(queue.len()),
            None => None,
        }
    }
}

/// A queue after a run of events arrived one by one.
pub open spec fn enqueue_all<E>(q: Seq<E>, events: Seq<E>, capacity: nat) -> Seq<E>
    decreases events.len(),
{
    if events.len() == 0 {
        q
    } else {
        enqueue(enqueue_all(q, events.drop_last(), capacity), events.last(), capacity)
    }
}

/// A subscriber that never takes anything out of its queue ends up with
/// the most recent `capacity` events, in the order of publication: each
/// arrival beyond capacity pushed the oldest one out.
pub proof fn law_undrained_queue_keeps_latest<E>(events: Seq<E>, capacity: nat)
    ensures
        enqueue_all(Seq::empty(), events, capacity) == keep_latest(events, capacity),
    decreases events.len(),
{
    if events.len() > 0 {
        law_undrained_queue_keeps_latest(events.drop_last(), capacity);
    }
}

/// Every queue after a run of events arrived one by one.
pub open spec fn deliver_all(
    pending: Map<SubscriberId, Seq<EventView>>,
    events: Seq<EventView>,
    capacity: nat,
) -> Map<SubscriberId, Seq<EventView>>
    decreases events.len(),
{
    if events.len() == 0 {
        pending
    } else {
        deliver(deliver_all(pending, events.drop_last(), capacity), events.last(), capacity)
    }
}

/// After any number of events were published and a subscriber took none of
/// them, that subscriber's queue holds the most recent `capacity` of its
/// old content followed by the events; starting from an empty queue, the
/// most recent `capacity` events.
pub proof fn law_lagging_subscriber_keeps_latest(
    pending: Map<SubscriberId, Seq<EventView>>,
    id: SubscriberId,
    events: Seq<EventView>,
    capacity: nat,
)
    requires
        pending.contains_key(id),
    ensures
        deliver_all(pending, events, capacity).dom() == pending.dom(),
        deliver_all(pending, events, capacity)[id] == enqueue_all(pending[id], events, capacity),
        pending[id].len() == 0 ==> deliver_all(pending, events, capacity)[id] == keep_latest(
            events,
            capacity,
        ),
    decreases events.len(),
{
    if events.len() > 0 {
        law_lagging_subscriber_keeps_latest(pending, id, events.drop_last(), capacity);
    }
    if pending[id].len() == 0 {
        law_undrained_queue_keeps_latest(events, capacity);
    }
}

/// What happens at one subscription: an event is published to it, or its
/// owner takes the oldest pending event.
pub enum QueueStep<E> {
    Publish(E),
    Poll,
}

/// The history of one subscription.
pub struct QueueTrace<E> {
    /// Events published so far.
    pub published: Seq<E>,
    /// Events the owner has taken so far.
    pub received: Seq<E>,
    /// Events waiting in the queue.
    pub pending: Seq<E>,
    /// Whether some event arrived while the queue was full.
    pub overflowed: bool,
}

/// The history of a subscription that started empty and went through
/// `steps`.
pub open spec fn trace<E>(steps: Seq<QueueStep<E>>, capacity: nat) -> QueueTrace<E>
    decreases steps.len(),
{
    if steps.len() == 0 {
        QueueTrace {
            published: Seq::empty(),
            received: Seq::empty(),
            pending: Seq::empty(),
            overflowed: false,
        }
    } else {
        let t = trace(steps.drop_last(), capacity);
        match steps.last() {
            QueueStep::Publish(e) => QueueTrace {
                published: t.published.push(e),
                received: t.received,
                pending: enqueue(t.pending, e, capacity),
                overflowed: t.overflowed || t.pending.len() >= capacity,
            },
            QueueStep::Poll => if t.pending.len() > 0 {
                QueueTrace {
                    published: t.published,
                    received: t.received.push(t.pending[0]),
                    pending: t.pending.drop_first(),
                    overflowed: t.overflowed,
                }
            } else {
                t
            },
        }
    }
}

/// A subscriber that takes events out fast enough for its queue never to
/// be full when an event arrives loses nothing: what it has received,
/// followed by what is still pending, is what was published, in order. Once
/// it has emptied its queue it has seen every event.
pub proof fn law_draining_subscriber_sees_all<E>(steps: Seq<QueueStep<E>>, capacity: nat)
    ensures
        trace(steps, capacity).pending.len() <= capacity,
        !trace(steps, capacity).overflowed ==> trace(steps, capacity).received + trace(
            steps,
            capacity,
        ).pending == trace(steps, capacity).published,
    decreases steps.len(),
{
    if steps.len() > 0 {
        law_draining_subscriber_sees_all(steps.drop_last(), capacity);
    }
}

} // verus!
