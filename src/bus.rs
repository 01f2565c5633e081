//! The bus: the registry together with the bounded queue of published events
//! that still wait for dispatch.
use crate::registry::{
    register_spec, subscribers_of, unregister_spec, EventKind, Registry, SubscriberId,
};
use std::collections::VecDeque;
use vstd::prelude::*;

verus! {

/// How many published events may wait for dispatch at once.
pub const QUEUE_CAPACITY: usize = 2048;

/// The queue after an event is offered to it: appended when there is room,
/// dropped when the queue is full.
pub open spec fn offer_spec<T>(queue: Seq<T>, capacity: nat, item: T) -> Seq<T> {
    if queue.len() < capacity {
        queue.push(item)
    } else {
        queue
    }
}

/// One event taken off the queue, with the subscribers it is to be handed to.
pub struct Dispatch<E> {
    pub kind: EventKind,
    pub event: E,
    /// The subscribers registered for `kind` when the event was taken off
    /// the queue, in registration order; one delivery is owed to each entry.
    pub subscribers: Vec<SubscriberId>,
}

/// The state of an event bus carrying events of type `E`.
pub struct EventBus<E> {
    registry: Registry,
    queue: VecDeque<(EventKind, E)>,
    capacity: usize,
}

impl<E> EventBus<E> {
    /// The registry: for each kind, its subscribers in order.
    pub closed spec fn subscribers(&self) -> Map<EventKind, Seq<SubscriberId>> {
        self.registry@
    }

    /// The events that wait for dispatch, oldest first, each with its kind.
    pub closed spec fn pending(&self) -> Seq<(EventKind, E)> {
        self.queue@
    }

    /// How many events may wait at once.
    pub closed spec fn capacity(&self) -> nat {
        self.capacity as nat
    }

    /// The bus is well formed: the registry is, and the queue is within its
    /// bound.
    pub closed spec fn wf(&self) -> bool {
        &&& self.registry.wf()
        &&& self.queue@.len() <= self.capacity
    }

    /// A bus with no subscriber, an empty queue and the standard capacity.
    pub fn new() -> (r: Self)
        ensures
            r.wf(),
            r.subscribers() == Map::<EventKind, Seq<SubscriberId>>::empty(),
            r.pending() == Seq::<(EventKind, E)>::empty(),
            r.capacity() == QUEUE_CAPACITY,
    {
        EventBus { registry: Registry::new(), queue: VecDeque::new(), capacity: QUEUE_CAPACITY }
    }

    /// Publishes `event` of kind `kind`: it joins the queue when there is
    /// room and is dropped otherwise. Returns whether it was queued.
    pub fn post(&mut self, kind: EventKind, event: E) -> (queued: bool)
        requires
            old(self).wf(),
        ensures
            final(self).wf(),
            queued == (old(self).pending().len() < old(self).capacity()),
            final(self).pending() == offer_spec(old(self).pending(), old(self).capacity(), (kind, event)),
            final(self).subscribers() == old(self).subscribers(),
            final(self).capacity() == old(self).capacity(),
    {
        if self.queue.len() < self.capacity {
            self.queue.push_back((kind, event));
            true
        } else {
            false
        }
    }

    /// Registers subscriber `id` for events of kind `kind`; registering the
    /// same subscriber again adds a second entry.
    pub fn register(&mut self, kind: EventKind, id: SubscriberId)
        requires
            old(self).wf(),
        ensures
            final(self).wf(),
            final(self).subscribers() == register_spec(old(self).subscribers(), kind, id),
            final(self).pending() == old(self).pending(),
            final(self).capacity() == old(self).capacity(),
    {
        self.registry.register(kind, id);
    }

    /// Removes one registration of subscriber `id` for kind `kind`; does
    /// nothing when there is none.
    pub fn unregister(&mut self, kind: EventKind, id: SubscriberId)
        requires
            old(self).wf(),
        ensures
            final(self).wf(),
            final(self).subscribers() == unregister_spec(old(self).subscribers(), kind, id),
            final(self).pending() == old(self).pending(),
            final(self).capacity() == old(self).capacity(),
    {
        self.registry.unregister(kind, id);
    }

    /// The subscribers currently registered for `kind`, in order.
    pub fn subscribers_for(&self, kind: EventKind) -> (r: Vec<SubscriberId>)
        ensures
            r@ == subscribers_of(self.subscribers(), kind),
    {
        self.registry.lookup(kind)
    }

    /// How many events wait for dispatch.
    pub fn pending_len(&self) -> (r: usize)
        ensures
            r == self.pending().len(),
    {
        self.queue.len()
    }

    /// Takes the oldest waiting event off the queue, with a snapshot of the
    /// subscribers registered for its kind at this moment; `None` when no
    /// event waits.
    pub fn next_dispatch(&mut self) -> (r: Option<Dispatch<E>>)
        requires
            old(self).wf(),
        ensures
            final(self).wf(),
            final(self).subscribers() == old(self).subscribers(),
            final(self).capacity() == old(self).capacity(),
            old(self).pending().len() == 0 ==> r.is_none() && final(self).pending() == old(
                self,
            ).pending(),
            old(self).pending().len() > 0 ==> (r matches Some(d) && {
                &&& d.kind == old(self).pending()[0].0
                &&& d.event == old(self).pending()[0].1
                &&& d.subscribers@ == subscribers_of(old(self).subscribers(), d.kind)
                &&& final(self).pending() == old(self).pending().drop_first()
            }),
    {
        match self.queue.pop_front() {
            Some((kind, event)) => {
                let subscribers = self.registry.lookup(kind);
                Some(Dispatch { kind, event, subscribers })
            },
            None => None,
        }
    }
}

/// Publishes `event` of kind `kind` on `bus`; see [`EventBus::post`].
pub fn post<E>(bus: &mut EventBus<E>, kind: EventKind, event: E) -> (queued: bool)
    requires
        old(bus).wf(),
    ensures
        final(bus).wf(),
        queued == (old(bus).pending().len() < old(bus).capacity()),
        final(bus).pending() == offer_spec(old(bus).pending(), old(bus).capacity(), (kind, event)),
        final(bus).subscribers() == old(bus).subscribers(),
        final(bus).capacity() == old(bus).capacity(),
{
    bus.post(kind, event)
}

/// Registers subscriber `id` for kind `kind` on `bus`; see
/// [`EventBus::register`].
pub fn register<E>(bus: &mut EventBus<E>, kind: EventKind, id: SubscriberId)
    requires
        old(bus).wf(),
    ensures
        final(bus).wf(),
        final(bus).subscribers() == register_spec(old(bus).subscribers(), kind, id),
        final(bus).pending() == old(bus).pending(),
        final(bus).capacity() == old(bus).capacity(),
{
    bus.register(kind, id)
}

/// Removes one registration of subscriber `id` for kind `kind` on `bus`; see
/// [`EventBus::unregister`].
pub fn unregister<E>(bus: &mut EventBus<E>, kind: EventKind, id: SubscriberId)
    requires
        old(bus).wf(),
    ensures
        final(bus).wf(),
        final(bus).subscribers() == unregister_spec(old(bus).subscribers(), kind, id),
        final(bus).pending() == old(bus).pending(),
        final(bus).capacity() == old(bus).capacity(),
{
    bus.unregister(kind, id)
}

} // verus!
