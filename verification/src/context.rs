//! The connection context: the one transport and the one id table that all
//! objects of a connection share, the queue of events, and the barrier.
//!
//! Events leave the queue in the order in which they arrived. Each goes to
//! the object that owns it, by the kind that the id table holds for its
//! sender; an event whose sender the table does not know is set aside in
//! the overflow queue, where the caller finds it. A barrier waits for the
//! event of one callback: what arrived before that event is handed on in
//! its order, what arrived after it stays in the queue.

use vstd::prelude::*;
use crate::error::WaylandError;
use crate::ident::{IdTable, IdentManager, WaylandObjectKind};
use crate::transport::{Datagram, MessageManager, TransportState};
use crate::wire::{Id, MessageValue, WireMessage};

verus! {

/// An event on its way to the object that owns it.
#[derive(Debug, Clone, PartialEq, Eq)]
pub struct Delivery {
    /// The kind of the object that the event belongs to.
    pub owner: WaylandObjectKind,
    pub event: WireMessage,
}

/// What a delivery is, apart from how it is stored.
pub struct DeliveryValue {
    pub owner: WaylandObjectKind,
    pub event: MessageValue,
}

impl View for Delivery {
    type V = DeliveryValue;

    open spec fn view(&self) -> DeliveryValue {
        DeliveryValue { owner: self.owner, event: self.event@ }
    }
}

/// What one step of a barrier hands back.
#[derive(Debug)]
pub struct BarrierStep {
    /// The events that arrived before the barrier's own, each with its
    /// owner, in the order in which they arrived.
    pub deliveries: Vec<Delivery>,
    /// Whether the barrier's own event was found. Until it is, the caller
    /// reads from the socket and takes another step.
    pub done: bool,
}

/// The number of events at the front of `events` that come before the first
/// event of `callback`.
pub open spec fn sync_point(events: Seq<MessageValue>, callback: Id) -> nat
    decreases events.len(),
{
    if events.len() == 0 || events[0].sender_id == callback {
        0
    } else {
        1 + sync_point(events.skip(1), callback)
    }
}

/// Gives an event its owner, if the table knows one.
pub open spec fn delivery_of(owners: IdTable) -> spec_fn(MessageValue) -> Option<DeliveryValue> {
    |m: MessageValue|
        match owners.owner(m.sender_id) {
            Some(owner) => Some(DeliveryValue { owner, event: m }),
            None => None,
        }
}

/// Whether the table knows no owner of an event.
pub open spec fn has_no_owner(owners: IdTable) -> spec_fn(MessageValue) -> bool {
    |m: MessageValue| owners.owner(m.sender_id) is None
}

/// The events that have an owner, each with it, in their order.
pub open spec fn owned_part(events: Seq<MessageValue>, owners: IdTable) -> Seq<DeliveryValue> {
    events.filter_map(delivery_of(owners))
}

/// The events that have no owner, in their order.
pub open spec fn unowned_part(events: Seq<MessageValue>, owners: IdTable) -> Seq<MessageValue> {
    events.filter(has_no_owner(owners))
}

/// The deliveries of a stored list, each by its value.
pub open spec fn delivery_values(deliveries: Seq<Delivery>) -> Seq<DeliveryValue> {
    deliveries.map_values(|d: Delivery| d@)
}

/// The messages of a stored list, each by its value.
pub open spec fn message_values(messages: Seq<WireMessage>) -> Seq<MessageValue> {
    messages.map_values(|m: WireMessage| m@)
}

/// What an operation returns that sent one request and has `value` to hand
/// back if the request went out.
pub open spec fn after_send<T>(sending: Result<(), WaylandError>, value: T) -> Result<
    T,
    WaylandError,
> {
    match sending {
        Ok(_) => Ok(value),
        Err(e) => Err(e),
    }
}

/// What the objects of one connection share.
pub struct Shared {
    /// The state of the transport.
    pub transport: TransportState,
    /// The id table.
    pub ids: IdTable,
    /// The events that were set aside because no owner of them is known.
    pub overflow: Seq<MessageValue>,
}

impl Shared {
    /// What holds of every context: its id table is well formed.
    pub open spec fn wf(self) -> bool {
        self.ids.wf()
    }

    /// Whether another id can be handed out.
    pub open spec fn room(self) -> bool {
        self.ids.has_room()
    }

    /// Whether `n` more ids can be handed out.
    pub open spec fn room_for(self, n: nat) -> bool {
        self.ids.has_room_for(n)
    }

    /// The id that the next allocation hands out.
    pub open spec fn next_id(self) -> Id {
        self.ids.next_id()
    }

    /// The state after the next id was handed out for an object of `kind`.
    pub open spec fn allocate(self, kind: WaylandObjectKind) -> Shared {
        Shared { ids: self.ids.allocate(kind), ..self }
    }

    /// The state after `id` was freed.
    pub open spec fn free(self, id: Id) -> Shared {
        Shared { ids: self.ids.free(id), ..self }
    }

    /// What sending `msg` returns.
    pub open spec fn send_outcome(self, msg: MessageValue) -> Result<(), WaylandError> {
        self.transport.send_outcome(msg)
    }

    /// The state after `msg` was sent.
    pub open spec fn send(self, msg: MessageValue) -> Shared {
        Shared { transport: self.transport.send(msg), ..self }
    }

    /// Where an event goes: to the kind of object that its sender denotes.
    /// An event whose sender denotes no object has nowhere to go.
    pub open spec fn route(self, event: MessageValue) -> Result<WaylandObjectKind, WaylandError> {
        match self.ids.owner(event.sender_id) {
            Some(kind) => Ok(kind),
            None => Err(WaylandError::ObjectNonExistent),
        }
    }

    /// The state after an object was destroyed: first the request that
    /// destroys it is sent, and only then its id is freed. Where the
    /// request cannot be sent, the id stays in use.
    pub open spec fn retire(self, request: MessageValue, id: Id) -> Shared {
        if self.send_outcome(request) is Ok {
            self.send(request).free(id)
        } else {
            self
        }
    }

    /// What destroying an object returns: the failure of the request, or
    /// else what freeing the id returns.
    pub open spec fn retire_outcome(self, request: MessageValue, id: Id) -> Result<(), WaylandError> {
        match self.send_outcome(request) {
            Ok(_) => self.ids.free_outcome(id),
            Err(e) => Err(e),
        }
    }

    /// The state after `bytes` and `fds` were received.
    pub open spec fn receive(self, bytes: Seq<u8>, fds: Seq<i32>) -> Shared {
        Shared { transport: self.transport.receive(self.ids, bytes, fds), ..self }
    }

    /// The events that one step of a barrier on `callback` takes in: those
    /// in the queue before the first event of the callback.
    pub open spec fn before_sync(self, callback: Id) -> Seq<MessageValue> {
        self.transport.events.take(sync_point(self.transport.events, callback) as int)
    }

    /// Whether one step of a barrier on `callback` finds the callback's event.
    pub open spec fn sync_done(self, callback: Id) -> bool {
        sync_point(self.transport.events, callback) < self.transport.events.len()
    }

    /// What one step of a barrier on `callback` hands on to the owners.
    pub open spec fn sync_deliveries(self, callback: Id) -> Seq<DeliveryValue> {
        owned_part(self.before_sync(callback), self.ids)
    }

    /// The state after one step of a barrier on `callback`: the events
    /// before the callback's, and the callback's own, have left the queue;
    /// those without an owner stand at the end of the overflow queue.
    pub open spec fn sync_step(self, callback: Id) -> Shared {
        let k = sync_point(self.transport.events, callback) as int;
        Shared {
            transport: TransportState {
                events: self.transport.events.skip(if self.sync_done(callback) { k + 1 } else { k }),
                ..self.transport
            },
            ids: self.ids,
            overflow: self.overflow + unowned_part(self.before_sync(callback), self.ids),
        }
    }
}

/// The state that the objects of one connection share.
#[derive(Debug)]
pub struct Context {
    wlmm: MessageManager,
    wlim: IdentManager,
    overflow: Vec<WireMessage>,
}

impl View for Context {
    type V = Shared;

    closed spec fn view(&self) -> Shared {
        Shared {
            transport: self.wlmm@,
            ids: self.wlim@,
            overflow: message_values(self.overflow@),
        }
    }
}

impl Context {
    /// Joins a transport and an id table into the state of one connection.
    pub fn new(wlmm: MessageManager, wlim: IdentManager) -> (ctx: Self)
        ensures
            ctx@ == (Shared { transport: wlmm@, ids: wlim@, overflow: Seq::empty() }),
    {
        let ctx = Context { wlmm, wlim, overflow: Vec::new() };
        assert(ctx@.overflow =~= Seq::<MessageValue>::empty());
        ctx
    }

    /// Whether another id can be handed out.
    pub fn has_room(&self) -> (b: bool)
        ensures
            b == self@.room(),
    {
        self.wlim.has_room()
    }

    /// Whether `n` more ids can be handed out.
    pub fn has_room_for(&self, n: u32) -> (b: bool)
        ensures
            b == self@.room_for(n as nat),
    {
        self.wlim.has_room_for(n)
    }

    /// Whether the socket is still good.
    pub fn is_connected(&self) -> (b: bool)
        ensures
            b == self@.transport.connected,
    {
        self.wlmm.is_connected()
    }

    /// Records that the socket has failed. Nothing is sent or received
    /// after that.
    pub fn close(&mut self)
        ensures
            final(self)@ == (Shared {
                transport: TransportState { connected: false, ..old(self)@.transport },
                ..old(self)@
            }),
    {
        self.wlmm.close();
    }

    /// Hands out a new id for an object of `kind`.
    pub fn new_id_registered(&mut self, kind: WaylandObjectKind) -> (id: Id)
        requires
            old(self)@.wf(),
            old(self)@.room(),
        ensures
            id == old(self)@.next_id(),
            final(self)@ == old(self)@.allocate(kind),
            final(self)@.wf(),
    {
        self.wlim.new_id_registered(kind)
    }

    /// Ends the life of `id`. Fails, and changes nothing, if the id is not
    /// in use.
    pub fn free_id(&mut self, id: Id) -> (result: Result<(), WaylandError>)
        requires
            old(self)@.wf(),
        ensures
            result == old(self)@.ids.free_outcome(id),
            final(self)@ == old(self)@.free(id),
            final(self)@.wf(),
    {
        self.wlim.free_id(id)
    }

    /// The kind of object that `id` denotes, if the id is in use.
    pub fn find_obj_by_id(&self, id: Id) -> (found: Option<&WaylandObjectKind>)
        ensures
            match found {
                Some(kind) => self@.ids.lookup(id) == Some(*kind),
                None => self@.ids.lookup(id) is None,
            },
    {
        self.wlim.find_obj_by_id(id)
    }

    /// The kind of object to which events from `id` belong, if any is known.
    pub fn owner_of(&self, id: Id) -> (kind: Option<WaylandObjectKind>)
        ensures
            kind == self@.ids.owner(id),
    {
        self.wlim.owner_of(id)
    }

    /// The kind of the object that an event belongs to. An event whose
    /// sender denotes no object has none.
    pub fn route(&self, event: &WireMessage) -> (result: Result<WaylandObjectKind, WaylandError>)
        ensures
            result == self@.route(event@),
    {
        match self.wlim.owner_of(event.sender_id) {
            Some(kind) => Ok(kind),
            None => Err(WaylandError::ObjectNonExistent),
        }
    }

    /// Sets an event aside in the overflow queue.
    pub fn set_aside(&mut self, event: WireMessage)
        ensures
            final(self)@ == (Shared { overflow: old(self)@.overflow.push(event@), ..old(self)@ }),
    {
        self.overflow.push(event);
        assert(self@.overflow =~= old(self)@.overflow.push(event@));
    }

    /// Encodes a request and queues it for the socket. Refused, with
    /// nothing changed, after the socket has failed or where the request is
    /// too long for a header.
    pub fn send_request(&mut self, msg: &WireMessage) -> (result: Result<(), WaylandError>)
        ensures
            result == old(self)@.send_outcome(msg@),
            final(self)@ == old(self)@.send(msg@),
    {
        self.wlmm.send_request(msg)
    }

    /// Destroys an object in two steps: sends the request that destroys
    /// it, and only then frees its id. Where the request cannot be sent,
    /// the id stays in use.
    pub fn retire(&mut self, request: &WireMessage, id: Id) -> (result: Result<(), WaylandError>)
        requires
            old(self)@.wf(),
        ensures
            result == old(self)@.retire_outcome(request@, id),
            final(self)@ == old(self)@.retire(request@, id),
            final(self)@.wf(),
    {
        match self.send_request(request) {
            Ok(()) => self.free_id(id),
            Err(e) => Err(e),
        }
    }

    /// Takes the oldest datagram that waits to be written.
    pub fn next_outgoing(&mut self) -> (datagram: Option<Datagram>)
        ensures
            match datagram {
                Some(d) => old(self)@.transport.outgoing.len() > 0 && d@
                    == old(self)@.transport.outgoing[0] && final(self)@ == (Shared {
                    transport: TransportState {
                        outgoing: old(self)@.transport.outgoing.skip(1),
                        ..old(self)@.transport
                    },
                    ..old(self)@
                }),
                None => old(self)@.transport.outgoing.len() == 0 && final(self)@ == old(self)@,
            },
    {
        self.wlmm.next_outgoing()
    }

    /// Takes in what one read has brought, and puts the events of all whole
    /// messages at the end of the queue, in the order of the bytes.
    pub fn get_events(&mut self, bytes: &[u8], fds: &[i32]) -> (result: Result<usize, WaylandError>)
        ensures
            result == old(self)@.transport.receive_outcome(old(self)@.ids, bytes@, fds@),
            final(self)@ == old(self)@.receive(bytes@, fds@),
    {
        self.wlmm.get_events(&self.wlim, bytes, fds)
    }

    /// Takes the oldest event out of the queue.
    pub fn drain_one(&mut self) -> (event: Option<WireMessage>)
        ensures
            match event {
                Some(e) => old(self)@.transport.events.len() > 0 && e@
                    == old(self)@.transport.events[0] && final(self)@ == (Shared {
                    transport: TransportState {
                        events: old(self)@.transport.events.skip(1),
                        ..old(self)@.transport
                    },
                    ..old(self)@
                }),
                None => old(self)@.transport.events.len() == 0 && final(self)@ == old(self)@,
            },
    {
        self.wlmm.pop_event()
    }

    /// Takes the events that were set aside, oldest first.
    pub fn take_overflow(&mut self) -> (events: Vec<WireMessage>)
        ensures
            message_values(events@) == old(self)@.overflow,
            final(self)@ == (Shared { overflow: Seq::empty(), ..old(self)@ }),
    {
        let mut events: Vec<WireMessage> = Vec::new();
        std::mem::swap(&mut events, &mut self.overflow);
        assert(self@.overflow =~= Seq::<MessageValue>::empty());
        events
    }

    /// One step of a barrier on `callback`: takes events out of the queue,
    /// oldest first, up to and with the first event of the callback, or all
    /// of them if there is none yet. Those before the callback's event are
    /// handed back with their owners, or set aside in the overflow queue
    /// where no owner is known, in the order in which they arrived. What
    /// arrived after the callback's event stays in the queue.
    pub fn sync_step(&mut self, callback: Id) -> (step: BarrierStep)
        ensures
            step.done == old(self)@.sync_done(callback),
            delivery_values(step.deliveries@) == old(self)@.sync_deliveries(callback),
            final(self)@ == old(self)@.sync_step(callback),
    {
        let ghost events = self@.transport.events;
        let ghost set_aside = self@.overflow;
        let ghost owners = self@.ids;
        let mut deliveries: Vec<Delivery> = Vec::new();
        let mut done = false;
        let mut running = true;
        let ghost mut taken: int = 0;
        proof {
            assert(events.skip(0) =~= events);
            assert(events.take(0) =~= Seq::<MessageValue>::empty());
            assert(delivery_values(deliveries@) =~= owned_part(events.take(0), owners));
            reveal(Seq::filter);
            assert(set_aside + unowned_part(events.take(0), owners) =~= set_aside);
        }
        while running
            invariant
                self.wlim == old(self).wlim,
                owners == old(self)@.ids,
                events == old(self)@.transport.events,
                set_aside == old(self)@.overflow,
                0 <= taken <= events.len(),
                sync_point(events, callback) == taken + sync_point(events.skip(taken), callback),
                running ==> !done,
                !running ==> (if done {
                    taken < events.len() && events[taken].sender_id == callback
                } else {
                    taken == events.len()
                }),
                delivery_values(deliveries@) == owned_part(events.take(taken), owners),
                self@.overflow == set_aside + unowned_part(events.take(taken), owners),
                self@.transport == (TransportState {
                    events: events.skip(if done { taken + 1 } else { taken }),
                    ..old(self)@.transport
                }),
            decreases events.len() - taken, running as int,
        {
            match self.wlmm.pop_event() {
                None => {
                    running = false;
                },
                Some(event) => {
                    assert(event@ == events[taken]);
                    assert(events.skip(taken).skip(1) =~= events.skip(taken + 1));
                    if event.sender_id == callback {
                        done = true;
                        running = false;
                    } else {
                        let ghost before = events.take(taken);
                        let ghost longer = events.take(taken + 1);
                        proof {
                            assert(longer.drop_last() =~= before);
                            assert(longer.last() == event@);
                            reveal(Seq::filter);
                        }
                        match self.wlim.owner_of(event.sender_id) {
                            Some(owner) => {
                                let ghost sofar = delivery_values(deliveries@);
                                let delivery = Delivery { owner, event };
                                deliveries.push(delivery);
                                assert(delivery_values(deliveries@) =~= sofar + seq![delivery@]);
                            },
                            None => {
                                let ghost sofar = self@.overflow;
                                self.overflow.push(event);
                                assert(self@.overflow =~= sofar.push(event@));
                                assert(self@.overflow =~= set_aside + unowned_part(longer, owners));
                            },
                        }
                        proof {
                            taken = taken + 1;
                        }
                    }
                },
            }
        }
        BarrierStep { deliveries, done }
    }
}

/// Before the sync point no event is the callback's; at the sync point, if
/// it lies within the events, stands the first event of the callback.
pub proof fn lemma_sync_point(events: Seq<MessageValue>, callback: Id)
    ensures
        sync_point(events, callback) <= events.len(),
        forall|i: int|
            0 <= i < sync_point(events, callback) ==> (#[trigger] events[i]).sender_id != callback,
        sync_point(events, callback) < events.len() ==> events[sync_point(
            events,
            callback,
        ) as int].sender_id == callback,
    decreases events.len(),
{
    if events.len() == 0 || events[0].sender_id == callback {
    } else {
        let rest = events.skip(1);
        lemma_sync_point(rest, callback);
        assert forall|i: int| 0 <= i < sync_point(events, callback) implies (
        #[trigger] events[i]).sender_id != callback by {
            if i > 0 {
                assert(events[i] == rest[i - 1]);
            }
        }
    }
}

/// Events are handed on in the order of their arrival: where every event
/// has an owner, the deliveries are the events themselves, one for one and
/// in the same order, each with the owner that the table holds, and
/// nothing is set aside.
pub proof fn lemma_deliveries_in_order(events: Seq<MessageValue>, owners: IdTable)
    requires
        forall|i: int| 0 <= i < events.len() ==> owners.owner((#[trigger] events[i]).sender_id)
            is Some,
    ensures
        owned_part(events, owners).len() == events.len(),
        forall|i: int|
            0 <= i < events.len() ==> (#[trigger] owned_part(events, owners)[i]).event
                == events[i] && Some(owned_part(events, owners)[i].owner) == owners.owner(
                events[i].sender_id,
            ),
        unowned_part(events, owners) == Seq::<MessageValue>::empty(),
    decreases events.len(),
{
    reveal(Seq::filter);
    if events.len() > 0 {
        let init = events.drop_last();
        lemma_deliveries_in_order(init, owners);
        assert(unowned_part(events, owners) =~= Seq::<MessageValue>::empty());
    } else {
        assert(unowned_part(events, owners) =~= Seq::<MessageValue>::empty());
    }
}

/// An event is handed on or set aside, never lost: the deliveries and the
/// events set aside are together as many as the events.
pub proof fn lemma_nothing_lost(events: Seq<MessageValue>, owners: IdTable)
    ensures
        owned_part(events, owners).len() + unowned_part(events, owners).len() == events.len(),
    decreases events.len(),
{
    reveal(Seq::filter);
    if events.len() > 0 {
        lemma_nothing_lost(events.drop_last(), owners);
    }
}

/// The barrier: one step on `callback` hands on, in the order of their
/// arrival, the events that stood before the callback's first event, takes
/// none of the callback's, and leaves in the queue, untouched, whatever
/// stood behind it.
pub proof fn lemma_barrier(state: Shared, callback: Id)
    ensures
        ({
            let events = state.transport.events;
            let k = sync_point(events, callback) as int;
            &&& 0 <= k <= events.len()
            &&& state.before_sync(callback) == events.take(k)
            &&& forall|i: int| 0 <= i < k ==> (#[trigger] events[i]).sender_id != callback
            &&& state.sync_done(callback) ==> events[k].sender_id == callback
                && state.sync_step(callback).transport.events == events.skip(k + 1)
            &&& !state.sync_done(callback) ==> state.sync_step(callback).transport.events
                == Seq::<MessageValue>::empty()
            &&& state.sync_deliveries(callback).len() + unowned_part(
                state.before_sync(callback),
                state.ids,
            ).len() == k
        }),
{
    let events = state.transport.events;
    let k = sync_point(events, callback) as int;
    lemma_sync_point(events, callback);
    lemma_nothing_lost(events.take(k), state.ids);
    if !state.sync_done(callback) {
        assert(events.skip(k) =~= Seq::<MessageValue>::empty());
    }
}

/// Where none of the first events is the callback's, the sync point of
/// longer events lies as far behind them as it lies in what follows them.
pub proof fn lemma_sync_point_behind(
    first: Seq<MessageValue>,
    second: Seq<MessageValue>,
    callback: Id,
)
    requires
        sync_point(first, callback) == first.len(),
    ensures
        sync_point(first + second, callback) == first.len() + sync_point(second, callback),
    decreases first.len(),
{
    if first.len() == 0 {
        assert(first + second =~= second);
    } else {
        lemma_sync_point(first.skip(1), callback);
        assert((first + second).skip(1) =~= first.skip(1) + second);
        lemma_sync_point_behind(first.skip(1), second, callback);
    }
}

/// What is handed on and what is set aside of events that arrived one
/// behind the other is what is handed on and set aside of the first, and
/// then of the second.
pub proof fn lemma_parts_of_joined(
    first: Seq<MessageValue>,
    second: Seq<MessageValue>,
    owners: IdTable,
)
    ensures
        owned_part(first + second, owners) == owned_part(first, owners) + owned_part(
            second,
            owners,
        ),
        unowned_part(first + second, owners) == unowned_part(first, owners) + unowned_part(
            second,
            owners,
        ),
    decreases second.len(),
{
    reveal(Seq::filter);
    if second.len() == 0 {
        assert(first + second =~= first);
        assert(owned_part(first, owners) + owned_part(second, owners) =~= owned_part(
            first,
            owners,
        ));
        assert(unowned_part(first, owners) + unowned_part(second, owners) =~= unowned_part(
            first,
            owners,
        ));
    } else {
        let shorter = second.drop_last();
        lemma_parts_of_joined(first, shorter, owners);
        assert((first + second).drop_last() =~= first + shorter);
        assert((first + second).last() == second.last());
        assert(owned_part(first + second, owners) =~= owned_part(first, owners) + owned_part(
            second,
            owners,
        ));
        assert(unowned_part(first + second, owners) =~= unowned_part(first, owners)
            + unowned_part(second, owners));
    }
}

/// A barrier that has to wait loses nothing and changes no order: a step
/// that does not find the callback's event, then a read, then another
/// step, hand on the same events in the same order, set the same events
/// aside and leave the same state as one step after the read.
pub proof fn lemma_barrier_in_pieces(state: Shared, callback: Id, bytes: Seq<u8>, fds: Seq<i32>)
    requires
        !state.sync_done(callback),
    ensures
        ({
            let stepped = state.sync_step(callback).receive(bytes, fds);
            let unstepped = state.receive(bytes, fds);
            &&& state.sync_deliveries(callback) + stepped.sync_deliveries(callback)
                == unstepped.sync_deliveries(callback)
            &&& stepped.sync_done(callback) == unstepped.sync_done(callback)
            &&& stepped.sync_step(callback) == unstepped.sync_step(callback)
        }),
{
    let events = state.transport.events;
    let stepped = state.sync_step(callback).receive(bytes, fds);
    let unstepped = state.receive(bytes, fds);
    let arrived = stepped.transport.events;
    lemma_sync_point(events, callback);
    assert(events.take(events.len() as int) =~= events);
    assert(events.skip(events.len() as int) =~= Seq::<MessageValue>::empty());
    assert(state.sync_step(callback).transport.events =~= Seq::<MessageValue>::empty());
    assert(Seq::<MessageValue>::empty() + arrived =~= arrived);
    assert(unstepped.transport.events =~= events + arrived) by {
        if state.transport.connected {
            let run = state.transport.run(state.ids, bytes, fds);
            assert(arrived =~= Seq::<MessageValue>::empty() + run.events);
        } else {
            assert(events + arrived =~= events);
        }
    }
    lemma_sync_point_behind(events, arrived, callback);
    lemma_sync_point(arrived, callback);
    let k = sync_point(arrived, callback) as int;
    let joined = events + arrived;
    assert(joined.take(events.len() + k) =~= events + arrived.take(k));
    assert(joined.skip(events.len() + k) =~= arrived.skip(k));
    if k < arrived.len() {
        assert(joined.skip(events.len() + k + 1) =~= arrived.skip(k + 1));
    }
    lemma_parts_of_joined(events, arrived.take(k), state.ids);
    assert((state.overflow + unowned_part(events, state.ids)) + unowned_part(
        arrived.take(k),
        state.ids,
    ) =~= state.overflow + (unowned_part(events, state.ids) + unowned_part(
        arrived.take(k),
        state.ids,
    )));
}

} // verus!
