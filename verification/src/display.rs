//! The connection's root object.

use vstd::prelude::*;
use crate::context::{after_send, Context, Shared};
use crate::error::WaylandError;
use crate::ident::{WaylandObjectKind, ROOT_ID};
use crate::wire::{ArgValue, Id, MessageValue, OpCode, WireArgument, WireMessage};

verus! {

/// The opcode of the request for a barrier.
pub const SYNC: OpCode = 0;

/// The opcode of the request for the registry.
pub const GET_REGISTRY: OpCode = 1;

/// The opcode of the event by which the server lets go of an id.
pub const DELETE_ID: OpCode = 1;

/// The root object of a connection. It exists from the start, under the
/// reserved id, and is never freed.
#[derive(Debug)]
pub struct Display {
    pub id: Id,
}

impl Display {
    /// The request that asks the server for its registry under a new id.
    pub open spec fn get_registry_request(display: Id, registry: Id) -> MessageValue {
        MessageValue { sender_id: display, opcode: GET_REGISTRY, args: seq![ArgValue::NewId(registry)] }
    }

    /// The request that asks the server to answer on a new callback once it
    /// has handled all that was sent before.
    pub open spec fn sync_request(display: Id, callback: Id) -> MessageValue {
        MessageValue { sender_id: display, opcode: SYNC, args: seq![ArgValue::NewId(callback)] }
    }

    /// The id that a deletion event names, if the event has the shape of one.
    pub open spec fn deleted_id(event: MessageValue) -> Option<Id> {
        if event.args.len() >= 1 {
            match event.args[0] {
                ArgValue::UnInt(id) => Some(id),
                _ => None,
            }
        } else {
            None
        }
    }

    /// Whether an event tells this display that an id was let go of.
    pub open spec fn is_deletion(display: Id, event: MessageValue) -> bool {
        event.sender_id == display && event.opcode == DELETE_ID
    }

    /// What handling `event` returns: a deletion without the id it should
    /// name is a parse error; all else is fine.
    pub open spec fn handle_outcome(display: Id, event: MessageValue) -> Result<(), WaylandError> {
        if Self::is_deletion(display, event) && Self::deleted_id(event) is None {
            Err(WaylandError::ParseError)
        } else {
            Ok(())
        }
    }

    /// The shared state after `event` was handled: a deletion frees the id
    /// it names, if that id is in use; any other event changes nothing.
    pub open spec fn handled(display: Id, state: Shared, event: MessageValue) -> Shared {
        if Self::is_deletion(display, event) {
            match Self::deleted_id(event) {
                Some(id) => state.free(id),
                None => state,
            }
        } else {
            state
        }
    }

    /// The root object.
    pub fn new() -> (display: Self)
        ensures
            display.id == ROOT_ID,
    {
        Display { id: ROOT_ID }
    }

    /// Asks the server for its registry, and returns the id that the
    /// registry has from now on. The id is taken even where the request
    /// cannot be sent.
    pub fn wl_get_registry(&mut self, ctx: &mut Context) -> (result: Result<u32, WaylandError>)
        requires
            old(ctx)@.wf(),
            old(ctx)@.room(),
        ensures
            final(self).id == old(self).id,
            final(ctx)@.wf(),
            ({
                let id = old(ctx)@.next_id();
                let state = old(ctx)@.allocate(WaylandObjectKind::Registry);
                let request = Self::get_registry_request(old(self).id, id);
                &&& final(ctx)@ == state.send(request)
                &&& result == after_send(state.send_outcome(request), id)
            }),
    {
        let id = ctx.new_id_registered(WaylandObjectKind::Registry);
        let mut args: Vec<WireArgument> = Vec::new();
        args.push(WireArgument::NewId(id));
        let request = WireMessage { sender_id: self.id, opcode: GET_REGISTRY, args };
        assert(request@.args =~= seq![ArgValue::NewId(id)]);
        match ctx.send_request(&request) {
            Ok(()) => Ok(id),
            Err(e) => Err(e),
        }
    }

    /// Asks the server to answer on a new callback once it has handled all
    /// that was sent before, and returns the id of the callback. The id is
    /// taken even where the request cannot be sent.
    pub fn wl_sync(&mut self, ctx: &mut Context) -> (result: Result<u32, WaylandError>)
        requires
            old(ctx)@.wf(),
            old(ctx)@.room(),
        ensures
            final(self).id == old(self).id,
            final(ctx)@.wf(),
            ({
                let id = old(ctx)@.next_id();
                let state = old(ctx)@.allocate(WaylandObjectKind::Callback);
                let request = Self::sync_request(old(self).id, id);
                &&& final(ctx)@ == state.send(request)
                &&& result == after_send(state.send_outcome(request), id)
            }),
    {
        let cb_id = ctx.new_id_registered(WaylandObjectKind::Callback);
        let mut args: Vec<WireArgument> = Vec::new();
        args.push(WireArgument::NewId(cb_id));
        let request = WireMessage { sender_id: self.id, opcode: SYNC, args };
        assert(request@.args =~= seq![ArgValue::NewId(cb_id)]);
        match ctx.send_request(&request) {
            Ok(()) => Ok(cb_id),
            Err(e) => Err(e),
        }
    }

    /// Handles an event of the display. When the server reports that it
    /// has let go of an id, the id is freed, if it is still in use. Events
    /// of other objects and other events of the display change nothing.
    pub fn handle(&mut self, ctx: &mut Context, event: &WireMessage) -> (result: Result<
        (),
        WaylandError,
    >)
        requires
            old(ctx)@.wf(),
        ensures
            final(self).id == old(self).id,
            final(ctx)@.wf(),
            result == Self::handle_outcome(old(self).id, event@),
            final(ctx)@ == Self::handled(old(self).id, old(ctx)@, event@),
    {
        if event.sender_id != self.id || event.opcode != DELETE_ID {
            return Ok(());
        }
        if event.args.len() < 1 {
            return Err(WaylandError::ParseError);
        }
        match &event.args[0] {
            WireArgument::UnInt(id) => {
                let _ = ctx.free_id(*id);
                Ok(())
            },
            _ => Err(WaylandError::ParseError),
        }
    }
}

} // verus!
