//! Surfaces: what the server composes on screen.

use vstd::prelude::*;
use crate::context::Context;
use crate::error::WaylandError;
use crate::wire::{ArgValue, Id, MessageValue, OpCode, WireArgument, WireMessage};

verus! {

/// The opcode of the request that destroys a surface.
pub const DESTROY: OpCode = 0;

/// The opcode of the request that attaches a buffer to a surface.
pub const ATTACH: OpCode = 1;

/// The opcode of the request that makes the pending state of a surface
/// the current one.
pub const COMMIT: OpCode = 6;

/// A surface.
#[derive(Debug)]
pub struct Surface {
    pub id: Id,
    attached_buf: Option<u32>,
}

/// What a surface holds.
pub struct SurfaceState {
    /// The id of the surface.
    pub id: Id,
    /// The buffer that was attached last, if any was.
    pub attached: Option<u32>,
}

impl View for Surface {
    type V = SurfaceState;

    closed spec fn view(&self) -> SurfaceState {
        SurfaceState { id: self.id, attached: self.attached_buf }
    }
}

impl Surface {
    /// The request that destroys the surface.
    pub open spec fn destroy_request(surface: Id) -> MessageValue {
        MessageValue { sender_id: surface, opcode: DESTROY, args: seq![] }
    }

    /// The request that attaches a buffer to the surface, at its origin.
    pub open spec fn attach_request(surface: Id, buffer: Id) -> MessageValue {
        MessageValue {
            sender_id: surface,
            opcode: ATTACH,
            args: seq![ArgValue::Obj(buffer), ArgValue::UnInt(0), ArgValue::UnInt(0)],
        }
    }

    /// The request that makes the pending state of the surface current.
    pub open spec fn commit_request(surface: Id) -> MessageValue {
        MessageValue { sender_id: surface, opcode: COMMIT, args: seq![] }
    }

    /// A surface under the given id, with no buffer attached.
    pub fn new(id: Id) -> (surface: Self)
        ensures
            surface@ == (SurfaceState { id, attached: None }),
    {
        Surface { id, attached_buf: None }
    }

    /// The buffer that was attached last, if any was.
    pub fn attached_buffer(&self) -> (buffer: Option<u32>)
        ensures
            buffer == self@.attached,
    {
        self.attached_buf
    }

    /// Sends the request that destroys the surface.
    pub fn wl_destroy(&self, ctx: &mut Context) -> (result: Result<(), WaylandError>)
        ensures
            result == old(ctx)@.send_outcome(Self::destroy_request(self@.id)),
            final(ctx)@ == old(ctx)@.send(Self::destroy_request(self@.id)),
    {
        let request = WireMessage { sender_id: self.id, opcode: DESTROY, args: Vec::new() };
        assert(request@.args =~= seq![]);
        ctx.send_request(&request)
    }

    /// Destroys the surface: sends the request that destroys it, and only
    /// then frees its id.
    pub fn destroy(&self, ctx: &mut Context) -> (result: Result<(), WaylandError>)
        requires
            old(ctx)@.wf(),
        ensures
            result == old(ctx)@.retire_outcome(Self::destroy_request(self@.id), self@.id),
            final(ctx)@ == old(ctx)@.retire(Self::destroy_request(self@.id), self@.id),
            final(ctx)@.wf(),
    {
        let request = WireMessage { sender_id: self.id, opcode: DESTROY, args: Vec::new() };
        assert(request@.args =~= seq![]);
        ctx.retire(&request, self.id)
    }

    /// Sends the request that attaches a buffer to the surface.
    pub fn wl_attach(&self, ctx: &mut Context, buf_id: Id) -> (result: Result<(), WaylandError>)
        ensures
            result == old(ctx)@.send_outcome(Self::attach_request(self@.id, buf_id)),
            final(ctx)@ == old(ctx)@.send(Self::attach_request(self@.id, buf_id)),
    {
        let mut args: Vec<WireArgument> = Vec::new();
        args.push(WireArgument::Obj(buf_id));
        args.push(WireArgument::UnInt(0));
        args.push(WireArgument::UnInt(0));
        let request = WireMessage { sender_id: self.id, opcode: ATTACH, args };
        assert(request@.args =~= seq![ArgValue::Obj(buf_id), ArgValue::UnInt(0), ArgValue::UnInt(0)]);
        ctx.send_request(&request)
    }

    /// Attaches a buffer to the surface. The surface remembers the buffer
    /// even where the request cannot be sent.
    pub fn attach_buffer(&mut self, ctx: &mut Context, to_att: u32) -> (result: Result<
        (),
        WaylandError,
    >)
        ensures
            final(self)@ == (SurfaceState { id: old(self)@.id, attached: Some(to_att) }),
            result == old(ctx)@.send_outcome(Self::attach_request(old(self)@.id, to_att)),
            final(ctx)@ == old(ctx)@.send(Self::attach_request(old(self)@.id, to_att)),
    {
        self.attached_buf = Some(to_att);
        self.wl_attach(ctx, to_att)
    }

    /// Sends the request that makes the pending state current.
    pub fn wl_commit(&self, ctx: &mut Context) -> (result: Result<(), WaylandError>)
        ensures
            result == old(ctx)@.send_outcome(Self::commit_request(self@.id)),
            final(ctx)@ == old(ctx)@.send(Self::commit_request(self@.id)),
    {
        let request = WireMessage { sender_id: self.id, opcode: COMMIT, args: Vec::new() };
        assert(request@.args =~= seq![]);
        ctx.send_request(&request)
    }

    /// Makes the pending state of the surface the current one.
    pub fn commit(&self, ctx: &mut Context) -> (result: Result<(), WaylandError>)
        ensures
            result == old(ctx)@.send_outcome(Self::commit_request(self@.id)),
            final(ctx)@ == old(ctx)@.send(Self::commit_request(self@.id)),
    {
        self.wl_commit(ctx)
    }
}

} // verus!
