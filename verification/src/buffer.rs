//! Buffers: the pixels of a surface, as a part of a shared memory pool.

use vstd::prelude::*;
use crate::context::Context;
use crate::error::WaylandError;
use crate::shm::PixelFormat;
use crate::wire::{Id, MessageValue, OpCode, WireMessage};

verus! {

/// The opcode of the request that destroys a buffer.
pub const DESTROY: OpCode = 0;

/// A buffer: where in its pool the pixels lie, and how they are laid out.
#[derive(Debug)]
pub struct Buffer {
    pub id: Id,
    pub offset: i32,
    pub width: i32,
    pub height: i32,
    pub stride: i32,
    pub format: PixelFormat,
}

impl Buffer {
    /// The request that destroys the buffer.
    pub open spec fn destroy_request(buffer: Id) -> MessageValue {
        MessageValue { sender_id: buffer, opcode: DESTROY, args: seq![] }
    }

    /// Sends the request that destroys the buffer.
    pub fn wl_destroy(&self, ctx: &mut Context) -> (result: Result<(), WaylandError>)
        ensures
            result == old(ctx)@.send_outcome(Self::destroy_request(self.id)),
            final(ctx)@ == old(ctx)@.send(Self::destroy_request(self.id)),
    {
        let request = WireMessage { sender_id: self.id, opcode: DESTROY, args: Vec::new() };
        assert(request@.args =~= seq![]);
        ctx.send_request(&request)
    }

    /// Destroys the buffer: sends the request that destroys it, and only
    /// then frees its id.
    pub fn destroy(&self, ctx: &mut Context) -> (result: Result<(), WaylandError>)
        requires
            old(ctx)@.wf(),
        ensures
            result == old(ctx)@.retire_outcome(Self::destroy_request(self.id), self.id),
            final(ctx)@ == old(ctx)@.retire(Self::destroy_request(self.id), self.id),
            final(ctx)@.wf(),
    {
        let request = WireMessage { sender_id: self.id, opcode: DESTROY, args: Vec::new() };
        assert(request@.args =~= seq![]);
        ctx.retire(&request, self.id)
    }
}

} // verus!
