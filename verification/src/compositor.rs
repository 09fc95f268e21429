//! The compositor: where surfaces come from.

use vstd::prelude::*;
use crate::context::Context;
use crate::error::WaylandError;
use crate::ident::WaylandObjectKind;
use crate::registry::Registry;
use crate::surface::{Surface, SurfaceState};
use crate::wire::{ArgValue, Id, MessageValue, OpCode, WireArgument, WireMessage};

verus! {

/// The opcode of the request that creates a surface.
pub const CREATE_SURFACE: OpCode = 0;

/// The version of the compositor interface that the client binds.
pub const VERSION: u32 = 5;

/// The compositor.
#[derive(Debug)]
pub struct Compositor {
    pub id: Id,
}

impl Compositor {
    /// The request that creates a surface under the id `surface`.
    pub open spec fn create_surface_request(compositor: Id, surface: Id) -> MessageValue {
        MessageValue {
            sender_id: compositor,
            opcode: CREATE_SURFACE,
            args: seq![ArgValue::UnInt(surface)],
        }
    }

    /// A compositor under the given id.
    pub fn new(id: Id) -> (compositor: Self)
        ensures
            compositor.id == id,
    {
        Self { id }
    }

    /// Takes a new id and binds the server's compositor to it. The id is
    /// taken even where the server offers no compositor, or the request
    /// cannot be sent.
    pub fn new_bound(registry: &mut Registry, ctx: &mut Context) -> (result: Result<
        Self,
        WaylandError,
    >)
        requires
            old(ctx)@.wf(),
            old(ctx)@.room(),
        ensures
            final(registry)@ == old(registry)@,
            final(ctx)@.wf(),
            ({
                let id = old(ctx)@.next_id();
                let state = old(ctx)@.allocate(WaylandObjectKind::Compositor);
                let name = WaylandObjectKind::Compositor.interface_name();
                &&& final(ctx)@ == old(registry)@.bind(state, name, VERSION, id)
                &&& match old(registry)@.bind_outcome(state, name, VERSION, id) {
                    Ok(_) => result is Ok && result->Ok_0.id == id,
                    Err(e) => result is Err && result->Err_0 == e,
                }
            }),
    {
        let id = ctx.new_id_registered(WaylandObjectKind::Compositor);
        match registry.wl_bind(ctx, id, WaylandObjectKind::Compositor, VERSION) {
            Ok(()) => Ok(Self::new(id)),
            Err(e) => Err(e),
        }
    }

    /// Sends the request that creates a surface under the id `id`.
    pub fn wl_create_surface(&self, ctx: &mut Context, id: Id) -> (result: Result<(), WaylandError>)
        ensures
            result == old(ctx)@.send_outcome(Self::create_surface_request(self.id, id)),
            final(ctx)@ == old(ctx)@.send(Self::create_surface_request(self.id, id)),
    {
        let mut args: Vec<WireArgument> = Vec::new();
        args.push(WireArgument::UnInt(id));
        let request = WireMessage { sender_id: self.id, opcode: CREATE_SURFACE, args };
        assert(request@.args =~= seq![ArgValue::UnInt(id)]);
        ctx.send_request(&request)
    }

    /// Takes a new id and creates a surface under it. The id is taken even
    /// where the request cannot be sent.
    pub fn make_surface(&self, ctx: &mut Context) -> (result: Result<Surface, WaylandError>)
        requires
            old(ctx)@.wf(),
            old(ctx)@.room(),
        ensures
            final(ctx)@.wf(),
            ({
                let id = old(ctx)@.next_id();
                let state = old(ctx)@.allocate(WaylandObjectKind::Surface);
                let request = Self::create_surface_request(self.id, id);
                &&& final(ctx)@ == state.send(request)
                &&& match state.send_outcome(request) {
                    Ok(_) => result is Ok && result->Ok_0@ == (SurfaceState { id, attached: None }),
                    Err(e) => result is Err && result->Err_0 == e,
                }
            }),
    {
        let id = ctx.new_id_registered(WaylandObjectKind::Surface);
        match self.wl_create_surface(ctx, id) {
            Ok(()) => Ok(Surface::new(id)),
            Err(e) => Err(e),
        }
    }
}

} // verus!
