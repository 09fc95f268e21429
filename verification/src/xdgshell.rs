//! The window manager base, and what it makes of surfaces: windows.

use vstd::prelude::*;
use crate::context::Context;
use crate::display::Display;
use crate::error::WaylandError;
use crate::ident::WaylandObjectKind;
use crate::registry::Registry;
use crate::wire::{ArgValue, Id, MessageValue, OpCode, WireArgument, WireMessage};

verus! {

/// The opcode of the request that destroys the window manager base.
pub const DESTROY: OpCode = 0;

/// The opcode of the request that gives a surface a role.
pub const GET_XDG_SURFACE: OpCode = 2;

/// The opcode of the request that answers a ping.
pub const PONG: OpCode = 3;

/// The opcode of the request that makes a surface a window.
pub const GET_TOPLEVEL: OpCode = 1;

/// The version of the window manager base that the client binds.
pub const VERSION: u32 = 1;

/// The window manager base.
#[derive(Debug)]
pub struct XdgWmBase {
    pub id: Id,
}

/// A surface with a role.
#[derive(Debug)]
pub struct XdgSurface {
    pub id: Id,
}

/// A window.
#[derive(Debug)]
pub struct XdgTopLevel {
    pub id: Id,
}

impl XdgWmBase {
    /// The request that destroys the window manager base.
    pub open spec fn destroy_request(base: Id) -> MessageValue {
        MessageValue { sender_id: base, opcode: DESTROY, args: seq![] }
    }

    /// The request that answers the ping with the given serial.
    pub open spec fn pong_request(base: Id, serial: u32) -> MessageValue {
        MessageValue { sender_id: base, opcode: PONG, args: seq![ArgValue::UnInt(serial)] }
    }

    /// The request that gives the surface `wl_surface` a role, under the
    /// new id `xdg_surface`.
    pub open spec fn get_xdg_surface_request(base: Id, xdg_surface: Id, wl_surface: Id) -> MessageValue {
        MessageValue {
            sender_id: base,
            opcode: GET_XDG_SURFACE,
            args: seq![ArgValue::NewId(xdg_surface), ArgValue::Obj(wl_surface)],
        }
    }

    /// Takes a new id, binds the server's window manager base to it, and
    /// asks for a barrier behind the binding. Returns the object and the
    /// id of the barrier's callback.
    pub fn new_bound(display: &mut Display, registry: &mut Registry, ctx: &mut Context) -> (result:
        Result<(Self, Id), WaylandError>)
        requires
            old(ctx)@.wf(),
            old(ctx)@.room_for(2),
        ensures
            final(registry)@ == old(registry)@,
            final(display).id == old(display).id,
            final(ctx)@.wf(),
            final(ctx)@ == old(registry)@.bind_and_sync(
                old(ctx)@,
                old(display).id,
                WaylandObjectKind::XdgWmBase,
                VERSION,
            ),
            match old(registry)@.bind_and_sync_outcome(
                old(ctx)@,
                old(display).id,
                WaylandObjectKind::XdgWmBase,
                VERSION,
            ) {
                Ok(ids) => result is Ok && result->Ok_0.1 == ids.1 && result->Ok_0.0.id == ids.0,
                Err(e) => result is Err && result->Err_0 == e,
            },
    {
        match registry.bind_and_sync(display, ctx, WaylandObjectKind::XdgWmBase, VERSION) {
            Ok((id, cbid)) => Ok((Self { id }, cbid)),
            Err(e) => Err(e),
        }
    }

    /// Sends the request that destroys the window manager base.
    pub fn wl_destroy(&self, ctx: &mut Context) -> (result: Result<(), WaylandError>)
        ensures
            result == old(ctx)@.send_outcome(Self::destroy_request(self.id)),
            final(ctx)@ == old(ctx)@.send(Self::destroy_request(self.id)),
    {
        let request = WireMessage { sender_id: self.id, opcode: DESTROY, args: Vec::new() };
        assert(request@.args =~= seq![]);
        ctx.send_request(&request)
    }

    /// Answers the ping with the given serial.
    pub fn wl_pong(&self, ctx: &mut Context, serial: u32) -> (result: Result<(), WaylandError>)
        ensures
            result == old(ctx)@.send_outcome(Self::pong_request(self.id, serial)),
            final(ctx)@ == old(ctx)@.send(Self::pong_request(self.id, serial)),
    {
        let mut args: Vec<WireArgument> = Vec::new();
        args.push(WireArgument::UnInt(serial));
        let request = WireMessage { sender_id: self.id, opcode: PONG, args };
        assert(request@.args =~= seq![ArgValue::UnInt(serial)]);
        ctx.send_request(&request)
    }

    /// Destroys the window manager base: sends the request that destroys
    /// it, and only then frees its id.
    pub fn destroy(&self, ctx: &mut Context) -> (result: Result<(), WaylandError>)
        requires
            old(ctx)@.wf(),
        ensures
            result == old(ctx)@.retire_outcome(Self::destroy_request(self.id), self.id),
            final(ctx)@ == old(ctx)@.retire(Self::destroy_request(self.id), self.id),
            final(ctx)@.wf(),
    {
        let request = WireMessage { sender_id: self.id, opcode: DESTROY, args: Vec::new() };
        assert(request@.args =~= seq![]);
        ctx.retire(&request, self.id)
    }

    /// Sends the request that gives a surface a role, and returns the id
    /// of the surface with the role.
    pub fn wl_get_xdg_surface(&self, ctx: &mut Context, wl_surface_id: Id, xdg_surface_id: Id) -> (result:
        Result<u32, WaylandError>)
        ensures
            ({
                let request = Self::get_xdg_surface_request(self.id, xdg_surface_id, wl_surface_id);
                &&& final(ctx)@ == old(ctx)@.send(request)
                &&& result == crate::context::after_send(
                    old(ctx)@.send_outcome(request),
                    xdg_surface_id,
                )
            }),
    {
        let mut args: Vec<WireArgument> = Vec::new();
        args.push(WireArgument::NewId(xdg_surface_id));
        args.push(WireArgument::Obj(wl_surface_id));
        let request = WireMessage { sender_id: self.id, opcode: GET_XDG_SURFACE, args };
        assert(request@.args =~= seq![
            ArgValue::NewId(xdg_surface_id),
            ArgValue::Obj(wl_surface_id),
        ]);
        match ctx.send_request(&request) {
            Ok(()) => Ok(xdg_surface_id),
            Err(e) => Err(e),
        }
    }

    /// Takes a new id and gives the surface `wl_surface_id` a role under
    /// it. The id is taken even where the request cannot be sent.
    pub fn make_xdg_surface(&self, ctx: &mut Context, wl_surface_id: Id) -> (result: Result<
        XdgSurface,
        WaylandError,
    >)
        requires
            old(ctx)@.wf(),
            old(ctx)@.room(),
        ensures
            final(ctx)@.wf(),
            ({
                let id = old(ctx)@.next_id();
                let state = old(ctx)@.allocate(WaylandObjectKind::XdgSurface);
                let request = Self::get_xdg_surface_request(self.id, id, wl_surface_id);
                &&& final(ctx)@ == state.send(request)
                &&& match state.send_outcome(request) {
                    Ok(_) => result is Ok && result->Ok_0.id == id,
                    Err(e) => result is Err && result->Err_0 == e,
                }
            }),
    {
        let xdg_surface_id = ctx.new_id_registered(WaylandObjectKind::XdgSurface);
        match self.wl_get_xdg_surface(ctx, wl_surface_id, xdg_surface_id) {
            Ok(id) => Ok(XdgSurface { id }),
            Err(e) => Err(e),
        }
    }
}

impl XdgSurface {
    /// The request that makes the surface a window, under the new id
    /// `toplevel`.
    pub open spec fn get_toplevel_request(surface: Id, toplevel: Id) -> MessageValue {
        MessageValue { sender_id: surface, opcode: GET_TOPLEVEL, args: seq![ArgValue::NewId(toplevel)] }
    }

    /// Sends the request that makes the surface a window.
    pub fn wl_get_toplevel(&self, ctx: &mut Context, xdg_toplevel_id: Id) -> (result: Result<
        (),
        WaylandError,
    >)
        ensures
            result == old(ctx)@.send_outcome(Self::get_toplevel_request(self.id, xdg_toplevel_id)),
            final(ctx)@ == old(ctx)@.send(Self::get_toplevel_request(self.id, xdg_toplevel_id)),
    {
        let mut args: Vec<WireArgument> = Vec::new();
        args.push(WireArgument::NewId(xdg_toplevel_id));
        let request = WireMessage { sender_id: self.id, opcode: GET_TOPLEVEL, args };
        assert(request@.args =~= seq![ArgValue::NewId(xdg_toplevel_id)]);
        ctx.send_request(&request)
    }

    /// Takes a new id and makes the surface a window under it. The id is
    /// taken even where the request cannot be sent.
    pub fn make_xdg_toplevel(&self, ctx: &mut Context) -> (result: Result<XdgTopLevel, WaylandError>)
        requires
            old(ctx)@.wf(),
            old(ctx)@.room(),
        ensures
            final(ctx)@.wf(),
            ({
                let id = old(ctx)@.next_id();
                let state = old(ctx)@.allocate(WaylandObjectKind::XdgTopLevel);
                let request = Self::get_toplevel_request(self.id, id);
                &&& final(ctx)@ == state.send(request)
                &&& match state.send_outcome(request) {
                    Ok(_) => result is Ok && result->Ok_0.id == id,
                    Err(e) => result is Err && result->Err_0 == e,
                }
            }),
    {
        let id = ctx.new_id_registered(WaylandObjectKind::XdgTopLevel);
        match self.wl_get_toplevel(ctx, id) {
            Ok(()) => Ok(XdgTopLevel { id }),
            Err(e) => Err(e),
        }
    }
}

} // verus!
