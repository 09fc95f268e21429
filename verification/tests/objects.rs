use wl_client::buffer::Buffer;
use wl_client::compositor::Compositor;
use wl_client::context::Context;
use wl_client::display::Display;
use wl_client::endian::ByteOrder;
use wl_client::error::WaylandError;
use wl_client::ident::{IdentManager, WaylandObjectKind};
use wl_client::registry::Registry;
use wl_client::shm::{PixelFormat, SharedMemory, SharedMemoryPool};
use wl_client::surface::Surface;
use wl_client::text::same_text;
use wl_client::transport::MessageManager;
use wl_client::wire::{WireArgument, WireArgumentKind, WireMessage};
use wl_client::xdgshell::XdgWmBase;

fn fresh() -> Context {
    Context::new(MessageManager::new(ByteOrder::Little), IdentManager::new())
}

fn announced() -> Registry {
    let mut registry = Registry::new_empty(2);
    let mut events = Vec::new();
    for (name, interface, version) in
        [(1u32, "wl_compositor", 6u32), (2, "wl_shm", 2), (3, "xdg_wm_base", 4)]
    {
        events.push(WireMessage {
            sender_id: 2,
            opcode: 0,
            args: vec![
                WireArgument::UnInt(name),
                WireArgument::String(String::from(interface)),
                WireArgument::UnInt(version),
            ],
        });
    }
    registry.fill(&events).unwrap();
    registry
}

fn sent(ctx: &mut Context, schema: &[WireArgumentKind]) -> WireMessage {
    let datagram = ctx.next_outgoing().unwrap();
    WireMessage::decode(&datagram.bytes, schema, ByteOrder::Little).unwrap()
}

#[test]
fn display_is_the_root() {
    let display = Display::new();
    assert_eq!(display.id, 1);
}

#[test]
fn display_frees_the_id_that_the_server_lets_go_of() {
    let mut ctx = fresh();
    let mut display = Display::new();
    let id = ctx.new_id_registered(WaylandObjectKind::Callback);
    let deleted = WireMessage { sender_id: 1, opcode: 1, args: vec![WireArgument::UnInt(id)] };
    assert_eq!(display.handle(&mut ctx, &deleted), Ok(()));
    assert_eq!(ctx.find_obj_by_id(id), None);
    // a second report of the same id changes nothing and is no failure
    assert_eq!(display.handle(&mut ctx, &deleted), Ok(()));
    assert_eq!(ctx.free_id(id), Err(WaylandError::IdMapRemovalFail));
}

#[test]
fn display_passes_over_other_events() {
    let mut ctx = fresh();
    let mut display = Display::new();
    let id = ctx.new_id_registered(WaylandObjectKind::Callback);
    let error = WireMessage { sender_id: 1, opcode: 0, args: vec![WireArgument::UnInt(id)] };
    assert_eq!(display.handle(&mut ctx, &error), Ok(()));
    let not_mine = WireMessage { sender_id: 9, opcode: 1, args: vec![WireArgument::UnInt(id)] };
    assert_eq!(display.handle(&mut ctx, &not_mine), Ok(()));
    assert_eq!(ctx.find_obj_by_id(id), Some(&WaylandObjectKind::Callback));
    let malformed = WireMessage { sender_id: 1, opcode: 1, args: vec![] };
    assert_eq!(display.handle(&mut ctx, &malformed), Err(WaylandError::ParseError));
    let wrong = WireMessage { sender_id: 1, opcode: 1, args: vec![WireArgument::Int(2)] };
    assert_eq!(display.handle(&mut ctx, &wrong), Err(WaylandError::ParseError));
    assert_eq!(ctx.find_obj_by_id(id), Some(&WaylandObjectKind::Callback));
}

#[test]
fn compositor_binds_and_makes_a_surface() {
    let mut ctx = fresh();
    let mut registry = announced();
    let compositor = Compositor::new_bound(&mut registry, &mut ctx).unwrap();
    assert_eq!(compositor.id, 2);
    assert_eq!(ctx.find_obj_by_id(2), Some(&WaylandObjectKind::Compositor));
    let bind = sent(&mut ctx, &[WireArgumentKind::UnInt, WireArgumentKind::NewIdSpecific]);
    assert_eq!(
        bind,
        WireMessage {
            sender_id: 2,
            opcode: 0,
            args: vec![
                WireArgument::UnInt(1),
                WireArgument::NewIdSpecific(String::from("wl_compositor"), 5, 2),
            ],
        }
    );
    let surface = compositor.make_surface(&mut ctx).unwrap();
    assert_eq!(surface.id, 3);
    assert_eq!(surface.attached_buffer(), None);
    assert_eq!(ctx.find_obj_by_id(3), Some(&WaylandObjectKind::Surface));
    assert_eq!(
        sent(&mut ctx, &[WireArgumentKind::UnInt]),
        WireMessage { sender_id: 2, opcode: 0, args: vec![WireArgument::UnInt(3)] }
    );
    assert!(ctx.next_outgoing().is_none());
}

#[test]
fn compositor_without_a_global_takes_the_id_and_sends_nothing() {
    let mut ctx = fresh();
    let mut registry = Registry::new_empty(2);
    assert!(matches!(
        Compositor::new_bound(&mut registry, &mut ctx),
        Err(WaylandError::NotInRegistry)
    ));
    assert!(ctx.next_outgoing().is_none());
    assert_eq!(ctx.find_obj_by_id(2), Some(&WaylandObjectKind::Compositor));
    assert_eq!(Compositor::new(7).id, 7);
}

#[test]
fn surface_attaches_commits_and_is_destroyed() {
    let mut ctx = fresh();
    let id = ctx.new_id_registered(WaylandObjectKind::Surface);
    let mut surface = Surface::new(id);
    assert_eq!(surface.attach_buffer(&mut ctx, 44), Ok(()));
    assert_eq!(surface.attached_buffer(), Some(44));
    assert_eq!(
        sent(&mut ctx, &[WireArgumentKind::Obj, WireArgumentKind::UnInt, WireArgumentKind::UnInt]),
        WireMessage {
            sender_id: id,
            opcode: 1,
            args: vec![WireArgument::Obj(44), WireArgument::UnInt(0), WireArgument::UnInt(0)],
        }
    );
    assert_eq!(surface.commit(&mut ctx), Ok(()));
    assert_eq!(sent(&mut ctx, &[]), WireMessage { sender_id: id, opcode: 6, args: vec![] });
    assert_eq!(surface.destroy(&mut ctx), Ok(()));
    assert_eq!(sent(&mut ctx, &[]), WireMessage { sender_id: id, opcode: 0, args: vec![] });
    assert_eq!(ctx.find_obj_by_id(id), None);
    // the request goes out again, the id cannot be freed again
    assert_eq!(surface.destroy(&mut ctx), Err(WaylandError::IdMapRemovalFail));
    assert!(ctx.next_outgoing().is_some());
}

#[test]
fn destroy_keeps_the_id_where_the_request_cannot_be_sent() {
    let mut ctx = fresh();
    let id = ctx.new_id_registered(WaylandObjectKind::Surface);
    let surface = Surface::new(id);
    ctx.close();
    assert_eq!(surface.destroy(&mut ctx), Err(WaylandError::Disconnected));
    assert_eq!(ctx.find_obj_by_id(id), Some(&WaylandObjectKind::Surface));
    assert_eq!(surface.wl_destroy(&mut ctx), Err(WaylandError::Disconnected));
    assert_eq!(surface.wl_commit(&mut ctx), Err(WaylandError::Disconnected));
    assert_eq!(surface.wl_attach(&mut ctx, 3), Err(WaylandError::Disconnected));
    assert!(ctx.next_outgoing().is_none());
}

#[test]
fn pixel_formats_have_their_numbers() {
    assert_eq!(PixelFormat::from_u32(0), Ok(PixelFormat::Argb888));
    assert_eq!(PixelFormat::from_u32(1), Ok(PixelFormat::Xrgb888));
    assert_eq!(PixelFormat::from_u32(2), Err(WaylandError::InvalidPixelFormat));
    assert_eq!(PixelFormat::from_u32(0x3432_5241), Err(WaylandError::InvalidPixelFormat));
    assert_eq!(PixelFormat::Argb888.to_u32(), 0);
    assert_eq!(PixelFormat::Xrgb888.to_u32(), 1);
}

#[test]
fn shared_memory_binds_syncs_and_learns_its_formats() {
    let mut ctx = fresh();
    let mut display = Display::new();
    let mut registry = announced();
    let (mut shm, callback) =
        SharedMemory::new_bound(&mut display, &mut registry, &mut ctx).unwrap();
    assert_eq!(shm.id(), 2);
    assert_eq!(callback, 3);
    assert_eq!(
        sent(&mut ctx, &[WireArgumentKind::UnInt, WireArgumentKind::NewIdSpecific]),
        WireMessage {
            sender_id: 2,
            opcode: 0,
            args: vec![
                WireArgument::UnInt(2),
                WireArgument::NewIdSpecific(String::from("wl_shm"), 1, 2),
            ],
        }
    );
    assert_eq!(
        sent(&mut ctx, &[WireArgumentKind::NewId]),
        WireMessage { sender_id: 1, opcode: 0, args: vec![WireArgument::NewId(3)] }
    );
    assert!(!shm.supports(PixelFormat::Argb888));
    assert!(!shm.supports(PixelFormat::Xrgb888));
    let mut stream = Vec::new();
    for code in [1u32, 0x3432_5241, 1] {
        let format = WireMessage { sender_id: 2, opcode: 0, args: vec![WireArgument::UnInt(code)] };
        stream.extend(format.encode(ByteOrder::Little).unwrap());
    }
    let answer = WireMessage { sender_id: callback, opcode: 0, args: vec![WireArgument::UnInt(0)] };
    stream.extend(answer.encode(ByteOrder::Little).unwrap());
    assert_eq!(ctx.get_events(&stream, &[]), Ok(4));
    let step = ctx.sync_step(callback);
    assert!(step.done);
    assert_eq!(step.deliveries.len(), 3);
    for delivery in step.deliveries.iter() {
        assert_eq!(delivery.owner, WaylandObjectKind::SharedMemory);
        shm.handle(&delivery.event);
    }
    assert!(shm.supports(PixelFormat::Xrgb888));
    assert!(!shm.supports(PixelFormat::Argb888));
    // events of other objects teach it nothing
    shm.handle(&WireMessage { sender_id: 9, opcode: 0, args: vec![WireArgument::UnInt(0)] });
    assert!(!shm.supports(PixelFormat::Argb888));
    shm.handle(&WireMessage {
        sender_id: 2,
        opcode: 0,
        args: vec![WireArgument::Int(0), WireArgument::UnInt(0)],
    });
    assert!(shm.supports(PixelFormat::Argb888));
}

#[test]
fn pool_and_buffer_requests() {
    let mut ctx = fresh();
    let shm_id = ctx.new_id_registered(WaylandObjectKind::SharedMemory);
    let shm = SharedMemory::new(shm_id);
    let pool = shm.make_pool(&mut ctx, String::from("wl-shm-1"), 4096, 17).unwrap();
    assert_eq!(pool.id(), 3);
    assert_eq!(pool.name(), "wl-shm-1");
    assert_eq!(pool.size(), 4096);
    assert_eq!(pool.fd(), 17);
    let datagram = ctx.next_outgoing().unwrap();
    assert_eq!(datagram.fds, vec![17]);
    assert_eq!(
        WireMessage::decode(
            &datagram.bytes,
            &[WireArgumentKind::NewId, WireArgumentKind::FileDescriptor, WireArgumentKind::Int],
            ByteOrder::Little
        ),
        Ok(WireMessage {
            sender_id: shm_id,
            opcode: 0,
            args: vec![
                WireArgument::NewId(3),
                WireArgument::FileDescriptor(17),
                WireArgument::Int(4096),
            ],
        })
    );
    let buffer = pool.make_buffer(&mut ctx, (0, 32, 32, 128), PixelFormat::Xrgb888).unwrap();
    assert_eq!(buffer.id, 4);
    assert_eq!(
        (buffer.offset, buffer.width, buffer.height, buffer.stride, buffer.format),
        (0, 32, 32, 128, PixelFormat::Xrgb888)
    );
    assert_eq!(ctx.find_obj_by_id(4), Some(&WaylandObjectKind::Buffer));
    let kinds = [
        WireArgumentKind::NewId,
        WireArgumentKind::Int,
        WireArgumentKind::Int,
        WireArgumentKind::Int,
        WireArgumentKind::Int,
        WireArgumentKind::UnInt,
    ];
    assert_eq!(
        sent(&mut ctx, &kinds),
        WireMessage {
            sender_id: 3,
            opcode: 0,
            args: vec![
                WireArgument::NewId(4),
                WireArgument::Int(0),
                WireArgument::Int(32),
                WireArgument::Int(32),
                WireArgument::Int(128),
                WireArgument::UnInt(1),
            ],
        }
    );
    assert_eq!(buffer.destroy(&mut ctx), Ok(()));
    assert_eq!(sent(&mut ctx, &[]), WireMessage { sender_id: 4, opcode: 0, args: vec![] });
    assert_eq!(ctx.find_obj_by_id(4), None);
    assert_eq!(pool.destroy(&mut ctx), Ok(()));
    assert_eq!(sent(&mut ctx, &[]), WireMessage { sender_id: 3, opcode: 1, args: vec![] });
    assert_eq!(ctx.find_obj_by_id(3), None);
    assert_eq!(pool.wl_destroy(&mut ctx), Ok(()));
    assert_eq!(buffer.wl_destroy(&mut ctx), Ok(()));
}

#[test]
fn pool_and_buffer_ids_from_the_low_level_requests() {
    let mut ctx = fresh();
    let shm = SharedMemory::new(9);
    assert_eq!(shm.wl_create_pool(&mut ctx, 3, 64), Ok(2));
    let pool = SharedMemoryPool::new(2, String::from("p"), 64, 3);
    assert_eq!(pool.wl_create_buffer(&mut ctx, (0, 4, 4, 16), PixelFormat::Argb888), Ok(3));
    let buffer =
        Buffer { id: 3, offset: 0, width: 4, height: 4, stride: 16, format: PixelFormat::Argb888 };
    assert_eq!(buffer.destroy(&mut ctx), Ok(()));
}

#[test]
fn window_manager_base_and_its_surfaces() {
    let mut ctx = fresh();
    let mut display = Display::new();
    let mut registry = announced();
    let (base, callback) = XdgWmBase::new_bound(&mut display, &mut registry, &mut ctx).unwrap();
    assert_eq!(base.id, 2);
    assert_eq!(callback, 3);
    assert_eq!(
        sent(&mut ctx, &[WireArgumentKind::UnInt, WireArgumentKind::NewIdSpecific]).args,
        vec![
            WireArgument::UnInt(3),
            WireArgument::NewIdSpecific(String::from("xdg_wm_base"), 1, 2),
        ]
    );
    assert_eq!(sent(&mut ctx, &[WireArgumentKind::NewId]).args, vec![WireArgument::NewId(3)]);
    assert_eq!(base.wl_pong(&mut ctx, 1234), Ok(()));
    assert_eq!(
        sent(&mut ctx, &[WireArgumentKind::UnInt]),
        WireMessage { sender_id: 2, opcode: 3, args: vec![WireArgument::UnInt(1234)] }
    );
    let xdg_surface = base.make_xdg_surface(&mut ctx, 77).unwrap();
    assert_eq!(xdg_surface.id, 4);
    assert_eq!(
        sent(&mut ctx, &[WireArgumentKind::NewId, WireArgumentKind::Obj]),
        WireMessage {
            sender_id: 2,
            opcode: 2,
            args: vec![WireArgument::NewId(4), WireArgument::Obj(77)],
        }
    );
    let toplevel = xdg_surface.make_xdg_toplevel(&mut ctx).unwrap();
    assert_eq!(toplevel.id, 5);
    assert_eq!(ctx.find_obj_by_id(5), Some(&WaylandObjectKind::XdgTopLevel));
    assert_eq!(
        sent(&mut ctx, &[WireArgumentKind::NewId]),
        WireMessage { sender_id: 4, opcode: 1, args: vec![WireArgument::NewId(5)] }
    );
    assert_eq!(base.wl_get_xdg_surface(&mut ctx, 77, 50), Ok(50));
    assert_eq!(xdg_surface.wl_get_toplevel(&mut ctx, 51), Ok(()));
    assert_eq!(base.destroy(&mut ctx), Ok(()));
    assert_eq!(ctx.find_obj_by_id(2), None);
    assert_eq!(base.wl_destroy(&mut ctx), Ok(()));
}

#[test]
fn binding_what_is_not_offered_asks_for_no_barrier() {
    let mut ctx = fresh();
    let mut display = Display::new();
    let mut registry = Registry::new_empty(2);
    assert!(matches!(
        SharedMemory::new_bound(&mut display, &mut registry, &mut ctx),
        Err(WaylandError::NotInRegistry)
    ));
    assert!(matches!(
        XdgWmBase::new_bound(&mut display, &mut registry, &mut ctx),
        Err(WaylandError::NotInRegistry)
    ));
    assert!(ctx.next_outgoing().is_none());
    // one id was taken by each attempt, none for a callback
    assert_eq!(ctx.new_id_registered(WaylandObjectKind::Surface), 4);
}

#[test]
fn context_knows_whether_ids_are_left() {
    let mut ctx = fresh();
    assert!(ctx.has_room());
    assert_eq!(ctx.owner_of(1), Some(WaylandObjectKind::Display));
    assert_eq!(ctx.owner_of(2), None);
    let id = ctx.new_id_registered(WaylandObjectKind::Buffer);
    assert_eq!(ctx.owner_of(id), Some(WaylandObjectKind::Buffer));
    assert_eq!(ctx.free_id(id), Ok(()));
    assert_eq!(ctx.free_id(id), Err(WaylandError::IdMapRemovalFail));
}

#[test]
fn errors_describe_themselves() {
    assert_eq!(WaylandError::ParseError.to_string(), "parse error");
    assert_eq!(WaylandError::RecvLenBad.to_string(), "received len is bad");
    assert_eq!(
        WaylandError::NotInRegistry.to_string(),
        "given name was not found in the registry hashmap"
    );
    assert_eq!(WaylandError::IdMapRemovalFail.to_string(), "failed to remove from id man map");
    assert_eq!(WaylandError::ObjectNonExistent.to_string(), "object non existent");
    assert_eq!(
        WaylandError::InvalidPixelFormat.to_string(),
        "an invalid pixel format has been recved"
    );
    assert_eq!(WaylandError::Disconnected.to_string(), "connection is closed");
}

#[test]
fn texts_are_compared_character_for_character() {
    assert!(same_text("", ""));
    assert!(same_text("wl_shm", "wl_shm"));
    assert!(!same_text("wl_shm", "wl_shn"));
    assert!(!same_text("wl_shm", "wl_sh"));
    assert!(!same_text("a", ""));
    assert!(same_text("\u{4e16}\u{754c}", "\u{4e16}\u{754c}"));
}
