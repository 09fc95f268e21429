use wl_client::context::Context;
use wl_client::display::Display;
use wl_client::endian::ByteOrder;
use wl_client::error::WaylandError;
use wl_client::ident::{IdentManager, WaylandObjectKind};
use wl_client::registry::Registry;
use wl_client::transport::MessageManager;
use wl_client::wire::{WireArgument, WireArgumentKind, WireMessage};

fn text(s: &str) -> String {
    String::from(s)
}

fn fresh(order: ByteOrder) -> Context {
    Context::new(MessageManager::new(order), IdentManager::new())
}

fn global(registry: u32, name: u32, interface: &str, version: u32) -> WireMessage {
    WireMessage {
        sender_id: registry,
        opcode: 0,
        args: vec![
            WireArgument::UnInt(name),
            WireArgument::String(text(interface)),
            WireArgument::UnInt(version),
        ],
    }
}

fn done(callback: u32) -> WireMessage {
    WireMessage { sender_id: callback, opcode: 0, args: vec![WireArgument::UnInt(0)] }
}

fn drop_outgoing(ctx: &mut Context) -> usize {
    let mut n = 0;
    while ctx.next_outgoing().is_some() {
        n += 1;
    }
    n
}

/// Plays the server and the reading loop: the registry is asked for, the
/// two globals and the callback's answer arrive, and the barrier runs.
fn bootstrapped(order: ByteOrder) -> (Context, Display, Registry) {
    let mut ctx = fresh(order);
    let mut display = Display::new();
    let (mut registry, callback) = Registry::new_requested(&mut display, &mut ctx).unwrap();
    assert_eq!(registry.id(), 2);
    assert_eq!(callback, 3);
    let mut stream = Vec::new();
    for event in [
        global(2, 1, "interfaceA", 5),
        global(2, 2, "interfaceB", 1),
        done(callback),
    ] {
        stream.extend(event.encode(order).unwrap());
    }
    let mut finished = false;
    // the bytes arrive in pieces of seven
    for piece in stream.chunks(7) {
        assert!(!finished);
        ctx.get_events(piece, &[]).unwrap();
        let step = ctx.sync_step(callback);
        for delivery in step.deliveries.iter() {
            assert_eq!(delivery.owner, WaylandObjectKind::Registry);
            registry.handle(&delivery.event).unwrap();
        }
        finished = step.done;
    }
    assert!(finished);
    (ctx, display, registry)
}

#[test]
fn bootstrap_fills_the_registry() {
    for order in [ByteOrder::Little, ByteOrder::Big] {
        let (_ctx, _display, registry) = bootstrapped(order);
        assert_eq!(registry.does_implement("interfaceA"), Some(5));
        assert_eq!(registry.does_implement("interfaceB"), Some(1));
        assert_eq!(registry.does_implement("interfaceC"), None);
        assert_eq!(registry.entries().len(), 2);
        assert_eq!(registry.entries()[0].name(), 1);
        assert_eq!(registry.entries()[0].interface(), "interfaceA");
        assert_eq!(registry.entries()[0].version(), 5);
        assert_eq!(registry.entries()[1].name(), 2);
    }
}

#[test]
fn bootstrap_sends_get_registry_and_sync() {
    let mut ctx = fresh(ByteOrder::Little);
    let mut display = Display::new();
    let _ = Registry::new_requested(&mut display, &mut ctx).unwrap();
    let first = ctx.next_outgoing().unwrap();
    assert_eq!(first.bytes, vec![1, 0, 0, 0, 1, 0, 12, 0, 2, 0, 0, 0]);
    assert!(first.fds.is_empty());
    let second = ctx.next_outgoing().unwrap();
    assert_eq!(second.bytes, vec![1, 0, 0, 0, 0, 0, 12, 0, 3, 0, 0, 0]);
    assert!(ctx.next_outgoing().is_none());
    assert_eq!(ctx.find_obj_by_id(2), Some(&WaylandObjectKind::Registry));
    assert_eq!(ctx.find_obj_by_id(3), Some(&WaylandObjectKind::Callback));
}

#[test]
fn bind_of_an_unknown_interface_sends_nothing() {
    let (mut ctx, _display, registry) = bootstrapped(ByteOrder::Little);
    assert_eq!(drop_outgoing(&mut ctx), 2);
    assert_eq!(registry.bind(&mut ctx, "interfaceC", 1, 9), Err(WaylandError::NotInRegistry));
    assert!(ctx.next_outgoing().is_none());
}

#[test]
fn bind_sends_exactly_one_request() {
    for order in [ByteOrder::Little, ByteOrder::Big] {
        let (mut ctx, _display, registry) = bootstrapped(order);
        assert_eq!(drop_outgoing(&mut ctx), 2);
        let new_id = ctx.new_id_registered(WaylandObjectKind::Compositor);
        assert_eq!(registry.bind(&mut ctx, "interfaceA", 5, new_id), Ok(()));
        let datagram = ctx.next_outgoing().unwrap();
        assert!(ctx.next_outgoing().is_none());
        assert!(datagram.fds.is_empty());
        let request = WireMessage::decode(
            &datagram.bytes,
            &[WireArgumentKind::UnInt, WireArgumentKind::NewIdSpecific],
            order,
        )
        .unwrap();
        assert_eq!(
            request,
            WireMessage {
                sender_id: registry.id(),
                opcode: 0,
                args: vec![
                    WireArgument::UnInt(1),
                    WireArgument::NewIdSpecific(text("interfaceA"), 5, new_id),
                ],
            }
        );
    }
}

#[test]
fn wl_bind_uses_the_interface_name_of_the_kind() {
    let mut ctx = fresh(ByteOrder::Little);
    let mut registry = Registry::new_empty(2);
    registry.fill(&[global(2, 40, "wl_shm", 1), global(2, 41, "wl_compositor", 6)]).unwrap();
    assert_eq!(
        registry.wl_bind(&mut ctx, 8, WaylandObjectKind::XdgWmBase, 1),
        Err(WaylandError::NotInRegistry)
    );
    assert!(ctx.next_outgoing().is_none());
    assert_eq!(registry.wl_bind(&mut ctx, 8, WaylandObjectKind::Compositor, 5), Ok(()));
    let datagram = ctx.next_outgoing().unwrap();
    let request = WireMessage::decode(
        &datagram.bytes,
        &[WireArgumentKind::UnInt, WireArgumentKind::NewIdSpecific],
        ByteOrder::Little,
    )
    .unwrap();
    assert_eq!(
        request.args,
        vec![WireArgument::UnInt(41), WireArgument::NewIdSpecific(text("wl_compositor"), 5, 8)]
    );
}

#[test]
fn fill_passes_over_events_of_others() {
    let mut registry = Registry::new_empty(2);
    let events = [
        global(3, 1, "not mine", 1),
        global(2, 1, "mine", 2),
        WireMessage { sender_id: 2, opcode: 1, args: vec![WireArgument::UnInt(1)] },
        done(4),
    ];
    assert_eq!(registry.fill(&events), Ok(()));
    assert_eq!(registry.entries().len(), 1);
    assert_eq!(registry.does_implement("mine"), Some(2));
    assert_eq!(registry.does_implement("not mine"), None);
}

#[test]
fn fill_stops_at_a_malformed_announcement() {
    let mut registry = Registry::new_empty(2);
    let events = [
        global(2, 1, "before", 1),
        WireMessage {
            sender_id: 2,
            opcode: 0,
            args: vec![WireArgument::UnInt(2), WireArgument::UnInt(3), WireArgument::UnInt(4)],
        },
        global(2, 3, "after", 1),
    ];
    assert_eq!(registry.fill(&events), Err(WaylandError::ParseError));
    assert_eq!(registry.does_implement("before"), Some(1));
    assert_eq!(registry.does_implement("after"), None);
    let short = WireMessage { sender_id: 2, opcode: 0, args: vec![WireArgument::UnInt(2)] };
    assert_eq!(registry.handle(&short), Err(WaylandError::ParseError));
    let wrong_name = WireMessage {
        sender_id: 2,
        opcode: 0,
        args: vec![WireArgument::Int(2), WireArgument::String(text("x")), WireArgument::UnInt(4)],
    };
    assert_eq!(registry.handle(&wrong_name), Err(WaylandError::ParseError));
    let wrong_version = WireMessage {
        sender_id: 2,
        opcode: 0,
        args: vec![WireArgument::UnInt(2), WireArgument::String(text("x")), WireArgument::Int(4)],
    };
    assert_eq!(registry.handle(&wrong_version), Err(WaylandError::ParseError));
    assert_eq!(registry.entries().len(), 1);
}

#[test]
fn a_name_announced_again_takes_the_place_of_the_first() {
    let mut registry = Registry::new_empty(2);
    registry
        .fill(&[global(2, 1, "a", 1), global(2, 2, "b", 1), global(2, 1, "c", 7)])
        .unwrap();
    assert_eq!(registry.entries().len(), 2);
    assert_eq!(registry.entries()[0].name(), 1);
    assert_eq!(registry.entries()[0].interface(), "c");
    assert_eq!(registry.entries()[0].version(), 7);
    assert_eq!(registry.does_implement("a"), None);
    assert_eq!(registry.does_implement("b"), Some(1));
    assert_eq!(registry.does_implement("c"), Some(7));
}

#[test]
fn the_first_announced_of_two_with_one_interface_is_found() {
    let mut ctx = fresh(ByteOrder::Little);
    let mut registry = Registry::new_empty(2);
    registry.fill(&[global(2, 10, "wl_output", 3), global(2, 11, "wl_output", 4)]).unwrap();
    assert_eq!(registry.does_implement("wl_output"), Some(3));
    assert_eq!(registry.bind(&mut ctx, "wl_output", 3, 5), Ok(()));
    let datagram = ctx.next_outgoing().unwrap();
    let request = WireMessage::decode(
        &datagram.bytes,
        &[WireArgumentKind::UnInt, WireArgumentKind::NewIdSpecific],
        ByteOrder::Little,
    )
    .unwrap();
    assert_eq!(request.args[0], WireArgument::UnInt(10));
}

#[test]
fn empty_registry_implements_nothing() {
    let registry = Registry::new_empty(2);
    assert_eq!(registry.id(), 2);
    assert_eq!(registry.does_implement(""), None);
    assert_eq!(registry.does_implement("wl_shm"), None);
}
