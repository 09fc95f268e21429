//! The registry: what the server offers, and how a client binds to it.
//!
//! The server announces each global under a name of its own. The registry
//! keeps the announcements in the order in which they came, one entry for
//! each name; a second announcement under a name takes the place of the
//! first. A client asks for a global by its interface, and gets the one
//! that was announced first.

use vstd::prelude::*;
use crate::context::{after_send, message_values, Context, Shared};
use crate::display::Display;
use crate::error::WaylandError;
use crate::ident::WaylandObjectKind;
use crate::text::same_text;
use crate::wire::{ArgValue, Id, MessageValue, OpCode, WireArgument, WireMessage};

verus! {

/// The opcode of the request that binds a global to a new id.
pub const BIND: OpCode = 0;

/// The opcode of the event that announces a global.
pub const GLOBAL: OpCode = 0;

/// One row of the server's table of globals.
#[derive(PartialEq, Eq, Hash, Debug, Clone)]
pub struct RegistryEntry {
    name: u32,
    interface: String,
    version: u32,
}

/// What a row is, apart from how it is stored.
pub struct Global {
    /// The number under which the server announced the global.
    pub name: u32,
    /// The interface that the global offers.
    pub interface: Seq<char>,
    /// The highest version of the interface that the server speaks.
    pub version: u32,
}

impl View for RegistryEntry {
    type V = Global;

    closed spec fn view(&self) -> Global {
        Global { name: self.name, interface: self.interface@, version: self.version }
    }
}

/// The rows of a stored table, each by its value.
pub open spec fn globals_of(rows: Seq<RegistryEntry>) -> Seq<Global> {
    rows.map_values(|row: RegistryEntry| row@)
}

/// The place of the row with the given name, or the number of rows if
/// there is none.
pub open spec fn index_of_name(globals: Seq<Global>, name: u32) -> int
    decreases globals.len(),
{
    if globals.len() == 0 || globals[0].name == name {
        0
    } else {
        1 + index_of_name(globals.skip(1), name)
    }
}

/// The table after a global was announced: the row takes the place of the
/// row with the same name, or the end of the table if there is none.
pub open spec fn announce(globals: Seq<Global>, global: Global) -> Seq<Global> {
    let at = index_of_name(globals, global.name);
    if at < globals.len() {
        globals.update(at, global)
    } else {
        globals.push(global)
    }
}

/// The first row that offers the given interface.
pub open spec fn first_with_interface(globals: Seq<Global>, interface: Seq<char>) -> Option<Global>
    decreases globals.len(),
{
    if globals.len() == 0 {
        None
    } else if globals[0].interface == interface {
        Some(globals[0])
    } else {
        first_with_interface(globals.skip(1), interface)
    }
}

/// Whether no two rows have the same name.
pub open spec fn unique_names(globals: Seq<Global>) -> bool {
    forall|i: int, j: int|
        0 <= i < j < globals.len() ==> (#[trigger] globals[i]).name != (#[trigger] globals[j]).name
}

/// Whether an event announces a global to the registry with the given id.
pub open spec fn is_announcement(registry: Id, event: MessageValue) -> bool {
    event.sender_id == registry && event.opcode == GLOBAL
}

/// The global that an announcement holds: a name, an interface and a
/// version, in this order. None if the arguments have another shape.
pub open spec fn global_of(event: MessageValue) -> Option<Global> {
    if event.args.len() >= 3 {
        match (event.args[0], event.args[1], event.args[2]) {
            (ArgValue::UnInt(name), ArgValue::Text(interface), ArgValue::UnInt(version)) => Some(
                Global { name, interface, version },
            ),
            _ => None,
        }
    } else {
        None
    }
}

/// What comes of one event: an announcement is taken into the table, or
/// is a parse error if it lacks its name, interface or version; any other
/// event is passed over.
pub open spec fn take_in(globals: Seq<Global>, registry: Id, event: MessageValue) -> (
    Seq<Global>,
    Result<(), WaylandError>,
) {
    if !is_announcement(registry, event) {
        (globals, Ok(()))
    } else {
        match global_of(event) {
            Some(global) => (announce(globals, global), Ok(())),
            None => (globals, Err(WaylandError::ParseError)),
        }
    }
}

/// What comes of filling a table from events: the table after the events
/// were taken in, one after the other, up to the first that fails, and
/// that failure if there is one.
pub open spec fn fill_from(globals: Seq<Global>, registry: Id, events: Seq<MessageValue>) -> (
    Seq<Global>,
    Result<(), WaylandError>,
)
    decreases events.len(),
{
    if events.len() == 0 {
        (globals, Ok(()))
    } else {
        let first = take_in(globals, registry, events[0]);
        if first.1 is Err {
            first
        } else {
            fill_from(first.0, registry, events.skip(1))
        }
    }
}

/// The request that binds the global `global` to the new id `id`, as an
/// object of the given interface and version.
pub open spec fn bind_request(
    registry: Id,
    global: u32,
    interface: Seq<char>,
    version: u32,
    id: Id,
) -> MessageValue {
    MessageValue {
        sender_id: registry,
        opcode: BIND,
        args: seq![ArgValue::UnInt(global), ArgValue::NewIdSpecific(interface, version, id)],
    }
}

/// What a registry holds.
pub struct RegistryState {
    /// The id of the registry object.
    pub id: Id,
    /// The globals that the server has announced.
    pub globals: Seq<Global>,
}

impl RegistryState {
    /// The request that binds `interface`, if a global offers it.
    pub open spec fn bind_request(self, interface: Seq<char>, version: u32, id: Id) -> Option<
        MessageValue,
    > {
        match first_with_interface(self.globals, interface) {
            Some(global) => Some(bind_request(self.id, global.name, interface, version, id)),
            None => None,
        }
    }

    /// What binding returns: the registry failure where no global offers
    /// the interface, else what sending the request returns.
    pub open spec fn bind_outcome(
        self,
        state: Shared,
        interface: Seq<char>,
        version: u32,
        id: Id,
    ) -> Result<(), WaylandError> {
        match self.bind_request(interface, version, id) {
            Some(request) => state.send_outcome(request),
            None => Err(WaylandError::NotInRegistry),
        }
    }

    /// The shared state after binding: the request was sent, if a global
    /// offers the interface; else nothing has changed.
    pub open spec fn bind(self, state: Shared, interface: Seq<char>, version: u32, id: Id) -> Shared {
        match self.bind_request(interface, version, id) {
            Some(request) => state.send(request),
            None => state,
        }
    }

    /// What an operation returns that takes a new id for an object of
    /// `kind`, binds it, and then asks for a barrier: the new id and the id
    /// of the barrier's callback, or the first failure.
    pub open spec fn bind_and_sync_outcome(
        self,
        state: Shared,
        display: Id,
        kind: WaylandObjectKind,
        version: u32,
    ) -> Result<(Id, Id), WaylandError> {
        let id = state.next_id();
        let first = state.allocate(kind);
        match self.bind_outcome(first, kind.interface_name(), version, id) {
            Err(e) => Err(e),
            Ok(_) => {
                let bound = self.bind(first, kind.interface_name(), version, id);
                after_send(
                    bound.send_outcome(Display::sync_request(display, bound.next_id())),
                    (id, bound.next_id()),
                )
            },
        }
    }

    /// The shared state after such an operation. The barrier is asked for
    /// only where the binding went out.
    pub open spec fn bind_and_sync(
        self,
        state: Shared,
        display: Id,
        kind: WaylandObjectKind,
        version: u32,
    ) -> Shared {
        let id = state.next_id();
        let first = state.allocate(kind);
        let bound = self.bind(first, kind.interface_name(), version, id);
        match self.bind_outcome(first, kind.interface_name(), version, id) {
            Err(_) => bound,
            Ok(_) => bound.allocate(WaylandObjectKind::Callback).send(
                Display::sync_request(display, bound.next_id()),
            ),
        }
    }
}

/// The client's copy of the server's table of globals.
#[derive(Debug)]
pub struct Registry {
    id: Id,
    inner: Vec<RegistryEntry>,
}

impl View for Registry {
    type V = RegistryState;

    closed spec fn view(&self) -> RegistryState {
        RegistryState { id: self.id, globals: globals_of(self.inner@) }
    }
}

impl RegistryEntry {
    /// The number under which the server announced the global.
    pub fn name(&self) -> (name: u32)
        ensures
            name == self@.name,
    {
        self.name
    }

    /// The interface that the global offers.
    pub fn interface(&self) -> (interface: &str)
        ensures
            interface@ == self@.interface,
    {
        self.interface.as_str()
    }

    /// The highest version of the interface that the server speaks.
    pub fn version(&self) -> (version: u32)
        ensures
            version == self@.version,
    {
        self.version
    }
}

impl Registry {
    /// A registry that knows of no global yet.
    pub fn new_empty(id: Id) -> (registry: Self)
        ensures
            registry@ == (RegistryState { id, globals: Seq::empty() }),
    {
        let registry = Registry { id, inner: Vec::new() };
        assert(registry@.globals =~= Seq::<Global>::empty());
        registry
    }

    /// The id of the registry object.
    pub fn id(&self) -> (id: Id)
        ensures
            id == self@.id,
    {
        self.id
    }

    /// Asks the server for its registry, and for a barrier behind that
    /// request. Returns a registry that knows of no global yet, and the id
    /// of the barrier's callback: the events that announce the globals
    /// arrive before the callback's. Both ids are taken in this order; if
    /// the first request cannot be sent, the second id is not taken.
    pub fn new_requested(display: &mut Display, ctx: &mut Context) -> (result: Result<
        (Self, Id),
        WaylandError,
    >)
        requires
            old(ctx)@.wf(),
            old(ctx)@.room_for(2),
        ensures
            final(display).id == old(display).id,
            final(ctx)@.wf(),
            ({
                let id = old(ctx)@.next_id();
                let first = old(ctx)@.allocate(WaylandObjectKind::Registry);
                let asking = Display::get_registry_request(old(display).id, id);
                let second = first.send(asking).allocate(WaylandObjectKind::Callback);
                let callback = first.next_id();
                let syncing = Display::sync_request(old(display).id, callback);
                match first.send_outcome(asking) {
                    Err(e) => final(ctx)@ == first && result is Err && result->Err_0 == e,
                    Ok(_) => {
                        &&& final(ctx)@ == second.send(syncing)
                        &&& match second.send_outcome(syncing) {
                            Err(e) => result is Err && result->Err_0 == e,
                            Ok(_) => result is Ok && result->Ok_0.1 == callback
                                && result->Ok_0.0@ == (RegistryState {
                                id,
                                globals: Seq::empty(),
                            }),
                        }
                    },
                }
            }),
    {
        let reg_id = match display.wl_get_registry(ctx) {
            Ok(id) => id,
            Err(e) => {
                return Err(e);
            },
        };
        let cbid = match display.wl_sync(ctx) {
            Ok(id) => id,
            Err(e) => {
                return Err(e);
            },
        };
        Ok((Self::new_empty(reg_id), cbid))
    }

    /// Binds the first global that offers `interface` to the new id `id`.
    /// Where no global offers it, nothing is sent.
    pub fn bind(&self, ctx: &mut Context, interface: &str, version: u32, id: Id) -> (result:
        Result<(), WaylandError>)
        ensures
            result == self@.bind_outcome(old(ctx)@, interface@, version, id),
            final(ctx)@ == self@.bind(old(ctx)@, interface@, version, id),
    {
        let mut i: usize = 0;
        let ghost globals = self@.globals;
        assert(globals.skip(0) =~= globals);
        while i < self.inner.len()
            invariant
                i <= self.inner@.len(),
                globals == self@.globals,
                globals.len() == self.inner@.len(),
                *ctx == *old(ctx),
                first_with_interface(globals, interface@) == first_with_interface(
                    globals.skip(i as int),
                    interface@,
                ),
            decreases self.inner@.len() - i,
        {
            assert(globals.skip(i as int)[0] == self.inner@[i as int]@);
            assert(globals.skip(i as int).skip(1) =~= globals.skip(i + 1));
            if same_text(self.inner[i].interface.as_str(), interface) {
                let global_id = self.inner[i].name;
                let mut args: Vec<WireArgument> = Vec::new();
                args.push(WireArgument::UnInt(global_id));
                args.push(WireArgument::NewIdSpecific(interface.to_owned(), version, id));
                let request = WireMessage { sender_id: self.id, opcode: BIND, args };
                assert(request@.args =~= seq![
                    ArgValue::UnInt(global_id),
                    ArgValue::NewIdSpecific(interface@, version, id),
                ]);
                return ctx.send_request(&request);
            }
            i += 1;
        }
        Err(WaylandError::NotInRegistry)
    }

    /// Binds the first global that offers the interface of `object` to the
    /// new id `id`. Where no global offers it, nothing is sent.
    pub fn wl_bind(
        &mut self,
        ctx: &mut Context,
        id: Id,
        object: WaylandObjectKind,
        version: u32,
    ) -> (result: Result<(), WaylandError>)
        ensures
            final(self)@ == old(self)@,
            result == old(self)@.bind_outcome(old(ctx)@, object.interface_name(), version, id),
            final(ctx)@ == old(self)@.bind(old(ctx)@, object.interface_name(), version, id),
    {
        self.bind(ctx, object.as_str(), version, id)
    }

    /// Takes one announced global into the table.
    fn insert(&mut self, name: u32, interface: String, version: u32)
        ensures
            final(self)@ == (RegistryState {
                id: old(self)@.id,
                globals: announce(old(self)@.globals, Global { name, interface: interface@, version }),
            }),
    {
        let ghost globals = self@.globals;
        let mut i: usize = 0;
        assert(globals.skip(0) =~= globals);
        while i < self.inner.len()
            invariant
                i <= self.inner@.len(),
                self.inner == old(self).inner,
                self.id == old(self).id,
                globals == self@.globals,
                globals.len() == self.inner@.len(),
                index_of_name(globals, name) == i + index_of_name(globals.skip(i as int), name),
            decreases self.inner@.len() - i,
        {
            assert(globals.skip(i as int)[0] == self.inner@[i as int]@);
            assert(globals.skip(i as int).skip(1) =~= globals.skip(i + 1));
            if self.inner[i].name == name {
                let ghost rows = self.inner@;
                let entry = RegistryEntry { name, interface, version };
                let ghost global = entry@;
                self.inner.set(i, entry);
                assert(globals_of(self.inner@) =~= globals_of(rows).update(i as int, global));
                return ;
            }
            i += 1;
        }
        let ghost rows = self.inner@;
        let entry = RegistryEntry { name, interface, version };
        let ghost global = entry@;
        self.inner.push(entry);
        assert(globals_of(self.inner@) =~= globals_of(rows).push(global));
    }

    /// Takes in the announcements among `events`, in their order. Events
    /// of other objects and other events of the registry are passed over.
    /// An announcement that lacks its name, interface or version ends the
    /// run with a parse error; those before it stay taken in.
    pub fn fill(&mut self, events: &[WireMessage]) -> (result: Result<(), WaylandError>)
        ensures
            final(self)@.id == old(self)@.id,
            final(self)@.globals == fill_from(
                old(self)@.globals,
                old(self)@.id,
                message_values(events@),
            ).0,
            result == fill_from(old(self)@.globals, old(self)@.id, message_values(events@)).1,
    {
        let ghost all = message_values(events@);
        let ghost whole = fill_from(self@.globals, self@.id, all);
        let mut i: usize = 0;
        assert(all.skip(0) =~= all);
        while i < events.len()
            invariant
                i <= events@.len(),
                all == message_values(events@),
                self@.id == old(self)@.id,
                whole == fill_from(old(self)@.globals, old(self)@.id, all),
                whole == fill_from(self@.globals, self@.id, all.skip(i as int)),
            decreases events@.len() - i,
        {
            let e = &events[i];
            assert(all.skip(i as int)[0] == e@);
            assert(all.skip(i as int).skip(1) =~= all.skip(i + 1));
            match self.handle(e) {
                Ok(()) => {},
                Err(e) => {
                    return Err(e);
                },
            }
            i += 1;
        }
        Ok(())
    }

    /// Takes a new id for an object of `kind`, binds it to the first global
    /// that offers the interface of that kind, and asks for a barrier
    /// behind the binding. Returns the new id and the id of the barrier's
    /// callback. The first id is taken in any case; the barrier is asked
    /// for only where the binding went out.
    pub fn bind_and_sync(
        &mut self,
        display: &mut Display,
        ctx: &mut Context,
        kind: WaylandObjectKind,
        version: u32,
    ) -> (result: Result<(Id, Id), WaylandError>)
        requires
            old(ctx)@.wf(),
            old(ctx)@.room_for(2),
        ensures
            final(self)@ == old(self)@,
            final(display).id == old(display).id,
            final(ctx)@.wf(),
            result == old(self)@.bind_and_sync_outcome(old(ctx)@, old(display).id, kind, version),
            final(ctx)@ == old(self)@.bind_and_sync(old(ctx)@, old(display).id, kind, version),
    {
        let id = ctx.new_id_registered(kind);
        match self.wl_bind(ctx, id, kind, version) {
            Ok(()) => {},
            Err(e) => {
                return Err(e);
            },
        }
        match display.wl_sync(ctx) {
            Ok(cbid) => Ok((id, cbid)),
            Err(e) => Err(e),
        }
    }

    /// Handles one event: takes it in if it announces a global.
    pub fn handle(&mut self, event: &WireMessage) -> (result: Result<(), WaylandError>)
        ensures
            final(self)@.id == old(self)@.id,
            final(self)@.globals == take_in(old(self)@.globals, old(self)@.id, event@).0,
            result == take_in(old(self)@.globals, old(self)@.id, event@).1,
    {
        if event.sender_id == self.id && event.opcode == GLOBAL {
            if event.args.len() < 3 {
                return Err(WaylandError::ParseError);
            }
            let name = match &event.args[0] {
                WireArgument::UnInt(name_) => *name_,
                _ => {
                    return Err(WaylandError::ParseError);
                },
            };
            let interface = match &event.args[1] {
                WireArgument::String(interface_) => interface_.clone(),
                _ => {
                    return Err(WaylandError::ParseError);
                },
            };
            let version = match &event.args[2] {
                WireArgument::UnInt(version_) => *version_,
                _ => {
                    return Err(WaylandError::ParseError);
                },
            };
            self.insert(name, interface, version);
        }
        Ok(())
    }

    /// The version of the first global that offers the interface `query`,
    /// if any does.
    pub fn does_implement(&self, query: &str) -> (version: Option<u32>)
        ensures
            version == match first_with_interface(self@.globals, query@) {
                Some(global) => Some(global.version),
                None => None,
            },
    {
        let mut i: usize = 0;
        let ghost globals = self@.globals;
        assert(globals.skip(0) =~= globals);
        while i < self.inner.len()
            invariant
                i <= self.inner@.len(),
                globals == self@.globals,
                globals.len() == self.inner@.len(),
                first_with_interface(globals, query@) == first_with_interface(
                    globals.skip(i as int),
                    query@,
                ),
            decreases self.inner@.len() - i,
        {
            assert(globals.skip(i as int)[0] == self.inner@[i as int]@);
            assert(globals.skip(i as int).skip(1) =~= globals.skip(i + 1));
            if same_text(self.inner[i].interface.as_str(), query) {
                return Some(self.inner[i].version);
            }
            i += 1;
        }
        None
    }

    /// The rows of the table, in the order in which their names were first
    /// announced.
    pub fn entries(&self) -> (rows: &[RegistryEntry])
        ensures
            globals_of(rows@) == self@.globals,
    {
        self.inner.as_slice()
    }
}

/// The place that [`index_of_name`] gives lies within the table or just
/// behind it; no row before it has the name, and the row at it has.
pub proof fn lemma_index_of_name(globals: Seq<Global>, name: u32)
    ensures
        0 <= index_of_name(globals, name) <= globals.len(),
        forall|i: int| 0 <= i < index_of_name(globals, name) ==> (#[trigger] globals[i]).name != name,
        index_of_name(globals, name) < globals.len() ==> globals[index_of_name(globals, name)].name
            == name,
    decreases globals.len(),
{
    if globals.len() == 0 || globals[0].name == name {
    } else {
        let rest = globals.skip(1);
        lemma_index_of_name(rest, name);
        assert forall|i: int| 0 <= i < index_of_name(globals, name) implies (
        #[trigger] globals[i]).name != name by {
            if i > 0 {
                assert(globals[i] == rest[i - 1]);
            }
        }
    }
}

/// A table in which no name stands twice stays so when a global is
/// announced, and holds the announced global under its name.
pub proof fn lemma_announce_keeps_names_unique(globals: Seq<Global>, global: Global)
    requires
        unique_names(globals),
    ensures
        unique_names(announce(globals, global)),
        announce(globals, global).contains(global),
{
    lemma_index_of_name(globals, global.name);
    let at = index_of_name(globals, global.name);
    let after = announce(globals, global);
    if at < globals.len() {
        assert(after[at] == global);
    } else {
        assert(after[globals.len() as int] == global);
    }
    assert forall|i: int, j: int| 0 <= i < j < after.len() implies (#[trigger] after[i]).name != (
    #[trigger] after[j]).name by {
        if at < globals.len() {
            if i != at && j != at {
                assert(after[i] == globals[i] && after[j] == globals[j]);
            } else if i == at {
                assert(after[j] == globals[j]);
                assert(globals[at].name != globals[j].name);
            } else {
                assert(after[i] == globals[i]);
                assert(globals[i].name != globals[at].name);
            }
        } else {
            if j < globals.len() {
                assert(after[i] == globals[i] && after[j] == globals[j]);
            } else {
                assert(after[i] == globals[i]);
            }
        }
    }
}

/// A table in which no name stands twice stays so when it is filled from
/// events, whatever the events are.
pub proof fn lemma_fill_keeps_names_unique(
    globals: Seq<Global>,
    registry: Id,
    events: Seq<MessageValue>,
)
    requires
        unique_names(globals),
    ensures
        unique_names(fill_from(globals, registry, events).0),
    decreases events.len(),
{
    if events.len() > 0 {
        let first = take_in(globals, registry, events[0]);
        if is_announcement(registry, events[0]) {
            match global_of(events[0]) {
                Some(global) => lemma_announce_keeps_names_unique(globals, global),
                None => {},
            }
        }
        if first.1 is Ok {
            lemma_fill_keeps_names_unique(first.0, registry, events.skip(1));
        }
    }
}

/// What the first row with an interface is: a row of the table that offers
/// the interface, before which no row offers it. There is none exactly
/// where no row offers the interface.
pub proof fn lemma_first_with_interface(globals: Seq<Global>, interface: Seq<char>)
    ensures
        match first_with_interface(globals, interface) {
            Some(global) => exists|at: int|
                0 <= at < globals.len() && #[trigger] globals[at] == global && global.interface
                    == interface && forall|i: int|
                    0 <= i < at ==> (#[trigger] globals[i]).interface != interface,
            None => forall|i: int|
                0 <= i < globals.len() ==> (#[trigger] globals[i]).interface != interface,
        },
    decreases globals.len(),
{
    if globals.len() == 0 {
    } else if globals[0].interface == interface {
        assert(globals[0] == globals[0]);
    } else {
        let rest = globals.skip(1);
        lemma_first_with_interface(rest, interface);
        match first_with_interface(rest, interface) {
            Some(global) => {
                let at = choose|at: int|
                    0 <= at < rest.len() && #[trigger] rest[at] == global && global.interface
                        == interface && forall|i: int|
                        0 <= i < at ==> (#[trigger] rest[i]).interface != interface;
                assert(globals[at + 1] == global);
                assert forall|i: int| 0 <= i < at + 1 implies (#[trigger] globals[i]).interface
                    != interface by {
                    if i > 0 {
                        assert(globals[i] == rest[i - 1]);
                    }
                }
            },
            None => {
                assert forall|i: int| 0 <= i < globals.len() implies (
                #[trigger] globals[i]).interface != interface by {
                    if i > 0 {
                        assert(globals[i] == rest[i - 1]);
                    }
                }
            },
        }
    }
}

/// A bind for an interface that no row of the table offers fails with the
/// registry failure and leaves the shared state as it was: nothing is sent.
pub proof fn lemma_bind_of_unknown_sends_nothing(
    registry: RegistryState,
    state: Shared,
    interface: Seq<char>,
    version: u32,
    id: Id,
)
    requires
        forall|i: int|
            0 <= i < registry.globals.len() ==> (#[trigger] registry.globals[i]).interface
                != interface,
    ensures
        registry.bind_outcome(state, interface, version, id) == Err::<(), WaylandError>(
            WaylandError::NotInRegistry,
        ),
        registry.bind(state, interface, version, id) == state,
{
    lemma_first_with_interface(registry.globals, interface);
}

} // verus!
