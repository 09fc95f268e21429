//! The object-id registry: which ids are in use, and what each denotes.
//!
//! Ids are handed out in increasing order and never handed out twice. Id 1
//! belongs to the connection's root object; the registry neither hands it
//! out nor holds it.

use std::collections::HashMap;
use vstd::prelude::*;
use crate::error::WaylandError;
use crate::wire::{Id, OpCode, WireArgumentKind};

verus! {

broadcast use vstd::std_specs::hash::group_hash_axioms;

/// The id of the connection's root object.
pub const ROOT_ID: Id = 1;

/// What an object id can denote.
#[derive(PartialEq, Eq, Debug, Clone, Copy, Structural)]
pub enum WaylandObjectKind {
    Display,
    Registry,
    Callback,
    Compositor,
    Surface,
    SharedMemory,
    SharedMemoryPool,
    Buffer,
    XdgWmBase,
    XdgSurface,
    XdgTopLevel,
}

impl WaylandObjectKind {
    /// The name under which the server announces objects of this kind.
    pub open spec fn interface_name(self) -> Seq<char> {
        match self {
            WaylandObjectKind::Display => "wl_display"@,
            WaylandObjectKind::Registry => "wl_registry"@,
            WaylandObjectKind::Callback => "wl_callback"@,
            WaylandObjectKind::Compositor => "wl_compositor"@,
            WaylandObjectKind::Surface => "wl_surface"@,
            WaylandObjectKind::SharedMemory => "wl_shm"@,
            WaylandObjectKind::SharedMemoryPool => "wl_shm_pool"@,
            WaylandObjectKind::Buffer => "wl_buffer"@,
            WaylandObjectKind::XdgWmBase => "xdg_wm_base"@,
            WaylandObjectKind::XdgSurface => "xdg_surface"@,
            WaylandObjectKind::XdgTopLevel => "xdg_toplevel"@,
        }
    }

    /// The name under which the server announces objects of this kind.
    pub fn as_str(&self) -> (name: &'static str)
        ensures
            name@ == self.interface_name(),
    {
        match self {
            WaylandObjectKind::Display => "wl_display",
            WaylandObjectKind::Registry => "wl_registry",
            WaylandObjectKind::Callback => "wl_callback",
            WaylandObjectKind::Compositor => "wl_compositor",
            WaylandObjectKind::Surface => "wl_surface",
            WaylandObjectKind::SharedMemory => "wl_shm",
            WaylandObjectKind::SharedMemoryPool => "wl_shm_pool",
            WaylandObjectKind::Buffer => "wl_buffer",
            WaylandObjectKind::XdgWmBase => "xdg_wm_base",
            WaylandObjectKind::XdgSurface => "xdg_surface",
            WaylandObjectKind::XdgTopLevel => "xdg_toplevel",
        }
    }
}

/// The shape of the arguments of an event, by the kind of object that sends
/// it and the opcode. An event that is not among those the library reads
/// is taken as one array of bytes, so that nothing of it is lost.
pub open spec fn event_schema(owner: Option<WaylandObjectKind>, opcode: OpCode) -> Seq<
    WireArgumentKind,
> {
    match owner {
        // the display reports an id that the server has let go of
        Some(WaylandObjectKind::Display) if opcode == 1 => seq![WireArgumentKind::UnInt],
        // the registry announces a global: name, interface, version
        Some(WaylandObjectKind::Registry) if opcode == 0 => seq![
            WireArgumentKind::UnInt,
            WireArgumentKind::String,
            WireArgumentKind::UnInt,
        ],
        // a callback is done
        Some(WaylandObjectKind::Callback) if opcode == 0 => seq![WireArgumentKind::UnInt],
        // the shared memory object announces a pixel format
        Some(WaylandObjectKind::SharedMemory) if opcode == 0 => seq![WireArgumentKind::UnInt],
        // the window manager base asks whether the client is alive
        Some(WaylandObjectKind::XdgWmBase) if opcode == 0 => seq![WireArgumentKind::UnInt],
        _ => seq![WireArgumentKind::Arr],
    }
}

/// Computes [`event_schema`].
pub fn schema_of_event(owner: Option<WaylandObjectKind>, opcode: OpCode) -> (schema: Vec<
    WireArgumentKind,
>)
    ensures
        schema@ == event_schema(owner, opcode),
{
    let schema = match owner {
        Some(WaylandObjectKind::Display) if opcode == 1 => vec![WireArgumentKind::UnInt],
        Some(WaylandObjectKind::Registry) if opcode == 0 => vec![
            WireArgumentKind::UnInt,
            WireArgumentKind::String,
            WireArgumentKind::UnInt,
        ],
        Some(WaylandObjectKind::Callback) if opcode == 0 => vec![WireArgumentKind::UnInt],
        Some(WaylandObjectKind::SharedMemory) if opcode == 0 => vec![WireArgumentKind::UnInt],
        Some(WaylandObjectKind::XdgWmBase) if opcode == 0 => vec![WireArgumentKind::UnInt],
        _ => vec![WireArgumentKind::Arr],
    };
    assert(schema@ =~= event_schema(owner, opcode));
    schema
}

/// What a table of object ids holds.
pub struct IdTable {
    /// The highest id handed out so far, or the root id if none was.
    pub top: Id,
    /// The ids in use, each with the kind of object it denotes.
    pub live: Map<Id, WaylandObjectKind>,
    /// The ids that were freed, in the order in which they were.
    pub retired: Seq<Id>,
}

impl IdTable {
    /// What holds of every table: all ids it knows lie above the root id and
    /// not above the highest one handed out, and no freed id is in use.
    pub open spec fn wf(self) -> bool {
        &&& self.top >= ROOT_ID
        &&& forall|id: Id| #[trigger] self.live.contains_key(id) ==> ROOT_ID < id <= self.top
        &&& forall|i: int|
            0 <= i < self.retired.len() ==> ROOT_ID < (#[trigger] self.retired[i]) <= self.top
                && !self.live.contains_key(self.retired[i])
    }

    /// The table in which no id is in use and none was handed out.
    pub open spec fn empty() -> IdTable {
        IdTable { top: ROOT_ID, live: Map::empty(), retired: Seq::empty() }
    }

    /// Whether another id can be handed out.
    pub open spec fn has_room(self) -> bool {
        self.top < u32::MAX
    }

    /// Whether `n` more ids can be handed out.
    pub open spec fn has_room_for(self, n: nat) -> bool {
        self.top + n <= u32::MAX
    }

    /// The id that is handed out next.
    pub open spec fn next_id(self) -> Id {
        (self.top + 1) as Id
    }

    /// The table after the next id was handed out for an object of `kind`.
    pub open spec fn allocate(self, kind: WaylandObjectKind) -> IdTable {
        IdTable {
            top: self.next_id(),
            live: self.live.insert(self.next_id(), kind),
            retired: self.retired,
        }
    }

    /// What freeing `id` returns: success if the id is in use, and the
    /// removal failure if it is not.
    pub open spec fn free_outcome(self, id: Id) -> Result<(), WaylandError> {
        if self.live.contains_key(id) {
            Ok(())
        } else {
            Err(WaylandError::IdMapRemovalFail)
        }
    }

    /// The table after `id` was freed; the same table if `id` is not in use.
    pub open spec fn free(self, id: Id) -> IdTable {
        if self.live.contains_key(id) {
            IdTable { top: self.top, live: self.live.remove(id), retired: self.retired.push(id) }
        } else {
            self
        }
    }

    /// The kind of object that `id` denotes, if the id is in use.
    pub open spec fn lookup(self, id: Id) -> Option<WaylandObjectKind> {
        if self.live.contains_key(id) {
            Some(self.live[id])
        } else {
            None
        }
    }

    /// The kind of object to which events from `id` belong: the display for
    /// the root id, else what the table holds.
    pub open spec fn owner(self, id: Id) -> Option<WaylandObjectKind> {
        if id == ROOT_ID {
            Some(WaylandObjectKind::Display)
        } else {
            self.lookup(id)
        }
    }

    /// An id that is handed out is new: it lies above the root id and above
    /// every id that is in use or was freed, and the table stays well formed.
    pub proof fn lemma_allocated_is_fresh(self, kind: WaylandObjectKind)
        requires
            self.wf(),
            self.has_room(),
        ensures
            self.allocate(kind).wf(),
            self.next_id() > ROOT_ID,
            self.next_id() > self.top,
            forall|other: Id| #[trigger] self.live.contains_key(other) ==> other < self.next_id(),
            forall|i: int| 0 <= i < self.retired.len() ==> (#[trigger] self.retired[i]) < self.next_id(),
            self.allocate(kind).lookup(self.next_id()) == Some(kind),
    {
    }

    /// Freeing keeps the table well formed, and an id that was freed
    /// cannot be freed again: the second attempt fails.
    pub proof fn lemma_freed_once(self, id: Id)
        requires
            self.wf(),
        ensures
            self.free(id).wf(),
            self.free(id).free_outcome(id) == Err::<(), WaylandError>(
                WaylandError::IdMapRemovalFail,
            ),
            self.free(id).lookup(id) is None,
    {
        let after = self.free(id);
        assert forall|i: int| 0 <= i < after.retired.len() implies ROOT_ID < (
        #[trigger] after.retired[i]) <= after.top && !after.live.contains_key(
            after.retired[i],
        ) by {
            if i < self.retired.len() {
                assert(after.retired[i] == self.retired[i]);
            }
        }
    }

    /// The root id is never in use, so it cannot be freed.
    pub proof fn lemma_root_is_not_held(self)
        requires
            self.wf(),
        ensures
            self.lookup(ROOT_ID) is None,
            self.free_outcome(ROOT_ID) == Err::<(), WaylandError>(WaylandError::IdMapRemovalFail),
    {
    }
}

/// The table of object ids of one connection.
#[derive(Debug)]
pub struct IdentManager {
    top_id: Id,
    free: Vec<Id>,
    idmap: HashMap<Id, WaylandObjectKind>,
}

impl View for IdentManager {
    type V = IdTable;

    closed spec fn view(&self) -> IdTable {
        IdTable { top: self.top_id, live: self.idmap@, retired: self.free@ }
    }
}

impl IdentManager {
    /// A table in which no id is in use and none was handed out.
    pub fn new() -> (table: Self)
        ensures
            table@ == IdTable::empty(),
            table@.wf(),
    {
        IdentManager { top_id: ROOT_ID, free: Vec::new(), idmap: HashMap::new() }
    }

    /// Whether another id can be handed out.
    pub fn has_room(&self) -> (b: bool)
        ensures
            b == self@.has_room(),
    {
        self.top_id < u32::MAX
    }

    /// Whether `n` more ids can be handed out.
    pub fn has_room_for(&self, n: u32) -> (b: bool)
        ensures
            b == self@.has_room_for(n as nat),
    {
        self.top_id <= u32::MAX - n
    }

    /// Picks the next id, without recording what it denotes.
    fn new_id(&mut self) -> (id: Id)
        requires
            old(self)@.has_room(),
        ensures
            id == old(self)@.next_id(),
            final(self)@ == (IdTable { top: id, ..old(self)@ }),
    {
        self.top_id += 1;
        self.top_id
    }

    /// Hands out an id that was never handed out before, and records that
    /// it denotes an object of `kind`.
    pub fn new_id_registered(&mut self, kind: WaylandObjectKind) -> (id: Id)
        requires
            old(self)@.wf(),
            old(self)@.has_room(),
        ensures
            id == old(self)@.next_id(),
            final(self)@ == old(self)@.allocate(kind),
            final(self)@.wf(),
            id > ROOT_ID,
            !old(self)@.live.contains_key(id),
            !old(self)@.retired.contains(id),
    {
        let id = self.new_id();
        self.idmap.insert(id, kind);
        id
    }

    /// Ends the life of `id`. Fails, and changes nothing, if the id is not
    /// in use: if it was never handed out, or was freed already.
    pub fn free_id(&mut self, id: Id) -> (result: Result<(), WaylandError>)
        requires
            old(self)@.wf(),
        ensures
            result == old(self)@.free_outcome(id),
            final(self)@ == old(self)@.free(id),
            final(self)@.wf(),
    {
        proof {
            old(self)@.lemma_freed_once(id);
        }
        match self.idmap.remove(&id) {
            Some(_) => {
                self.free.push(id);
                Ok(())
            },
            None => {
                assert(self@.live =~= old(self)@.live);
                Err(WaylandError::IdMapRemovalFail)
            },
        }
    }

    /// The kind of object that `id` denotes, if the id is in use.
    pub fn find_obj_by_id(&self, id: Id) -> (found: Option<&WaylandObjectKind>)
        ensures
            match found {
                Some(kind) => self@.lookup(id) == Some(*kind),
                None => self@.lookup(id) is None,
            },
    {
        self.idmap.get(&id)
    }

    /// The kind of object to which events from `id` belong, if any is known.
    pub fn owner_of(&self, id: Id) -> (kind: Option<WaylandObjectKind>)
        ensures
            kind == self@.owner(id),
    {
        if id == ROOT_ID {
            Some(WaylandObjectKind::Display)
        } else {
            match self.idmap.get(&id) {
                Some(kind) => Some(*kind),
                None => None,
            }
        }
    }
}

impl Default for IdentManager {
    fn default() -> (table: Self)
        ensures
            table@ == IdTable::empty(),
            table@.wf(),
    {
        IdentManager::new()
    }
}

/// Whether `after` comes from `before` by handing out one id or by freeing
/// one that is in use.
pub open spec fn is_step(before: IdTable, after: IdTable) -> bool {
    ||| exists|kind: WaylandObjectKind| before.has_room() && after == #[trigger] before.allocate(kind)
    ||| exists|id: Id| before.live.contains_key(id) && after == #[trigger] before.free(id)
}

/// Whether the table at `i + 1` comes from the table at `i` by one step.
pub open spec fn step_at(trace: Seq<IdTable>, i: int) -> bool {
    is_step(trace[i], trace[i + 1])
}

/// Whether `trace` is the life of one table: it begins with the empty
/// table, and each table comes from the one before it by handing out one
/// id or by freeing one.
pub open spec fn is_history(trace: Seq<IdTable>) -> bool {
    &&& trace.len() > 0
    &&& trace[0] == IdTable::empty()
    &&& forall|i: int| 0 <= i < trace.len() - 1 ==> #[trigger] step_at(trace, i)
}

/// Over the life of a table the highest id never falls, and every table is
/// well formed.
pub proof fn lemma_history_keeps_top(trace: Seq<IdTable>, i: int, j: int)
    requires
        is_history(trace),
        0 <= i <= j < trace.len(),
    ensures
        trace[i].wf(),
        trace[j].wf(),
        trace[i].top <= trace[j].top,
    decreases j,
{
    if j > 0 {
        if i < j {
            lemma_history_keeps_top(trace, i, j - 1);
        } else {
            lemma_history_keeps_top(trace, j - 1, j - 1);
        }
        let before = trace[j - 1];
        let after = trace[j];
        assert(step_at(trace, j - 1));
        if exists|kind: WaylandObjectKind|
            before.has_room() && after == #[trigger] before.allocate(kind) {
            let kind = choose|kind: WaylandObjectKind|
                before.has_room() && after == #[trigger] before.allocate(kind);
            before.lemma_allocated_is_fresh(kind);
        } else {
            let id = choose|id: Id| before.live.contains_key(id) && after == #[trigger] before.free(id);
            before.lemma_freed_once(id);
        }
    }
}

/// Ids are handed out in strictly increasing order, all above the root id,
/// whatever is freed in between, and an id that is handed out is not in
/// use at that moment: if the step at `i` and the later step at `j` both
/// hand out an id, the second id is the greater, and the table did not
/// hold it.
pub proof fn lemma_ids_increase(
    trace: Seq<IdTable>,
    i: int,
    j: int,
    first_kind: WaylandObjectKind,
    second_kind: WaylandObjectKind,
)
    requires
        is_history(trace),
        0 <= i < j < trace.len() - 1,
        trace[i].has_room(),
        trace[i + 1] == trace[i].allocate(first_kind),
        trace[j].has_room(),
        trace[j + 1] == trace[j].allocate(second_kind),
    ensures
        ROOT_ID < trace[i].next_id() < trace[j].next_id(),
        !trace[j].live.contains_key(trace[j].next_id()),
        !trace[j].retired.contains(trace[j].next_id()),
{
    lemma_history_keeps_top(trace, i, i);
    lemma_history_keeps_top(trace, i + 1, j);
}

} // verus!
