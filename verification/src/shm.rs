//! Shared memory: pixel formats, pools and the buffers cut from them.
//!
//! The memory itself is the caller's to open, to size and to unlink. The
//! library takes the descriptor of the opened segment and tells the server
//! about it.

use vstd::prelude::*;
use crate::buffer::Buffer;
use crate::context::Context;
use crate::display::Display;
use crate::error::WaylandError;
use crate::ident::WaylandObjectKind;
use crate::registry::Registry;
use crate::wire::{ArgValue, Id, MessageValue, OpCode, WireArgument, WireMessage};

verus! {

/// The opcode of the request that creates a pool.
pub const CREATE_POOL: OpCode = 0;

/// The opcode of the request that creates a buffer in a pool.
pub const CREATE_BUFFER: OpCode = 0;

/// The opcode of the request that destroys a pool.
pub const DESTROY_POOL: OpCode = 1;

/// The version of the shared memory interface that the client binds.
pub const VERSION: u32 = 1;

/// How the pixels of a buffer are laid out.
#[derive(Copy, Clone, PartialEq, Eq, Hash, Debug, Structural)]
pub enum PixelFormat {
    Argb888,
    Xrgb888,
}

impl PixelFormat {
    /// The number that stands for the format on the wire.
    pub open spec fn code(self) -> u32 {
        match self {
            PixelFormat::Argb888 => 0,
            PixelFormat::Xrgb888 => 1,
        }
    }

    /// The format that a number stands for, if it stands for one.
    pub open spec fn of_code(code: u32) -> Option<PixelFormat> {
        if code == 0 {
            Some(PixelFormat::Argb888)
        } else if code == 1 {
            Some(PixelFormat::Xrgb888)
        } else {
            None
        }
    }

    /// The format that a number on the wire stands for.
    pub fn from_u32(processee: u32) -> (result: Result<PixelFormat, WaylandError>)
        ensures
            result == match Self::of_code(processee) {
                Some(format) => Ok::<PixelFormat, WaylandError>(format),
                None => Err(WaylandError::InvalidPixelFormat),
            },
    {
        match processee {
            0 => Ok(PixelFormat::Argb888),
            1 => Ok(PixelFormat::Xrgb888),
            _ => Err(WaylandError::InvalidPixelFormat),
        }
    }

    /// The number that stands for the format on the wire.
    pub fn to_u32(self) -> (code: u32)
        ensures
            code == self.code(),
            Self::of_code(code) == Some(self),
    {
        match self {
            PixelFormat::Argb888 => 0,
            PixelFormat::Xrgb888 => 1,
        }
    }
}

/// The formats that the arguments of an event name: every format whose
/// number stands among them as an unsigned number.
pub open spec fn formats_in(args: Seq<ArgValue>) -> Set<PixelFormat> {
    Set::new(
        |format: PixelFormat|
            exists|i: int| 0 <= i < args.len() && #[trigger] args[i] == ArgValue::UnInt(format.code()),
    )
}

/// What a shared memory object holds.
pub struct ShmState {
    /// The id of the object.
    pub id: Id,
    /// The pixel formats that the server has announced.
    pub formats: Set<PixelFormat>,
}

impl ShmState {
    /// What comes of an event: the formats that an event of this object
    /// names are known from then on; other events change nothing.
    pub open spec fn handle(self, event: MessageValue) -> ShmState {
        if event.sender_id == self.id {
            ShmState { id: self.id, formats: self.formats.union(formats_in(event.args)) }
        } else {
            self
        }
    }
}

/// The shared memory object of the server.
#[derive(Debug)]
pub struct SharedMemory {
    id: Id,
    valid_pix_formats: Vec<PixelFormat>,
}

impl View for SharedMemory {
    type V = ShmState;

    closed spec fn view(&self) -> ShmState {
        ShmState {
            id: self.id,
            formats: Set::new(|format: PixelFormat| self.valid_pix_formats@.contains(format)),
        }
    }
}

impl SharedMemory {
    /// The request that creates a pool under the id `pool`, over the
    /// memory behind the descriptor `fd`, `size` bytes long.
    pub open spec fn create_pool_request(shm: Id, pool: Id, fd: i32, size: i32) -> MessageValue {
        MessageValue {
            sender_id: shm,
            opcode: CREATE_POOL,
            args: seq![ArgValue::NewId(pool), ArgValue::FileDescriptor(fd), ArgValue::Int(size)],
        }
    }

    /// A shared memory object under the given id, of which no format is
    /// known yet.
    pub fn new(id: Id) -> (shm: Self)
        ensures
            shm@ == (ShmState { id, formats: Set::empty() }),
    {
        let shm = Self { id, valid_pix_formats: Vec::new() };
        assert(shm@.formats =~= Set::<PixelFormat>::empty());
        shm
    }

    /// The id of the object.
    pub fn id(&self) -> (id: Id)
        ensures
            id == self@.id,
    {
        self.id
    }

    /// Whether the server has announced the format.
    pub fn supports(&self, pf: PixelFormat) -> (known: bool)
        ensures
            known == self@.formats.contains(pf),
    {
        let mut i: usize = 0;
        while i < self.valid_pix_formats.len()
            invariant
                i <= self.valid_pix_formats@.len(),
                forall|j: int| 0 <= j < i ==> self.valid_pix_formats@[j] != pf,
            decreases self.valid_pix_formats@.len() - i,
        {
            if self.valid_pix_formats[i] == pf {
                return true;
            }
            i += 1;
        }
        false
    }

    /// Records that the server has announced the format.
    fn push_pix_format(&mut self, pf: PixelFormat)
        ensures
            final(self)@ == (ShmState { id: old(self)@.id, formats: old(self)@.formats.insert(pf) }),
    {
        if !self.supports(pf) {
            let ghost before = self.valid_pix_formats@;
            self.valid_pix_formats.push(pf);
            assert forall|format: PixelFormat|
                self.valid_pix_formats@.contains(format) <==> (before.contains(format) || format
                    == pf) by {
                if before.contains(format) {
                    let j = choose|j: int| 0 <= j < before.len() && before[j] == format;
                    assert(self.valid_pix_formats@[j] == format);
                }
                if format == pf {
                    assert(self.valid_pix_formats@[before.len() as int] == pf);
                }
            }
        }
        assert(self@.formats =~= old(self)@.formats.insert(pf));
    }

    /// Takes a new id, binds the server's shared memory object to it, and
    /// asks for a barrier behind the binding: the formats are announced
    /// before the barrier's callback answers. Returns the object, of which
    /// no format is known yet, and the id of the callback.
    pub fn new_bound(display: &mut Display, registry: &mut Registry, ctx: &mut Context) -> (result:
        Result<(Self, Id), WaylandError>)
        requires
            old(ctx)@.wf(),
            old(ctx)@.room_for(2),
        ensures
            final(registry)@ == old(registry)@,
            final(display).id == old(display).id,
            final(ctx)@.wf(),
            final(ctx)@ == old(registry)@.bind_and_sync(
                old(ctx)@,
                old(display).id,
                WaylandObjectKind::SharedMemory,
                VERSION,
            ),
            match old(registry)@.bind_and_sync_outcome(
                old(ctx)@,
                old(display).id,
                WaylandObjectKind::SharedMemory,
                VERSION,
            ) {
                Ok(ids) => result is Ok && result->Ok_0.1 == ids.1 && result->Ok_0.0@ == (ShmState {
                    id: ids.0,
                    formats: Set::empty(),
                }),
                Err(e) => result is Err && result->Err_0 == e,
            },
    {
        match registry.bind_and_sync(display, ctx, WaylandObjectKind::SharedMemory, VERSION) {
            Ok((id, cbid)) => Ok((Self::new(id), cbid)),
            Err(e) => Err(e),
        }
    }

    /// Handles one event: takes in the formats that an event of this
    /// object names. Numbers that stand for no format are passed over.
    pub fn handle(&mut self, event: &WireMessage)
        ensures
            final(self)@ == old(self)@.handle(event@),
    {
        if event.sender_id != self.id {
            return ;
        }
        let ghost args = event@.args;
        let ghost known = self@.formats;
        let mut i: usize = 0;
        assert(known.union(formats_in(args.take(0))) =~= known);
        while i < event.args.len()
            invariant
                i <= event.args@.len(),
                args == event@.args,
                self@.id == old(self)@.id,
                known == old(self)@.formats,
                self@.formats == known.union(formats_in(args.take(i as int))),
            decreases event.args@.len() - i,
        {
            let ghost shorter = args.take(i as int);
            let ghost longer = args.take(i + 1);
            let ghost here = args[i as int];
            assert(here == event.args@[i as int]@);
            assert forall|format: PixelFormat|
                formats_in(longer).contains(format) <==> (formats_in(shorter).contains(format)
                    || here == ArgValue::UnInt(format.code())) by {
                if formats_in(longer).contains(format) {
                    let j = choose|j: int|
                        0 <= j < longer.len() && #[trigger] longer[j] == ArgValue::UnInt(
                            format.code(),
                        );
                    if j < i {
                        assert(shorter[j] == longer[j]);
                    }
                }
                if formats_in(shorter).contains(format) {
                    let j = choose|j: int|
                        0 <= j < shorter.len() && #[trigger] shorter[j] == ArgValue::UnInt(
                            format.code(),
                        );
                    assert(longer[j] == shorter[j]);
                }
                if here == ArgValue::UnInt(format.code()) {
                    assert(longer[i as int] == here);
                }
            }
            match &event.args[i] {
                WireArgument::UnInt(x) => {
                    match PixelFormat::from_u32(*x) {
                        Ok(pf) => {
                            self.push_pix_format(pf);
                            assert(self@.formats =~= known.union(formats_in(longer)));
                        },
                        Err(_) => {
                            assert(self@.formats =~= known.union(formats_in(longer)));
                        },
                    }
                },
                _ => {
                    assert(self@.formats =~= known.union(formats_in(longer)));
                },
            }
            i += 1;
        }
        assert(args.take(i as int) =~= args);
    }

    /// Takes a new id and tells the server to make a pool under it, over
    /// the memory behind `fd`. Returns the id of the pool. The id is taken
    /// even where the request cannot be sent.
    pub fn wl_create_pool(&self, ctx: &mut Context, fd: i32, size: i32) -> (result: Result<
        Id,
        WaylandError,
    >)
        requires
            old(ctx)@.wf(),
            old(ctx)@.room(),
        ensures
            final(ctx)@.wf(),
            ({
                let id = old(ctx)@.next_id();
                let state = old(ctx)@.allocate(WaylandObjectKind::SharedMemoryPool);
                let request = Self::create_pool_request(self@.id, id, fd, size);
                &&& final(ctx)@ == state.send(request)
                &&& result == crate::context::after_send(state.send_outcome(request), id)
            }),
    {
        let id = ctx.new_id_registered(WaylandObjectKind::SharedMemoryPool);
        let mut args: Vec<WireArgument> = Vec::new();
        args.push(WireArgument::NewId(id));
        args.push(WireArgument::FileDescriptor(fd));
        args.push(WireArgument::Int(size));
        let request = WireMessage { sender_id: self.id, opcode: CREATE_POOL, args };
        assert(request@.args =~= seq![
            ArgValue::NewId(id),
            ArgValue::FileDescriptor(fd),
            ArgValue::Int(size),
        ]);
        match ctx.send_request(&request) {
            Ok(()) => Ok(id),
            Err(e) => Err(e),
        }
    }

    /// Makes a pool over the memory that the caller has opened under
    /// `name` and sized to `size` bytes, and whose descriptor is `fd`.
    pub fn make_pool(&self, ctx: &mut Context, name: String, size: i32, fd: i32) -> (result: Result<
        SharedMemoryPool,
        WaylandError,
    >)
        requires
            old(ctx)@.wf(),
            old(ctx)@.room(),
        ensures
            final(ctx)@.wf(),
            ({
                let id = old(ctx)@.next_id();
                let state = old(ctx)@.allocate(WaylandObjectKind::SharedMemoryPool);
                let request = Self::create_pool_request(self@.id, id, fd, size);
                &&& final(ctx)@ == state.send(request)
                &&& match state.send_outcome(request) {
                    Ok(_) => result is Ok && result->Ok_0@ == (PoolState {
                        id,
                        name: name@,
                        size,
                        fd,
                    }),
                    Err(e) => result is Err && result->Err_0 == e,
                }
            }),
    {
        match self.wl_create_pool(ctx, fd, size) {
            Ok(id) => Ok(SharedMemoryPool::new(id, name, size, fd)),
            Err(e) => Err(e),
        }
    }
}

/// What a pool holds.
pub struct PoolState {
    /// The id of the pool.
    pub id: Id,
    /// The name under which the memory was opened.
    pub name: Seq<char>,
    /// The length of the memory in bytes.
    pub size: i32,
    /// The descriptor of the memory.
    pub fd: i32,
}

/// A pool: a piece of shared memory that the server knows of.
#[derive(Debug)]
pub struct SharedMemoryPool {
    id: Id,
    name: String,
    size: i32,
    fd: i32,
}

impl View for SharedMemoryPool {
    type V = PoolState;

    closed spec fn view(&self) -> PoolState {
        PoolState { id: self.id, name: self.name@, size: self.size, fd: self.fd }
    }
}

impl SharedMemoryPool {
    /// The request that creates a buffer in the pool.
    pub open spec fn create_buffer_request(
        pool: Id,
        buffer: Id,
        offset: i32,
        width: i32,
        height: i32,
        stride: i32,
        format: PixelFormat,
    ) -> MessageValue {
        MessageValue {
            sender_id: pool,
            opcode: CREATE_BUFFER,
            args: seq![
                ArgValue::NewId(buffer),
                ArgValue::Int(offset),
                ArgValue::Int(width),
                ArgValue::Int(height),
                ArgValue::Int(stride),
                ArgValue::UnInt(format.code()),
            ],
        }
    }

    /// The request that destroys the pool.
    pub open spec fn destroy_request(pool: Id) -> MessageValue {
        MessageValue { sender_id: pool, opcode: DESTROY_POOL, args: seq![] }
    }

    /// A pool under the given id.
    pub fn new(id: Id, name: String, size: i32, fd: i32) -> (pool: Self)
        ensures
            pool@ == (PoolState { id, name: name@, size, fd }),
    {
        Self { id, name, size, fd }
    }

    /// The id of the pool.
    pub fn id(&self) -> (id: Id)
        ensures
            id == self@.id,
    {
        self.id
    }

    /// The name under which the memory was opened.
    pub fn name(&self) -> (name: &str)
        ensures
            name@ == self@.name,
    {
        self.name.as_str()
    }

    /// The length of the memory in bytes.
    pub fn size(&self) -> (size: i32)
        ensures
            size == self@.size,
    {
        self.size
    }

    /// The descriptor of the memory.
    pub fn fd(&self) -> (fd: i32)
        ensures
            fd == self@.fd,
    {
        self.fd
    }

    /// Takes a new id and tells the server to make a buffer under it.
    /// Returns the id of the buffer. The id is taken even where the
    /// request cannot be sent.
    pub fn wl_create_buffer(
        &self,
        ctx: &mut Context,
        geometry: (i32, i32, i32, i32),
        format: PixelFormat,
    ) -> (result: Result<u32, WaylandError>)
        requires
            old(ctx)@.wf(),
            old(ctx)@.room(),
        ensures
            final(ctx)@.wf(),
            ({
                let id = old(ctx)@.next_id();
                let state = old(ctx)@.allocate(WaylandObjectKind::Buffer);
                let request = Self::create_buffer_request(
                    self@.id,
                    id,
                    geometry.0,
                    geometry.1,
                    geometry.2,
                    geometry.3,
                    format,
                );
                &&& final(ctx)@ == state.send(request)
                &&& result == crate::context::after_send(state.send_outcome(request), id)
            }),
    {
        let (offset, width, height, stride) = geometry;
        let id = ctx.new_id_registered(WaylandObjectKind::Buffer);
        let mut args: Vec<WireArgument> = Vec::new();
        args.push(WireArgument::NewId(id));
        args.push(WireArgument::Int(offset));
        args.push(WireArgument::Int(width));
        args.push(WireArgument::Int(height));
        args.push(WireArgument::Int(stride));
        args.push(WireArgument::UnInt(format.to_u32()));
        let request = WireMessage { sender_id: self.id, opcode: CREATE_BUFFER, args };
        assert(request@.args =~= seq![
            ArgValue::NewId(id),
            ArgValue::Int(offset),
            ArgValue::Int(width),
            ArgValue::Int(height),
            ArgValue::Int(stride),
            ArgValue::UnInt(format.code()),
        ]);
        match ctx.send_request(&request) {
            Ok(()) => Ok(id),
            Err(e) => Err(e),
        }
    }

    /// Makes a buffer in the pool.
    pub fn make_buffer(
        &self,
        ctx: &mut Context,
        geometry: (i32, i32, i32, i32),
        format: PixelFormat,
    ) -> (result: Result<Buffer, WaylandError>)
        requires
            old(ctx)@.wf(),
            old(ctx)@.room(),
        ensures
            final(ctx)@.wf(),
            ({
                let id = old(ctx)@.next_id();
                let state = old(ctx)@.allocate(WaylandObjectKind::Buffer);
                let request = Self::create_buffer_request(
                    self@.id,
                    id,
                    geometry.0,
                    geometry.1,
                    geometry.2,
                    geometry.3,
                    format,
                );
                &&& final(ctx)@ == state.send(request)
                &&& match state.send_outcome(request) {
                    Ok(_) => result is Ok && result->Ok_0 == (Buffer {
                        id,
                        offset: geometry.0,
                        width: geometry.1,
                        height: geometry.2,
                        stride: geometry.3,
                        format,
                    }),
                    Err(e) => result is Err && result->Err_0 == e,
                }
            }),
    {
        let (offset, width, height, stride) = geometry;
        match self.wl_create_buffer(ctx, geometry, format) {
            Ok(id) => Ok(Buffer { id, offset, width, height, stride, format }),
            Err(e) => Err(e),
        }
    }

    /// Sends the request that destroys the pool.
    pub fn wl_destroy(&self, ctx: &mut Context) -> (result: Result<(), WaylandError>)
        ensures
            result == old(ctx)@.send_outcome(Self::destroy_request(self@.id)),
            final(ctx)@ == old(ctx)@.send(Self::destroy_request(self@.id)),
    {
        let request = WireMessage { sender_id: self.id, opcode: DESTROY_POOL, args: Vec::new() };
        assert(request@.args =~= seq![]);
        ctx.send_request(&request)
    }

    /// Destroys the pool: sends the request that destroys it, and only
    /// then frees its id. The memory stays the caller's to unlink.
    pub fn destroy(&self, ctx: &mut Context) -> (result: Result<(), WaylandError>)
        requires
            old(ctx)@.wf(),
        ensures
            result == old(ctx)@.retire_outcome(Self::destroy_request(self@.id), self@.id),
            final(ctx)@ == old(ctx)@.retire(Self::destroy_request(self@.id), self@.id),
            final(ctx)@.wf(),
    {
        let request = WireMessage { sender_id: self.id, opcode: DESTROY_POOL, args: Vec::new() };
        assert(request@.args =~= seq![]);
        ctx.retire(&request, self.id)
    }
}

} // verus!
