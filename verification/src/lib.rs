//! Client side of a binary, object-oriented display-server wire protocol.
//!
//! One connection carries many objects. Each has an id; the client sends
//! requests to objects and the server sends events from them. This library
//! turns requests into bytes and bytes into events, keeps the table of
//! object ids, decides to which object each event goes, and builds the
//! barrier on a callback, and on that the bootstrap of the registry and
//! the binding of globals.
//!
//! The library is free of I/O. Requests are queued as datagrams for the
//! caller to write, and the caller hands in what it has read; see
//! [`transport`]. The caller also tells the library the byte order of the
//! machine, which [`endian::ByteOrder::native`] finds out.
//!
//! Where the protocol leaves a choice, the library makes these:
//!
//! - Text and byte arrays go on the wire as they are: without a length in
//!   front, without a terminator, and without padding to whole words. A
//!   reader finds their end through the schema alone, so a message in
//!   which text follows text cannot be read back; see [`wire`].
//! - An object id is never handed out twice, whether it was freed or not;
//!   see [`ident`].
//! - A message that does not fit the schema of its sender's kind is kept
//!   as raw bytes rather than dropped; see [`transport`].

pub mod ancillary;
pub mod buffer;
pub mod compositor;
pub mod context;
pub mod display;
pub mod endian;
pub mod error;
pub mod ident;
pub mod registry;
pub mod shm;
pub mod surface;
pub mod text;
pub mod transport;
pub mod wire;
pub mod xdgshell;
