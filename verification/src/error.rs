//! The failures that the operations of this library report.

use vstd::prelude::*;

verus! {

/// Every way in which an operation of the library can fail.
#[derive(Debug, Clone, Copy, PartialEq, Eq, Structural)]
pub enum WaylandError {
    /// Bytes or arguments do not have the shape that was asked for.
    ParseError,
    /// A declared message length does not fit the bytes at hand.
    RecvLenBad,
    /// A bind was asked for an interface that the server never announced.
    NotInRegistry,
    /// An id was freed that is not registered.
    IdMapRemovalFail,
    /// An event names an object of which no kind is known.
    ObjectNonExistent,
    /// A pixel format value outside the known set.
    InvalidPixelFormat,
    /// The connection failed earlier; it stays unusable.
    Disconnected,
}

impl WaylandError {
    /// The text that describes the error to a person.
    pub open spec fn message(self) -> Seq<char> {
        match self {
            WaylandError::ParseError => "parse error"@,
            WaylandError::RecvLenBad => "received len is bad"@,
            WaylandError::NotInRegistry => "given name was not found in the registry hashmap"@,
            WaylandError::IdMapRemovalFail => "failed to remove from id man map"@,
            WaylandError::ObjectNonExistent => "object non existent"@,
            WaylandError::InvalidPixelFormat => "an invalid pixel format has been recved"@,
            WaylandError::Disconnected => "connection is closed"@,
        }
    }

    /// Renders the error as text.
    pub fn to_string(&self) -> (text: String)
        ensures
            text@ == self.message(),
    {
        let literal: &'static str = match self {
            WaylandError::ParseError => "parse error",
            WaylandError::RecvLenBad => "received len is bad",
            WaylandError::NotInRegistry => "given name was not found in the registry hashmap",
            WaylandError::IdMapRemovalFail => "failed to remove from id man map",
            WaylandError::ObjectNonExistent => "object non existent",
            WaylandError::InvalidPixelFormat => "an invalid pixel format has been recved",
            WaylandError::Disconnected => "connection is closed",
        };
        literal.to_owned()
    }
}

} // verus!
