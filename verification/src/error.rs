//! The library's error type.
use vstd::prelude::*;

verus! {

/// Why a packet could not be handled.
#[derive(Clone, Copy, Debug, PartialEq, Eq, Structural)]
pub enum SilkError {
    /// The request is valid but not one that this codec covers.
    Unsupported,
    /// The packet, or the parameters that describe it, contradict the format.
    MalformedPacket,
    /// The coded packet does not fit in the storage it was given.
    OutOfStorage,
}

} // verus!
