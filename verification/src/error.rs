//! The errors that the library reports.

use vstd::prelude::*;

verus! {

/// What went wrong on the serial line itself.
#[derive(Clone, Copy, Debug, PartialEq, Eq, Structural)]
pub enum TransportFault {
    /// The port could not be opened.
    OpenFailed,
    /// Fewer bytes were written than were handed over.
    ShortWrite,
    /// Nothing arrived within the read timeout.
    Timeout,
    /// The handle is closed.
    Closed,
}

#[derive(Clone, Copy, Debug, PartialEq, Eq, Structural)]
pub enum Error {
    /// The serial line failed.
    Transport(TransportFault),
    /// A frame could not be decoded, carried an unexpected tag, or a field of
    /// it could not be read.
    Protocol,
    /// The device answered something else where `ok` was required.
    Device,
    /// An image could not be decoded or encoded, or has the wrong size.
    Image,
    /// The configuration is unusable.
    Config,
    /// The operation does not fit the state of the session.
    State,
}

} // verus!
