//! Failures reported by the codec.

use vstd::prelude::*;

verus! {

/// The two ways an operation of this crate can fail.
#[derive(Clone, Copy, Debug, PartialEq, Eq, Structural)]
pub enum Error {
    /// A read or write on the byte stream did not complete as requested:
    /// the stream ended early, or a frame header announced an impossible size.
    SocketError,
    /// The parameter list of a startup frame is malformed.
    ClientBadStartup,
}

} // verus!
