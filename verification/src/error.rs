//! What can go wrong on a connection.

use vstd::prelude::*;

verus! {

/// The kinds of failure.
#[derive(Debug, Clone, Copy, PartialEq, Eq, Structural)]
pub enum Error {
    /// A malformed head: a bad method, target, version, status or header
    /// field, or a head that is too large.
    Parse,
    /// A body whose framing cannot be told from the head, or whose bytes
    /// break the framing that the head announced.
    Framing,
    /// A version of the protocol that the connection does not speak.
    Version,
    /// The transport failed.
    Io,
    /// A frame that the state of the connection does not allow.
    InvalidInput,
    /// The connection is closed.
    Closed,
}

} // verus!
