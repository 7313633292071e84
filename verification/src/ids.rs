//! Identity tokens. Each is an opaque number that its issuer hands out
//! once; the engine only ever compares them for equality.

use vstd::prelude::*;

verus! {

/// Identifies one client connection.
#[derive(Clone, Copy, Debug, PartialEq, Eq, Hash, Structural)]
pub struct ConnId(pub usize);

/// Identifies one request of a connection. Zero is what clients that do
/// not multiplex send.
#[derive(Clone, Copy, Debug, PartialEq, Eq, Hash, Structural)]
pub struct RequestId(pub u64);

/// Identifies one subscription of a region by a request.
#[derive(Clone, Copy, Debug, PartialEq, Eq, Hash, Structural)]
pub struct DownstreamId(pub usize);

/// Identifies one observation epoch of a region. A region that is captured
/// again after its delegate was torn down gets a new one, so that messages
/// about the earlier epoch can be told apart and dropped.
#[derive(Clone, Copy, Debug, PartialEq, Eq, Hash, Structural)]
pub struct ObserveId(pub u64);

} // verus!
