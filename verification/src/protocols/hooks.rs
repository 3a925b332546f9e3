//! Traffic direction, as seen by interception hooks.
use vstd::prelude::*;

verus! {

/// The handle of an interception hook. The hooks themselves run outside the
/// library; a protocol carries the handles of the hooks attached to it.
pub type HookId = u64;

/// The direction of captured traffic.
#[derive(Debug, Clone, Copy, PartialEq, Eq, Structural)]
pub enum Direction {
    /// Data flowing from the client to the backend.
    Inbound,
    /// Data flowing from the backend to the client.
    Outbound,
}

} // verus!
