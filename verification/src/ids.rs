//! Identifiers of sessions, as the networking layer hands them out.

use vstd::prelude::*;

verus! {

/// A session that the local node opened by sending a query.
#[derive(Clone, Copy, Debug, PartialEq, Eq, Hash, Structural)]
pub struct OutboundSessionId {
    pub value: usize,
}

/// A session that a peer opened on the local node.
#[derive(Clone, Copy, Debug, PartialEq, Eq, Hash, Structural)]
pub struct InboundSessionId {
    pub value: usize,
}

/// A session of either direction.
#[derive(Clone, Copy, Debug, PartialEq, Eq, Hash, Structural)]
pub enum SessionId {
    OutboundSessionId(OutboundSessionId),
    InboundSessionId(InboundSessionId),
}

} // verus!
