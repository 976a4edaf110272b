//! The conditions under which the benchmark cannot go on.

use vstd::prelude::*;

verus! {

/// A broken assumption about the run. None of them is recovered from: the driver
/// stops the benchmark with the diagnostic.
#[derive(Clone, Copy, Debug, PartialEq, Eq, Structural)]
pub enum InvariantViolation {
    /// An inbound session arrived although every prepared batch was already claimed.
    UnexpectedInboundSession,
    /// An inbound session arrived under the identifier of one that still waits to be fed.
    RepeatedInboundSession,
    /// A message or a close was refused: its inbound session is no longer live.
    InboundSessionDisappeared,
    /// A query was refused: there is no connection to its peer.
    NoConnectionToPeer,
    /// An event named an outbound session that was never recorded as opened.
    UnknownOutboundSession,
    /// The networking layer reported an event the benchmark has no rule for.
    UnexpectedEvent,
}

impl InvariantViolation {
    /// The diagnostic of each violation.
    pub open spec fn message_text(self) -> Seq<char> {
        match self {
            InvariantViolation::UnexpectedInboundSession => "There are more inbound sessions than expected"@,
            InvariantViolation::RepeatedInboundSession => "An inbound session arrived twice"@,
            InvariantViolation::InboundSessionDisappeared => "An inbound session dissappeared unexpectedly"@,
            InvariantViolation::NoConnectionToPeer => "There's no connection to a peer immediately after we got a ConnectionEstablished event"@,
            InvariantViolation::UnknownOutboundSession => "Received an event on a non-existing outbound session"@,
            InvariantViolation::UnexpectedEvent => "Unexpected event"@,
        }
    }

    /// The diagnostic to stop with.
    pub fn message(&self) -> (text: &'static str)
        ensures
            text@ == self.message_text(),
    {
        match self {
            InvariantViolation::UnexpectedInboundSession => "There are more inbound sessions than expected",
            InvariantViolation::RepeatedInboundSession => "An inbound session arrived twice",
            InvariantViolation::InboundSessionDisappeared => "An inbound session dissappeared unexpectedly",
            InvariantViolation::NoConnectionToPeer => "There's no connection to a peer immediately after we got a ConnectionEstablished event",
            InvariantViolation::UnknownOutboundSession => "Received an event on a non-existing outbound session",
            InvariantViolation::UnexpectedEvent => "Unexpected event",
        }
    }
}

} // verus!
