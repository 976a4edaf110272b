//! The timing of one outbound session, from the query to the end of its stream.
//!
//! Times are readings of a monotonic clock in nanoseconds, taken by the driver.

use vstd::prelude::*;
use crate::feeder::InboundSessionStart;

verus! {

/// What is known of an outbound session. The three optional fields are set
/// together, by the first stream-start message, and never again.
#[derive(Clone, Copy, Debug, PartialEq, Eq, Structural)]
pub struct OutboundSessionMeasurement {
    pub start_time: u64,
    pub first_message_time: Option<u64>,
    pub num_messages: Option<u64>,
    pub message_size: Option<u64>,
}

/// The figures of a session that received its stream-start message.
#[derive(Clone, Copy, Debug, PartialEq, Eq, Structural)]
pub struct Throughput {
    pub num_messages: u64,
    pub message_size: u64,
    /// The bytes of all messages together.
    pub total_bytes: u128,
    /// Nanoseconds from the opening of the session to its end.
    pub elapsed: u64,
    /// Nanoseconds from the stream-start message to the end of the session.
    pub messages_elapsed: u64,
}

/// What there is to report when an outbound session has finished.
#[derive(Clone, Copy, Debug, PartialEq, Eq, Structural)]
pub enum SessionSummary {
    /// The session finished without a stream-start message: there are no times to show.
    NoMessages,
    Finished(Throughput),
}

/// The time from `earlier` to `later`, zero where the clock was read out of order.
pub open spec fn elapsed_between(earlier: u64, later: u64) -> u64 {
    if later >= earlier {
        (later - earlier) as u64
    } else {
        0
    }
}

/// The time from `earlier` to `later`, zero where the clock was read out of order.
pub fn elapsed(earlier: u64, later: u64) -> (nanos: u64)
    ensures
        nanos == elapsed_between(earlier, later),
{
    if later >= earlier {
        later - earlier
    } else {
        0
    }
}

impl OutboundSessionMeasurement {
    /// The optional fields are all set or all unset.
    pub open spec fn well_formed(&self) -> bool {
        &&& self.first_message_time.is_some() == self.num_messages.is_some()
        &&& self.first_message_time.is_some() == self.message_size.is_some()
    }

    /// The clock was read in order: the first message, if there was one, is not
    /// dated before the opening of the session. A monotonic clock reads so.
    pub open spec fn read_in_order(&self) -> bool {
        self.first_message_time matches Some(first) ==> first >= self.start_time
    }

    /// The measurement after a stream-start message read at `now`: unchanged if one
    /// was recorded before; else the message's figures and the time.
    pub open spec fn with_first_message(
        self,
        now: u64,
        inbound_session_start: InboundSessionStart,
    ) -> OutboundSessionMeasurement {
        if self.first_message_time.is_some() {
            self
        } else {
            OutboundSessionMeasurement {
                start_time: self.start_time,
                first_message_time: Some(now),
                num_messages: Some(inbound_session_start.num_messages),
                message_size: Some(inbound_session_start.message_size),
            }
        }
    }

    /// The report of a session that finished at `now`.
    pub open spec fn summary_at(self, now: u64) -> SessionSummary {
        if self.first_message_time.is_some() {
            SessionSummary::Finished(
                Throughput {
                    num_messages: self.num_messages.unwrap(),
                    message_size: self.message_size.unwrap(),
                    total_bytes: (self.num_messages.unwrap() * self.message_size.unwrap()) as u128,
                    elapsed: elapsed_between(self.start_time, now),
                    messages_elapsed: elapsed_between(self.first_message_time.unwrap(), now),
                },
            )
        } else {
            SessionSummary::NoMessages
        }
    }

    /// The measurement of a session opened at `now`, before any message.
    pub open spec fn new_at(now: u64) -> OutboundSessionMeasurement {
        OutboundSessionMeasurement {
            start_time: now,
            first_message_time: None,
            num_messages: None,
            message_size: None,
        }
    }

    /// The measurement of a session opened at `now`.
    pub fn new(now: u64) -> (measurement: Self)
        ensures
            measurement == Self::new_at(now),
            measurement.well_formed(),
    {
        OutboundSessionMeasurement {
            start_time: now,
            first_message_time: None,
            num_messages: None,
            message_size: None,
        }
    }

    /// Records the stream-start message of the session, read at `now`. Only the
    /// first one of a session counts: a later one changes nothing.
    pub fn report_first_message(&mut self, now: u64, inbound_session_start: InboundSessionStart)
        requires
            old(self).well_formed(),
        ensures
            *final(self) == old(self).with_first_message(now, inbound_session_start),
            final(self).well_formed(),
            final(self).first_message_time.is_some(),
            old(self).first_message_time.is_some() ==> *final(self) == *old(self),
    {
        if self.first_message_time.is_none() {
            self.first_message_time = Some(now);
            self.num_messages = Some(inbound_session_start.num_messages);
            self.message_size = Some(inbound_session_start.message_size);
        }
    }

    /// The report of the session, finished at `now`. A session without a
    /// stream-start message has no times to divide by and reports `NoMessages`.
    /// Otherwise, on a clock read in order, the whole session did not take less
    /// time than its messages did.
    pub fn summary(&self, now: u64) -> (summary: SessionSummary)
        requires
            self.well_formed(),
        ensures
            summary == self.summary_at(now),
            summary is NoMessages <==> self.first_message_time.is_none(),
            summary matches SessionSummary::Finished(t) ==> t.total_bytes == t.num_messages
                * t.message_size,
            summary matches SessionSummary::Finished(t) ==> (self.read_in_order() ==> t.elapsed
                >= t.messages_elapsed),
    {
        match (self.first_message_time, self.num_messages, self.message_size) {
            (Some(first_message_time), Some(num_messages), Some(message_size)) => {
                assert(num_messages * message_size <= u128::MAX) by (nonlinear_arith)
                    requires
                        num_messages <= u64::MAX,
                        message_size <= u64::MAX,
                ;
                let count: u128 = num_messages as u128;
                let size: u128 = message_size as u128;
                SessionSummary::Finished(
                    Throughput {
                        num_messages,
                        message_size,
                        total_bytes: count * size,
                        elapsed: elapsed(self.start_time, now),
                        messages_elapsed: elapsed(first_message_time, now),
                    },
                )
            },
            _ => SessionSummary::NoMessages,
        }
    }
}

/// The optional fields of a measurement are set together and only once: after
/// one stream-start message they are all set, and a second message, whatever it
/// holds and whenever it comes, changes nothing.
pub proof fn lemma_first_message_counts_once(
    measurement: OutboundSessionMeasurement,
    now: u64,
    first: InboundSessionStart,
    later: u64,
    second: InboundSessionStart,
)
    requires
        measurement.well_formed(),
    ensures
        measurement.with_first_message(now, first).well_formed(),
        measurement.with_first_message(now, first).first_message_time.is_some(),
        measurement.with_first_message(now, first).num_messages.is_some(),
        measurement.with_first_message(now, first).message_size.is_some(),
        measurement.with_first_message(now, first).with_first_message(later, second)
            == measurement.with_first_message(now, first),
{
}

/// A finished session that received its stream-start message did not take less
/// time as a whole than its messages took, on a clock that was read in order.
pub proof fn lemma_session_outlasts_messages(measurement: OutboundSessionMeasurement, now: u64)
    requires
        measurement.well_formed(),
        measurement.read_in_order(),
    ensures
        measurement.summary_at(now) matches SessionSummary::Finished(t) ==> t.elapsed
            >= t.messages_elapsed,
{
}

} // verus!
