//! The event dispatcher: one event of the networking layer at a time goes to the
//! gate, the feeder or the table of measurements, and comes back as the
//! reaction that the driver carries out.

use std::collections::HashMap;
use vstd::prelude::*;
use crate::error::InvariantViolation;
use crate::feeder::{prepare_batches, FeedAction, InboundFeeder, InboundSessionStart, SlotModel, filler};
use crate::gate::{ConnectionGate, Query};
use crate::ids::{InboundSessionId, OutboundSessionId, SessionId};
use crate::measurement::{OutboundSessionMeasurement, SessionSummary};

verus! {

broadcast use vstd::std_specs::hash::group_hash_axioms;

/// The settings of a run.
#[derive(Clone, Copy, Debug, PartialEq, Eq, Structural)]
pub struct Config {
    /// Whether an address to dial was given. Without one the node waits to be
    /// dialed and never dials, not even after a failed connection.
    pub dial: bool,
    pub num_expected_inbound_sessions: usize,
    pub num_expected_connections: usize,
    pub num_queries_per_connection: u64,
    pub num_messages_per_session: u64,
    pub message_size: u64,
}

/// Why a session ended abnormally.
#[derive(Clone, Copy, Debug, PartialEq, Eq, Structural)]
pub enum SessionError {
    ConnectionClosed,
    IOError,
}

/// What the networking layer reports.
#[derive(Clone, Copy, Debug, PartialEq, Eq)]
pub enum Event<P> {
    ConnectionEstablished { peer: P },
    OutgoingConnectionError,
    NewInboundSession { inbound_session_id: InboundSessionId },
    /// Data arrived on an outbound session; `start` holds the stream-start message
    /// if the data is one.
    ReceivedData { outbound_session_id: OutboundSessionId, start: Option<InboundSessionStart> },
    SessionFinishedSuccessfully { session_id: SessionId },
    SessionFailed { session_id: SessionId, error: SessionError },
    NewListenAddr,
    IncomingConnection,
    ConnectionClosed,
    /// Any other event.
    Other,
}

/// What the driver does after an event.
#[derive(Clone, Debug, PartialEq, Eq)]
pub enum Reaction<P> {
    Nothing,
    /// Dial the configured address once.
    Dial,
    /// Send each query to its peer, in order, and tell the dispatcher of each
    /// session that this opens.
    SendQueries(Vec<Query<P>>),
    /// Make each call on its inbound session, in order.
    Feed(Vec<FeedAction>),
    /// Show the report of a finished outbound session.
    Report(SessionSummary),
    /// Note that a session failed. Nothing else is done about it.
    SessionFailed { session_id: SessionId, error: SessionError },
}

/// The state of a run.
pub struct Dispatcher<P> {
    pub gate: ConnectionGate<P>,
    pub feeder: InboundFeeder,
    /// The measurement of every outbound session opened so far, by its identifier.
    /// An entry stays in the table after its session was reported.
    pub measurements: HashMap<usize, OutboundSessionMeasurement>,
    pub connected_in_the_past: bool,
    pub dial: bool,
}

impl<P: Copy> Dispatcher<P> {
    /// Every measurement in the table is well formed, and so is the feeder.
    pub open spec fn well_formed(&self) -> bool {
        &&& self.feeder.well_formed()
        &&& forall|id: usize| #[trigger]
            self.measurements@.contains_key(id) ==> self.measurements@[id].well_formed()
    }

    /// How the dispatcher `after` an event read at `now`, and the outcome, follow
    /// from the dispatcher before it.
    ///
    /// An established connection is remembered and its peer joins those that wait
    /// for their queries. A failed outgoing connection is dialed again if an address
    /// was given. A new inbound session claims its batch; it is a violation where no
    /// batch is left or where the session waits already. A stream-start message on
    /// an outbound session is recorded in its measurement, and a finished outbound
    /// session is reported from it; either is a violation where the session was
    /// never opened. A failed session is passed on to be noted. Any other event is
    /// a violation, but for those that call for nothing: a new listen address, an
    /// incoming connection, a closed connection, data other than a stream-start
    /// message, and an inbound session that finished.
    pub open spec fn handled(
        self,
        after: Self,
        event: Event<P>,
        now: u64,
        outcome: Result<Reaction<P>, InvariantViolation>,
    ) -> bool {
        match event {
            Event::ConnectionEstablished { peer } => {
                &&& after.connected_in_the_past
                &&& after.dial == self.dial
                &&& after.feeder == self.feeder
                &&& after.measurements@ == self.measurements@
                &&& outcome matches Ok(Reaction::SendQueries(queries))
                &&& self.gate.peer_admitted(after.gate, peer, queries@)
            },
            Event::OutgoingConnectionError => {
                &&& after == self
                &&& outcome == Ok::<Reaction<P>, InvariantViolation>(
                    if self.dial {
                        Reaction::Dial
                    } else {
                        Reaction::Nothing
                    },
                )
            },
            Event::NewInboundSession { inbound_session_id: session } => {
                &&& after.connected_in_the_past == self.connected_in_the_past
                &&& after.dial == self.dial
                &&& after.gate == self.gate
                &&& after.measurements@ == self.measurements@
                &&& match outcome {
                    Ok(Reaction::Feed(actions)) => self.feeder.session_claimed(
                        after.feeder,
                        session,
                        Ok(actions),
                    ),
                    Err(violation) => self.feeder.session_claimed(
                        after.feeder,
                        session,
                        Err(violation),
                    ),
                    _ => false,
                }
            },
            Event::ReceivedData { outbound_session_id: session, start: Some(start) } => {
                &&& after.connected_in_the_past == self.connected_in_the_past
                &&& after.dial == self.dial
                &&& after.gate == self.gate
                &&& after.feeder == self.feeder
                &&& if self.measurements@.contains_key(session.value) {
                    &&& outcome == Ok::<Reaction<P>, InvariantViolation>(Reaction::Nothing)
                    &&& after.measurements@ == self.measurements@.insert(
                        session.value,
                        self.measurements@[session.value].with_first_message(now, start),
                    )
                } else {
                    &&& outcome == Err::<Reaction<P>, InvariantViolation>(
                        InvariantViolation::UnknownOutboundSession,
                    )
                    &&& after.measurements@ == self.measurements@
                }
            },
            Event::SessionFinishedSuccessfully {
                session_id: SessionId::OutboundSessionId(session),
            } => {
                &&& after == self
                &&& outcome == if self.measurements@.contains_key(session.value) {
                    Ok::<Reaction<P>, InvariantViolation>(
                        Reaction::Report(self.measurements@[session.value].summary_at(now)),
                    )
                } else {
                    Err::<Reaction<P>, InvariantViolation>(
                        InvariantViolation::UnknownOutboundSession,
                    )
                }
            },
            Event::SessionFailed { session_id: session, error } => {
                &&& after == self
                &&& outcome == Ok::<Reaction<P>, InvariantViolation>(
                    Reaction::SessionFailed { session_id: session, error },
                )
            },
            Event::Other => {
                &&& after == self
                &&& outcome == Err::<Reaction<P>, InvariantViolation>(
                    InvariantViolation::UnexpectedEvent,
                )
            },
            _ => {
                &&& after == self
                &&& outcome == Ok::<Reaction<P>, InvariantViolation>(Reaction::Nothing)
            },
        }
    }

    /// The dispatcher at the start of a run: no peer waits for its queries, no session is
    /// measured, and for each expected inbound session a batch of filler payloads
    /// is ready.
    pub fn new(config: Config) -> (dispatcher: Self)
        requires
            config.num_messages_per_session <= usize::MAX,
            config.message_size <= usize::MAX,
        ensures
            dispatcher.well_formed(),
            !dispatcher.connected_in_the_past,
            dispatcher.dial == config.dial,
            dispatcher.measurements@ == Map::<usize, OutboundSessionMeasurement>::empty(),
            dispatcher.gate.expected_connections == config.num_expected_connections,
            dispatcher.gate.queries_per_connection == config.num_queries_per_connection,
            dispatcher.gate.pending@ == Seq::<P>::empty(),
            dispatcher.feeder.start() == (InboundSessionStart {
                num_messages: config.num_messages_per_session,
                message_size: config.message_size,
            }),
            dispatcher.feeder.claimed() == Seq::<SlotModel>::empty(),
            dispatcher.feeder.unclaimed().len() == config.num_expected_inbound_sessions,
            forall|b: int|
                0 <= b < config.num_expected_inbound_sessions ==> (
                #[trigger] dispatcher.feeder.unclaimed()[b])@.len()
                    == config.num_messages_per_session,
            forall|b: int, m: int|
                0 <= b < config.num_expected_inbound_sessions && 0 <= m
                    < config.num_messages_per_session ==> (
                #[trigger] dispatcher.feeder.unclaimed()[b]@[m])@ == filler(
                    config.message_size as nat,
                ),
    {
        let batches = prepare_batches(
            config.num_expected_inbound_sessions,
            config.num_messages_per_session as usize,
            config.message_size as usize,
        );
        let start = InboundSessionStart {
            num_messages: config.num_messages_per_session,
            message_size: config.message_size,
        };
        Dispatcher {
            gate: ConnectionGate::new(
                config.num_expected_connections,
                config.num_queries_per_connection,
            ),
            feeder: InboundFeeder::new(start, batches),
            measurements: HashMap::new(),
            connected_in_the_past: false,
            dial: config.dial,
        }
    }

    /// Whether to dial: only a node that was given an address does.
    pub fn dial_if_requested(&self) -> (reaction: Reaction<P>)
        ensures
            reaction == if self.dial {
                Reaction::<P>::Dial
            } else {
                Reaction::<P>::Nothing
            },
    {
        if self.dial {
            Reaction::Dial
        } else {
            Reaction::Nothing
        }
    }

    /// A query was sent at `now` and opened `session`: its measurement starts.
    pub fn outbound_session_opened(&mut self, session: OutboundSessionId, now: u64)
        requires
            old(self).well_formed(),
        ensures
            final(self).well_formed(),
            final(self).measurements@ == old(self).measurements@.insert(
                session.value,
                OutboundSessionMeasurement::new_at(now),
            ),
            final(self).measurements@.dom() == old(self).measurements@.dom().insert(session.value),
            final(self).gate == old(self).gate,
            final(self).feeder == old(self).feeder,
            final(self).connected_in_the_past == old(self).connected_in_the_past,
            final(self).dial == old(self).dial,
    {
        self.measurements.insert(session.value, OutboundSessionMeasurement::new(now));
        proof {
            assert(self.measurements@.dom() =~= old(self).measurements@.dom().insert(
                session.value,
            ));
        }
    }

    /// The outcome of a query, sent at `now`. A query that opened a session starts
    /// the measurement of that session. A query that was refused, because there
    /// is no connection to its peer, is a violation and changes nothing.
    pub fn query_sent(&mut self, opened: Option<OutboundSessionId>, now: u64) -> (outcome: Result<
        (),
        InvariantViolation,
    >)
        requires
            old(self).well_formed(),
        ensures
            final(self).well_formed(),
            final(self).gate == old(self).gate,
            final(self).feeder == old(self).feeder,
            final(self).connected_in_the_past == old(self).connected_in_the_past,
            final(self).dial == old(self).dial,
            match opened {
                Some(session) => {
                    &&& outcome == Ok::<(), InvariantViolation>(())
                    &&& final(self).measurements@ == old(self).measurements@.insert(
                        session.value,
                        OutboundSessionMeasurement::new_at(now),
                    )
                },
                None => {
                    &&& outcome == Err::<(), InvariantViolation>(
                        InvariantViolation::NoConnectionToPeer,
                    )
                    &&& final(self).measurements@ == old(self).measurements@
                },
            },
    {
        match opened {
            Some(session) => {
                self.outbound_session_opened(session, now);
                Ok(())
            },
            None => Err(InvariantViolation::NoConnectionToPeer),
        }
    }

    /// Whether the run is over: once a peer has ever connected, it ends as soon
    /// as no peer is connected any more.
    pub fn should_stop(&self, num_peers: usize) -> (stop: bool)
        ensures
            stop == (self.connected_in_the_past && num_peers == 0),
    {
        self.connected_in_the_past && num_peers == 0
    }

    /// Handles one event, read at `now`.
    pub fn handle(&mut self, event: Event<P>, now: u64) -> (outcome: Result<
        Reaction<P>,
        InvariantViolation,
    >)
        requires
            old(self).well_formed(),
        ensures
            final(self).well_formed(),
            old(self).handled(*final(self), event, now, outcome),
    {
        match event {
            Event::ConnectionEstablished { peer } => {
                self.connected_in_the_past = true;
                let queries = self.gate.create_outbound_sessions_if_all_peers_connected(peer);
                Ok(Reaction::SendQueries(queries))
            },
            Event::OutgoingConnectionError => Ok(self.dial_if_requested()),
            Event::NewInboundSession { inbound_session_id: session } => {
                match self.feeder.on_new_inbound_session(session) {
                    Ok(actions) => Ok(Reaction::Feed(actions)),
                    Err(violation) => Err(violation),
                }
            },
            Event::ReceivedData { outbound_session_id: session, start: Some(start) } => {
                let found = self.measurements.get(&session.value);
                match found {
                    Some(measurement) => {
                        let mut measurement: OutboundSessionMeasurement = *measurement;
                        measurement.report_first_message(now, start);
                        self.measurements.insert(session.value, measurement);
                        Ok(Reaction::Nothing)
                    },
                    None => Err(InvariantViolation::UnknownOutboundSession),
                }
            },
            Event::SessionFinishedSuccessfully {
                session_id: SessionId::OutboundSessionId(session),
            } => {
                match self.measurements.get(&session.value) {
                    Some(measurement) => Ok(Reaction::Report(measurement.summary(now))),
                    None => Err(InvariantViolation::UnknownOutboundSession),
                }
            },
            Event::SessionFailed { session_id: session, error } => Ok(
                Reaction::SessionFailed { session_id: session, error },
            ),
            Event::Other => Err(InvariantViolation::UnexpectedEvent),
            _ => Ok(Reaction::Nothing),
        }
    }
}

} // verus!
