use streamed_data_benchmark::dispatcher::{Config, Dispatcher, Event, Reaction, SessionError};
use streamed_data_benchmark::error::InvariantViolation;
use streamed_data_benchmark::feeder::{FeedAction, InboundSessionStart};
use streamed_data_benchmark::gate::Query;
use streamed_data_benchmark::ids::{InboundSessionId, OutboundSessionId, SessionId};
use streamed_data_benchmark::measurement::{SessionSummary, Throughput};

fn config() -> Config {
    Config {
        dial: false,
        num_expected_inbound_sessions: 1,
        num_expected_connections: 1,
        num_queries_per_connection: 1,
        num_messages_per_session: 3,
        message_size: 10,
    }
}

#[test]
fn end_to_end_with_one_peer() {
    let mut dispatcher: Dispatcher<u32> = Dispatcher::new(config());
    assert!(!dispatcher.should_stop(0));

    let connected = dispatcher.handle(Event::ConnectionEstablished { peer: 77 }, 0);
    assert_eq!(connected, Ok(Reaction::SendQueries(vec![Query { peer: 77, number: 0 }])));
    dispatcher.outbound_session_opened(OutboundSessionId { value: 0 }, 5);
    assert_eq!(dispatcher.measurements.len(), 1);
    assert!(!dispatcher.should_stop(1));

    let session = InboundSessionId { value: 0 };
    let start = InboundSessionStart { num_messages: 3, message_size: 10 };
    let fed = dispatcher.handle(Event::NewInboundSession { inbound_session_id: session }, 10);
    assert_eq!(
        fed,
        Ok(Reaction::Feed(vec![
            FeedAction::Start { session, start },
            FeedAction::Content { session, payload: vec![1; 10] },
            FeedAction::Content { session, payload: vec![1; 10] },
            FeedAction::Content { session, payload: vec![1; 10] },
            FeedAction::Close { session },
        ]))
    );

    assert_eq!(dispatcher.handle(Event::ConnectionClosed, 20), Ok(Reaction::Nothing));
    assert!(dispatcher.should_stop(0));
}

#[test]
fn outbound_session_is_measured() {
    let mut dispatcher: Dispatcher<u32> = Dispatcher::new(config());
    let id = OutboundSessionId { value: 3 };
    dispatcher.outbound_session_opened(id, 1_000);
    let start = InboundSessionStart { num_messages: 4, message_size: 256 };
    let received = Event::ReceivedData { outbound_session_id: id, start: Some(start) };
    assert_eq!(dispatcher.handle(received, 3_000), Ok(Reaction::Nothing));
    let content = Event::ReceivedData { outbound_session_id: id, start: None };
    assert_eq!(dispatcher.handle(content, 3_500), Ok(Reaction::Nothing));
    let again = InboundSessionStart { num_messages: 9, message_size: 9 };
    let repeated = Event::ReceivedData { outbound_session_id: id, start: Some(again) };
    assert_eq!(dispatcher.handle(repeated, 4_000), Ok(Reaction::Nothing));
    let finished =
        Event::SessionFinishedSuccessfully { session_id: SessionId::OutboundSessionId(id) };
    assert_eq!(
        dispatcher.handle(finished, 11_000),
        Ok(Reaction::Report(SessionSummary::Finished(Throughput {
            num_messages: 4,
            message_size: 256,
            total_bytes: 1024,
            elapsed: 10_000,
            messages_elapsed: 8_000,
        })))
    );
    assert_eq!(dispatcher.measurements.len(), 1);
}

#[test]
fn session_that_got_no_data_reports_no_times() {
    let mut dispatcher: Dispatcher<u32> = Dispatcher::new(config());
    let id = OutboundSessionId { value: 1 };
    dispatcher.outbound_session_opened(id, 7);
    let finished =
        Event::SessionFinishedSuccessfully { session_id: SessionId::OutboundSessionId(id) };
    assert_eq!(dispatcher.handle(finished, 8), Ok(Reaction::Report(SessionSummary::NoMessages)));
}

#[test]
fn unknown_outbound_session_is_a_violation() {
    let mut dispatcher: Dispatcher<u32> = Dispatcher::new(config());
    let id = OutboundSessionId { value: 12 };
    let start = InboundSessionStart { num_messages: 1, message_size: 1 };
    let received = Event::ReceivedData { outbound_session_id: id, start: Some(start) };
    assert_eq!(dispatcher.handle(received, 1), Err(InvariantViolation::UnknownOutboundSession));
    let finished =
        Event::SessionFinishedSuccessfully { session_id: SessionId::OutboundSessionId(id) };
    assert_eq!(dispatcher.handle(finished, 2), Err(InvariantViolation::UnknownOutboundSession));
    let content = Event::ReceivedData { outbound_session_id: id, start: None };
    assert_eq!(dispatcher.handle(content, 3), Ok(Reaction::Nothing));
}

#[test]
fn unexpected_inbound_session_is_a_violation() {
    let mut dispatcher: Dispatcher<u32> = Dispatcher::new(config());
    let first = Event::NewInboundSession { inbound_session_id: InboundSessionId { value: 0 } };
    assert!(dispatcher.handle(first, 1).is_ok());
    let second = Event::NewInboundSession { inbound_session_id: InboundSessionId { value: 1 } };
    assert_eq!(dispatcher.handle(second, 2), Err(InvariantViolation::UnexpectedInboundSession));
}

#[test]
fn unexpected_event_is_a_violation() {
    let mut dispatcher: Dispatcher<u32> = Dispatcher::new(config());
    assert_eq!(dispatcher.handle(Event::Other, 1), Err(InvariantViolation::UnexpectedEvent));
}

#[test]
fn ignored_events() {
    let mut dispatcher: Dispatcher<u32> = Dispatcher::new(config());
    let inbound = SessionId::InboundSessionId(InboundSessionId { value: 4 });
    for event in [
        Event::NewListenAddr,
        Event::IncomingConnection,
        Event::ConnectionClosed,
        Event::SessionFinishedSuccessfully { session_id: inbound },
    ] {
        assert_eq!(dispatcher.handle(event, 1), Ok(Reaction::Nothing));
    }
    assert!(!dispatcher.connected_in_the_past);
    assert!(dispatcher.gate.pending.is_empty());
    assert_eq!(dispatcher.feeder.unclaimed_batches(), 1);
}

#[test]
fn failed_sessions_are_reported_and_nothing_else() {
    let mut dispatcher: Dispatcher<u32> = Dispatcher::new(config());
    let session_id = SessionId::OutboundSessionId(OutboundSessionId { value: 2 });
    for error in [SessionError::ConnectionClosed, SessionError::IOError] {
        assert_eq!(
            dispatcher.handle(Event::SessionFailed { session_id, error }, 1),
            Ok(Reaction::SessionFailed { session_id, error })
        );
    }
}

#[test]
fn redials_only_when_an_address_was_given() {
    let mut waiting: Dispatcher<u32> = Dispatcher::new(config());
    assert_eq!(waiting.dial_if_requested(), Reaction::Nothing);
    assert_eq!(waiting.handle(Event::OutgoingConnectionError, 1), Ok(Reaction::Nothing));
    let mut dialing: Dispatcher<u32> = Dispatcher::new(Config { dial: true, ..config() });
    assert_eq!(dialing.dial_if_requested(), Reaction::Dial);
    assert_eq!(dialing.handle(Event::OutgoingConnectionError, 1), Ok(Reaction::Dial));
}

#[test]
fn run_ends_when_the_last_peer_is_gone() {
    let mut dispatcher: Dispatcher<u32> = Dispatcher::new(Config {
        num_expected_connections: 2,
        ..config()
    });
    assert!(!dispatcher.should_stop(0));
    assert_eq!(
        dispatcher.handle(Event::ConnectionEstablished { peer: 1 }, 1),
        Ok(Reaction::SendQueries(vec![]))
    );
    assert!(!dispatcher.should_stop(1));
    assert!(!dispatcher.should_stop(2));
    assert!(dispatcher.should_stop(0));
}

#[test]
fn violations_have_a_diagnostic() {
    assert_eq!(
        InvariantViolation::UnexpectedInboundSession.message(),
        "There are more inbound sessions than expected"
    );
    assert_eq!(
        InvariantViolation::UnknownOutboundSession.message(),
        "Received an event on a non-existing outbound session"
    );
    assert_eq!(InvariantViolation::UnexpectedEvent.message(), "Unexpected event");
    assert_eq!(
        InvariantViolation::RepeatedInboundSession.message(),
        "An inbound session arrived twice"
    );
    assert_eq!(
        InvariantViolation::InboundSessionDisappeared.message(),
        "An inbound session dissappeared unexpectedly"
    );
    assert_eq!(
        InvariantViolation::NoConnectionToPeer.message(),
        "There's no connection to a peer immediately after we got a ConnectionEstablished event"
    );
}

#[test]
fn answered_query_starts_a_measurement() {
    let mut dispatcher: Dispatcher<u32> = Dispatcher::new(config());
    assert_eq!(dispatcher.query_sent(Some(OutboundSessionId { value: 8 }), 11), Ok(()));
    assert_eq!(dispatcher.measurements.len(), 1);
    assert_eq!(dispatcher.measurements[&8].start_time, 11);
    assert_eq!(dispatcher.measurements[&8].first_message_time, None);
}

#[test]
fn refused_query_is_a_violation() {
    let mut dispatcher: Dispatcher<u32> = Dispatcher::new(config());
    assert_eq!(dispatcher.query_sent(None, 11), Err(InvariantViolation::NoConnectionToPeer));
    assert!(dispatcher.measurements.is_empty());
}

#[test]
fn repeated_inbound_session_is_a_violation() {
    let mut dispatcher: Dispatcher<u32> = Dispatcher::new(Config {
        num_expected_inbound_sessions: 2,
        ..config()
    });
    let event = Event::NewInboundSession { inbound_session_id: InboundSessionId { value: 3 } };
    assert_eq!(dispatcher.handle(event, 1), Ok(Reaction::Feed(vec![])));
    assert_eq!(dispatcher.handle(event, 2), Err(InvariantViolation::RepeatedInboundSession));
    assert_eq!(dispatcher.feeder.unclaimed_batches(), 1);
}
