use streamed_data_benchmark::feeder::InboundSessionStart;
use streamed_data_benchmark::measurement::{elapsed, OutboundSessionMeasurement, SessionSummary, Throughput};

fn start(num_messages: u64, message_size: u64) -> InboundSessionStart {
    InboundSessionStart { num_messages, message_size }
}

#[test]
fn new_measurement_has_no_message() {
    let measurement = OutboundSessionMeasurement::new(42);
    assert_eq!(measurement.start_time, 42);
    assert_eq!(measurement.first_message_time, None);
    assert_eq!(measurement.num_messages, None);
    assert_eq!(measurement.message_size, None);
}

#[test]
fn first_message_sets_all_three_fields() {
    let mut measurement = OutboundSessionMeasurement::new(100);
    measurement.report_first_message(250, start(7, 64));
    assert_eq!(measurement.start_time, 100);
    assert_eq!(measurement.first_message_time, Some(250));
    assert_eq!(measurement.num_messages, Some(7));
    assert_eq!(measurement.message_size, Some(64));
}

#[test]
fn second_message_changes_nothing() {
    let mut measurement = OutboundSessionMeasurement::new(100);
    measurement.report_first_message(250, start(7, 64));
    let once = measurement;
    measurement.report_first_message(900, start(8, 1));
    assert_eq!(measurement, once);
}

#[test]
fn clock_read_out_of_order_is_recorded_as_read() {
    let mut measurement = OutboundSessionMeasurement::new(100);
    measurement.report_first_message(40, start(1, 1));
    assert_eq!(measurement.first_message_time, Some(40));
    assert_eq!(
        measurement.summary(90),
        SessionSummary::Finished(Throughput {
            num_messages: 1,
            message_size: 1,
            total_bytes: 1,
            elapsed: 0,
            messages_elapsed: 50,
        })
    );
}

#[test]
fn session_without_messages_has_no_times() {
    let measurement = OutboundSessionMeasurement::new(100);
    assert_eq!(measurement.summary(100), SessionSummary::NoMessages);
    assert_eq!(measurement.summary(5000), SessionSummary::NoMessages);
}

#[test]
fn summary_of_a_finished_session() {
    let mut measurement = OutboundSessionMeasurement::new(1_000);
    measurement.report_first_message(4_000, start(3, 10));
    assert_eq!(
        measurement.summary(10_000),
        SessionSummary::Finished(Throughput {
            num_messages: 3,
            message_size: 10,
            total_bytes: 30,
            elapsed: 9_000,
            messages_elapsed: 6_000,
        })
    );
}

#[test]
fn whole_session_takes_at_least_as_long_as_its_messages() {
    for (opened, first, finished) in [(0, 0, 0), (5, 9, 9), (5, 9, 100), (5, 5, 100), (50, 60, 10)] {
        let mut measurement = OutboundSessionMeasurement::new(opened);
        measurement.report_first_message(first, start(2, 2));
        match measurement.summary(finished) {
            SessionSummary::Finished(t) => assert!(t.elapsed >= t.messages_elapsed),
            SessionSummary::NoMessages => panic!("the session had a message"),
        }
    }
}

#[test]
fn total_bytes_do_not_overflow() {
    let mut measurement = OutboundSessionMeasurement::new(0);
    measurement.report_first_message(1, start(u64::MAX, u64::MAX));
    match measurement.summary(2) {
        SessionSummary::Finished(t) => {
            assert_eq!(t.total_bytes, (u64::MAX as u128) * (u64::MAX as u128))
        }
        SessionSummary::NoMessages => panic!("the session had a message"),
    }
}

#[test]
fn elapsed_time() {
    assert_eq!(elapsed(3, 10), 7);
    assert_eq!(elapsed(10, 10), 0);
    assert_eq!(elapsed(10, 3), 0);
    assert_eq!(elapsed(0, u64::MAX), u64::MAX);
}
