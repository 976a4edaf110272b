use streamed_data_benchmark::feeder::InboundSessionStart;
use streamed_data_benchmark::measurement::{OutboundSessionMeasurement, SessionSummary, Throughput};
use streamed_data_benchmark::report::{
    byte_rate, message_rate, push_byte_rate, push_message_rate, push_seconds,
};
use streamed_data_benchmark::text::divide_rounded;

#[test]
fn report_of_a_session_without_messages() {
    assert_eq!(
        SessionSummary::NoMessages.lines(),
        vec!["An outbound session finished with no messages, skipping time measurements display"]
    );
}

#[test]
fn report_of_a_finished_session() {
    let summary = SessionSummary::Finished(Throughput {
        num_messages: 3,
        message_size: 10,
        total_bytes: 30,
        elapsed: 2_000_000_000,
        messages_elapsed: 1_500_000_000,
    });
    assert_eq!(
        summary.lines(),
        vec![
            "########## Outbound session finished ##########",
            "Session had 3 messages of size 10.00 B. In total 30.00 B",
            "Session took 2.000 seconds",
            "Message sending took 1.500 seconds",
            "---- Total session statistics ----",
            "1.50 messages/second",
            "15.00 B/second",
            "---- Message sending statistics ----",
            "2.00 messages/second",
            "20.00 B/second",
        ]
    );
}

#[test]
fn report_of_a_large_session() {
    let summary = SessionSummary::Finished(Throughput {
        num_messages: 1000,
        message_size: 1 << 20,
        total_bytes: 1000 << 20,
        elapsed: 4_000_000_000,
        messages_elapsed: 250_000_000,
    });
    let lines = summary.lines();
    assert_eq!(lines[1], "Session had 1000 messages of size 1.00 MB. In total 1000.00 MB");
    assert_eq!(lines[2], "Session took 4.000 seconds");
    assert_eq!(lines[3], "Message sending took 0.250 seconds");
    assert_eq!(lines[5], "250.00 messages/second");
    assert_eq!(lines[6], "250.00 MB/second");
    assert_eq!(lines[8], "4000.00 messages/second");
    assert_eq!(lines[9], "3.91 GB/second");
}

#[test]
fn no_time_passed_gives_no_rate() {
    let summary = SessionSummary::Finished(Throughput {
        num_messages: 1,
        message_size: 1,
        total_bytes: 1,
        elapsed: 0,
        messages_elapsed: 0,
    });
    let lines = summary.lines();
    assert_eq!(lines[2], "Session took 0.000 seconds");
    assert_eq!(lines[5], "inf messages/second");
    assert_eq!(lines[6], "inf TB/second");
}

#[test]
fn message_rates() {
    assert_eq!(message_rate(10, 0), None);
    assert_eq!(message_rate(10, 1_000_000_000), Some(1000));
    assert_eq!(message_rate(10, 4_000_000_000), Some(250));
    assert_eq!(message_rate(3, 8_000_000_000), Some(38));
    assert_eq!(message_rate(1, 3_000_000_000), Some(33));
    assert_eq!(message_rate(0, 5), Some(0));
    assert_eq!(message_rate(u64::MAX, 1), Some(u64::MAX as u128 * 100_000_000_000));
}

#[test]
fn byte_rates_keep_their_decimals() {
    assert_eq!(byte_rate(5, 0), None);
    assert_eq!(byte_rate(30, 8_000_000_000), Some((0, 375)));
    assert_eq!(byte_rate(1, 3_000_000_000), Some((0, 33)));
    assert_eq!(byte_rate(1023, 1_000_000_000), Some((0, 102300)));
    assert_eq!(byte_rate(1024, 1_000_000_000), Some((1, 100)));
    assert_eq!(byte_rate(1536, 1_000_000_000), Some((1, 150)));
    assert_eq!(byte_rate(1000, 3), Some((3, 31044)));
}

#[test]
fn byte_rates_are_finite_whenever_time_has_passed() {
    assert_eq!(byte_rate(1 << 100, 1_000_000_000), Some((4, 115292150460684697600)));
    assert_eq!(byte_rate(1 << 100, 1), Some((4, 115292150460684697600000000000)));
    assert_eq!(byte_rate(u128::MAX, 1), Some((4, 30948500982134506872478105600000000000)));
    let mut text = String::new();
    push_byte_rate(&mut text, u128::MAX, 1);
    assert_eq!(text, "309485009821345068724781056000000000.00 TB");
    let summary = SessionSummary::Finished(Throughput {
        num_messages: 1 << 50,
        message_size: 1 << 50,
        total_bytes: 1 << 100,
        elapsed: 1_000_000_000,
        messages_elapsed: 1,
    });
    let lines = summary.lines();
    assert_eq!(lines[6], "1152921504606846976.00 TB/second");
    assert_eq!(lines[9], "1152921504606846976000000000.00 TB/second");
}

#[test]
fn slow_session_shows_fractions_of_a_byte() {
    let summary = SessionSummary::Finished(Throughput {
        num_messages: 3,
        message_size: 10,
        total_bytes: 30,
        elapsed: 8_000_000_000,
        messages_elapsed: 4_000_000_000,
    });
    let lines = summary.lines();
    assert_eq!(lines[2], "Session took 8.000 seconds");
    assert_eq!(lines[5], "0.38 messages/second");
    assert_eq!(lines[6], "3.75 B/second");
    assert_eq!(lines[8], "0.75 messages/second");
    assert_eq!(lines[9], "7.50 B/second");
}

#[test]
fn byte_rate_agrees_with_floating_point_formatting() {
    let names = ["B", "KB", "MB", "GB"];
    for (bytes, nanos) in [
        (30u128, 8_000_000_000u64),
        (1, 3_000_000_000),
        (1000, 3),
        (123_456_789, 987_654_321),
        (5_000_000_000_000, 1_250_000_000),
        (77, 1),
        (1 << 40, 3_600_000_000_000),
    ] {
        let mut value = bytes as f64 / (nanos as f64 / 1e9);
        let mut expected = None;
        for name in names {
            if value < 1024.0 {
                expected = Some(format!("{:.2} {}", value, name));
                break;
            }
            value /= 1024.0;
        }
        let expected = expected.unwrap_or(format!("{:.2} TB", value));
        let mut text = String::new();
        push_byte_rate(&mut text, bytes, nanos);
        assert_eq!(text, expected);
    }
}

#[test]
fn rounded_division() {
    assert_eq!(divide_rounded(0, 7), 0);
    assert_eq!(divide_rounded(7, 2), 4);
    assert_eq!(divide_rounded(5, 2), 2);
    assert_eq!(divide_rounded(10, 4), 2);
    assert_eq!(divide_rounded(14, 4), 4);
    assert_eq!(divide_rounded(11, 4), 3);
    assert_eq!(divide_rounded(9, 4), 2);
    assert_eq!(divide_rounded(u128::MAX, 1), u128::MAX);
    assert_eq!(divide_rounded(u128::MAX, u128::MAX), 1);
    assert_eq!(divide_rounded(u128::MAX - 1, u128::MAX), 1);
    assert_eq!(divide_rounded(u128::MAX / 2, u128::MAX), 0);
}

#[test]
fn seconds_with_three_decimals() {
    let mut text = String::new();
    push_seconds(&mut text, 0);
    text.push(' ');
    push_seconds(&mut text, 1_234_567_890);
    text.push(' ');
    push_seconds(&mut text, 999_999);
    text.push(' ');
    push_seconds(&mut text, 500_000);
    text.push(' ');
    push_seconds(&mut text, 1_500_000);
    text.push(' ');
    push_seconds(&mut text, u64::MAX);
    assert_eq!(text, "0.000 1.235 0.001 0.000 0.002 18446744073.710");
}

#[test]
fn message_and_byte_rates() {
    let mut text = String::new();
    push_message_rate(&mut text, 7, 2_000_000_000);
    text.push(' ');
    push_message_rate(&mut text, u64::MAX, 1);
    text.push(' ');
    push_message_rate(&mut text, 5, 0);
    text.push(' ');
    push_byte_rate(&mut text, 3 << 20, 2_000_000_000);
    text.push(' ');
    push_byte_rate(&mut text, 5, 0);
    assert_eq!(text, "3.50 18446744073709551615000000000.00 inf 1.50 MB inf TB");
}

#[test]
fn measurement_prints_its_report() {
    let mut measurement = OutboundSessionMeasurement::new(1_000_000_000);
    assert_eq!(
        measurement.print(2_000_000_000),
        vec!["An outbound session finished with no messages, skipping time measurements display"]
    );
    let start = InboundSessionStart { num_messages: 3, message_size: 10 };
    measurement.report_first_message(1_500_000_000, start);
    assert_eq!(
        measurement.print(3_000_000_000),
        vec![
            "########## Outbound session finished ##########",
            "Session had 3 messages of size 10.00 B. In total 30.00 B",
            "Session took 2.000 seconds",
            "Message sending took 1.500 seconds",
            "---- Total session statistics ----",
            "1.50 messages/second",
            "15.00 B/second",
            "---- Message sending statistics ----",
            "2.00 messages/second",
            "20.00 B/second",
        ]
    );
}
