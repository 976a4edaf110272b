//! The report of a finished outbound session, line by line.
//!
//! Times are shown in seconds with three decimals, rates with two, sizes in
//! binary units. Every figure is rounded to the nearest shown digit, a tie going
//! to the even neighbour.

use vstd::prelude::*;
use crate::measurement::{OutboundSessionMeasurement, SessionSummary, Throughput};
use vstd::arithmetic::div_mod::{
    lemma_fundamental_div_mod, lemma_fundamental_div_mod_converse, lemma_mod_pos_bound,
};
use crate::size::{
    fixed_point_text, pretty_size, pretty_size_text, push_unit_name, unit_bytes, LARGEST_UNIT,
};
use crate::text::{
    decimal_digits, digit_char, digit_to_char, divide_rounded, push_decimal, push_two_decimals,
    round_half_even, two_decimals_text,
};

verus! {

/// The nanoseconds in a second.
pub const NANOS_PER_SECOND: u128 = 1_000_000_000;

/// The nanoseconds in a thousandth of a second.
pub const NANOS_PER_MILLI: u128 = 1_000_000;

/// What turns an amount in a number of nanoseconds into hundredths in a second:
/// the hundredths of a whole times the nanoseconds of a second.
pub const RATE_SCALE: u128 = 100_000_000_000;

/// A time in seconds with three decimals.
pub open spec fn seconds_text(nanos: nat) -> Seq<char> {
    let millis = round_half_even(nanos, NANOS_PER_MILLI as nat);
    decimal_digits(millis / 1000) + seq![
        '.',
        digit_char((millis / 100) % 10),
        digit_char((millis / 10) % 10),
        digit_char(millis % 10),
    ]
}

/// A number of messages in a second with two decimals: the exact quotient of the
/// messages by the seconds, rounded to the nearest hundredth. Where no time has
/// passed there is no rate, and the text is `inf`.
pub open spec fn message_rate_text(messages: nat, nanos: nat) -> Seq<char> {
    if nanos == 0 {
        "inf"@
    } else {
        two_decimals_text(round_half_even(messages * RATE_SCALE as nat, nanos))
    }
}

/// The unit that a number of bytes in a second is shown in: the number of times
/// the exact quotient can be divided by 1024 while it is at least 1024, at most
/// four times.
pub open spec fn rate_unit(bytes: nat, nanos: nat) -> nat {
    if bytes * (NANOS_PER_SECOND as nat) < 1024 * nanos {
        0
    } else if bytes * (NANOS_PER_SECOND as nat) < 1_048_576 * nanos {
        1
    } else if bytes * (NANOS_PER_SECOND as nat) < 1_073_741_824 * nanos {
        2
    } else if bytes * (NANOS_PER_SECOND as nat) < 1_099_511_627_776 * nanos {
        3
    } else {
        4
    }
}

/// A number of bytes in a second in hundredths of its unit: the exact quotient of
/// the bytes by the seconds and by the bytes of the unit, rounded to the nearest
/// hundredth.
pub open spec fn rate_hundredths(bytes: nat, nanos: nat) -> nat {
    round_half_even(bytes * RATE_SCALE as nat, nanos * unit_bytes(rate_unit(bytes, nanos)))
}

/// A number of bytes in a second as a size with two decimals and its unit. Where
/// no time has passed there is no rate, and the text is `inf TB`.
pub open spec fn byte_rate_text(bytes: nat, nanos: nat) -> Seq<char> {
    if nanos == 0 {
        "inf TB"@
    } else {
        fixed_point_text(rate_hundredths(bytes, nanos), rate_unit(bytes, nanos))
    }
}

/// The one line of a session that finished without a stream-start message.
pub open spec fn no_messages_text() -> Seq<Seq<char>> {
    seq![
        "An outbound session finished with no messages, skipping time measurements display"@,
    ]
}

/// The ten lines of a session that received its stream-start message.
pub open spec fn throughput_text(t: Throughput) -> Seq<Seq<char>> {
    seq![
        "########## Outbound session finished ##########"@,
        "Session had "@ + decimal_digits(t.num_messages as nat) + " messages of size "@
            + pretty_size_text(t.message_size as nat) + ". In total "@ + pretty_size_text(
            t.total_bytes as nat,
        ),
        "Session took "@ + seconds_text(t.elapsed as nat) + " seconds"@,
        "Message sending took "@ + seconds_text(t.messages_elapsed as nat) + " seconds"@,
        "---- Total session statistics ----"@,
        message_rate_text(t.num_messages as nat, t.elapsed as nat) + " messages/second"@,
        byte_rate_text(t.total_bytes as nat, t.elapsed as nat) + "/second"@,
        "---- Message sending statistics ----"@,
        message_rate_text(t.num_messages as nat, t.messages_elapsed as nat) + " messages/second"@,
        byte_rate_text(t.total_bytes as nat, t.messages_elapsed as nat) + "/second"@,
    ]
}

/// The lines of a report.
pub open spec fn summary_text(summary: SessionSummary) -> Seq<Seq<char>> {
    match summary {
        SessionSummary::NoMessages => no_messages_text(),
        SessionSummary::Finished(t) => throughput_text(t),
    }
}

/// Whether the strings hold the given lines, one each.
pub open spec fn holds_lines(strings: Seq<String>, lines: Seq<Seq<char>>) -> bool {
    &&& strings.len() == lines.len()
    &&& forall|i: int| 0 <= i < strings.len() ==> (#[trigger] strings[i])@ == lines[i]
}

proof fn lemma_quotient_below(x: int, d: int, q: int, bound: int)
    requires
        d > 0,
        q * d <= x,
        x < bound * d,
    ensures
        q < bound,
{
    assert(q >= bound ==> q * d >= bound * d) by (nonlinear_arith)
        requires
            d > 0,
    ;
}

/// `amount * RATE_SCALE / den`, rounded half to even. The product may be beyond
/// 128 bits: the division goes in steps that are not.
fn scaled_rate(amount: u128, den: u128) -> (rate: u128)
    requires
        0 < den < 0x100_0000_0000_0000_0000_0000_0000,
        (amount as nat) * (RATE_SCALE as nat) < 0x2000_0000_0000_0000_0000_0000_0000_0000
            * (den as nat),
    ensures
        rate as nat == round_half_even(amount as nat * RATE_SCALE as nat, den as nat),
{
    let ghost a = amount as int;
    let ghost d = den as int;
    let ghost bound: int = 0x2000_0000_0000_0000_0000_0000_0000_0000;
    let q0: u128 = amount / den;
    let r0: u128 = amount % den;
    let t1: u128 = r0 * 1_000_000;
    let p1: u128 = t1 / den;
    let r1: u128 = t1 % den;
    proof {
        lemma_fundamental_div_mod(a, d);
        lemma_mod_pos_bound(a, d);
        lemma_fundamental_div_mod(t1 as int, d);
        lemma_mod_pos_bound(t1 as int, d);
        assert(a * 1_000_000 == (q0 * 1_000_000 + p1) * d + r1) by (nonlinear_arith)
            requires
                a == d * (q0 as int) + r0 as int,
                t1 as int == d * (p1 as int) + r1 as int,
                t1 == r0 * 1_000_000,
        ;
        assert(0 <= p1 * d) by (nonlinear_arith)
            requires
                0 <= p1,
                0 < d,
        ;
        lemma_quotient_below(a * 100_000_000_000, d, q0 * 1_000_000 + p1, bound);
    }
    let q1: u128 = q0 * 1_000_000 + p1;
    let t2: u128 = r1 * 100_000;
    let p2: u128 = t2 / den;
    let r2: u128 = t2 % den;
    proof {
        lemma_fundamental_div_mod(t2 as int, d);
        lemma_mod_pos_bound(t2 as int, d);
        assert(a * 100_000_000_000 == (q1 * 100_000 + p2) * d + r2) by (nonlinear_arith)
            requires
                a * 1_000_000 == q1 * d + r1,
                t2 as int == d * (p2 as int) + r2 as int,
                t2 == r1 * 100_000,
        ;
        lemma_quotient_below(a * 100_000_000_000, d, q1 * 100_000 + p2, bound);
        lemma_fundamental_div_mod_converse(a * 100_000_000_000, d, q1 * 100_000 + p2, r2 as int);
    }
    let below: u128 = q1 * 100_000 + p2;
    if r2 > den - r2 || (r2 == den - r2 && below % 2 == 1) {
        below + 1
    } else {
        below
    }
}

/// Whether `bytes` in a second's worth of nanoseconds stay below `limit`.
fn rate_is_below(bytes: u128, limit: u128) -> (below: bool)
    requires
        limit > 0,
    ensures
        below == ((bytes as nat) * (NANOS_PER_SECOND as nat) < limit as nat),
{
    proof {
        lemma_fundamental_div_mod(limit - 1, 1_000_000_000);
        lemma_mod_pos_bound(limit - 1, 1_000_000_000);
    }
    bytes <= (limit - 1) / 1_000_000_000
}

/// The unit of a number of bytes in a second, and the nanoseconds in which one
/// byte of that unit makes one unit in a second.
fn choose_rate_unit(bytes: u128, nanos: u64) -> (r: (u8, u128))
    requires
        nanos > 0,
    ensures
        r.0 as nat == rate_unit(bytes as nat, nanos as nat),
        r.0 <= LARGEST_UNIT,
        r.1 as nat == nanos as nat * unit_bytes(r.0 as nat),
        0 < r.1 < 0x100_0000_0000_0000_0000_0000_0000,
        (bytes as nat) * (RATE_SCALE as nat) < 0x2000_0000_0000_0000_0000_0000_0000_0000
            * (r.1 as nat),
{
    let n: u128 = nanos as u128;
    proof {
        assert(unit_bytes(0) == 1 && unit_bytes(1) == 1024 && unit_bytes(2) == 1_048_576
            && unit_bytes(3) == 1_073_741_824 && unit_bytes(4) == 1_099_511_627_776);
    }
    if rate_is_below(bytes, n * 1024) {
        (0, n)
    } else if rate_is_below(bytes, n * 1_048_576) {
        (1, n * 1024)
    } else if rate_is_below(bytes, n * 1_073_741_824) {
        (2, n * 1_048_576)
    } else if rate_is_below(bytes, n * 1_099_511_627_776) {
        (3, n * 1_073_741_824)
    } else {
        (LARGEST_UNIT, n * 1_099_511_627_776)
    }
}

/// The number of messages in a second, in hundredths; `None` where no time has passed.
pub fn message_rate(messages: u64, nanos: u64) -> (rate: Option<u128>)
    ensures
        rate.is_none() <==> nanos == 0,
        rate matches Some(hundredths) ==> hundredths as nat == round_half_even(
            messages as nat * RATE_SCALE as nat,
            nanos as nat,
        ),
{
    if nanos == 0 {
        None
    } else {
        Some(scaled_rate(messages as u128, nanos as u128))
    }
}

/// The number of bytes in a second: its unit, and the hundredths of that unit;
/// `None` where no time has passed.
pub fn byte_rate(bytes: u128, nanos: u64) -> (rate: Option<(u8, u128)>)
    ensures
        rate.is_none() <==> nanos == 0,
        rate matches Some((unit, hundredths)) ==> unit as nat == rate_unit(
            bytes as nat,
            nanos as nat,
        ) && hundredths as nat == rate_hundredths(bytes as nat, nanos as nat),
{
    if nanos == 0 {
        None
    } else {
        let (unit, den) = choose_rate_unit(bytes, nanos);
        Some((unit, scaled_rate(bytes, den)))
    }
}

/// Appends a time in seconds, with three decimals, to `out`.
pub fn push_seconds(out: &mut String, nanos: u64)
    ensures
        final(out)@ == old(out)@ + seconds_text(nanos as nat),
{
    let millis: u128 = divide_rounded(nanos as u128, NANOS_PER_MILLI);
    push_decimal(out, millis / 1000);
    out.push('.');
    out.push(digit_to_char(((millis / 100) % 10) as u8));
    out.push(digit_to_char(((millis / 10) % 10) as u8));
    out.push(digit_to_char((millis % 10) as u8));
    proof {
        assert(out@ =~= old(out)@ + seconds_text(nanos as nat));
    }
}

/// Appends a number of messages in a second to `out`.
pub fn push_message_rate(out: &mut String, messages: u64, nanos: u64)
    ensures
        final(out)@ == old(out)@ + message_rate_text(messages as nat, nanos as nat),
{
    match message_rate(messages, nanos) {
        Some(hundredths) => push_two_decimals(out, hundredths),
        None => out.push_str("inf"),
    }
}

/// Appends a number of bytes in a second to `out`.
pub fn push_byte_rate(out: &mut String, bytes: u128, nanos: u64)
    ensures
        final(out)@ == old(out)@ + byte_rate_text(bytes as nat, nanos as nat),
{
    match byte_rate(bytes, nanos) {
        Some((unit, hundredths)) => {
            push_two_decimals(out, hundredths);
            out.push(' ');
            push_unit_name(out, unit);
            proof {
                assert(out@ =~= old(out)@ + byte_rate_text(bytes as nat, nanos as nat));
            }
        },
        None => out.push_str("inf TB"),
    }
}

impl OutboundSessionMeasurement {
    /// The report of the session, finished at `now`, one string for each line.
    pub fn print(&self, now: u64) -> (lines: Vec<String>)
        requires
            self.well_formed(),
        ensures
            holds_lines(lines@, summary_text(self.summary_at(now))),
    {
        self.summary(now).lines()
    }
}

impl SessionSummary {
    /// The report, one string for each line.
    pub fn lines(&self) -> (lines: Vec<String>)
        ensures
            holds_lines(lines@, summary_text(*self)),
    {
        let mut lines: Vec<String> = Vec::new();
        match self {
            SessionSummary::NoMessages => {
                let mut only = String::new();
                only.push_str(
                    "An outbound session finished with no messages, skipping time measurements display",
                );
                assert(only@ =~= no_messages_text()[0]);
                lines.push(only);
            },
            SessionSummary::Finished(t) => {
                let ghost text = throughput_text(*t);
                let mut title = String::new();
                title.push_str("########## Outbound session finished ##########");
                assert(title@ =~= text[0]);
                lines.push(title);

                let mut sizes = String::new();
                sizes.push_str("Session had ");
                push_decimal(&mut sizes, t.num_messages as u128);
                sizes.push_str(" messages of size ");
                let one = pretty_size(t.message_size as u128);
                sizes.push_str(one.as_str());
                sizes.push_str(". In total ");
                let all = pretty_size(t.total_bytes);
                sizes.push_str(all.as_str());
                assert(sizes@ =~= text[1]);
                lines.push(sizes);

                let mut took = String::new();
                took.push_str("Session took ");
                push_seconds(&mut took, t.elapsed);
                took.push_str(" seconds");
                assert(took@ =~= text[2]);
                lines.push(took);

                let mut sending = String::new();
                sending.push_str("Message sending took ");
                push_seconds(&mut sending, t.messages_elapsed);
                sending.push_str(" seconds");
                assert(sending@ =~= text[3]);
                lines.push(sending);

                let mut total = String::new();
                total.push_str("---- Total session statistics ----");
                assert(total@ =~= text[4]);
                lines.push(total);

                let mut messages = String::new();
                push_message_rate(&mut messages, t.num_messages, t.elapsed);
                messages.push_str(" messages/second");
                assert(messages@ =~= text[5]);
                lines.push(messages);

                let mut bytes = String::new();
                push_byte_rate(&mut bytes, t.total_bytes, t.elapsed);
                bytes.push_str("/second");
                assert(bytes@ =~= text[6]);
                lines.push(bytes);

                let mut part = String::new();
                part.push_str("---- Message sending statistics ----");
                assert(part@ =~= text[7]);
                lines.push(part);

                let mut part_messages = String::new();
                push_message_rate(&mut part_messages, t.num_messages, t.messages_elapsed);
                part_messages.push_str(" messages/second");
                assert(part_messages@ =~= text[8]);
                lines.push(part_messages);

                let mut part_bytes = String::new();
                push_byte_rate(&mut part_bytes, t.total_bytes, t.messages_elapsed);
                part_bytes.push_str("/second");
                assert(part_bytes@ =~= text[9]);
                lines.push(part_bytes);
            },
        }
        lines
    }
}

} // verus!
