//! Session orchestration and throughput measurement for a benchmark of a
//! peer-to-peer streamed-data protocol.
//!
//! The crate holds the decisions of the benchmark and none of its networking:
//! a driver feeds it the events it observed, together with a reading of a
//! monotonic clock, and carries out the actions it gets back.
//!
//! - [`gate`] holds back the peers until enough are connected, then opens the
//!   outbound sessions of all of them at once.
//! - [`feeder`] hands a prepared batch to each inbound session and feeds them all
//!   once the last expected one has arrived.
//! - [`measurement`] times an outbound session, and [`report`] writes its report.
//! - [`dispatcher`] routes each event to one of these and says when the run ends.
//! - [`size`] writes byte counts in binary units, with the numerals of [`text`].

pub mod dispatcher;
pub mod error;
pub mod feeder;
pub mod gate;
pub mod ids;
pub mod measurement;
pub mod report;
pub mod size;
pub mod text;
