//! Measurement and statistics engine of an internet connection quality test.
//!
//! The engine decides and computes; it performs no input or output itself.
//! Transfers, probes and timers are run by the caller, who reports what
//! happened and is told what to do next.
//!
//! Every quantity is an integer in a fixed unit: throughput in bits per
//! second, latency in microseconds, durations of a test in seconds, distances
//! in metres and shares in whole percent.
//!
//! - [`catalog`]: the measurement servers and their ranking by distance.
//! - [`throughput`]: the transfer streams of a phase and their aggregate rate.
//! - [`speedtest`]: one test from the choice of a server to its result.
//! - [`ping`]: a run of latency probes and its result.
//! - [`statistics`]: mean, median, extremes, deviation and jitter of samples.
//! - [`utils`]: validation, percentages, the quality score, wording of values.
//! - [`decimal`]: decimal notation, digit by digit.
//! - [`error`]: the errors that end a call.

pub mod catalog;
pub mod decimal;
pub mod error;
pub mod ping;
pub mod speedtest;
pub mod statistics;
pub mod throughput;
pub mod utils;
