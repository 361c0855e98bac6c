//! Instrument-control core for an optical spectrum analyzer.
//!
//! The crate holds the stateful engine behind the analyzer's command
//! surface: spectrum buffering, peak/valley detection, synthetic curve
//! models, path rendering, frozen-trace retention, time-series trend
//! aggregation and the acquisition connection state machine.  All
//! physical quantities are carried as fixed-point integers in
//! thousandths of their unit (milli-nanometres for wavelengths,
//! milli-decibels for powers), so that every computation is exact and
//! deterministic.
pub mod curve;
pub mod detect;
pub mod errors;
pub mod export;
pub mod frozen;
pub mod handler;
pub mod link;
pub mod render;
pub mod spectrum;
pub mod timeseries;
