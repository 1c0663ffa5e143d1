//! Adaptive search for a hidden 128-bit value behind a timing oracle.
//!
//! The crate holds the decision logic only: how a probe batch is framed,
//! how two series of round timings become a decision, and how decisions
//! move the pivot. Opening connections and taking time is left to the
//! caller, which feeds the controller one event per finished probe round.

pub mod config;
pub mod controller;
pub mod oracle;
pub mod report;
pub mod search;
pub mod wire;
