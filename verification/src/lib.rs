//! Decision-policy runtime for a home-automation reminder scenario.
//!
//! The crate centres on an epsilon-greedy bandit ([`bandit::RemindBandit`])
//! that chooses a reminder time-slot for a given [`policy::Context`], learns
//! from reward feedback, and persists its learned state as a versioned JSON
//! contract ([`codec`]). Numeric state is held in an exact micro-unit
//! fixed-point representation ([`fixed::Fixed`]), so reward accumulation
//! never loses precision; only the wire format rounds. [`laws`] states and
//! proves the crate-wide guarantees: deterministic exploitation, a
//! snapshot/load round trip that preserves counts and averages, and that
//! malformed snapshots never touch live state. [`ingest`] validates event
//! domains and drives the ingest cursor protocol; [`feedback`] aggregates
//! decision outcomes exactly.

pub mod error;
pub mod fixed;
pub mod json;
pub mod policy;
pub mod bandit;
pub mod codec;
pub mod laws;
pub mod ingest;
pub mod feedback;
