//! Verified core of a device condition-reporting service.
//!
//! Remote sensing devices submit periodic condition reports encoded as a
//! compact flag string.  This crate holds the algorithmic heart of the
//! service: the wire-format codec, the severity classifier, the hourly
//! score aggregator, the 24-hour graph bucketer, the history filter and
//! the per-category trend ranker.  Storage, transport and authentication
//! are left to unverified collaborators, which hand the library plain
//! values (epoch seconds, strings, booleans) and consume the computed
//! summaries.

pub mod codec;
pub mod filter;
pub mod graph;
pub mod level;
pub mod record;
pub mod score;
pub mod trend;
