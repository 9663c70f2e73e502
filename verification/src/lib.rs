//! Bulk harvesting of forecasts for a reference set of locations.
//!
//! The crate holds the decisions of a harvest run and the shape of its
//! results; whoever drives it performs the waiting, the requests and the
//! writing.

pub mod forecast;
pub mod harvest;
pub mod laws;
pub mod location;
pub mod partition;
pub mod policy;
pub mod replay;
mod sequence;
pub mod snapshot;
