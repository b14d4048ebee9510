//! Display-state detection and reconciliation for a monitor daemon.
//!
//! The library snapshots nothing by itself: the caller hands it what the
//! windowing session reported, and gets back the topology snapshot, its
//! signature, the decision of the current poll cycle and the argument list
//! that reconciles the live outputs with a target layout.

pub mod cli;
pub mod db;
pub mod edid;
pub mod hook;
pub mod poll;
pub mod query_order;
pub mod rotation;
pub mod state;
pub mod text;
pub mod xrandr;
