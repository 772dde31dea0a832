//! The environment tracker.
pub mod texparser;
