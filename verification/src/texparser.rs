//! The macro parser.
pub mod texparser;
