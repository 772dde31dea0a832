//! The second macro parser.
pub mod texparser;
