//! Mathematical-structure analysis of LaTeX documents: a character-level
//! macro parser, an environment tracker that collects theorems, proofs and
//! their references, the line cleaning used before parsing, the reading of
//! LaTeX auxiliary files and the rendering of the dependency graph.
pub mod strutil;
pub mod texstruct;
pub mod document;
pub mod envparser;
pub mod texparser;
pub mod texregex;
pub mod preprocessing;
pub mod auxparser;
pub mod visualize2;
pub mod visualize;
pub mod texparser2;
