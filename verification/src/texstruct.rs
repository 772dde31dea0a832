//! Tex structures: macros, mathematical structures and proofs.
pub mod tex_logic;
