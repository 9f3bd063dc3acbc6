//! Rendering of the representation as Lean text.
pub mod aborts;
pub mod base;
pub mod covers;
pub mod cpi;
pub mod environment;
pub mod guards;
pub mod indexed;
pub mod liveness;
pub mod multi;
pub mod overflow;
pub mod properties;
pub mod render;
pub mod sbpf;
pub mod scope;
pub mod structure;
pub mod subscript;
pub mod transition;
