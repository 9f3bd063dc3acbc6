//! Code generation and verification reports for program specs.
pub mod lakefile;
pub mod laws;
pub mod lean;
pub mod lean_gen_mir;
pub mod lower;
pub mod mir;
pub mod names;
pub mod number;
pub mod outside;
pub mod parsed;
pub mod pattern;
pub mod pinocchio_profile;
pub mod proptest_gen_mir;
pub mod search;
pub mod sidecars;
pub mod split;
pub mod text;
pub mod verify;
