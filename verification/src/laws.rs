//! What the results of the crate say of its inputs.
//!
//! Each law here names, letter by letter, what stands in a rendered text or in
//! a value, for all inputs.
pub mod assembly;
pub mod assembly_lists;
pub mod backends;
pub mod base;
pub mod claims;
pub mod constants;
pub mod files;
pub mod indexed;
pub mod lists;
pub mod lowering;
pub mod naming;
pub mod plain_sources;
pub mod profile;
pub mod reports;
pub mod schema;
pub mod shapes;
pub mod sidecars;
pub mod stands;
pub mod texts;
pub mod theorems;
pub mod transitions;
pub mod variants;
pub mod witnesses;
