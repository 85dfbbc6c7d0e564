//! Custom backends.
pub mod registry;
