//! Datasets and backends for benchmarking inference servers, verified.
//!
//! - [`backends`]: the registry of custom backends.
//! - [`datasets`]: multi-turn conversations, generated at random or loaded from a ShareGPT
//!   dataset.
//! - [`run_mode`]: what a run of the program is to do.
//! - [`rng`], [`text`], [`tokenizer`], [`error`]: what these rest on.
//!
//! Reading files, running threads and talking to servers is left to the program around this
//! library.
pub mod backends;
pub mod datasets;
pub mod error;
pub mod rng;
pub mod run_mode;
pub mod text;
pub mod tokenizer;
