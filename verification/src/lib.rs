//! Selects source repositories by declarative rules and turns their histories
//! into one time-ordered event log for a timeline renderer.
//!
//! The library decides and computes; it starts no process and touches no
//! file. Whoever uses it runs the commands it plans, hands back what came of
//! them, and stores what it returns.

pub mod check;
pub mod context;
pub mod gh;
pub mod github;
pub mod gource;
pub mod ignore;
pub mod pipeline;
pub mod process;
pub mod qsv;
pub mod rules;
pub mod sort;
pub mod text;

pub use context::{Cli, Context, OutputDir};
