//! The decision-dispatch core of a serverless-cluster simulator: a worker
//! that serves per-cycle decision requests one at a time, and the executor
//! that picks idle containers to scale a function down.

pub mod actions;
pub mod config;
pub mod fn_dag;
pub mod mechanism;
pub mod mechanism_thread;
pub mod node;
pub mod scale;
pub mod util;
