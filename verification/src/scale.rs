//! Executors that carry out scaling decisions.

pub mod down_exec;
