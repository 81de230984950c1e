//! Processes: their trap contexts, their control blocks, and the manager
//! that keeps them.

pub mod context;
pub mod manager;
pub mod process;
