//! Data structures that several parts of the kernel share.

pub mod resource_table;
