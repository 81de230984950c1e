//! Allocators for physical frames and identifiers.

pub mod frame_allocator;
pub mod identifier_allocator;
