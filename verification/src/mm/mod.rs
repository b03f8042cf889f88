//! The user address space of a task: its mapped pages and its stack.
pub mod memory_set;
