//! The system calls on files and on the address space.
pub mod fs;
pub mod memory;
