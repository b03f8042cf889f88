//! A verified model of the process, signal, file-descriptor and memory-mapping
//! logic of a small RISC-V teaching kernel, together with the small data
//! structures of its companion notes.
#![allow(non_snake_case)]

pub mod fs;
pub mod mm;
pub mod notes;
pub mod syscall;
pub mod task;
pub mod trap;
pub mod user;
