//! What user programs share with the kernel: task statistics and file status.
pub mod fs;
pub mod task;
