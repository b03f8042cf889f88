//! Small data structures from the study notes that accompany the kernel.
pub mod ownership;
pub mod second;
pub mod self_test;
pub mod strong_and_weak;
pub mod test;
