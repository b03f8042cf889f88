//! The file status record that `fstat` fills in, as user programs see it.
pub use crate::fs::{Stat, StatMode};
