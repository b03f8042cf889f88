//! The statistics of a task that user programs ask the kernel for.
use vstd::prelude::*;

verus! {

/// The number of system call ids that are counted.
pub const MAX_SYSCALL_NUM: usize = 512;

/// The state of a task, as user programs see it.
#[derive(Debug, Clone, Copy, PartialEq, Eq, Structural)]
pub enum TaskStatus {
    UnInit,
    Ready,
    Running,
    Exited,
}

/// How often a system call was made; an unused slot has id `usize::MAX`.
#[derive(Copy, Clone)]
pub struct SyscallInfo {
    pub id: usize,
    pub times: usize,
}

/// The id, state, system call counts and running time of a task.
pub struct TaskInfo {
    pub id: usize,
    pub status: TaskStatus,
    pub call: [SyscallInfo; MAX_SYSCALL_NUM],
    pub time: usize,
}

impl SyscallInfo {
    /// An unused slot.
    pub fn new() -> (s: Self)
        ensures
            s.id == usize::MAX,
            s.times == 0,
    {
        Self { id: usize::MAX, times: 0 }
    }
}

impl TaskInfo {
    /// The statistics of no task yet: id `usize::MAX`, not initialized,
    /// every system call slot unused, no time.
    pub fn new() -> (t: Self)
        ensures
            t.id == usize::MAX,
            t.status == TaskStatus::UnInit,
            forall|i: int| 0 <= i < MAX_SYSCALL_NUM ==> (#[trigger] t.call[i]).id == usize::MAX && t.call[i].times == 0,
            t.time == 0,
    {
        Self {
            id: usize::MAX,
            status: TaskStatus::UnInit,
            call: [SyscallInfo::new(); MAX_SYSCALL_NUM],
            time: 0,
        }
    }
}

} // verus!
